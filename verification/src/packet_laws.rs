//! What holds of captured packets: the flow they belong to and the time they were captured.
use crate::capture::{
    block_handled, packet_received, split_timestamp, swept, timestamp, CaptureBlock, InterfaceInfo,
    StateView,
};
use crate::flows::{Address, CaptureOptions, WorkView};
use crate::packets::{
    address, big_endian, decoded_layer, layer_work, pow256, work_of, LayerView, PartsView, TcpView,
};
use crate::reassembly::CaptureTime;
use vstd::prelude::*;

verus! {

proof fn lemma_spelled(bytes: Seq<u8>)
    ensures
        big_endian(bytes) < pow256(bytes.len()),
    decreases bytes.len(),
{
    if bytes.len() > 0 {
        lemma_spelled(bytes.drop_last());
    }
}

proof fn lemma_spelled_apart(a: Seq<u8>, b: Seq<u8>)
    requires
        a.len() == b.len(),
        big_endian(a) == big_endian(b),
    ensures
        a == b,
    decreases a.len(),
{
    if a.len() > 0 {
        lemma_spelled_apart(a.drop_last(), b.drop_last());
        assert(a =~= a.drop_last().push(a.last()));
        assert(b =~= b.drop_last().push(b.last()));
    } else {
        assert(a =~= b);
    }
}

/// An address is that of its bytes: no two addresses of four or sixteen bytes are the same,
/// and one of four bytes is the number that they spell.
pub proof fn law_addresses_are_told_apart(a: Seq<u8>, b: Seq<u8>)
    requires
        a.len() == 4 || a.len() == 16,
        b.len() == 4 || b.len() == 16,
    ensures
        address(a) == address(b) <==> a == b,
        a.len() == 4 ==> address(a) == (Address {
            v6: false,
            bits: (a[0] * 0x1000000 + a[1] * 0x10000 + a[2] * 0x100 + a[3]) as u128,
        }),
        a.len() == 16 ==> address(a).v6,
{
    lemma_spelled(a);
    lemma_spelled(b);
    reveal_with_fuel(pow256, 17);
    if address(a) == address(b) {
        assert(a.len() == b.len());
        lemma_spelled_apart(a, b);
    }
    if a.len() == 4 {
        reveal_with_fuel(big_endian, 5);
        assert(a.drop_last().drop_last().drop_last().drop_last().len() == 0);
    }
}

/// A packet asks for work where its net and TCP parts are there, one of its ports is the one
/// that is asked for, if any is, and it carries bytes or opens or closes its flow. The work
/// names the flow from source to target, and its bytes count from behind an opening.
pub proof fn law_packets_ask_for_their_flow(
    src: Seq<u8>,
    dst: Seq<u8>,
    tcp: TcpView,
    port: Option<u16>,
    index: u64,
    at: CaptureTime,
)
    ensures
        ({
            let work = work_of(PartsView { net: Some((src, dst)), tcp: Some(tcp) }, port, index, at);
            &&& work is Some <==> (port is None || tcp.sport == port->0 || tcp.dport == port->0) && (
            tcp.payload.len() > 0 || tcp.syn || tcp.fin || tcp.rst)
            &&& work matches Some(w) ==> {
                &&& w.key.src == address(src) && w.key.dst == address(dst)
                &&& w.key.sport == tcp.sport && w.key.dport == tcp.dport
                &&& w.payload == tcp.payload
                &&& w.index == index && w.captured_at == at
                &&& w.starts_flow == tcp.syn
                &&& w.ends_flow == (tcp.fin || tcp.rst)
                &&& !tcp.syn ==> w.seq == tcp.seq
                &&& tcp.syn && tcp.seq < u32::MAX ==> w.seq == tcp.seq + 1
                &&& tcp.syn && tcp.seq == u32::MAX ==> w.seq == 0
            }
        }),
        work_of(PartsView { net: None, tcp: Some(tcp) }, port, index, at) is None,
        work_of(PartsView { net: Some((src, dst)), tcp: None }, port, index, at) is None,
{
}

/// The time of a packet is its seconds and its fraction of one: in millionths, in billionths,
/// or in the units of its interface. A fraction of a second or more is refused.
pub proof fn law_times_are_read(seconds: u32, fraction: u32)
    ensures
        fraction < 1_000_000 ==> timestamp(seconds, fraction, 1_000_000) == Ok::<
            CaptureTime,
            crate::capture::TimestampError,
        >(CaptureTime { nanos: (seconds * 1_000_000_000 + fraction * 1_000) as u128 }),
        fraction < 1_000_000_000 ==> timestamp(seconds, fraction, 1_000_000_000) == Ok::<
            CaptureTime,
            crate::capture::TimestampError,
        >(CaptureTime { nanos: (seconds * 1_000_000_000 + fraction) as u128 }),
        fraction >= 1_000_000 ==> timestamp(seconds, fraction, 1_000_000) is Err,
        fraction >= 1_000_000_000 ==> timestamp(seconds, fraction, 1_000_000_000) is Err,
{
}

/// A count of units since the start is its seconds and the rest of them, with the offset of
/// the interface on top.
pub proof fn law_unit_counts_are_split(
    high: u32,
    low: u32,
    offset: u64,
    units: u64,
    seconds: u32,
    rest: u32,
)
    requires
        rest < units,
        high * 0x1_0000_0000 + low == seconds * units + rest,
        offset + seconds < 0x1_0000_0000,
    ensures
        split_timestamp(high, low, offset, units) == ((offset + seconds) as u32, rest),
{
    let ts = high * 0x1_0000_0000 + low;
    vstd::arithmetic::div_mod::lemma_fundamental_div_mod_converse(
        ts,
        units as int,
        seconds as int,
        rest as int,
    );
}

/// Idle flows are swept for the first packet, and then at most once a second; never where they
/// do not expire. The time of each packet is noted.
pub proof fn law_sweeps_are_a_second_apart(
    state: StateView,
    options: CaptureOptions,
    first: CaptureTime,
    second: CaptureTime,
)
    requires
        first.nanos <= second.nanos,
    ensures
        ({
            let (after, sweep) = swept(state, options, first);
            let (later, next) = swept(after, options, second);
            &&& options.idle_timeout.nanos == 0 ==> sweep is None && next is None
            &&& options.idle_timeout.nanos > 0 && state.last_idle_sweep is None ==> sweep == Some(
                first,
            )
            &&& options.idle_timeout.nanos > 0 && sweep is Some ==> (next == Some(second)
                <==> second.nanos - first.nanos >= 1_000_000_000)
            &&& sweep is Some && next is None ==> later.last_idle_sweep == Some(first)
            &&& after.last_capture_time == Some(first) && later.last_capture_time == Some(second)
            &&& after.losses == state.losses && after.next_packet_index == state.next_packet_index
        }),
{
}

/// A packet that cannot be read is a loss and is told about; one that asks for nothing changes
/// no count; and each that asks for work has the next number.
pub proof fn law_packets_are_numbered(
    state: StateView,
    options: CaptureOptions,
    data: Seq<u8>,
    linktype: i32,
    captured_len: usize,
    at: CaptureTime,
)
    requires
        state.losses < usize::MAX,
        state.next_packet_index < u64::MAX,
    ensures
        ({
            let (after, action) = packet_received(
                state,
                options,
                data,
                linktype,
                captured_len,
                at,
            );
            let layer = decoded_layer(data, linktype, captured_len);
            &&& after.losses == state.losses + (if action.warning is Some {
                1int
            } else {
                0
            })
            &&& after.next_packet_index == state.next_packet_index + (if action.work is Some {
                1int
            } else {
                0
            })
            &&& !(action.work is Some && action.warning is Some)
            &&& layer is None ==> action.warning is Some
            &&& layer matches Some(LayerView::Unsupported(_)) ==> action.warning is Some
            &&& action.work matches Some(work) ==> layer is Some && layer_work(
                layer->0,
                options.port_filter,
                state.next_packet_index,
                at,
            ) == Ok::<Option<WorkView>, Seq<char>>(Some(work)) && work.index
                == state.next_packet_index && work.captured_at == at
            &&& after.interfaces == state.interfaces
        }),
{
}

/// A packet of an interface is read with the link type and the clock of that interface; one of
/// an interface that was not described is a loss.
pub proof fn law_packets_use_their_interface(
    state: StateView,
    options: CaptureOptions,
    block: CaptureBlock,
    interface: InterfaceInfo,
    seconds: u32,
    rest: u32,
)
    requires
        block is EnhancedPacket,
        state.interfaces.contains_key(block->EnhancedPacket_if_id),
        state.interfaces[block->EnhancedPacket_if_id] == interface,
        rest < interface.timestamp_resolution,
        block->ts_high * 0x1_0000_0000 + block->ts_low == seconds * interface.timestamp_resolution
            + rest,
        interface.timestamp_offset + seconds < 0x1_0000_0000,
        interface.timestamp_resolution == 1_000_000,
    ensures
        block_handled(state, options, block) == Ok::<
            (StateView, crate::capture::ActionView),
            crate::capture::TimestampError,
        >(
            packet_received(
                state,
                options,
                block->EnhancedPacket_data@,
                interface.linktype,
                block->EnhancedPacket_caplen as usize,
                CaptureTime {
                    nanos: ((interface.timestamp_offset + seconds) * 1_000_000_000 + rest
                        * 1_000) as u128,
                },
            ),
        ),
{
    law_unit_counts_are_split(
        block->ts_high,
        block->ts_low,
        interface.timestamp_offset,
        interface.timestamp_resolution,
        seconds,
        rest,
    );
    law_times_are_read((interface.timestamp_offset + seconds) as u32, rest);
}

} // verus!
