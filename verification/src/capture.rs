//! Reading a capture block by block: interfaces, timestamps, idle sweeps and losses.
use crate::flows::{CaptureOptions, PacketWork, WorkView};
use crate::packets::{
    decode_packet_data, decoded_layer, layer_work, packet_to_work, work_view, LayerView,
    PacketLayer, LINKTYPE_ETHERNET,
};
use crate::reassembly::CaptureTime;
use crate::text::{
    chars_of, decimal, hex_part, joined, lowered, parse_hex, parsed_hex, push_decimal,
    same_ignoring_case, strip_hex_prefix,
};
use std::collections::HashMap;
use vstd::arithmetic::power::pow;
use vstd::prelude::*;

verus! {

broadcast use vstd::std_specs::hash::group_hash_axioms;

/// A capture interface: its link type and how its timestamps count.
#[derive(Debug, Clone, Copy)]
pub struct InterfaceInfo {
    pub linktype: i32,
    pub timestamp_resolution: u64,
    pub timestamp_offset: u64,
}

/// What reading a capture remembers from block to block.
#[derive(Debug)]
pub struct CaptureState {
    pub legacy_linktype: Option<i32>,
    pub legacy_nanosecond_precision: bool,
    pub interfaces: HashMap<u32, InterfaceInfo>,
    pub next_if_id: u32,
    pub next_packet_index: u64,
    pub last_capture_time: Option<CaptureTime>,
    pub last_idle_sweep: Option<CaptureTime>,
    pub losses: usize,
}

/// The mathematical content of a `CaptureState`.
#[verifier::ext_equal]
pub struct StateView {
    pub legacy_linktype: Option<i32>,
    pub legacy_nanosecond_precision: bool,
    pub interfaces: Map<u32, InterfaceInfo>,
    pub next_if_id: u32,
    pub next_packet_index: u64,
    pub last_capture_time: Option<CaptureTime>,
    pub last_idle_sweep: Option<CaptureTime>,
    pub losses: usize,
}

impl View for CaptureState {
    type V = StateView;

    open spec fn view(&self) -> StateView {
        StateView {
            legacy_linktype: self.legacy_linktype,
            legacy_nanosecond_precision: self.legacy_nanosecond_precision,
            interfaces: self.interfaces@,
            next_if_id: self.next_if_id,
            next_packet_index: self.next_packet_index,
            last_capture_time: self.last_capture_time,
            last_idle_sweep: self.last_idle_sweep,
            losses: self.losses,
        }
    }
}

/// One block of a capture file, legacy or PCAPNG.
#[derive(Debug)]
pub enum CaptureBlock {
    LegacyHeader { linktype: i32, nanosecond_precision: bool },
    LegacyPacket { ts_sec: u32, ts_usec: u32, caplen: u32, data: Vec<u8> },
    SectionHeader,
    InterfaceDescription { linktype: i32, if_tsresol: u8, ts_offset: i64 },
    EnhancedPacket { if_id: u32, ts_high: u32, ts_low: u32, caplen: u32, data: Vec<u8> },
    SimplePacket { origlen: u32, data: Vec<u8> },
    Other,
}

/// What a block asks the reader to do: sweep idle flows, then hand a packet to its flow;
/// and what was lost.
#[derive(Debug)]
pub struct BlockAction {
    pub sweep: Option<CaptureTime>,
    pub work: Option<PacketWork>,
    pub warning: Option<String>,
}

/// The mathematical content of a `BlockAction`.
pub struct ActionView {
    pub sweep: Option<CaptureTime>,
    pub work: Option<WorkView>,
    pub warning: Option<Seq<char>>,
}

impl View for BlockAction {
    type V = ActionView;

    open spec fn view(&self) -> ActionView {
        ActionView {
            sweep: self.sweep,
            work: work_view(self.work),
            warning: crate::text::text_view(self.warning),
        }
    }
}

/// A timestamp whose fraction is not below its resolution.
#[derive(Debug, Clone, Copy, PartialEq, Eq, Structural)]
pub struct TimestampError {
    pub seconds: u32,
    pub fractional: u32,
    pub resolution: u64,
}

impl TimestampError {
    pub open spec fn text(self) -> Seq<char> {
        "invalid capture timestamp "@ + decimal(self.seconds as nat) + "+"@ + decimal(
            self.fractional as nat,
        ) + "/"@ + decimal(self.resolution as nat)
    }

    /// The text reported to the user.
    pub fn message(&self) -> (text: String)
        ensures
            text@ == self.text(),
    {
        let mut text = "invalid capture timestamp ".to_owned();
        push_decimal(&mut text, self.seconds as u64);
        text.append("+");
        push_decimal(&mut text, self.fractional as u64);
        text.append("/");
        push_decimal(&mut text, self.resolution);
        text
    }
}

/// The capture time of `seconds` and a fraction in units of `1 / resolution`.
pub open spec fn timestamp(seconds: u32, fractional: u32, resolution: u64) -> Result<
    CaptureTime,
    TimestampError,
> {
    if fractional >= resolution {
        Err(TimestampError { seconds, fractional, resolution })
    } else {
        Ok(
            CaptureTime {
                nanos: (seconds * 1_000_000_000 + fractional * 1_000_000_000
                    / resolution as int) as u128,
            },
        )
    }
}

/// Reads a capture timestamp; its fraction must be below the resolution.
pub fn capture_timestamp(seconds: u32, fractional: u32, resolution: u64) -> (time: Result<
    CaptureTime,
    TimestampError,
>)
    ensures
        time == timestamp(seconds, fractional, resolution),
{
    if resolution == 0 || fractional as u64 >= resolution {
        return Err(TimestampError { seconds, fractional, resolution });
    }
    let scaled: u64 = fractional as u64 * 1_000_000_000u64;
    proof {
        assert(0 <= fractional * 1_000_000_000 / resolution as int <= 1_000_000_000)
            by (nonlinear_arith)
            requires
                0 <= fractional < resolution,
        ;
    }
    let nanos: u32 = (scaled / resolution) as u32;
    Ok(CaptureTime::new(seconds as u64, nanos))
}

/// The seconds and the fraction that a 64-bit PCAPNG timestamp stands for, each kept to 32
/// bits; the interface's offset wraps around.
pub open spec fn split_timestamp(ts_high: u32, ts_low: u32, offset: u64, resolution: u64) -> (
    u32,
    u32,
) {
    let ts = ts_high * 0x1_0000_0000 + ts_low;
    (
        ((offset + ts / resolution as int) % 0x1_0000_0000) as u32,
        ((ts % resolution as int) % 0x1_0000_0000) as u32,
    )
}

fn decode_ts(ts_high: u32, ts_low: u32, offset: u64, resolution: u64) -> (split: (u32, u32))
    requires
        resolution > 0,
    ensures
        split == split_timestamp(ts_high, ts_low, offset, resolution),
{
    let ts: u64 = ts_high as u64 * 0x1_0000_0000u64 + ts_low as u64;
    let whole: u64 = ts / resolution;
    let seconds: u128 = offset as u128 + whole as u128;
    let fraction: u64 = ts % resolution;
    ((seconds % 0x1_0000_0000u128) as u32, (fraction % 0x1_0000_0000u64) as u32)
}

/// How many units of time a second has where an interface gives its resolution by this byte:
/// that power of ten. None beyond the largest one that fits.
pub open spec fn units_per_second(if_tsresol: u8) -> Option<u64> {
    if if_tsresol <= 19 {
        Some(pow(10, if_tsresol as nat) as u64)
    } else {
        None
    }
}

/// `pcap_parser::build_ts_resolution`: the power of ten that the byte names, up to the
/// nineteenth. It gives nothing for any larger byte: one with the top bit set stands for a
/// power of two, but is compared whole with the largest exponent and refused.
#[verifier::external_body]
fn ts_resolution(if_tsresol: u8) -> (resolution: Option<u64>)
    ensures
        resolution == units_per_second(if_tsresol),
{
    pcap_parser::build_ts_resolution(if_tsresol)
}

/// One second of capture time: idle sweeps are at least this far apart.
pub const IDLE_SWEEP_NANOS: u128 = 1_000_000_000;

/// Noting a packet's time: a sweep is due when idle flows expire at all and none was made
/// within the last second.
pub open spec fn swept(state: StateView, options: CaptureOptions, at: CaptureTime) -> (
    StateView,
    Option<CaptureTime>,
) {
    let noted = StateView { last_capture_time: Some(at), ..state };
    let due = options.idle_timeout.nanos != 0 && match state.last_idle_sweep {
        Some(last) => at.at_least_after(last, CaptureTime { nanos: IDLE_SWEEP_NANOS }),
        None => true,
    };
    if due {
        (StateView { last_idle_sweep: Some(at), ..noted }, Some(at))
    } else {
        (noted, None)
    }
}

/// Notes a packet's time and decides whether idle flows are to be swept now.
pub fn sweep_idle_flows(captured_at: CaptureTime, options: &CaptureOptions, state: &mut CaptureState)
    -> (sweep: Option<CaptureTime>)
    ensures
        (final(state)@, sweep) == swept(old(state)@, *options, captured_at),
{
    state.last_capture_time = Some(captured_at);
    if options.idle_timeout.nanos == 0 {
        return None;
    }
    let should_sweep: bool = match state.last_idle_sweep {
        Some(last) => captured_at.elapsed_since(last, CaptureTime { nanos: IDLE_SWEEP_NANOS }),
        None => true,
    };
    if should_sweep {
        state.last_idle_sweep = Some(captured_at);
        Some(captured_at)
    } else {
        None
    }
}

/// Counting one loss.
pub open spec fn lossy(state: StateView) -> StateView {
    StateView {
        losses: if state.losses < usize::MAX {
            (state.losses + 1) as usize
        } else {
            state.losses
        },
        ..state
    }
}

pub open spec fn warned(text: Seq<char>) -> Option<Seq<char>> {
    Some("warn: "@ + text)
}

/// Counts a loss and words its warning.
pub fn record_capture_loss(state: &mut CaptureState, warning: &str) -> (text: String)
    ensures
        final(state)@ == lossy(old(state)@),
        Some(text@) == warned(warning@),
{
    if state.losses < usize::MAX {
        state.losses = state.losses + 1;
    }
    joined("warn: ", warning)
}

/// What a captured packet does: an idle sweep may be due, an unreadable packet is a loss,
/// and a TCP packet of interest gets the next index.
pub open spec fn packet_received(
    state: StateView,
    options: CaptureOptions,
    data: Seq<u8>,
    linktype: i32,
    captured_len: usize,
    at: CaptureTime,
) -> (StateView, ActionView) {
    let (noted, sweep) = swept(state, options, at);
    match decoded_layer(data, linktype, captured_len) {
        None => (
            lossy(noted),
            ActionView {
                sweep,
                work: None,
                warning: warned("unsupported or truncated packet data"@),
            },
        ),
        Some(LayerView::Unsupported(_)) => (
            lossy(noted),
            ActionView {
                sweep,
                work: None,
                warning: warned("unsupported capture link type "@ + link_number(linktype)),
            },
        ),
        Some(layer) => match layer_work(layer, options.port_filter, noted.next_packet_index, at) {
            Ok(Some(work)) => (
                StateView {
                    next_packet_index: ((noted.next_packet_index + 1)
                        % 0x1_0000_0000_0000_0000) as u64,
                    ..noted
                },
                ActionView { sweep, work: Some(work), warning: None },
            ),
            Ok(None) => (noted, ActionView { sweep, work: None, warning: None }),
            Err(text) => (
                lossy(noted),
                ActionView { sweep, work: None, warning: warned("skipping packet: "@ + text) },
            ),
        },
    }
}

/// A link type in decimal, with its sign.
pub open spec fn link_number(linktype: i32) -> Seq<char> {
    if linktype < 0 {
        "-"@ + decimal((-linktype) as nat)
    } else {
        decimal(linktype as nat)
    }
}

fn link_text(linktype: i32) -> (text: String)
    ensures
        text@ == link_number(linktype),
{
    let mut text = String::new();
    if linktype < 0 {
        text.append("-");
        push_decimal(&mut text, (-(linktype as i64)) as u64);
        assert(text@ =~= link_number(linktype));
    } else {
        push_decimal(&mut text, linktype as u64);
        assert(text@ =~= link_number(linktype));
    }
    text
}

/// Takes one captured packet.
pub fn handle_packet_block(
    data: &[u8],
    linktype: i32,
    captured_len: usize,
    captured_at: CaptureTime,
    options: &CaptureOptions,
    state: &mut CaptureState,
) -> (action: BlockAction)
    ensures
        (final(state)@, action@) == packet_received(
            old(state)@,
            *options,
            data@,
            linktype,
            captured_len,
            captured_at,
        ),
{
    let sweep = sweep_idle_flows(captured_at, options, state);
    let packet = match decode_packet_data(data, linktype, captured_len) {
        Some(packet) => packet,
        None => {
            let warning = record_capture_loss(state, "unsupported or truncated packet data");
            return BlockAction { sweep, work: None, warning: Some(warning) };
        },
    };
    if let PacketLayer::Unsupported(_) = &packet {
        let text = joined("unsupported capture link type ", link_text(linktype).as_str());
        let warning = record_capture_loss(state, text.as_str());
        return BlockAction { sweep, work: None, warning: Some(warning) };
    }
    let index: u64 = state.next_packet_index;
    match packet_to_work(&packet, options.port_filter, index, captured_at) {
        Ok(Some(work)) => {
            state.next_packet_index = state.next_packet_index.wrapping_add(1);
            BlockAction { sweep, work: Some(work), warning: None }
        },
        Ok(None) => BlockAction { sweep, work: None, warning: None },
        Err(text) => {
            let text = joined("skipping packet: ", text.as_str());
            let warning = record_capture_loss(state, text.as_str());
            BlockAction { sweep, work: None, warning: Some(warning) }
        },
    }
}

pub open spec fn idle_action() -> ActionView {
    ActionView { sweep: None, work: None, warning: None }
}

/// What a block does to the state, and what it asks for.
pub open spec fn block_handled(state: StateView, options: CaptureOptions, block: CaptureBlock)
    -> Result<(StateView, ActionView), TimestampError> {
    match block {
        CaptureBlock::LegacyHeader { linktype, nanosecond_precision } => Ok(
            (
                StateView {
                    legacy_linktype: Some(linktype),
                    legacy_nanosecond_precision: nanosecond_precision,
                    ..state
                },
                idle_action(),
            ),
        ),
        CaptureBlock::LegacyPacket { ts_sec, ts_usec, caplen, data } => {
            let linktype = match state.legacy_linktype {
                Some(linktype) => linktype,
                None => LINKTYPE_ETHERNET,
            };
            let resolution = if state.legacy_nanosecond_precision {
                1_000_000_000u64
            } else {
                1_000_000u64
            };
            match timestamp(ts_sec, ts_usec, resolution) {
                Ok(at) => Ok(
                    packet_received(state, options, data@, linktype, caplen as usize, at),
                ),
                Err(error) => Err(error),
            }
        },
        CaptureBlock::SectionHeader => Ok(
            (StateView { interfaces: Map::empty(), next_if_id: 0, ..state }, idle_action()),
        ),
        CaptureBlock::InterfaceDescription { linktype, if_tsresol, ts_offset } => {
            let next_if_id = ((state.next_if_id + 1) % 0x1_0000_0000) as u32;
            match units_per_second(if_tsresol) {
                None => Ok(
                    (
                        StateView { next_if_id, ..lossy(state) },
                        ActionView {
                            sweep: None,
                            work: None,
                            warning: warned("invalid PCAPNG interface timestamp resolution"@),
                        },
                    ),
                ),
                Some(resolution) => Ok(
                    (
                        StateView {
                            interfaces: state.interfaces.insert(
                                state.next_if_id,
                                InterfaceInfo {
                                    linktype,
                                    timestamp_resolution: resolution,
                                    timestamp_offset: ts_offset as u64,
                                },
                            ),
                            next_if_id,
                            ..state
                        },
                        idle_action(),
                    ),
                ),
            }
        },
        CaptureBlock::EnhancedPacket { if_id, ts_high, ts_low, caplen, data } => {
            if !state.interfaces.contains_key(if_id) {
                Ok(
                    (
                        lossy(state),
                        ActionView {
                            sweep: None,
                            work: None,
                            warning: warned(
                                "PCAPNG packet references unknown interface "@ + decimal(
                                    if_id as nat,
                                ),
                            ),
                        },
                    ),
                )
            } else {
                let interface = state.interfaces[if_id];
                let resolution = interface.timestamp_resolution;
                if resolution == 0 {
                    Err(TimestampError { seconds: 0, fractional: 0, resolution })
                } else {
                    let (seconds, fractional) = split_timestamp(
                        ts_high,
                        ts_low,
                        interface.timestamp_offset,
                        resolution,
                    );
                    match timestamp(seconds, fractional, resolution) {
                        Ok(at) => Ok(
                            packet_received(
                                state,
                                options,
                                data@,
                                interface.linktype,
                                caplen as usize,
                                at,
                            ),
                        ),
                        Err(error) => Err(error),
                    }
                }
            }
        },
        CaptureBlock::SimplePacket { origlen, data } => {
            if !state.interfaces.contains_key(0) {
                Ok(
                    (
                        lossy(state),
                        ActionView {
                            sweep: None,
                            work: None,
                            warning: warned("PCAPNG simple packet has no interface description"@),
                        },
                    ),
                )
            } else {
                let at = match state.last_capture_time {
                    Some(at) => at,
                    None => CaptureTime { nanos: 0 },
                };
                Ok(
                    packet_received(
                        state,
                        options,
                        data@,
                        state.interfaces[0].linktype,
                        origlen as usize,
                        at,
                    ),
                )
            }
        },
        CaptureBlock::Other => Ok((state, idle_action())),
    }
}

impl CaptureState {
    pub fn new() -> (state: CaptureState)
        ensures
            state@ == (StateView {
                legacy_linktype: None,
                legacy_nanosecond_precision: false,
                interfaces: Map::empty(),
                next_if_id: 0,
                next_packet_index: 0,
                last_capture_time: None,
                last_idle_sweep: None,
                losses: 0,
            }),
    {
        CaptureState {
            legacy_linktype: None,
            legacy_nanosecond_precision: false,
            interfaces: HashMap::new(),
            next_if_id: 0,
            next_packet_index: 0,
            last_capture_time: None,
            last_idle_sweep: None,
            losses: 0,
        }
    }
}

fn nothing_to_do() -> (action: BlockAction)
    ensures
        action@ == idle_action(),
{
    BlockAction { sweep: None, work: None, warning: None }
}

/// A legacy capture block; the others are left to `handle_ng_block`.
pub fn handle_block(block: &CaptureBlock, options: &CaptureOptions, state: &mut CaptureState)
    -> (result: Result<BlockAction, TimestampError>)
    ensures
        match (block_handled(old(state)@, *options, *block), result) {
            (Ok((after, action)), Ok(done)) => final(state)@ == after && done@ == action,
            (Err(expected), Err(error)) => final(state)@ == old(state)@ && error == expected,
            _ => false,
        },
{
    match block {
        CaptureBlock::LegacyHeader { linktype, nanosecond_precision } => {
            state.legacy_linktype = Some(*linktype);
            state.legacy_nanosecond_precision = *nanosecond_precision;
            Ok(nothing_to_do())
        },
        CaptureBlock::LegacyPacket { ts_sec, ts_usec, caplen, data } => {
            let linktype: i32 = match state.legacy_linktype {
                Some(linktype) => linktype,
                None => LINKTYPE_ETHERNET,
            };
            let resolution: u64 = if state.legacy_nanosecond_precision {
                1_000_000_000
            } else {
                1_000_000
            };
            match capture_timestamp(*ts_sec, *ts_usec, resolution) {
                Ok(captured_at) => Ok(
                    handle_packet_block(
                        data.as_slice(),
                        linktype,
                        *caplen as usize,
                        captured_at,
                        options,
                        state,
                    ),
                ),
                Err(error) => Err(error),
            }
        },
        _ => handle_ng_block(block, options, state),
    }
}

/// A PCAPNG block.
pub fn handle_ng_block(block: &CaptureBlock, options: &CaptureOptions, state: &mut CaptureState)
    -> (result: Result<BlockAction, TimestampError>)
    requires
        !(block is LegacyHeader) && !(block is LegacyPacket),
    ensures
        match (block_handled(old(state)@, *options, *block), result) {
            (Ok((after, action)), Ok(done)) => final(state)@ == after && done@ == action,
            (Err(expected), Err(error)) => final(state)@ == old(state)@ && error == expected,
            _ => false,
        },
{
    match block {
        CaptureBlock::SectionHeader => {
            state.interfaces.clear();
            state.next_if_id = 0;
            Ok(nothing_to_do())
        },
        CaptureBlock::InterfaceDescription { linktype, if_tsresol, ts_offset } => {
            let timestamp_resolution: u64 = match ts_resolution(*if_tsresol) {
                Some(resolution) => resolution,
                None => {
                    let warning = record_capture_loss(
                        state,
                        "invalid PCAPNG interface timestamp resolution",
                    );
                    state.next_if_id = state.next_if_id.wrapping_add(1);
                    return Ok(BlockAction { sweep: None, work: None, warning: Some(warning) });
                },
            };
            state.interfaces.insert(
                state.next_if_id,
                InterfaceInfo {
                    linktype: *linktype,
                    timestamp_resolution,
                    timestamp_offset: *ts_offset as u64,
                },
            );
            state.next_if_id = state.next_if_id.wrapping_add(1);
            Ok(nothing_to_do())
        },
        CaptureBlock::EnhancedPacket { if_id, ts_high, ts_low, caplen, data } => {
            let found: Option<InterfaceInfo> = match state.interfaces.get(if_id) {
                Some(interface) => Some(*interface),
                None => None,
            };
            let interface = match found {
                Some(interface) => interface,
                None => {
                    let mut text = "PCAPNG packet references unknown interface ".to_owned();
                    push_decimal(&mut text, *if_id as u64);
                    let warning = record_capture_loss(state, text.as_str());
                    return Ok(BlockAction { sweep: None, work: None, warning: Some(warning) });
                },
            };
            let resolution: u64 = interface.timestamp_resolution;
            if resolution == 0 {
                return Err(TimestampError { seconds: 0, fractional: 0, resolution });
            }
            let (seconds, fractional) = decode_ts(
                *ts_high,
                *ts_low,
                interface.timestamp_offset,
                resolution,
            );
            match capture_timestamp(seconds, fractional, resolution) {
                Ok(captured_at) => Ok(
                    handle_packet_block(
                        data.as_slice(),
                        interface.linktype,
                        *caplen as usize,
                        captured_at,
                        options,
                        state,
                    ),
                ),
                Err(error) => Err(error),
            }
        },
        CaptureBlock::SimplePacket { origlen, data } => {
            let found: Option<InterfaceInfo> = match state.interfaces.get(&0) {
                Some(interface) => Some(*interface),
                None => None,
            };
            match found {
                Some(interface) => {
                    let captured_at = match state.last_capture_time {
                        Some(at) => at,
                        None => CaptureTime { nanos: 0 },
                    };
                    Ok(
                        handle_packet_block(
                            data.as_slice(),
                            interface.linktype,
                            *origlen as usize,
                            captured_at,
                            options,
                            state,
                        ),
                    )
                },
                None => {
                    let warning = record_capture_loss(
                        state,
                        "PCAPNG simple packet has no interface description",
                    );
                    Ok(BlockAction { sweep: None, work: None, warning: Some(warning) })
                },
            }
        },
        _ => Ok(nothing_to_do()),
    }
}

/// Why a delimiter is not accepted.
#[derive(Debug)]
pub enum DelimiterError {
    InvalidHex(String),
    NotOneByte,
}

impl DelimiterError {
    /// The text reported to the user.
    pub fn message(&self) -> (text: String)
        ensures
            text@ == match self {
                DelimiterError::InvalidHex(raw) => "invalid hex delimiter: "@ + raw@,
                DelimiterError::NotOneByte =>
                    "delimiter must be SOH, hex (\\x01), or single byte"@,
            },
    {
        match self {
            DelimiterError::InvalidHex(raw) => joined("invalid hex delimiter: ", raw.as_str()),
            DelimiterError::NotOneByte => "delimiter must be SOH, hex (\\x01), or single byte".to_owned(),
        }
    }
}

/// `raw` names the delimiter `SOH`, in any case.
pub open spec fn names_soh(raw: Seq<char>) -> bool {
    lowered(raw) == lowered("SOH"@)
}

/// Reads a one-byte delimiter: `SOH`, `\\x` or `0x` with hex digits, or the byte itself.
pub fn parse_delimiter(raw: &str) -> (delimiter: Result<u8, DelimiterError>)
    ensures
        match delimiter {
            Ok(d) => if names_soh(raw@) {
                d == 1
            } else {
                match hex_part(raw@) {
                    Some(hex) => parsed_hex(hex, 255) == Some(d as nat),
                    None => raw@.len() == 1 && '\u{80}' > raw@[0] && raw@[0] as u8 == d,
                }
            },
            Err(DelimiterError::InvalidHex(text)) => {
                &&& !names_soh(raw@)
                &&& text@ == raw@
                &&& hex_part(raw@) is Some
                &&& parsed_hex(hex_part(raw@)->0, 255) is None
            },
            Err(DelimiterError::NotOneByte) => {
                &&& !names_soh(raw@)
                &&& hex_part(raw@) is None
                &&& !(raw@.len() == 1 && '\u{80}' > raw@[0])
            },
        },
{
    if same_ignoring_case(raw, "SOH") {
        return Ok(0x01);
    }
    if let Some(hex) = strip_hex_prefix(raw) {
        return match parse_hex(hex.as_str(), 255) {
            Some(value) => Ok(value as u8),
            None => Err(DelimiterError::InvalidHex(raw.to_owned())),
        };
    }
    let chars = chars_of(raw);
    if chars.len() == 1 {
        let c: char = chars[0];
        if '\u{80}' > c {
            return Ok(c as u8);
        }
    }
    Err(DelimiterError::NotOneByte)
}

/// The limits that a capture run is started with.
#[derive(Debug, Clone, Copy, PartialEq, Eq, Structural)]
pub enum LimitError {
    MaxFlowBytes,
    MaxFlows,
    MaxTotalBytes,
}

impl LimitError {
    /// The text reported to the user.
    pub fn message(self) -> (text: &'static str)
        ensures
            text@ == match self {
                LimitError::MaxFlowBytes => "--max-flow-bytes must be greater than zero"@,
                LimitError::MaxFlows => "--max-flows must be greater than zero"@,
                LimitError::MaxTotalBytes => "--max-total-bytes must be greater than zero"@,
            },
    {
        match self {
            LimitError::MaxFlowBytes => "--max-flow-bytes must be greater than zero",
            LimitError::MaxFlows => "--max-flows must be greater than zero",
            LimitError::MaxTotalBytes => "--max-total-bytes must be greater than zero",
        }
    }
}

/// Checks that no limit is zero; the first that is decides the error.
pub fn check_limits(max_flow_bytes: usize, max_flows: usize, max_total_bytes: usize) -> (result:
    Result<(), LimitError>)
    ensures
        result == if max_flow_bytes == 0 {
            Err::<(), LimitError>(LimitError::MaxFlowBytes)
        } else if max_flows == 0 {
            Err(LimitError::MaxFlows)
        } else if max_total_bytes == 0 {
            Err(LimitError::MaxTotalBytes)
        } else {
            Ok(())
        },
{
    if max_flow_bytes == 0 {
        Err(LimitError::MaxFlowBytes)
    } else if max_flows == 0 {
        Err(LimitError::MaxFlows)
    } else if max_total_bytes == 0 {
        Err(LimitError::MaxTotalBytes)
    } else {
        Ok(())
    }
}

} // verus!
