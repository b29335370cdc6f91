//! From captured packets to flow work: link layers, IP and TCP headers, timestamps.
use crate::flows::{Address, FlowKey, PacketWork, WorkView};
use crate::reassembly::CaptureTime;
use etherparse::NetSlice::{Ipv4, Ipv6};
use etherparse::SlicedPacket;
use etherparse::TransportSlice::Tcp;
use pcap_parser::data::{get_packetdata, PacketData};
use pcap_parser::Linktype;
use vstd::prelude::*;
use vstd::string::StringExecFns;

verus! {

broadcast use vstd::std_specs::hash::group_hash_axioms;

pub const LINKTYPE_ETHERNET: i32 = 1;

pub const LINKTYPE_WIRESHARK_UPPER_PDU: i32 = 252;

pub const LINKTYPE_LINUX_SLL2: i32 = 276;

/// The field of an exported PDU with the name of a dissector table.
pub const EXPORTED_TABLE_NAME: u16 = 14;

/// The field of an exported PDU with a number in that table.
pub const EXPORTED_TABLE_NUMBER: u16 = 32;

pub const LINUX_SLL2_HEADER_LEN: usize = 20;

pub const ETHERTYPE_IPV4: u16 = 0x0800;

pub const ETHERTYPE_IPV6: u16 = 0x86dd;

/// What a captured frame carries, by layer.
#[derive(Debug)]
pub enum PacketLayer {
    L2(Vec<u8>),
    L3(u16, Vec<u8>),
    L4(u8, Vec<u8>),
    Unsupported(Vec<u8>),
}

/// The mathematical content of a `PacketLayer`.
pub enum LayerView {
    L2(Seq<u8>),
    L3(u16, Seq<u8>),
    L4(u8, Seq<u8>),
    Unsupported(Seq<u8>),
}

impl View for PacketLayer {
    type V = LayerView;

    open spec fn view(&self) -> LayerView {
        match self {
            PacketLayer::L2(data) => LayerView::L2(data@),
            PacketLayer::L3(protocol, data) => LayerView::L3(*protocol, data@),
            PacketLayer::L4(protocol, data) => LayerView::L4(*protocol, data@),
            PacketLayer::Unsupported(data) => LayerView::Unsupported(data@),
        }
    }
}

pub open spec fn layer_view(layer: Option<PacketLayer>) -> Option<LayerView> {
    match layer {
        Some(layer) => Some(layer@),
        None => None,
    }
}

/// What `pcap_parser::data::get_packetdata` finds in a frame.
pub uninterp spec fn packet_data(data: Seq<u8>, linktype: i32, captured_len: usize) -> Option<
    LayerView,
>;

/// The fields of an exported PDU from `at` on end well, one of them names a dissector table,
/// and the first number of a table that has at least four bytes has more. `named` and `size`
/// are what the fields ahead say.
pub open spec fn has_long_number(data: Seq<u8>, at: int, named: bool, size: Option<u16>) -> bool
    decreases data.len() - at,
{
    if at < 0 || at + 4 > data.len() {
        false
    } else {
        let kind = (data[at] * 256 + data[at + 1]) as u16;
        let len = (data[at + 2] * 256 + data[at + 3]) as u16;
        if kind == 0 && len == 0 {
            named && (size matches Some(bytes) && bytes != 4)
        } else if at + 4 + len > data.len() {
            false
        } else {
            has_long_number(
                data,
                at + 4 + len,
                named || kind == EXPORTED_TABLE_NAME,
                if size is None && kind == EXPORTED_TABLE_NUMBER && len >= 4 {
                    Some(len)
                } else {
                    size
                },
            )
        }
    }
}

/// Exported PDUs on which the protocol number cannot be read.
pub open spec fn is_unreadable(data: Seq<u8>, linktype: i32, captured_len: usize) -> bool {
    &&& linktype == LINKTYPE_WIRESHARK_UPPER_PDU
    &&& 0 < captured_len <= data.len()
    &&& has_long_number(data, 0, false, None)
}

/// `pcap_parser::data::get_packetdata`, its result copied out of the frame. It reads the
/// frame, the link type and the captured length, and nothing else. On an exported PDU it
/// expects the protocol number to have four bytes once it has at least four, and panics
/// where it has more: those frames stay out.
#[verifier::external_body]
fn link_layer(data: &[u8], linktype: i32, captured_len: usize) -> (layer: Option<PacketLayer>)
    requires
        !is_unreadable(data@, linktype, captured_len),
    ensures
        layer_view(layer) == packet_data(data@, linktype, captured_len),
{
    match get_packetdata(data, Linktype(linktype), captured_len) {
        Some(PacketData::L2(inner)) => Some(PacketLayer::L2(inner.to_vec())),
        Some(PacketData::L3(protocol, inner)) => Some(PacketLayer::L3(protocol, inner.to_vec())),
        Some(PacketData::L4(protocol, inner)) => Some(PacketLayer::L4(protocol, inner.to_vec())),
        Some(PacketData::Unsupported(inner)) => Some(PacketLayer::Unsupported(inner.to_vec())),
        None => None,
    }
}

/// The TCP header fields that flows are built from, and the payload.
#[derive(Debug)]
pub struct TcpParts {
    pub sport: u16,
    pub dport: u16,
    pub seq: u32,
    pub syn: bool,
    pub fin: bool,
    pub rst: bool,
    pub payload: Vec<u8>,
}

/// The source and destination address bytes of an IP header.
#[derive(Debug)]
pub enum Addresses {
    V4([u8; 4], [u8; 4]),
    V6([u8; 16], [u8; 16]),
}

impl View for Addresses {
    type V = (Seq<u8>, Seq<u8>);

    open spec fn view(&self) -> (Seq<u8>, Seq<u8>) {
        match self {
            Addresses::V4(src, dst) => (src@, dst@),
            Addresses::V6(src, dst) => (src@, dst@),
        }
    }
}

/// What a sliced packet tells of its network and transport layers: the addresses of an IP
/// header, and a TCP header.
#[derive(Debug)]
pub struct PacketParts {
    pub net: Option<Addresses>,
    pub tcp: Option<TcpParts>,
}

/// The mathematical content of `TcpParts`.
pub struct TcpView {
    pub sport: u16,
    pub dport: u16,
    pub seq: u32,
    pub syn: bool,
    pub fin: bool,
    pub rst: bool,
    pub payload: Seq<u8>,
}

/// The mathematical content of `PacketParts`.
pub struct PartsView {
    pub net: Option<(Seq<u8>, Seq<u8>)>,
    pub tcp: Option<TcpView>,
}

impl View for TcpParts {
    type V = TcpView;

    open spec fn view(&self) -> TcpView {
        TcpView {
            sport: self.sport,
            dport: self.dport,
            seq: self.seq,
            syn: self.syn,
            fin: self.fin,
            rst: self.rst,
            payload: self.payload@,
        }
    }
}

impl View for PacketParts {
    type V = PartsView;

    open spec fn view(&self) -> PartsView {
        PartsView {
            net: match self.net {
                Some(addresses) => Some(addresses@),
                None => None,
            },
            tcp: match self.tcp {
                Some(tcp) => Some(tcp@),
                None => None,
            },
        }
    }
}

pub open spec fn parts_view(parts: Result<PacketParts, String>) -> Result<PartsView, Seq<char>> {
    match parts {
        Ok(parts) => Ok(parts@),
        Err(text) => Err(text@),
    }
}

/// What `etherparse::SlicedPacket::from_ethernet` finds in a frame, or why it fails.
pub uninterp spec fn ethernet_parts(data: Seq<u8>) -> Result<PartsView, Seq<char>>;

/// What `etherparse::SlicedPacket::from_ip` finds in a packet, or why it fails.
pub uninterp spec fn ip_parts(data: Seq<u8>) -> Result<PartsView, Seq<char>>;

/// `etherparse::SlicedPacket::from_ethernet`, the IP addresses and the TCP header copied
/// out; an error comes as its debug text. It reads the frame and nothing else.
#[verifier::external_body]
fn slice_ethernet(data: &[u8]) -> (parts: Result<PacketParts, String>)
    ensures
        parts_view(parts) == ethernet_parts(data@),
{
    let sliced = SlicedPacket::from_ethernet(data).map_err(|e| format!("{e:?}"))?;
    Ok(PacketParts {
        net: match sliced.net {
            Some(Ipv4(ip)) => Some(Addresses::V4(ip.header().source(), ip.header().destination())),
            Some(Ipv6(ip)) => Some(Addresses::V6(ip.header().source(), ip.header().destination())),
            _ => None
        },
        tcp: match sliced.transport {
            Some(Tcp(t)) => Some(TcpParts { sport: t.source_port(), dport: t.destination_port(), seq: t.sequence_number(), syn: t.syn(), fin: t.fin(), rst: t.rst(), payload: t.payload().to_vec() }),
            _ => None
        }
    })
}

/// `etherparse::SlicedPacket::from_ip`, the IP addresses and the TCP header copied out; an
/// error comes as its debug text. It reads the packet and nothing else.
#[verifier::external_body]
fn slice_ip(data: &[u8]) -> (parts: Result<PacketParts, String>)
    ensures
        parts_view(parts) == ip_parts(data@),
{
    let sliced = SlicedPacket::from_ip(data).map_err(|e| format!("{e:?}"))?;
    Ok(PacketParts {
        net: match sliced.net {
            Some(Ipv4(ip)) => Some(Addresses::V4(ip.header().source(), ip.header().destination())),
            Some(Ipv6(ip)) => Some(Addresses::V6(ip.header().source(), ip.header().destination())),
            _ => None
        },
        tcp: match sliced.transport {
            Some(Tcp(t)) => Some(TcpParts { sport: t.source_port(), dport: t.destination_port(), seq: t.sequence_number(), syn: t.syn(), fin: t.fin(), rst: t.rst(), payload: t.payload().to_vec() }),
            _ => None
        }
    })
}

fn copied(bytes: &[u8]) -> (copy: Vec<u8>)
    ensures
        copy@ == bytes@,
{
    let mut copy: Vec<u8> = Vec::new();
    copy.extend_from_slice(bytes);
    assert(copy@ =~= bytes@);
    copy
}

/// The layer that a frame carries. The Linux cooked v2 header is read here; an exported PDU
/// without a readable protocol number carries none.
pub open spec fn decoded_layer(data: Seq<u8>, linktype: i32, captured_len: usize) -> Option<
    LayerView,
> {
    if is_unreadable(data, linktype, captured_len) {
        None
    } else if linktype != LINKTYPE_LINUX_SLL2 {
        packet_data(data, linktype, captured_len)
    } else if captured_len < LINUX_SLL2_HEADER_LEN || data.len() < captured_len {
        None
    } else {
        let payload = data.subrange(LINUX_SLL2_HEADER_LEN as int, captured_len as int);
        let hardware = data[8] * 256 + data[9];
        if hardware == 778 {
            Some(LayerView::L4(47, payload))
        } else if hardware == 803 || hardware == 824 {
            Some(LayerView::Unsupported(payload))
        } else {
            Some(LayerView::L3((data[0] * 256 + data[1]) as u16, payload))
        }
    }
}

fn number_is_long(data: &[u8]) -> (yes: bool)
    ensures
        yes == has_long_number(data@, 0, false, None),
{
    let total: usize = data.len();
    let mut at: usize = 0;
    let mut named: bool = false;
    let mut size: Option<u16> = None;
    while total - at >= 4
        invariant
            at <= total,
            total == data@.len(),
            has_long_number(data@, 0, false, None) == has_long_number(data@, at as int, named, size),
        decreases total - at,
    {
        let kind: u16 = data[at] as u16 * 256 + data[at + 1] as u16;
        let len: u16 = data[at + 2] as u16 * 256 + data[at + 3] as u16;
        if kind == 0 && len == 0 {
            return named && match size {
                Some(bytes) => bytes != 4,
                None => false,
            };
        }
        if total - at - 4 < len as usize {
            return false;
        }
        named = named || kind == EXPORTED_TABLE_NAME;
        if size.is_none() && kind == EXPORTED_TABLE_NUMBER && len >= 4 {
            size = Some(len);
        }
        at = at + 4 + len as usize;
    }
    false
}

/// Finds the layer that a captured frame carries.
pub fn decode_packet_data(data: &[u8], linktype: i32, captured_len: usize) -> (layer: Option<
    PacketLayer,
>)
    ensures
        layer_view(layer) == decoded_layer(data@, linktype, captured_len),
{
    if linktype == LINKTYPE_WIRESHARK_UPPER_PDU && 0 < captured_len && captured_len <= data.len()
        && number_is_long(data) {
        return None;
    }
    if linktype != LINKTYPE_LINUX_SLL2 {
        return link_layer(data, linktype, captured_len);
    }
    if captured_len < LINUX_SLL2_HEADER_LEN || data.len() < captured_len {
        return None;
    }
    let protocol: u16 = data[0] as u16 * 256 + data[1] as u16;
    let hardware_type: u16 = data[8] as u16 * 256 + data[9] as u16;
    let payload = copied(
        vstd::slice::slice_subrange(data, LINUX_SLL2_HEADER_LEN, captured_len),
    );
    if hardware_type == 778 {
        Some(PacketLayer::L4(47, payload))
    } else if hardware_type == 803 || hardware_type == 824 {
        Some(PacketLayer::Unsupported(payload))
    } else {
        Some(PacketLayer::L3(protocol, payload))
    }
}

/// The number that bytes spell, most significant first.
pub open spec fn big_endian(bytes: Seq<u8>) -> nat
    decreases bytes.len(),
{
    if bytes.len() == 0 {
        0
    } else {
        big_endian(bytes.drop_last()) * 256 + bytes.last() as nat
    }
}

/// The address that 4 or 16 bytes spell.
pub open spec fn address(bytes: Seq<u8>) -> Address {
    Address { v6: bytes.len() == 16, bits: big_endian(bytes) as u128 }
}

fn read_address(bytes: &[u8]) -> (found: Address)
    requires
        bytes@.len() == 4 || bytes@.len() == 16,
    ensures
        found == address(bytes@),
{
    let n: usize = bytes.len();
    let mut bits: u128 = 0;
    let mut i: usize = 0;
    while i < n
        invariant
            n == bytes@.len(),
            n == 4 || n == 16,
            0 <= i <= n,
            bits == big_endian(bytes@.take(i as int)),
            big_endian(bytes@.take(i as int)) < pow256(i as nat),
        decreases n - i,
    {
        proof {
            assert(bytes@.take(i + 1).drop_last() =~= bytes@.take(i as int));
            lemma_pow256(i as nat);
        }
        bits = bits * 256 + bytes[i] as u128;
        i += 1;
    }
    assert(bytes@.take(n as int) =~= bytes@);
    Address { v6: n == 16, bits }
}

pub open spec fn pow256(n: nat) -> nat
    decreases n,
{
    if n == 0 {
        1
    } else {
        pow256((n - 1) as nat) * 256
    }
}

proof fn lemma_pow256(n: nat)
    requires
        n < 16,
    ensures
        pow256(n) * 256 <= 0x1_0000_0000_0000_0000_0000_0000_0000_0000nat,
        pow256(n + 1) == pow256(n) * 256,
{
    reveal_with_fuel(pow256, 17);
}

/// The work that a TCP packet asks for: none off the filtered port, and none when it
/// carries nothing and neither opens nor closes its flow.
pub open spec fn work_of(
    parts: PartsView,
    port_filter: Option<u16>,
    index: u64,
    captured_at: CaptureTime,
) -> Option<WorkView> {
    match (parts.net, parts.tcp) {
        (Some((src, dst)), Some(tcp)) => {
            let off_port = match port_filter {
                Some(p) => tcp.sport != p && tcp.dport != p,
                None => false,
            };
            let ends_flow = tcp.fin || tcp.rst;
            if off_port || (tcp.payload.len() == 0 && !tcp.syn && !ends_flow) {
                None
            } else {
                Some(
                    WorkView {
                        index,
                        captured_at,
                        key: FlowKey {
                            src: address(src),
                            dst: address(dst),
                            sport: tcp.sport,
                            dport: tcp.dport,
                        },
                        seq: crate::reassembly::advance(
                            tcp.seq,
                            if tcp.syn {
                                1
                            } else {
                                0
                            },
                        ),
                        payload: tcp.payload,
                        starts_flow: tcp.syn,
                        ends_flow,
                    },
                )
            }
        },
        _ => None,
    }
}

pub open spec fn work_view(work: Option<PacketWork>) -> Option<WorkView> {
    match work {
        Some(work) => Some(work@),
        None => None,
    }
}

/// Turns a sliced TCP packet into flow work.
pub fn sliced_packet_to_work(
    parts: PacketParts,
    port_filter: Option<u16>,
    index: u64,
    captured_at: CaptureTime,
) -> (work: Option<PacketWork>)
    ensures
        work_view(work) == work_of(parts@, port_filter, index, captured_at),
{
    let addresses = match parts.net {
        Some(addresses) => addresses,
        None => {
            return None;
        },
    };
    let tcp = match parts.tcp {
        Some(tcp) => tcp,
        None => {
            return None;
        },
    };
    let (src, dst) = match addresses {
        Addresses::V4(src, dst) => (read_address(&src), read_address(&dst)),
        Addresses::V6(src, dst) => (read_address(&src), read_address(&dst)),
    };
    if let Some(p) = port_filter {
        if tcp.sport != p && tcp.dport != p {
            return None;
        }
    }
    let starts_flow: bool = tcp.syn;
    let ends_flow: bool = tcp.fin || tcp.rst;
    if tcp.payload.len() == 0 && !starts_flow && !ends_flow {
        return None;
    }
    let seq: u32 = if starts_flow {
        tcp.seq.wrapping_add(1)
    } else {
        tcp.seq
    };
    Some(
        PacketWork {
            index,
            captured_at,
            key: FlowKey { src, dst, sport: tcp.sport, dport: tcp.dport },
            seq,
            payload: tcp.payload,
            starts_flow,
            ends_flow,
        },
    )
}

/// What a packet of a given layer asks for, or why it could not be sliced.
pub open spec fn layer_work(
    layer: LayerView,
    port_filter: Option<u16>,
    index: u64,
    captured_at: CaptureTime,
) -> Result<Option<WorkView>, Seq<char>> {
    let sliced = match layer {
        LayerView::L2(data) => Some(ethernet_parts(data)),
        LayerView::L3(ethertype, data) => if ethertype == ETHERTYPE_IPV4 || ethertype
            == ETHERTYPE_IPV6 {
            Some(ip_parts(data))
        } else {
            None
        },
        _ => None,
    };
    match sliced {
        None => Ok(None),
        Some(Ok(parts)) => Ok(work_of(parts, port_filter, index, captured_at)),
        Some(Err(text)) => Err("parse: "@ + text),
    }
}

pub open spec fn work_result_view(result: Result<Option<PacketWork>, String>) -> Result<
    Option<WorkView>,
    Seq<char>,
> {
    match result {
        Ok(work) => Ok(work_view(work)),
        Err(text) => Err(text@),
    }
}

/// Slices a packet and turns it into flow work; only Ethernet frames and IP packets give any.
pub fn packet_to_work(
    packet: &PacketLayer,
    port_filter: Option<u16>,
    index: u64,
    captured_at: CaptureTime,
) -> (result: Result<Option<PacketWork>, String>)
    ensures
        work_result_view(result) == layer_work(packet@, port_filter, index, captured_at),
{
    let sliced = match packet {
        PacketLayer::L2(data) => slice_ethernet(data.as_slice()),
        PacketLayer::L3(ethertype, data) => {
            if *ethertype != ETHERTYPE_IPV4 && *ethertype != ETHERTYPE_IPV6 {
                return Ok(None);
            }
            slice_ip(data.as_slice())
        },
        _ => {
            return Ok(None);
        },
    };
    match sliced {
        Ok(parts) => Ok(sliced_packet_to_work(parts, port_filter, index, captured_at)),
        Err(text) => {
            let mut message = "parse: ".to_owned();
            message.append(text.as_str());
            Err(message)
        },
    }
}

} // verus!
