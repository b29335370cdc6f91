use etherparse::PacketBuilder;
use fixdecoder::capture::{
    capture_timestamp, check_limits, handle_block, handle_ng_block, parse_delimiter,
    sweep_idle_flows, CaptureBlock, CaptureState, LimitError,
};
use fixdecoder::flows::{
    evict_idle_at, flush_remaining_flow_outputs, handle_packet_work, Address, BufferedFlowOutput,
    CaptureOptions, FlowKey, FlowTable, PacketWork, ResourceBudget,
};
use fixdecoder::framing::{
    find_message_end, flush_complete_messages, retain_partial_begin_string, MessageEnd,
};
use fixdecoder::ordering::{PacketResult, ResultQueue};
use fixdecoder::packets::{
    decode_packet_data, packet_to_work, PacketLayer, ETHERTYPE_IPV4, LINKTYPE_ETHERNET,
    LINKTYPE_LINUX_SLL2, LINKTYPE_WIRESHARK_UPPER_PDU, LINUX_SLL2_HEADER_LEN,
};
use fixdecoder::reassembly::{
    append_segment, reassemble_and_emit, store_future_segment, CaptureTime, FlowState,
};
use fixdecoder::shards::{capture_outcome, final_output, FlowShard, ShardCommand};
use std::collections::BTreeMap;

fn build_fix_message(body: &str, delim: u8) -> Vec<u8> {
    let mut msg = Vec::new();
    let d = delim as char;
    let body_len = body.len();
    msg.extend_from_slice(format!("8=FIX.4.4{d}9={body_len}{d}").as_bytes());
    msg.extend_from_slice(body.as_bytes());
    let checksum: u8 = msg.iter().fold(0u16, |acc, b| acc + *b as u16) as u8;
    msg.extend_from_slice(format!("10={:03}{}", checksum, d).as_bytes());
    msg
}

fn test_options(delimiter: u8, max_flow_bytes: usize, idle_timeout: CaptureTime) -> CaptureOptions {
    CaptureOptions {
        port_filter: None,
        delimiter,
        max_flow_bytes,
        idle_timeout,
    }
}

fn ipv4(a: u8, b: u8, c: u8, d: u8) -> Address {
    Address {
        v6: false,
        bits: u32::from_be_bytes([a, b, c, d]) as u128,
    }
}

fn test_flow_key(sport: u16) -> FlowKey {
    FlowKey {
        src: ipv4(10, 0, 0, 1),
        dst: ipv4(10, 0, 0, 2),
        sport,
        dport: 9876,
    }
}

fn test_packet_work(index: u64, key: FlowKey, seq: u32, payload: Vec<u8>) -> PacketWork {
    PacketWork {
        index,
        captured_at: CaptureTime::from_secs(index),
        key,
        seq,
        payload,
        starts_flow: false,
        ends_flow: false,
    }
}

#[test]
fn parse_delimiter_variants() {
    assert_eq!(parse_delimiter("SOH").unwrap(), 0x01);
    assert_eq!(parse_delimiter("\\x02").unwrap(), 0x02);
    assert_eq!(parse_delimiter("0x03").unwrap(), 0x03);
    assert_eq!(parse_delimiter("|").unwrap(), b'|');
}

#[test]
fn reassembly_appends_in_order() {
    let mut flow = FlowState::new(CaptureTime::zero());
    let mut out = Vec::new();
    let message = build_fix_message("35=0\u{0001}", 0x01);
    let (part1, rest) = message.split_at(10);
    let (part2, part3) = rest.split_at(8);

    reassemble_and_emit(&mut flow, 10, part1, 0x01, 1024, &mut out).unwrap();
    reassemble_and_emit(
        &mut flow,
        10 + part1.len() as u32,
        part2,
        0x01,
        1024,
        &mut out,
    )
    .unwrap();
    assert!(out.is_empty(), "no complete message yet");
    reassemble_and_emit(
        &mut flow,
        10 + (part1.len() + part2.len()) as u32,
        part3,
        0x01,
        1024,
        &mut out,
    )
    .unwrap();
    let text = String::from_utf8(out).unwrap();
    assert!(text.contains("8=FIX.4.4"));
    assert!(text.ends_with('\n'));
}

#[test]
fn flushes_full_messages_and_discards_non_fix_tail() {
    let mut buf = build_fix_message("35=0\u{0001}", 0x01);
    buf.extend_from_slice(b"extra");
    let mut out = Vec::new();
    let mut scratch = Vec::new();
    flush_complete_messages(&mut buf, 0x01, &mut scratch, &mut out);
    let mut expected = build_fix_message("35=0\u{0001}", 0x01);
    expected.push(b'\n');
    assert_eq!(out, expected);
    assert!(
        buf.is_empty(),
        "non-FIX tail should be discarded during resync"
    );
}

#[test]
fn retransmit_is_ignored() {
    let mut flow = FlowState::new(CaptureTime::zero());
    let mut out = Vec::new();
    let message = build_fix_message("35=0|49=AAA|", b'|');
    let part = &message[..10];

    reassemble_and_emit(&mut flow, 1, part, b'|', 1024, &mut out).unwrap();
    reassemble_and_emit(&mut flow, 1, part, b'|', 1024, &mut out).unwrap();

    assert_eq!(flow.buffer, part);
    assert!(
        out.is_empty(),
        "retransmits should not emit duplicate output"
    );
}

#[test]
fn out_of_order_future_segment_is_buffered_until_gap_arrives() {
    let mut flow = FlowState::new(CaptureTime::zero());
    let mut out = Vec::new();
    let message = build_fix_message("35=0|49=AAA|56=BBB|", b'|');
    let partial = &message[..message.len() - 4];
    let split1 = partial.len() / 3;
    let split2 = (partial.len() * 2) / 3;
    let part1 = &partial[..split1];
    let part2 = &partial[split1..split2];
    let part3 = &partial[split2..];

    reassemble_and_emit(&mut flow, 5, part1, b'|', 1024, &mut out).unwrap();
    reassemble_and_emit(&mut flow, 5 + split2 as u32, part3, b'|', 1024, &mut out).unwrap();
    assert_eq!(flow.buffer, part1);
    assert_eq!(
        flow.pending.get(&(5 + split2 as u32)).map(Vec::as_slice),
        Some(part3)
    );

    reassemble_and_emit(&mut flow, 5 + split1 as u32, part2, b'|', 1024, &mut out).unwrap();
    assert_eq!(flow.buffer, partial);
    assert!(
        flow.pending.is_empty(),
        "future segment should drain once the gap is filled"
    );
    assert!(out.is_empty(), "incomplete messages should stay buffered");
}

#[test]
fn out_of_order_segments_reassemble_across_sequence_wrap() {
    let mut flow = FlowState::new(CaptureTime::zero());
    let mut out = Vec::new();
    let message = build_fix_message("35=0|49=AAA|56=BBB|", b'|');
    let split1 = 8;
    let split2 = 24;
    let start = u32::MAX - 10;

    reassemble_and_emit(&mut flow, start, &message[..split1], b'|', 1024, &mut out).unwrap();
    reassemble_and_emit(
        &mut flow,
        start.wrapping_add(split2 as u32),
        &message[split2..],
        b'|',
        1024,
        &mut out,
    )
    .unwrap();
    reassemble_and_emit(
        &mut flow,
        start.wrapping_add(split1 as u32),
        &message[split1..split2],
        b'|',
        1024,
        &mut out,
    )
    .unwrap();

    let mut expected = message;
    expected.push(b'\n');
    assert_eq!(out, expected);
    assert!(flow.pending.is_empty());
}

#[test]
fn flush_complete_messages_emits_messages_and_discards_non_fix_tail() {
    let mut buf = Vec::new();
    let msg1 = build_fix_message("35=0|", b'|');
    let msg2 = build_fix_message("35=1|", b'|');
    buf.extend_from_slice(&msg1);
    buf.extend_from_slice(&msg2);
    buf.extend_from_slice(b"partial");
    let mut scratch = Vec::new();
    let mut out = Vec::new();
    flush_complete_messages(&mut buf, b'|', &mut scratch, &mut out);
    let expected_out = {
        let mut v = msg1.clone();
        v.push(b'\n');
        v.extend_from_slice(&msg2);
        v.push(b'\n');
        v
    };
    assert_eq!(out, expected_out);
    assert!(buf.is_empty(), "non-FIX trailing bytes should be discarded");
}

fn wide_options(delimiter: u8) -> (CaptureOptions, ResourceBudget) {
    (
        CaptureOptions {
            port_filter: Some(9876),
            delimiter,
            max_flow_bytes: 1024,
            idle_timeout: CaptureTime::zero(),
        },
        ResourceBudget::new(1024, 16 * 1024 * 1024),
    )
}

#[test]
fn ipv6_tcp_payload_is_reassembled() {
    let src = [0x20, 0x01, 0x0d, 0xb8, 0, 0, 0, 0, 0, 0, 0, 0, 0, 0, 0, 1];
    let dst = [0x20, 0x01, 0x0d, 0xb8, 0, 0, 0, 0, 0, 0, 0, 0, 0, 0, 0, 2];
    let payload = build_fix_message("35=0\u{0001}", 0x01);
    let builder = PacketBuilder::ipv6(src, dst, 32).tcp(7001, 9876, 42, 4096);
    let mut packet = Vec::with_capacity(builder.size(payload.len()));
    builder.write(&mut packet, &payload).unwrap();

    let layer = PacketLayer::L3(0x86dd, packet);
    let work = packet_to_work(&layer, Some(9876), 0, CaptureTime::zero())
        .unwrap()
        .expect("IPv6 packet should contain matching TCP payload");
    assert!(work.key.src.v6);
    let (options, mut budget) = wide_options(0x01);
    let mut flows = FlowTable::new();
    let mut scratch = Vec::new();
    let mut out = Vec::new();
    let warnings = handle_packet_work(
        &work,
        &options,
        &mut budget,
        &mut flows,
        &mut scratch,
        &mut out,
    );
    assert!(warnings.is_empty());

    let text = String::from_utf8(out).unwrap();
    assert!(text.contains("8=FIX.4.4"));
    assert!(text.ends_with('\n'));
}

#[test]
fn linux_cooked_v2_tcp_payload_is_decoded() {
    let payload = build_fix_message("35=0\u{0001}", 0x01);
    let builder = PacketBuilder::ipv4([10, 0, 0, 1], [10, 0, 0, 2], 32).tcp(7001, 9876, 42, 4096);
    let mut ip_packet = Vec::with_capacity(builder.size(payload.len()));
    builder.write(&mut ip_packet, &payload).unwrap();

    let mut cooked_packet = vec![0; LINUX_SLL2_HEADER_LEN];
    cooked_packet[0..2].copy_from_slice(&ETHERTYPE_IPV4.to_be_bytes());
    cooked_packet[8..10].copy_from_slice(&1u16.to_be_bytes());
    cooked_packet.extend_from_slice(&ip_packet);

    let packet =
        decode_packet_data(&cooked_packet, LINKTYPE_LINUX_SLL2, cooked_packet.len()).unwrap();
    let work = packet_to_work(&packet, Some(9876), 0, CaptureTime::zero())
        .unwrap()
        .expect("Linux cooked v2 packet should contain matching TCP payload");

    assert_eq!(work.key.sport, 7001);
    assert_eq!(work.key.dport, 9876);
    assert_eq!(work.payload, payload);
}

#[test]
fn flush_complete_messages_resynchronizes_after_leading_garbage() {
    let msg = build_fix_message("35=0|", b'|');
    let mut buf = b"garbage".to_vec();
    buf.extend_from_slice(&msg);
    let mut scratch = Vec::new();
    let mut out = Vec::new();

    flush_complete_messages(&mut buf, b'|', &mut scratch, &mut out);

    let mut expected = msg.clone();
    expected.push(b'\n');
    assert_eq!(out, expected);
    assert!(
        buf.is_empty(),
        "buffer should advance past garbage and message"
    );
}

#[test]
fn flush_complete_messages_skips_midstream_fragment_before_next_message() {
    let msg = build_fix_message("35=0|", b'|');
    let mut buf = b"35=0|49=AAA|".to_vec();
    buf.extend_from_slice(&msg);
    let mut scratch = Vec::new();
    let mut out = Vec::new();

    flush_complete_messages(&mut buf, b'|', &mut scratch, &mut out);

    let mut expected = msg.clone();
    expected.push(b'\n');
    assert_eq!(out, expected);
    assert!(
        buf.is_empty(),
        "midstream fragments should not block later messages"
    );
}

#[test]
fn flush_complete_messages_retains_partial_begin_string() {
    let mut buf = b"noise8=FI".to_vec();
    let mut scratch = Vec::new();
    let mut out = Vec::new();

    flush_complete_messages(&mut buf, b'|', &mut scratch, &mut out);

    assert!(out.is_empty());
    assert_eq!(buf, b"8=FI");
}

#[test]
fn parse_delimiter_rejects_invalid_values() {
    assert!(parse_delimiter("long").is_err());
    assert!(parse_delimiter("\\xGG").is_err());
}

#[test]
fn delimiter_errors_say_what_is_wrong() {
    assert_eq!(
        parse_delimiter("\\xGG").unwrap_err().message(),
        "invalid hex delimiter: \\xGG"
    );
    assert_eq!(
        parse_delimiter("long").unwrap_err().message(),
        "delimiter must be SOH, hex (\\x01), or single byte"
    );
}

#[test]
fn find_message_end_rejects_invalid_body_length_and_checksum_fields() {
    assert!(matches!(
        find_message_end(b"8=FIX.4.4|35=0|10=000|", b'|'),
        MessageEnd::Invalid
    ));
    assert!(matches!(
        find_message_end(b"8=FIX.4.4|9=abc|35=0|10=000|", b'|'),
        MessageEnd::Invalid
    ));
    assert!(matches!(
        find_message_end(b"8=FIX.4.4|9=4|35=0|10=xyz|", b'|'),
        MessageEnd::Invalid
    ));
    assert!(matches!(
        find_message_end(b"8=FIX.4.4|9=4|35=0|10=000!", b'|'),
        MessageEnd::Invalid
    ));
}

#[test]
fn message_end_is_the_last_byte_of_a_whole_message() {
    let msg = build_fix_message("35=0|", b'|');
    assert_eq!(
        find_message_end(&msg, b'|'),
        MessageEnd::Complete(msg.len() - 1)
    );
    assert_eq!(
        find_message_end(&msg[..msg.len() - 1], b'|'),
        MessageEnd::Incomplete
    );
}

#[test]
fn retain_partial_begin_string_clears_non_matching_tail() {
    let mut buf = b"trailing-noise".to_vec();
    retain_partial_begin_string(&mut buf);
    assert!(buf.is_empty());
}

#[test]
fn append_segment_trims_overlap_and_store_future_segment_prefers_longest() {
    let mut flow = FlowState {
        next_seq: Some(14),
        buffer: b"8=FIX.4.4|9=".to_vec(),
        pending: BTreeMap::new(),
        last_seen: CaptureTime::zero(),
    };

    append_segment(&mut flow, 12, b"9=5|35=0|");
    assert_eq!(flow.buffer, b"8=FIX.4.4|9=5|35=0|");

    store_future_segment(&mut flow, 30, b"short");
    store_future_segment(&mut flow, 30, b"longer-segment");
    assert_eq!(
        flow.pending.get(&30).map(Vec::as_slice),
        Some(&b"longer-segment"[..])
    );
}

#[test]
fn reassembly_overflow_clears_flow_state() {
    let mut flow = FlowState::new(CaptureTime::zero());
    let mut out = Vec::new();
    let err = reassemble_and_emit(&mut flow, 1, b"0123456789", b'|', 4, &mut out).unwrap_err();

    assert!(err.message().contains("flow exceeded max buffer"));
    assert!(flow.buffer.is_empty());
    assert!(flow.pending.is_empty());
    assert!(flow.next_seq.is_none());
}

#[test]
fn capture_timestamp_supports_microsecond_and_nanosecond_precision() {
    assert_eq!(
        capture_timestamp(10, 500_000, 1_000_000).unwrap(),
        CaptureTime::new(10, 500_000_000)
    );
    assert_eq!(
        capture_timestamp(10, 123_456_789, 1_000_000_000).unwrap(),
        CaptureTime::new(10, 123_456_789)
    );
    assert!(capture_timestamp(10, 1_000_000, 1_000_000).is_err());
}

#[test]
fn zero_idle_timeout_disables_eviction() {
    let key = test_flow_key(5000);
    let mut flows = FlowTable::new();
    flows.insert(key, FlowState::new(CaptureTime::zero()));
    let mut budget = ResourceBudget::new(1, 1024);
    budget.flows = 1;

    let losses = evict_idle_at(
        &mut flows,
        CaptureTime::zero(),
        CaptureTime::from_secs(3600),
        &mut budget,
    );

    assert_eq!(losses, 0);
    assert!(flows.contains_key(&key));
}

#[test]
fn syn_resets_reused_flow_without_losing_new_message() {
    let options = test_options(b'|', 1024, CaptureTime::from_secs(60));
    let mut budget = ResourceBudget::new(1024, 16 * 1024 * 1024);
    let key = test_flow_key(5000);
    let first = build_fix_message("35=0|49=FIRST|", b'|');
    let second = build_fix_message("35=1|49=SECOND|", b'|');
    let mut flows = FlowTable::new();
    let mut scratch = Vec::new();
    let mut out = Vec::new();

    let warnings = handle_packet_work(
        &test_packet_work(0, key, 100, first),
        &options,
        &mut budget,
        &mut flows,
        &mut scratch,
        &mut out,
    );
    assert!(warnings.is_empty());

    let mut reused = test_packet_work(1, key, 10, second);
    reused.starts_flow = true;
    let warnings = handle_packet_work(
        &reused,
        &options,
        &mut budget,
        &mut flows,
        &mut scratch,
        &mut out,
    );

    assert!(warnings.is_empty());
    let text = String::from_utf8(out).unwrap();
    assert!(text.contains("49=FIRST"));
    assert!(text.contains("49=SECOND"));
}

#[test]
fn resource_limits_report_loss_and_clear_excess_buffers() {
    let mut budget = ResourceBudget::new(1, 3);
    let options = test_options(b'|', 1024, CaptureTime::from_secs(60));
    let mut flows = FlowTable::new();
    let mut scratch = Vec::new();
    let mut out = Vec::new();

    let warnings = handle_packet_work(
        &test_packet_work(0, test_flow_key(5000), 1, b"8=FI".to_vec()),
        &options,
        &mut budget,
        &mut flows,
        &mut scratch,
        &mut out,
    );
    assert!(warnings
        .iter()
        .any(|warning| warning.contains("total buffer")));
    assert_eq!(budget.buffered_bytes, 0);

    let warnings = handle_packet_work(
        &test_packet_work(1, test_flow_key(5001), 1, b"8=FI".to_vec()),
        &options,
        &mut budget,
        &mut flows,
        &mut scratch,
        &mut out,
    );
    assert!(warnings
        .iter()
        .any(|warning| warning.contains("flow count")));
    assert_eq!(budget.flows, 1);
}

#[test]
fn evict_idle_drops_stale_flows() {
    let mut flows = FlowTable::new();
    flows.insert(
        FlowKey {
            src: ipv4(10, 0, 0, 1),
            dst: ipv4(10, 0, 0, 2),
            sport: 5000,
            dport: 5001,
        },
        FlowState {
            last_seen: CaptureTime::zero(),
            ..FlowState::new(CaptureTime::zero())
        },
    );
    flows.insert(
        FlowKey {
            src: ipv4(10, 0, 0, 3),
            dst: ipv4(10, 0, 0, 4),
            sport: 5002,
            dport: 5003,
        },
        FlowState::new(CaptureTime::from_secs(119)),
    );
    let mut budget = ResourceBudget::new(2, 1024);
    budget.flows = 2;

    evict_idle_at(
        &mut flows,
        CaptureTime::from_secs(60),
        CaptureTime::from_secs(120),
        &mut budget,
    );

    assert_eq!(flows.len(), 1);
    assert!(flows.entries.iter().any(|entry| entry.key.sport == 5002));
    assert_eq!(budget.flows, 1);
}

#[test]
fn sweep_idle_flows_dispatches_at_most_once_per_interval() {
    let mut state = CaptureState::new();
    let options = test_options(b'|', 1024, CaptureTime::from_secs(60));

    let first = sweep_idle_flows(CaptureTime::from_secs(1), &options, &mut state);
    assert!(first.is_some());
    let first_sweep = state
        .last_idle_sweep
        .expect("first idle sweep should record a timestamp");
    let second = sweep_idle_flows(CaptureTime::new(1, 500_000_000), &options, &mut state);
    assert!(second.is_none());
    assert_eq!(
        state.last_idle_sweep,
        Some(first_sweep),
        "repeated idle sweeps inside the throttle interval should be skipped"
    );
}

#[test]
fn flow_shard_pool_orders_results_by_packet_index() {
    let mut queue = ResultQueue::new();
    let mut out = Vec::new();
    let mut warnings = Vec::new();

    queue.record_result(
        PacketResult {
            index: 1,
            output: b"second\n".to_vec(),
            warnings: Vec::new(),
        },
        &mut out,
        &mut warnings,
    );
    assert!(
        out.is_empty(),
        "later packets should wait for earlier output"
    );

    queue.record_result(
        PacketResult {
            index: 0,
            output: b"first\n".to_vec(),
            warnings: Vec::new(),
        },
        &mut out,
        &mut warnings,
    );

    assert_eq!(out, b"first\nsecond\n");
    assert!(queue.pending.is_empty());
    assert_eq!(queue.next_output_index, 2);
}

#[test]
fn flush_remaining_flow_outputs_are_sorted_by_flow_key() {
    let msg_a = build_fix_message("35=0|49=AAA|", b'|');
    let msg_b = build_fix_message("35=1|49=BBB|", b'|');
    let key_a = FlowKey {
        src: ipv4(10, 0, 0, 1),
        dst: ipv4(10, 0, 0, 2),
        sport: 5000,
        dport: 5001,
    };
    let key_b = FlowKey {
        src: ipv4(10, 0, 0, 3),
        dst: ipv4(10, 0, 0, 4),
        sport: 5002,
        dport: 5003,
    };
    let mut flows = FlowTable::new();
    flows.insert(
        key_b,
        FlowState {
            buffer: msg_b.clone(),
            ..FlowState::new(CaptureTime::zero())
        },
    );
    flows.insert(
        key_a,
        FlowState {
            buffer: msg_a.clone(),
            ..FlowState::new(CaptureTime::zero())
        },
    );

    let mut scratch = Vec::new();
    let mut budget = ResourceBudget::new(2, 16 * 1024 * 1024);
    budget.flows = 2;
    budget.buffered_bytes = msg_a.len() + msg_b.len();
    let (outputs, losses) =
        flush_remaining_flow_outputs(&mut flows, b'|', &mut scratch, &mut budget);

    assert_eq!(flows.len(), 0, "all flow buffers should be drained");
    assert_eq!(losses, 0);
    assert_eq!(outputs.len(), 2);
    assert_eq!(outputs[0].key, key_a);
    assert_eq!(outputs[1].key, key_b);

    let expected_a = {
        let mut value = msg_a.clone();
        value.push(b'\n');
        value
    };
    let expected_b = {
        let mut value = msg_b.clone();
        value.push(b'\n');
        value
    };
    assert_eq!(outputs[0].output, expected_a);
    assert_eq!(outputs[1].output, expected_b);
}

// ---------------------------------------------------------------------------
// Whole captures

fn build_heartbeat(delim: u8) -> Vec<u8> {
    build_typed_message(delim, "0")
}

fn build_typed_message(delim: u8, message_type: &str) -> Vec<u8> {
    let d = delim as char;
    let body = format!("35={message_type}{d}");
    let body_len = body.len();
    let mut msg = format!("8=FIX.4.2{d}9={body_len}{d}{body}").into_bytes();
    let checksum: u8 = msg.iter().fold(0u16, |acc, b| acc + *b as u16) as u8;
    msg.extend_from_slice(format!("10={:03}{}", checksum, d).as_bytes());
    msg
}

/// One Ethernet/IPv4/TCP packet.
fn build_packet(payload: &[u8], seq: u32, flags: u8) -> Vec<u8> {
    let mut pkt = Vec::new();
    pkt.extend_from_slice(&[0, 1, 2, 3, 4, 5]);
    pkt.extend_from_slice(&[6, 7, 8, 9, 10, 11]);
    pkt.extend_from_slice(&[0x08, 0x00]);
    let total_len = 40u16 + payload.len() as u16;
    pkt.extend_from_slice(&[0x45, 0x00]);
    pkt.extend_from_slice(&total_len.to_be_bytes());
    pkt.extend_from_slice(&[0x00, 0x00]);
    pkt.extend_from_slice(&[0x40, 0x00]);
    pkt.extend_from_slice(&[64]);
    pkt.extend_from_slice(&[6]);
    pkt.extend_from_slice(&[0x00, 0x00]);
    pkt.extend_from_slice(&[10, 0, 0, 1]);
    pkt.extend_from_slice(&[10, 0, 0, 2]);
    pkt.extend_from_slice(&40000u16.to_be_bytes());
    pkt.extend_from_slice(&12083u16.to_be_bytes());
    pkt.extend_from_slice(&seq.to_be_bytes());
    pkt.extend_from_slice(&0u32.to_be_bytes());
    pkt.extend_from_slice(&[0x50, flags]);
    pkt.extend_from_slice(&0xffffu16.to_be_bytes());
    pkt.extend_from_slice(&[0x00, 0x00]);
    pkt.extend_from_slice(&[0x00, 0x00]);
    pkt.extend_from_slice(payload);
    pkt
}

struct Run {
    out: Vec<u8>,
    losses: usize,
    warnings: Vec<String>,
}

/// Runs a classic capture of timestamped TCP records through the library.
fn run_capture(records: &[(&[u8], u32, u32, u8)], idle_seconds: u64) -> Run {
    let options = CaptureOptions {
        port_filter: Some(12083),
        delimiter: 0x01,
        max_flow_bytes: 1024 * 1024,
        idle_timeout: CaptureTime::from_secs(idle_seconds),
    };
    let mut budget = ResourceBudget::new(1024, 16 * 1024 * 1024);
    let mut state = CaptureState::new();
    let mut flows = FlowTable::new();
    let mut scratch = Vec::new();
    let mut run = Run {
        out: Vec::new(),
        losses: 0,
        warnings: Vec::new(),
    };
    let header = CaptureBlock::LegacyHeader {
        linktype: LINKTYPE_ETHERNET,
        nanosecond_precision: false,
    };
    handle_block(&header, &options, &mut state).unwrap();
    for (payload, seq, timestamp, flags) in records {
        let data = build_packet(payload, *seq, *flags);
        let block = CaptureBlock::LegacyPacket {
            ts_sec: *timestamp,
            ts_usec: 0,
            caplen: data.len() as u32,
            data,
        };
        let action = handle_block(&block, &options, &mut state).unwrap();
        if let Some(now) = action.sweep {
            run.losses += evict_idle_at(&mut flows, options.idle_timeout, now, &mut budget);
        }
        if let Some(work) = action.work {
            let warnings = handle_packet_work(
                &work,
                &options,
                &mut budget,
                &mut flows,
                &mut scratch,
                &mut run.out,
            );
            run.losses += warnings.len();
            run.warnings.extend(warnings);
        }
        run.warnings.extend(action.warning);
    }
    let (outputs, losses) =
        flush_remaining_flow_outputs(&mut flows, 0x01, &mut scratch, &mut budget);
    for output in outputs {
        run.out.extend_from_slice(&output.output);
    }
    run.losses += losses + state.losses;
    run
}

#[test]
fn pcap_roundtrip_matches_expected_output() {
    let msg = build_heartbeat(0x01);
    let run = run_capture(&[(&msg, 1, 0, 0x18)], 60);
    let mut expected = msg.clone();
    expected.push(b'\n');
    assert_eq!(run.out, expected);
    assert_eq!(run.losses, 0);
}

#[test]
fn zero_idle_timeout_keeps_split_message_state() {
    let msg = build_heartbeat(0x01);
    let split = 17;
    let run = run_capture(
        &[
            (&msg[..split], 1, 1, 0x18),
            (&msg[split..], 1 + split as u32, 2, 0x18),
        ],
        0,
    );
    let mut expected = msg.clone();
    expected.push(b'\n');
    assert_eq!(run.out, expected);
}

#[test]
fn capture_time_gap_expires_reused_flow() {
    let first = build_heartbeat(0x01);
    let second = build_typed_message(0x01, "1");
    let run = run_capture(&[(&first, 100, 1, 0x18), (&second, 10, 3601, 0x18)], 60);
    let mut expected = first.clone();
    expected.push(b'\n');
    expected.extend_from_slice(&second);
    expected.push(b'\n');
    assert_eq!(run.out, expected);
}

#[test]
fn strict_mode_fails_on_incomplete_flow() {
    let msg = build_heartbeat(0x01);
    let run = run_capture(&[(&msg[..17], 1, 1, 0x18)], 60);
    assert!(run.out.is_empty());
    assert_eq!(run.losses, 1);
}

#[test]
fn fin_retires_and_reports_an_incomplete_flow() {
    let msg = build_heartbeat(0x01);
    let partial = &msg[..17];
    let run = run_capture(
        &[
            (partial, 1, 1, 0x18),
            (&[], 1 + partial.len() as u32, 2, 0x11),
        ],
        60,
    );
    assert!(run
        .warnings
        .iter()
        .any(|warning| warning.contains("FIN or RST closed an incomplete flow")));
}

// ---------------------------------------------------------------------------
// Further cases

#[test]
fn cuts_do_not_change_the_messages() {
    let mut stream = build_fix_message("35=0|", b'|');
    stream.extend_from_slice(b"noise");
    stream.extend_from_slice(&build_fix_message("35=1|58=x|", b'|'));
    let mut whole_out = Vec::new();
    let mut whole = stream.clone();
    flush_complete_messages(&mut whole, b'|', &mut Vec::new(), &mut whole_out);
    for cut in 0..stream.len() {
        let mut buf = stream[..cut].to_vec();
        let mut scratch = Vec::new();
        let mut out = Vec::new();
        flush_complete_messages(&mut buf, b'|', &mut scratch, &mut out);
        buf.extend_from_slice(&stream[cut..]);
        flush_complete_messages(&mut buf, b'|', &mut scratch, &mut out);
        assert_eq!(out, whole_out, "cut at {cut}");
        assert_eq!(buf, whole);
    }
}

#[test]
fn other_ports_are_passed_over() {
    let msg = build_heartbeat(0x01);
    let data = build_packet(&msg, 1, 0x18);
    let layer = decode_packet_data(&data, LINKTYPE_ETHERNET, data.len()).unwrap();
    let other = packet_to_work(&layer, Some(1), 0, CaptureTime::zero()).unwrap();
    assert!(other.is_none());
    let own = packet_to_work(&layer, Some(40000), 7, CaptureTime::zero())
        .unwrap()
        .unwrap();
    assert_eq!(own.index, 7);
    assert_eq!(own.seq, 1);
    assert_eq!(own.key.src, ipv4(10, 0, 0, 1));
}

#[test]
fn damaged_packets_are_errors() {
    let layer = PacketLayer::L2(vec![1, 2, 3]);
    assert!(packet_to_work(&layer, None, 0, CaptureTime::zero()).is_err());
}

#[test]
fn ng_packets_take_their_time_from_the_interface() {
    let options = test_options(0x01, 1024, CaptureTime::zero());
    let mut state = CaptureState::new();
    handle_ng_block(&CaptureBlock::SectionHeader, &options, &mut state).unwrap();
    let interface = CaptureBlock::InterfaceDescription {
        linktype: LINKTYPE_ETHERNET,
        if_tsresol: 6,
        ts_offset: 0,
    };
    handle_ng_block(&interface, &options, &mut state).unwrap();
    let msg = build_heartbeat(0x01);
    let data = build_packet(&msg, 1, 0x18);
    let block = CaptureBlock::EnhancedPacket {
        if_id: 0,
        ts_high: 0,
        ts_low: 2_500_000,
        caplen: data.len() as u32,
        data,
    };
    let action = handle_ng_block(&block, &options, &mut state).unwrap();
    let work = action.work.expect("packet carries TCP");
    assert_eq!(work.captured_at, CaptureTime::new(2, 500_000_000));
    assert_eq!(work.payload, msg);
    let stray = CaptureBlock::EnhancedPacket {
        if_id: 9,
        ts_high: 0,
        ts_low: 0,
        caplen: 0,
        data: Vec::new(),
    };
    let action = handle_ng_block(&stray, &options, &mut state).unwrap();
    assert!(action.warning.unwrap().contains("unknown interface 9"));
    assert_eq!(state.losses, 1);
}

#[test]
fn limits_must_be_positive() {
    assert!(check_limits(1, 1, 1).is_ok());
    assert_eq!(check_limits(0, 1, 1), Err(LimitError::MaxFlowBytes));
    assert_eq!(check_limits(1, 0, 1), Err(LimitError::MaxFlows));
    assert_eq!(check_limits(1, 1, 0), Err(LimitError::MaxTotalBytes));
}

#[test]
fn budget_follows_the_flows() {
    let options = test_options(b'|', 1024, CaptureTime::from_secs(60));
    let mut budget = ResourceBudget::new(4, 1024);
    let mut flows = FlowTable::new();
    let mut scratch = Vec::new();
    let mut out = Vec::new();
    let msg = build_fix_message("35=0|", b'|');
    for (i, part) in [&msg[..9], &msg[..5]].iter().enumerate() {
        handle_packet_work(
            &test_packet_work(i as u64, test_flow_key(i as u16), 1, part.to_vec()),
            &options,
            &mut budget,
            &mut flows,
            &mut scratch,
            &mut out,
        );
    }
    assert_eq!(budget.flows, 2);
    assert_eq!(budget.buffered_bytes, 14);
    let mut last = test_packet_work(2, test_flow_key(0), 10, msg[9..].to_vec());
    last.ends_flow = true;
    handle_packet_work(
        &last,
        &options,
        &mut budget,
        &mut flows,
        &mut scratch,
        &mut out,
    );
    assert_eq!(budget.flows, 1);
    assert_eq!(budget.buffered_bytes, 5);
    assert!(out.starts_with(b"8=FIX.4.4|9=5|35=0|"));
}

#[test]
fn flow_shard_evicts_stale_partial_flows_on_idle_command() {
    let options = test_options(b'|', 1024, CaptureTime::from_secs(60));
    let mut budget = ResourceBudget::new(1024, 1 << 20);
    let mut shard = FlowShard::new();
    let message = build_fix_message("35=0|49=AAA|", b'|');
    let partial = message[..10].to_vec();

    let packet_result = shard
        .handle(
            ShardCommand::Packet(PacketWork {
                index: 0,
                captured_at: CaptureTime::from_secs(0),
                key: FlowKey {
                    src: ipv4(10, 0, 0, 1),
                    dst: ipv4(10, 0, 0, 2),
                    sport: 5000,
                    dport: 5001,
                },
                seq: 1,
                payload: partial,
                starts_flow: false,
                ends_flow: false,
            }),
            &options,
            &mut budget,
        )
        .unwrap();
    assert!(packet_result.output.is_empty());

    let nothing = shard.handle(
        ShardCommand::EvictIdle(CaptureTime::from_secs(120)),
        &options,
        &mut budget,
    );
    assert!(nothing.is_none());

    let report = shard.finish(&options, &mut budget);
    assert!(
        report.buffered.is_empty(),
        "explicit idle sweeps should drop stale partial flows before final flush"
    );
    assert_eq!(report.losses, 1);
    assert_eq!(budget.flows, 0);
    assert_eq!(budget.buffered_bytes, 0);
}

#[test]
fn final_output_follows_the_flow_keys() {
    let output = |sport: u16, text: &str| BufferedFlowOutput {
        key: test_flow_key(sport),
        output: text.as_bytes().to_vec(),
    };
    let written = final_output(vec![output(7, "c"), output(5, "a"), output(6, "b")]);
    assert_eq!(written, b"abc");
    assert!(final_output(Vec::new()).is_empty());
}

#[test]
fn losses_decide_how_a_capture_ends() {
    let clean = capture_outcome(0, true);
    assert!(clean.warning.is_none() && clean.error.is_none());
    let lossy = capture_outcome(3, false);
    assert_eq!(
        lossy.warning.as_deref(),
        Some("warn: capture completed with 3 dropped packet(s) or incomplete flow(s)")
    );
    assert!(lossy.error.is_none());
    assert_eq!(
        capture_outcome(2, true).error.as_deref(),
        Some("capture was incomplete (2 loss event(s))")
    );
}

#[test]
fn results_come_out_alike_in_any_order() {
    let result = |index: u64| PacketResult {
        index,
        output: vec![b'0' + index as u8],
        warnings: vec![format!("w{index}")],
    };
    let run = |order: [u64; 3]| {
        let mut queue = ResultQueue::new();
        let mut out = Vec::new();
        let mut warnings = Vec::new();
        for index in order {
            queue.record_result(result(index), &mut out, &mut warnings);
        }
        (out, warnings, queue.losses)
    };
    let expected = (
        b"012".to_vec(),
        vec!["w0".to_string(), "w1".to_string(), "w2".to_string()],
        3,
    );
    assert_eq!(run([0, 1, 2]), expected);
    assert_eq!(run([2, 0, 1]), expected);
    assert_eq!(run([1, 2, 0]), expected);
}

fn exported_pdu(fields: &[(u16, &[u8])], payload: &[u8]) -> Vec<u8> {
    let mut data = Vec::new();
    for (kind, value) in fields {
        data.extend_from_slice(&kind.to_be_bytes());
        data.extend_from_slice(&(value.len() as u16).to_be_bytes());
        data.extend_from_slice(value);
    }
    data.extend_from_slice(&[0, 0, 0, 0]);
    data.extend_from_slice(payload);
    data
}

#[test]
fn exported_pdus_are_left_to_the_frame_decoder() {
    let decode = |data: &[u8]| decode_packet_data(data, LINKTYPE_WIRESHARK_UPPER_PDU, data.len());
    assert!(decode(&[]).is_none());
    assert!(decode(&[0, 14, 0]).is_none());
    assert!(decode(&exported_pdu(&[(14, b"other")], b"x")).is_none());
    let good = exported_pdu(&[(14, b"ip.proto"), (32, &[0, 0, 0, 6])], b"payload");
    assert!(matches!(
        decode(&good),
        Some(PacketLayer::L4(6, data)) if data == b"payload"
    ));
    assert!(decode_packet_data(&good, LINKTYPE_WIRESHARK_UPPER_PDU, good.len() + 1).is_none());
    let unknown = exported_pdu(&[(14, b"udp.port"), (32, &[0, 0, 0, 6])], b"x");
    assert!(decode(&unknown).is_none());
    let long = exported_pdu(&[(14, b"ip.proto"), (32, &[0, 0, 0, 0, 6])], b"x");
    assert!(decode(&long).is_none());
    let second = exported_pdu(
        &[(14, b"ip.proto"), (32, &[0, 0, 0, 6]), (32, &[0, 0, 0, 0, 6])],
        b"x",
    );
    assert!(matches!(decode(&second), Some(PacketLayer::L4(6, _))));
}

#[test]
fn interfaces_are_numbered_since_the_section_header() {
    let options = test_options(b'|', 1024, CaptureTime::from_secs(60));
    let mut state = CaptureState::new();
    let describe = |linktype: i32, if_tsresol: u8| CaptureBlock::InterfaceDescription {
        linktype,
        if_tsresol,
        ts_offset: 0,
    };
    for block in [
        describe(7, 3),
        CaptureBlock::SectionHeader,
        describe(1, 3),
        describe(2, 20),
        describe(3, 19),
    ] {
        handle_ng_block(&block, &options, &mut state).expect("block");
    }
    assert_eq!(state.next_if_id, 3);
    assert_eq!(state.losses, 1);
    assert_eq!(state.interfaces.len(), 2);
    assert_eq!(state.interfaces[&0].linktype, 1);
    assert_eq!(state.interfaces[&2].linktype, 3);
    assert_eq!(state.interfaces[&0].timestamp_resolution, 1_000);
    assert_eq!(state.interfaces[&2].timestamp_resolution, 10_000_000_000_000_000_000);
}

#[test]
fn resolutions_that_are_powers_of_two_are_losses() {
    let options = test_options(b'|', 1024, CaptureTime::from_secs(60));
    let mut state = CaptureState::new();
    let block = CaptureBlock::InterfaceDescription { linktype: 1, if_tsresol: 0x8a, ts_offset: 0 };
    let action = handle_ng_block(&block, &options, &mut state).expect("block");
    let warning = action.warning.expect("warning");
    assert!(warning.contains("invalid PCAPNG interface timestamp resolution"));
    assert_eq!(state.losses, 1);
    assert!(state.interfaces.is_empty());
}
