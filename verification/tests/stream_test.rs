use bili_danmu::danmu::{accept_danmu, handle_danmu_message};
use bili_danmu::packet::encode_packet;
use bili_danmu::session::receive_binary;
use bili_danmu::stream::{checked_handle_binary_message, handle_binary_message};
use std::collections::VecDeque;
use std::io::Write;

fn danmu_json(user: &str, id: &str, content: &str, reply: &str) -> String {
    let extra = format!(
        "{{\"id_str\":\"{}\",\"content\":\"{}\",\"reply_uname\":\"{}\"}}",
        id, content, reply
    );
    let extra_escaped = extra.replace('"', "\\\"");
    format!(
        "{{\"cmd\":\"DANMU_MSG\",\"info\":[[0,1,2,3,4,5,6,7,8,9,10,11,12,13,14,{{\"extra\":\"{}\"}}],\"x\",[42,\"{}\"]]}}",
        extra_escaped, user
    )
}

fn message_packet(json: &str) -> Vec<u8> {
    encode_packet(5, json.as_bytes())
}

fn compressed_packet(inner: &[u8]) -> Vec<u8> {
    let mut body = Vec::new();
    {
        let mut w = brotli::CompressorWriter::new(&mut body, 4096, 5, 22);
        w.write_all(inner).unwrap();
    }
    let total = (16 + body.len()) as u32;
    let mut p = Vec::new();
    p.extend_from_slice(&total.to_be_bytes());
    p.extend_from_slice(&16u16.to_be_bytes());
    p.extend_from_slice(&3u16.to_be_bytes());
    p.extend_from_slice(&5u32.to_be_bytes());
    p.extend_from_slice(&0u32.to_be_bytes());
    p.extend_from_slice(&body);
    p
}

struct Rx {
    ids: VecDeque<String>,
    counter: u32,
    printed: Vec<String>,
}

impl Rx {
    fn new() -> Rx {
        Rx { ids: VecDeque::new(), counter: 0, printed: Vec::new() }
    }
    fn handle(&mut self, bin: &mut Vec<u8>) {
        handle_binary_message(bin, &mut self.ids, &mut self.counter, &mut self.printed);
    }
    fn checked(&mut self, bin: &mut Vec<u8>) -> bool {
        checked_handle_binary_message(bin, &mut self.ids, &mut self.counter, &mut self.printed)
    }
}

#[test]
fn empty_buffer_is_untouched() {
    let mut rx = Rx::new();
    let mut bin = Vec::new();
    rx.handle(&mut bin);
    assert!(bin.is_empty());
    assert_eq!(rx.counter, 0);
}

#[test]
fn danmu_message_is_printed_and_counted() {
    let mut rx = Rx::new();
    let mut bin = message_packet(&danmu_json("alice", "id1", "hello", ""));
    rx.handle(&mut bin);
    assert!(bin.is_empty());
    assert_eq!(rx.counter, 1);
    assert_eq!(rx.printed, vec!["alice ：hello".to_string()]);
    assert_eq!(rx.ids, VecDeque::from(vec!["id1".to_string()]));
}

#[test]
fn reply_message_format() {
    let mut rx = Rx::new();
    let mut bin = message_packet(&danmu_json("bob", "id2", "hi there", "alice"));
    rx.handle(&mut bin);
    assert_eq!(rx.printed, vec!["bob 回复 alice：hi there".to_string()]);
}

#[test]
fn repeated_message_is_counted_once() {
    let mut rx = Rx::new();
    let json = danmu_json("alice", "same", "hello", "");
    let mut bin = message_packet(&json);
    bin.extend(message_packet(&json));
    rx.handle(&mut bin);
    assert_eq!(rx.counter, 1);
    assert_eq!(rx.printed.len(), 1);
    let mut again = message_packet(&json);
    rx.handle(&mut again);
    assert_eq!(rx.counter, 1);
    assert_eq!(rx.printed.len(), 1);
}

#[test]
fn window_keeps_at_most_31_ids() {
    let mut rx = Rx::new();
    let mut bin = Vec::new();
    for i in 0..40 {
        bin.extend(message_packet(&danmu_json("u", &format!("m{}", i), "c", "")));
    }
    rx.handle(&mut bin);
    assert_eq!(rx.counter, 40);
    assert_eq!(rx.printed.len(), 40);
    assert_eq!(rx.ids.len(), 31);
    assert_eq!(rx.ids.front().unwrap(), "m9");
    assert_eq!(rx.ids.back().unwrap(), "m39");
    // an id that left the window counts again
    let mut old = message_packet(&danmu_json("u", "m0", "c", ""));
    rx.handle(&mut old);
    assert_eq!(rx.counter, 41);
}

#[test]
fn other_commands_and_bad_json_are_ignored() {
    let mut rx = Rx::new();
    let mut bin = message_packet("{\"cmd\":\"INTERACT_WORD\",\"data\":{}}");
    bin.extend(message_packet("not json at all"));
    bin.extend(message_packet("[1,2,3]"));
    bin.extend(encode_packet(8, b"{\"code\":0}"));
    rx.handle(&mut bin);
    assert!(bin.is_empty());
    assert_eq!(rx.counter, 0);
    assert!(rx.printed.is_empty());
}

#[test]
fn incomplete_packet_stays_pending() {
    let mut rx = Rx::new();
    let full = message_packet(&danmu_json("alice", "p1", "split", ""));
    let (a, b) = full.split_at(10);
    let mut pending = Vec::new();
    assert!(receive_binary(&mut pending, a.to_vec(), &mut rx.ids, &mut rx.counter, &mut rx.printed));
    assert_eq!(pending, a.to_vec());
    assert_eq!(rx.counter, 0);
    assert!(receive_binary(&mut pending, b.to_vec(), &mut rx.ids, &mut rx.counter, &mut rx.printed));
    assert!(pending.is_empty());
    assert_eq!(rx.printed, vec!["alice ：split".to_string()]);
}

#[test]
fn heartbeat_reply_skips_four_extra_bytes() {
    let mut rx = Rx::new();
    let mut bin = encode_packet(3, &[]);
    bin.extend_from_slice(&[0, 0, 0, 1]);
    bin.extend(message_packet(&danmu_json("alice", "h1", "after", "")));
    rx.handle(&mut bin);
    assert!(bin.is_empty());
    assert_eq!(rx.printed, vec!["alice ：after".to_string()]);
}

#[test]
fn compressed_packet_is_unpacked() {
    let mut rx = Rx::new();
    let mut inner = message_packet(&danmu_json("a", "c1", "one", ""));
    inner.extend(message_packet(&danmu_json("b", "c2", "two", "a")));
    let mut bin = compressed_packet(&inner);
    rx.handle(&mut bin);
    assert!(bin.is_empty());
    assert_eq!(rx.counter, 2);
    assert_eq!(rx.printed, vec!["a ：one".to_string(), "b 回复 a：two".to_string()]);
}

#[test]
fn compressed_leftover_is_appended() {
    let mut rx = Rx::new();
    let partial = message_packet(&danmu_json("a", "c3", "late", ""));
    let (head, tail) = partial.split_at(20);
    let mut bin = compressed_packet(head);
    rx.handle(&mut bin);
    assert_eq!(bin, head.to_vec());
    bin.extend_from_slice(tail);
    rx.handle(&mut bin);
    assert!(bin.is_empty());
    assert_eq!(rx.printed, vec!["a ：late".to_string()]);
}

#[test]
fn checked_refuses_unsupported_version() {
    let mut rx = Rx::new();
    let mut bin = encode_packet(5, b"{}");
    bin[7] = 2;
    let before = bin.clone();
    assert!(!rx.checked(&mut bin));
    assert_eq!(bin, before);
}

#[test]
fn checked_refuses_short_header() {
    let mut rx = Rx::new();
    let mut bin = vec![0, 0, 0];
    assert!(!rx.checked(&mut bin));
    assert_eq!(bin, vec![0, 0, 0]);
}

#[test]
fn checked_refuses_bad_compressed_body() {
    let mut rx = Rx::new();
    let mut bin = encode_packet(5, &[0xff; 8]);
    bin[7] = 3;
    assert!(!rx.checked(&mut bin));
}

#[test]
fn checked_refuses_incomplete_danmu() {
    let mut rx = Rx::new();
    let mut bin = message_packet("{\"cmd\":\"DANMU_MSG\",\"info\":[]}");
    assert!(!rx.checked(&mut bin));
    assert_eq!(rx.counter, 0);
}

#[test]
fn checked_refuses_full_counter() {
    let mut rx = Rx::new();
    rx.counter = u32::MAX;
    let mut bin = message_packet(&danmu_json("a", "z", "full", ""));
    assert!(!rx.checked(&mut bin));
    assert_eq!(rx.counter, u32::MAX);
    assert!(rx.printed.is_empty());
}

#[test]
fn checked_handles_good_stream() {
    let mut rx = Rx::new();
    let mut bin = message_packet(&danmu_json("a", "ok", "fine", ""));
    assert!(rx.checked(&mut bin));
    assert_eq!(rx.counter, 1);
}

#[test]
fn danmu_handler_direct() {
    let mut ids = VecDeque::new();
    let mut counter = 0u32;
    let mut printed = Vec::new();
    let json = danmu_json("zed", "d1", "yo", "");
    assert!(handle_danmu_message(&json, &mut ids, &mut counter, &mut printed));
    assert!(handle_danmu_message(&json, &mut ids, &mut counter, &mut printed));
    assert_eq!(counter, 1);
    assert_eq!(printed, vec!["zed ：yo".to_string()]);
}

#[test]
fn accept_danmu_exact() {
    let mut ids = VecDeque::new();
    let mut counter = 4u32;
    let mut printed = vec!["earlier".to_string()];
    let ok = accept_danmu(
        &"amy".to_string(),
        "x9".to_string(),
        &"hey".to_string(),
        &"ben".to_string(),
        &mut ids,
        &mut counter,
        &mut printed,
    );
    assert!(ok);
    assert_eq!(counter, 5);
    assert_eq!(printed, vec!["earlier".to_string(), "amy 回复 ben：hey".to_string()]);
    assert_eq!(ids, VecDeque::from(vec!["x9".to_string()]));
    let again = accept_danmu(
        &"amy".to_string(),
        "x9".to_string(),
        &"other".to_string(),
        &"".to_string(),
        &mut ids,
        &mut counter,
        &mut printed,
    );
    assert!(again);
    assert_eq!(counter, 5);
    assert_eq!(printed.len(), 2);
}

#[test]
fn accept_danmu_full_counter() {
    let mut ids = VecDeque::new();
    let mut counter = u32::MAX;
    let mut printed = Vec::new();
    let ok = accept_danmu(
        &"a".to_string(),
        "q".to_string(),
        &"c".to_string(),
        &"".to_string(),
        &mut ids,
        &mut counter,
        &mut printed,
    );
    assert!(!ok);
}

#[test]
fn info_object_is_refused() {
    let mut rx = Rx::new();
    let extra = "{\\\"id_str\\\":\\\"o1\\\",\\\"content\\\":\\\"c\\\",\\\"reply_uname\\\":\\\"\\\"}";
    let json = format!(
        "{{\"cmd\":\"DANMU_MSG\",\"info\":{{\"0\":[0,1,2,3,4,5,6,7,8,9,10,11,12,13,14,{{\"extra\":\"{}\"}}],\"2\":[1,\"u\"]}}}}",
        extra
    );
    let mut bin = message_packet(&json);
    assert!(!rx.checked(&mut bin));
    assert_eq!(rx.counter, 0);
    assert!(rx.printed.is_empty());
}

#[test]
fn missing_field_leaves_state_unchanged() {
    let mut ids = VecDeque::from(vec!["k".to_string()]);
    let mut counter = 3u32;
    let mut printed = vec!["x".to_string()];
    let json = "{\"cmd\":\"DANMU_MSG\",\"info\":[[],\"x\",[1,\"u\"]]}";
    assert!(!handle_danmu_message(json, &mut ids, &mut counter, &mut printed));
    assert_eq!(ids, VecDeque::from(vec!["k".to_string()]));
    assert_eq!(counter, 3);
    assert_eq!(printed, vec!["x".to_string()]);
}

#[test]
fn full_counter_records_id_only() {
    let mut ids = VecDeque::new();
    let mut counter = u32::MAX;
    let mut printed = Vec::new();
    let json = danmu_json("a", "w1", "c", "");
    assert!(!handle_danmu_message(&json, &mut ids, &mut counter, &mut printed));
    assert_eq!(ids, VecDeque::from(vec!["w1".to_string()]));
    assert_eq!(counter, u32::MAX);
    assert!(printed.is_empty());
}

#[test]
fn invalid_utf8_body_is_refused() {
    let mut rx = Rx::new();
    let mut bin = encode_packet(5, &[0xc3, 0x28]);
    assert!(!rx.checked(&mut bin));
}

#[test]
fn frames_reassembled_like_one_buffer() {
    let mut whole = Vec::new();
    for i in 0..5 {
        whole.extend(message_packet(&danmu_json("u", &format!("f{}", i), &format!("t{}", i), "")));
    }
    whole.extend(encode_packet(3, &[]));
    whole.extend_from_slice(&[0, 0, 0, 9]);
    let mut one = Rx::new();
    let mut all = whole.clone();
    one.handle(&mut all);

    let mut split = Rx::new();
    let mut pending = Vec::new();
    let packet_len = message_packet(&danmu_json("u", "f0", "t0", "")).len();
    let cuts = [5usize, packet_len + 10, 3 * packet_len + 7, whole.len()];
    let mut start = 0;
    for &end in cuts.iter() {
        assert!(receive_binary(
            &mut pending,
            whole[start..end].to_vec(),
            &mut split.ids,
            &mut split.counter,
            &mut split.printed
        ));
        start = end;
    }
    assert_eq!(pending, all);
    assert_eq!(split.printed, one.printed);
    assert_eq!(split.counter, one.counter);
    assert_eq!(split.ids, one.ids);
}
