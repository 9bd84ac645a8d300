use bili_danmu::session::{
    auth_payload, is_stats_key, push_decimal, read_room_info, record_second, room_info_url, stats_line,
    websocket_url, AUTH_PROTOVER, AUTH_TYPE, AUTH_UID, HEARTBEAT_INTERVAL_SECS,
};

#[test]
fn room_info_url_exact() {
    assert_eq!(
        room_info_url(21452505),
        "https://api.live.bilibili.com/xlive/web-room/v1/index/getDanmuInfo?id=21452505&type=0"
    );
}

#[test]
fn websocket_url_exact() {
    assert_eq!(
        websocket_url("broadcastlv.chat.bilibili.com", 443),
        "wss://broadcastlv.chat.bilibili.com:443/sub"
    );
}

#[test]
fn decimal_edges() {
    let mut s = String::from("n=");
    push_decimal(&mut s, 0);
    assert_eq!(s, "n=0");
    let mut s = String::new();
    push_decimal(&mut s, u64::MAX);
    assert_eq!(s, u64::MAX.to_string());
    let mut s = String::new();
    push_decimal(&mut s, 1000);
    assert_eq!(s, "1000");
}

#[test]
fn auth_payload_fields() {
    let p = auth_payload(123, "tok");
    assert_eq!(p.uid, AUTH_UID);
    assert_eq!(p.uid, 102624818);
    assert_eq!(p.roomid, 123);
    assert_eq!(p.protover, AUTH_PROTOVER);
    assert_eq!(p.protover, 3);
    assert_eq!(p.buvid, "");
    assert_eq!(p.platform, "web");
    assert_eq!(p.auth_type, AUTH_TYPE);
    assert_eq!(p.auth_type, 2);
    assert_eq!(p.key, "tok");
}

#[test]
fn record_second_moves_counter() {
    let mut counter = 7u32;
    let mut total = 100u64;
    let mut mps = 3u32;
    record_second(&mut counter, &mut total, &mut mps);
    assert_eq!((counter, total, mps), (0, 107, 7));
    record_second(&mut counter, &mut total, &mut mps);
    assert_eq!((counter, total, mps), (0, 107, 0));
}

#[test]
fn stats_line_exact() {
    assert_eq!(
        stats_line(12, 3456),
        "Messages per second: 12, total message count: 3456"
    );
    assert!(is_stats_key(b's'));
    assert!(!is_stats_key(b'S'));
    assert_eq!(HEARTBEAT_INTERVAL_SECS, 30);
}

#[test]
fn read_room_info_fields() {

    let text = "{\"code\":0,\"data\":{\"token\":\"T0K\",\"host_list\":[{\"host\":\"h1.example\",\"port\":2243,\"wss_port\":443,\"ws_port\":2244}]}}";
    let info = read_room_info(text).unwrap();
    assert_eq!(info.host, "h1.example");
    assert_eq!(info.port, 443);
    assert_eq!(info.token, "T0K");
    assert!(read_room_info("{\"data\":{\"token\":\"t\",\"host_list\":[]}}").is_none());
    assert!(read_room_info("{\"data\":{\"token\":\"t\",\"host_list\":{\"0\":{\"host\":\"h\",\"wss_port\":1}}}}").is_none());
    assert!(read_room_info("{\"data\":{\"token\":5,\"host_list\":[{\"host\":\"h\",\"wss_port\":1}]}}").is_none());
    assert!(read_room_info("not json").is_none());
}
