use playarr::codec::{decode, encode};
use playarr::websocket::{ParticipantInfo, WsMessage};

#[test]
fn encode_play() {
    let s = encode(&WsMessage::Play { position_ms: 5, user_id: 3 });
    assert_eq!(s, "{\"type\":\"play\",\"position_ms\":5,\"user_id\":3}");
}

#[test]
fn encode_negative_user_id() {
    let s = encode(&WsMessage::Pause { position_ms: 0, user_id: -7 });
    assert_eq!(s, "{\"type\":\"pause\",\"position_ms\":0,\"user_id\":-7}");
}

#[test]
fn encode_sync_response() {
    let s = encode(&WsMessage::SyncResponse {
        position_ms: 30000,
        is_paused: true,
        media_id: "42".to_string(),
    });
    assert_eq!(
        s,
        "{\"type\":\"sync_response\",\"position_ms\":30000,\"is_paused\":true,\"media_id\":\"42\"}"
    );
}

#[test]
fn encode_heartbeat_formats_seconds() {
    let s = encode(&WsMessage::Heartbeat {
        server_time_ms: 12_345,
        timestamp: 99,
        media_id: "m".to_string(),
    });
    assert_eq!(
        s,
        "{\"type\":\"heartbeat\",\"server_time\":12.345,\"timestamp\":99,\"media_id\":\"m\"}"
    );
}

#[test]
fn encode_escapes_strings() {
    let s = encode(&WsMessage::ChatMessage {
        from: "a\"b".to_string(),
        user_id: 1,
        message: "line\nbreak\\done".to_string(),
    });
    assert_eq!(
        s,
        "{\"type\":\"chat\",\"from\":\"a\\\"b\",\"user_id\":1,\"message\":\"line\\nbreak\\\\done\"}"
    );
}

#[test]
fn encode_media_change_null_title() {
    let s = encode(&WsMessage::MediaChange {
        media_id: "9".to_string(),
        title: None,
        duration_ms: 0,
    });
    assert_eq!(
        s,
        "{\"type\":\"media_change\",\"media_id\":\"9\",\"title\":null,\"duration_ms\":0}"
    );
    let s = encode(&WsMessage::MediaChange {
        media_id: "9".to_string(),
        title: Some("Pilot".to_string()),
        duration_ms: 1,
    });
    assert_eq!(
        s,
        "{\"type\":\"media_change\",\"media_id\":\"9\",\"title\":\"Pilot\",\"duration_ms\":1}"
    );
}

#[test]
fn encode_bare_frames() {
    assert_eq!(encode(&WsMessage::Ping), "{\"type\":\"ping\"}");
    assert_eq!(encode(&WsMessage::Pong), "{\"type\":\"pong\"}");
    assert_eq!(encode(&WsMessage::AllReady), "{\"type\":\"all_ready\"}");
    assert_eq!(encode(&WsMessage::RoomClosed), "{\"type\":\"room_closed\"}");
    assert_eq!(encode(&WsMessage::SyncAck), "{\"type\":\"sync_ack\"}");
    assert_eq!(encode(&WsMessage::NextEpisode), "{\"type\":\"next_episode\"}");
    assert_eq!(encode(&WsMessage::SyncRequest), "{\"type\":\"sync_request\"}");
}

#[test]
fn encode_snapshot_with_participants() {
    let s = encode(&WsMessage::RoomStateSnapshot {
        media_id: "42".to_string(),
        media_title: None,
        position_ms: 1000,
        is_paused: false,
        participants: vec![ParticipantInfo {
            user_id: 1,
            username: "host".to_string(),
            thumb: String::new(),
            is_host: true,
        }],
        episode_queue: vec!["a".to_string(), "b".to_string()],
    });
    assert_eq!(
        s,
        "{\"type\":\"room_state\",\"media_id\":\"42\",\"media_title\":null,\"position_ms\":1000,\"is_paused\":false,\"participants\":[{\"user_id\":1,\"username\":\"host\",\"thumb\":\"\",\"is_host\":true}],\"episode_queue\":[\"a\",\"b\"]}"
    );
}

#[test]
fn encoded_frames_are_valid_json() {
    let samples = vec![
        encode(&WsMessage::Play { position_ms: u64::MAX, user_id: i64::MIN }),
        encode(&WsMessage::ChatMessage {
            from: "x\ty".to_string(),
            user_id: 0,
            message: "\r\n".to_string(),
        }),
        encode(&WsMessage::Kicked { reason: Some("because".to_string()) }),
        encode(&WsMessage::Kicked { reason: None }),
        encode(&WsMessage::Navigate { media_id: "7".to_string(), route: "/player/7".to_string() }),
        encode(&WsMessage::Error { message: "oops".to_string() }),
        encode(&WsMessage::QueueRemove { index: 2 }),
        encode(&WsMessage::Buffering { user_id: 4 }),
        encode(&WsMessage::Ready { user_id: 4 }),
        encode(&WsMessage::Join {
            user_id: 2,
            username: "n".to_string(),
            thumb: "t".to_string(),
        }),
        encode(&WsMessage::Leave { user_id: 2, username: "n".to_string() }),
        encode(&WsMessage::QueueAdd { media_id: "q".to_string() }),
    ];
    for s in samples {
        let parsed: serde_json::Value = serde_json::from_str(&s).expect("valid json");
        assert!(parsed.get("type").is_some());
    }
}

#[test]
fn parse_i64_full_accepts_exact_numbers() {
    assert_eq!(playarr::codec::parse_i64_full("0"), Some(0));
    assert_eq!(playarr::codec::parse_i64_full("42"), Some(42));
    assert_eq!(playarr::codec::parse_i64_full("-9"), Some(-9));
    assert_eq!(
        playarr::codec::parse_i64_full("9223372036854775807"),
        Some(i64::MAX)
    );
    assert_eq!(
        playarr::codec::parse_i64_full("-9223372036854775808"),
        Some(i64::MIN)
    );
    assert_eq!(playarr::codec::parse_i64_full(""), None);
    assert_eq!(playarr::codec::parse_i64_full("-"), None);
    assert_eq!(playarr::codec::parse_i64_full("12a"), None);
    assert_eq!(playarr::codec::parse_i64_full("9223372036854775808"), None);
    assert_eq!(playarr::codec::parse_i64_full("184467440737095516160"), None);
}

#[test]
fn decode_round_trips_encoded_frames() {
    let frames = vec![
        WsMessage::Play { position_ms: 5, user_id: 3 },
        WsMessage::Pause { position_ms: 0, user_id: -7 },
        WsMessage::Seek { position_ms: 123456789, user_id: 42 },
        WsMessage::SyncRequest,
        WsMessage::SyncResponse {
            position_ms: 30000,
            is_paused: false,
            media_id: "42".to_string(),
        },
        WsMessage::MediaChange {
            media_id: "9".to_string(),
            title: Some("Pi\"lot".to_string()),
            duration_ms: 7,
        },
        WsMessage::MediaChange { media_id: "9".to_string(), title: None, duration_ms: 0 },
        WsMessage::NextEpisode,
        WsMessage::QueueAdd { media_id: "q1".to_string() },
        WsMessage::QueueRemove { index: 3 },
        WsMessage::ChatMessage {
            from: "a\\b".to_string(),
            user_id: 1,
            message: "hi\nthere".to_string(),
        },
        WsMessage::Navigate { media_id: "m".to_string(), route: "/player/m".to_string() },
        WsMessage::Buffering { user_id: 2 },
        WsMessage::Ready { user_id: 2 },
        WsMessage::SyncAck,
        WsMessage::Ping,
        WsMessage::Pong,
        WsMessage::AllReady,
        WsMessage::RoomClosed,
        WsMessage::Heartbeat {
            server_time_ms: u64::MAX,
            timestamp: 17,
            media_id: "m".to_string(),
        },
        WsMessage::Join {
            user_id: 4,
            username: "who".to_string(),
            thumb: "t".to_string(),
        },
        WsMessage::Leave { user_id: 4, username: "who".to_string() },
        WsMessage::Kicked { reason: Some("rowdy".to_string()) },
        WsMessage::Kicked { reason: None },
        WsMessage::Error { message: "oops".to_string() },
        WsMessage::RoomStateSnapshot {
            media_id: "42".to_string(),
            media_title: Some("Pilot".to_string()),
            position_ms: 9_500,
            is_paused: false,
            participants: vec![
                ParticipantInfo {
                    user_id: 1,
                    username: "ho\"st".to_string(),
                    thumb: String::new(),
                    is_host: true,
                },
                ParticipantInfo {
                    user_id: 2,
                    username: "guest".to_string(),
                    thumb: "t.png".to_string(),
                    is_host: false,
                },
            ],
            episode_queue: vec!["a".to_string(), "b,c".to_string()],
        },
        WsMessage::RoomStateSnapshot {
            media_id: String::new(),
            media_title: None,
            position_ms: 0,
            is_paused: true,
            participants: vec![],
            episode_queue: vec![],
        },
    ];
    for frame in frames {
        let text = encode(&frame);
        let back = decode(&text).expect("round trip");
        assert_eq!(encode(&back), text);
    }
}

#[test]
fn decode_rejects_malformed_frames() {
    assert!(decode("").is_none());
    assert!(decode("{}").is_none());
    assert!(decode("{\"type\":\"unknown\"}").is_none());
    assert!(decode("{\"type\":\"play\"}").is_none());
    assert!(decode("{\"type\":\"play\",\"position_ms\":x,\"user_id\":1}").is_none());
    assert!(decode("{\"type\":\"room_state\"}").is_none());
    assert!(decode("{\"type\":\"room_state\",\"media_id\":\"x\"}").is_none());
}
