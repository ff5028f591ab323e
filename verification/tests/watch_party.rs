use playarr::http_error::Error;
use playarr::room::{RoomAccessMode, RoomStatus};
use playarr::store::RoomManager;
use playarr::websocket::{Outbound, WsMessage};

fn new_room(rm: &mut RoomManager, mode: RoomAccessMode, allowed: Vec<i64>, now: u64) -> u128 {
    let room = rm
        .create_room(
            Some("movie night".to_string()),
            1,
            "host".to_string(),
            String::new(),
            mode,
            allowed,
            now,
        )
        .expect("create_room");
    room.id
}

fn connect(rm: &mut RoomManager, id: u128, uid: i64, name: &str, now: u64) -> Vec<Outbound> {
    rm.handle_connect(id, uid, name.to_string(), String::new(), now)
        .expect("connect")
}

fn send(rm: &mut RoomManager, id: u128, uid: i64, msg: WsMessage, now: u64) -> Vec<Outbound> {
    let name = format!("user{}", uid);
    rm.handle_client_message(id, uid, &name, msg, now)
}

#[test]
fn create_room_registers_host_participant() {
    let mut rm = RoomManager::new();
    let id = new_room(&mut rm, RoomAccessMode::Everyone, vec![], 1_000);
    let room = rm.get_room(id).unwrap();
    assert_eq!(room.host_user_id, 1);
    assert_eq!(room.participants.len(), 1);
    assert_eq!(room.participants[0].username, "host");
    assert_eq!(room.position_ms, 0);
    assert!(matches!(room.status, RoomStatus::Idle));
    assert!(room.invite_code.is_none());
}

#[test]
fn invite_code_is_eight_chars_and_indexed() {
    let mut rm = RoomManager::new();
    let id = new_room(&mut rm, RoomAccessMode::InviteOnly, vec![], 1_000);
    let room = rm.get_room(id).unwrap();
    let code = room.invite_code.clone().expect("invite code");
    assert_eq!(code.chars().count(), 8);
    assert_eq!(rm.room_id_by_invite_code(&code), Some(id));
}

#[test]
fn two_rooms_get_distinct_ids() {
    let mut rm = RoomManager::new();
    let a = new_room(&mut rm, RoomAccessMode::Everyone, vec![], 1);
    let b = new_room(&mut rm, RoomAccessMode::Everyone, vec![], 2);
    assert_ne!(a, b);
}

#[test]
fn access_control_modes() {
    let mut rm = RoomManager::new();
    let ev = new_room(&mut rm, RoomAccessMode::Everyone, vec![], 1);
    let by = new_room(&mut rm, RoomAccessMode::ByUser, vec![7], 2);
    let inv = new_room(&mut rm, RoomAccessMode::InviteOnly, vec![], 3);
    assert!(rm.can_user_join(ev, 99));
    assert!(rm.can_user_join(by, 7));
    assert!(!rm.can_user_join(by, 8));
    assert!(rm.can_user_join(by, 1)); // the host always may
    assert!(!rm.can_user_join(inv, 42));
    rm.grant_access(inv, 42);
    assert!(rm.can_user_join(inv, 42));
}

#[test]
fn join_by_invite_code_grants_access() {
    let mut rm = RoomManager::new();
    let id = new_room(&mut rm, RoomAccessMode::InviteOnly, vec![], 1);
    let code = rm.get_room(id).unwrap().invite_code.clone().unwrap();
    let found = rm.room_id_by_invite_code(&code).unwrap();
    assert_eq!(found, id);
    rm.grant_access(found, 5);
    assert!(rm.can_user_join(id, 5));
}

// Scenario: a joiner's snapshot carries the advanced position while the
// room is playing.
#[test]
fn join_synchronizes_position() {
    let t0: u64 = 1_000_000;
    let mut rm = RoomManager::new();
    let id = new_room(&mut rm, RoomAccessMode::Everyone, vec![], t0);
    connect(&mut rm, id, 1, "host", t0);
    send(
        &mut rm,
        id,
        1,
        WsMessage::MediaChange { media_id: "42".to_string(), title: None, duration_ms: 7_200_000 },
        t0,
    );
    let acts = send(&mut rm, id, 1, WsMessage::Play { position_ms: 0, user_id: 0 }, t0);
    assert_eq!(acts.len(), 1);
    let room = rm.get_room(id).unwrap();
    assert!(matches!(room.status, RoomStatus::Watching));

    let acts = connect(&mut rm, id, 2, "guest", t0 + 10_000);
    assert_eq!(acts.len(), 2);
    match &acts[0] {
        Outbound::BroadcastExcept(eu, WsMessage::Join { user_id, .. }) => {
            assert_eq!(*eu, 2);
            assert_eq!(*user_id, 2);
        }
        _ => panic!("expected join broadcast"),
    }
    match &acts[1] {
        Outbound::SendTo(tu, WsMessage::RoomStateSnapshot { position_ms, is_paused, media_id, .. }) => {
            assert_eq!(*tu, 2);
            assert!(*position_ms >= 9_500 && *position_ms <= 10_500);
            assert_eq!(*position_ms, 10_000);
            assert!(!is_paused);
            assert_eq!(media_id, "42");
        }
        _ => panic!("expected snapshot"),
    }
}

// Scenario: pause snapshots the computed position.
#[test]
fn pause_snapshots_position() {
    let t0: u64 = 1_000_000;
    let mut rm = RoomManager::new();
    let id = new_room(&mut rm, RoomAccessMode::Everyone, vec![], t0);
    connect(&mut rm, id, 1, "host", t0);
    send(
        &mut rm,
        id,
        1,
        WsMessage::MediaChange { media_id: "42".to_string(), title: None, duration_ms: 7_200_000 },
        t0,
    );
    send(&mut rm, id, 1, WsMessage::Play { position_ms: 0, user_id: 0 }, t0);
    connect(&mut rm, id, 2, "guest", t0 + 10_000);
    send(&mut rm, id, 2, WsMessage::SyncAck, t0 + 10_000);
    let acts = send(
        &mut rm,
        id,
        2,
        WsMessage::Pause { position_ms: 30_000, user_id: 0 },
        t0 + 30_000,
    );
    assert_eq!(acts.len(), 1);
    let room = rm.get_room(id).unwrap();
    assert!(matches!(room.status, RoomStatus::Paused));
    assert_eq!(room.position_ms, 30_000);
    assert_eq!(room.last_update_ms, t0 + 30_000);
    let acts = send(&mut rm, id, 2, WsMessage::SyncRequest, t0 + 45_000);
    match &acts[0] {
        Outbound::SendTo(_, WsMessage::SyncResponse { position_ms, is_paused, .. }) => {
            assert_eq!(*position_ms, 30_000);
            assert!(*is_paused);
        }
        _ => panic!("expected sync response"),
    }
}

// Scenario: buffering consensus with three participants.
#[test]
fn buffering_consensus() {
    let t0: u64 = 10_000;
    let mut rm = RoomManager::new();
    let id = new_room(&mut rm, RoomAccessMode::Everyone, vec![], t0);
    connect(&mut rm, id, 1, "a", t0);
    connect(&mut rm, id, 2, "b", t0);
    connect(&mut rm, id, 3, "c", t0);
    send(&mut rm, id, 2, WsMessage::SyncAck, t0);
    send(&mut rm, id, 3, WsMessage::SyncAck, t0);
    send(
        &mut rm,
        id,
        1,
        WsMessage::MediaChange { media_id: "9".to_string(), title: None, duration_ms: 0 },
        t0,
    );
    send(&mut rm, id, 1, WsMessage::Play { position_ms: 0, user_id: 0 }, t0);

    let acts = send(&mut rm, id, 2, WsMessage::Buffering { user_id: 0 }, t0 + 1_000);
    assert_eq!(acts.len(), 1);
    assert!(matches!(
        rm.get_room(id).unwrap().status,
        RoomStatus::Buffering
    ));

    let acts = send(
        &mut rm,
        id,
        2,
        WsMessage::Play { position_ms: 45_000, user_id: 0 },
        t0 + 5_000,
    );
    assert_eq!(acts.len(), 1);
    let room = rm.get_room(id).unwrap();
    assert!(matches!(room.status, RoomStatus::Watching));
    assert!(room.buffering_users.is_empty());
    assert_eq!(room.position_ms, 45_000);
}

// Scenario: a state-changing frame from an unsynced user is dropped.
#[test]
fn unsynced_user_is_ignored() {
    let t0: u64 = 50_000;
    let mut rm = RoomManager::new();
    let id = new_room(&mut rm, RoomAccessMode::Everyone, vec![], t0);
    connect(&mut rm, id, 1, "host", t0);
    send(
        &mut rm,
        id,
        1,
        WsMessage::MediaChange { media_id: "7".to_string(), title: None, duration_ms: 0 },
        t0,
    );
    send(&mut rm, id, 1, WsMessage::Play { position_ms: 0, user_id: 0 }, t0);
    connect(&mut rm, id, 3, "late", t0 + 100);
    let before = rm.get_room(id).unwrap();
    let acts = send(&mut rm, id, 3, WsMessage::Pause { position_ms: 0, user_id: 0 }, t0 + 200);
    assert!(acts.is_empty());
    let after = rm.get_room(id).unwrap();
    assert!(matches!(after.status, RoomStatus::Watching));
    assert_eq!(after.position_ms, before.position_ms);
    assert_eq!(after.last_update_ms, before.last_update_ms);
}

// Scenario: the host closes the room; every trace of it goes.
#[test]
fn close_room_removes_everything() {
    let mut rm = RoomManager::new();
    let id = new_room(&mut rm, RoomAccessMode::InviteOnly, vec![], 1);
    let code = rm.get_room(id).unwrap().invite_code.clone().unwrap();
    assert!(rm.is_host(id, 1));
    assert!(!rm.is_host(id, 2));
    rm.close_room(id);
    assert!(rm.get_room(id).is_none());
    assert!(rm.room_id_by_invite_code(&code).is_none());
}

// Scenario: a repeated media change with the same id mutates nothing.
#[test]
fn media_change_is_idempotent() {
    let t0: u64 = 5_000;
    let mut rm = RoomManager::new();
    let id = new_room(&mut rm, RoomAccessMode::Everyone, vec![], t0);
    connect(&mut rm, id, 1, "host", t0);
    let acts = send(
        &mut rm,
        id,
        1,
        WsMessage::MediaChange { media_id: "42".to_string(), title: None, duration_ms: 10 },
        t0,
    );
    assert_eq!(acts.len(), 2);
    let first = rm.get_room(id).unwrap();
    let acts = send(
        &mut rm,
        id,
        1,
        WsMessage::MediaChange { media_id: "42".to_string(), title: None, duration_ms: 10 },
        t0 + 777,
    );
    assert!(acts.is_empty());
    let second = rm.get_room(id).unwrap();
    assert_eq!(second.media_id, first.media_id);
    assert_eq!(second.position_ms, first.position_ms);
    assert_eq!(second.last_update_ms, first.last_update_ms);
    assert!(matches!(second.status, RoomStatus::Idle));
}

#[test]
fn pause_then_play_keeps_position() {
    let t0: u64 = 9_000;
    let mut rm = RoomManager::new();
    let id = new_room(&mut rm, RoomAccessMode::Everyone, vec![], t0);
    connect(&mut rm, id, 1, "host", t0);
    send(&mut rm, id, 1, WsMessage::Pause { position_ms: 1_234, user_id: 0 }, t0);
    send(&mut rm, id, 1, WsMessage::Play { position_ms: 1_234, user_id: 0 }, t0);
    assert_eq!(rm.get_room(id).unwrap().position_ms, 1_234);
}

#[test]
fn next_episode_from_non_host_is_ignored() {
    let t0: u64 = 100;
    let mut rm = RoomManager::new();
    let id = new_room(&mut rm, RoomAccessMode::Everyone, vec![], t0);
    connect(&mut rm, id, 1, "host", t0);
    connect(&mut rm, id, 2, "guest", t0);
    send(&mut rm, id, 2, WsMessage::SyncAck, t0);
    send(&mut rm, id, 2, WsMessage::QueueAdd { media_id: "e2".to_string() }, t0);
    let acts = send(&mut rm, id, 2, WsMessage::NextEpisode, t0);
    assert!(acts.is_empty());
    assert_eq!(rm.get_queue(id), vec!["e2".to_string()]);
    let acts = send(&mut rm, id, 1, WsMessage::NextEpisode, t0);
    assert_eq!(acts.len(), 2);
    assert!(rm.get_queue(id).is_empty());
    assert_eq!(rm.get_room(id).unwrap().media_id, "e2");
}

#[test]
fn queue_operations() {
    let mut rm = RoomManager::new();
    let id = new_room(&mut rm, RoomAccessMode::Everyone, vec![], 1);
    rm.add_to_queue(id, "a".to_string());
    rm.add_to_queue(id, "b".to_string());
    rm.add_to_queue(id, "c".to_string());
    rm.reorder_queue(id, 2, 0);
    assert_eq!(
        rm.get_queue(id),
        vec!["c".to_string(), "a".to_string(), "b".to_string()]
    );
    rm.remove_from_queue(id, 1);
    assert_eq!(rm.get_queue(id), vec!["c".to_string(), "b".to_string()]);
    rm.remove_from_queue(id, 9);
    assert_eq!(rm.get_queue(id).len(), 2);
    rm.clear_queue(id);
    assert!(rm.get_queue(id).is_empty());
}

// Scenario: the last holdout of a ready consensus disconnects; the
// coordinator re-evaluates and starts playback.
#[test]
fn disconnect_triggers_all_ready() {
    let t0: u64 = 42_000;
    let mut rm = RoomManager::new();
    let id = new_room(&mut rm, RoomAccessMode::Everyone, vec![], t0);
    connect(&mut rm, id, 1, "a", t0);
    connect(&mut rm, id, 2, "b", t0);
    connect(&mut rm, id, 3, "c", t0);
    send(
        &mut rm,
        id,
        1,
        WsMessage::MediaChange { media_id: "m".to_string(), title: None, duration_ms: 0 },
        t0,
    );
    send(&mut rm, id, 1, WsMessage::Ready { user_id: 0 }, t0);
    send(&mut rm, id, 2, WsMessage::Ready { user_id: 0 }, t0);
    assert!(matches!(rm.get_room(id).unwrap().status, RoomStatus::Idle));
    let acts = rm.handle_disconnect(id, 3, "c".to_string(), t0 + 10);
    let has_all_ready = acts
        .iter()
        .any(|a| matches!(a, Outbound::Broadcast(WsMessage::AllReady)));
    assert!(has_all_ready);
    assert!(matches!(
        rm.get_room(id).unwrap().status,
        RoomStatus::Watching
    ));
}

#[test]
fn all_ready_fires_on_last_ready() {
    let t0: u64 = 7;
    let mut rm = RoomManager::new();
    let id = new_room(&mut rm, RoomAccessMode::Everyone, vec![], t0);
    connect(&mut rm, id, 1, "a", t0);
    connect(&mut rm, id, 2, "b", t0);
    let acts = send(&mut rm, id, 1, WsMessage::Ready { user_id: 0 }, t0);
    assert!(acts.is_empty());
    let acts = send(&mut rm, id, 2, WsMessage::Ready { user_id: 0 }, t0);
    assert_eq!(acts.len(), 1);
    assert!(matches!(
        acts[0],
        Outbound::Broadcast(WsMessage::AllReady)
    ));
    assert!(matches!(
        rm.get_room(id).unwrap().status,
        RoomStatus::Watching
    ));
}

#[test]
fn heartbeat_reports_each_watching_room_once() {
    let t0: u64 = 60_000;
    let mut rm = RoomManager::new();
    let playing = new_room(&mut rm, RoomAccessMode::Everyone, vec![], t0);
    connect(&mut rm, playing, 1, "host", t0);
    send(
        &mut rm,
        playing,
        1,
        WsMessage::MediaChange { media_id: "hb".to_string(), title: None, duration_ms: 0 },
        t0,
    );
    send(&mut rm, playing, 1, WsMessage::Play { position_ms: 0, user_id: 0 }, t0);
    let idle = new_room(&mut rm, RoomAccessMode::Everyone, vec![], t0);
    connect(&mut rm, idle, 5, "other", t0);

    let report = rm.heartbeat_tick(t0 + 500);
    assert_eq!(report.len(), 1);
    let (rid, pos, media) = &report[0];
    assert_eq!(*rid, playing);
    assert_eq!(*pos, 500);
    assert_eq!(media, "hb");
    // the snapshot resets the drift base
    let room = rm.get_room(playing).unwrap();
    assert_eq!(room.position_ms, 500);
    assert_eq!(room.last_update_ms, t0 + 500);
}

#[test]
fn disconnect_of_last_participant_deletes_room() {
    let t0: u64 = 3;
    let mut rm = RoomManager::new();
    let id = new_room(&mut rm, RoomAccessMode::InviteOnly, vec![], t0);
    let code = rm.get_room(id).unwrap().invite_code.clone().unwrap();
    connect(&mut rm, id, 1, "host", t0);
    let acts = rm.handle_disconnect(id, 1, "host".to_string(), t0 + 1);
    assert!(!acts.is_empty());
    assert!(rm.get_room(id).is_none());
    assert!(rm.room_id_by_invite_code(&code).is_none());
}

#[test]
fn kick_removes_user_and_reports_username() {
    let t0: u64 = 8;
    let mut rm = RoomManager::new();
    let id = new_room(&mut rm, RoomAccessMode::Everyone, vec![], t0);
    connect(&mut rm, id, 1, "host", t0);
    connect(&mut rm, id, 2, "troll", t0);
    let name = rm.kick_user(id, 2);
    assert_eq!(name, Some("troll".to_string()));
    let room = rm.get_room(id).unwrap();
    assert_eq!(room.participants.len(), 1);
    assert!(!rm.is_synced(id, 2));
}

#[test]
fn connect_errors_are_not_found_and_forbidden() {
    let t0: u64 = 11;
    let mut rm = RoomManager::new();
    let err = rm
        .handle_connect(12345, 1, "x".to_string(), String::new(), t0)
        .unwrap_err();
    assert!(matches!(err, Error::NotFound(_)));
    assert_eq!(err.status_code(), 404);

    let id = new_room(&mut rm, RoomAccessMode::ByUser, vec![7], t0);
    let err = rm
        .handle_connect(id, 9, "x".to_string(), String::new(), t0)
        .unwrap_err();
    assert!(matches!(err, Error::Forbidden(_)));
    assert_eq!(err.status_code(), 403);
    assert!(rm.handle_connect(id, 7, "ok".to_string(), String::new(), t0).is_ok());
}

#[test]
fn empty_room_is_unobservable() {
    let mut rm = RoomManager::new();
    let id = new_room(&mut rm, RoomAccessMode::Everyone, vec![], 1);
    connect(&mut rm, id, 1, "host", 1);
    rm.handle_disconnect(id, 1, "host".to_string(), 2);
    assert!(rm.get_room(id).is_none());
    assert!(rm.list_rooms_for_user(1).is_empty());
    assert!(rm
        .handle_connect(id, 1, "host".to_string(), String::new(), 3)
        .is_err());
}

#[test]
fn list_rooms_respects_visibility() {
    let mut rm = RoomManager::new();
    let ev = new_room(&mut rm, RoomAccessMode::Everyone, vec![], 1);
    let by = new_room(&mut rm, RoomAccessMode::ByUser, vec![7], 2);
    let seen_by_9: Vec<u128> = rm.list_rooms_for_user(9).iter().map(|r| r.id).collect();
    assert!(seen_by_9.contains(&ev));
    assert!(!seen_by_9.contains(&by));
    let seen_by_7: Vec<u128> = rm.list_rooms_for_user(7).iter().map(|r| r.id).collect();
    assert!(seen_by_7.contains(&ev));
    assert!(seen_by_7.contains(&by));
}

#[test]
fn error_status_codes() {
    assert_eq!(Error::InternalError(String::new()).status_code(), 500);
    assert_eq!(Error::BadRequest(String::new()).status_code(), 400);
    assert_eq!(Error::NotFound(String::new()).status_code(), 404);
    assert_eq!(Error::Unauthorized(String::new()).status_code(), 401);
    assert_eq!(Error::Forbidden(String::new()).status_code(), 403);
    assert_eq!(Error::ServiceUnavailable(String::new()).status_code(), 503);
    assert_eq!(Error::UpstreamError(String::new()).status_code(), 502);
    assert_eq!(Error::BadRequest("bad".to_string()).message().as_str(), "bad");
}

#[test]
fn watching_position_advances_monotonically() {
    let t0: u64 = 500;
    let mut rm = RoomManager::new();
    let id = new_room(&mut rm, RoomAccessMode::Everyone, vec![], t0);
    connect(&mut rm, id, 1, "host", t0);
    send(&mut rm, id, 1, WsMessage::Play { position_ms: 0, user_id: 0 }, t0);
    let p1 = rm.compute_position_ms(id, t0 + 100).unwrap();
    let p2 = rm.compute_position_ms(id, t0 + 2_000).unwrap();
    assert_eq!(p1, 100);
    assert_eq!(p2, 2_000);
    assert!(p1 <= p2);
}

#[test]
fn seek_updates_position_and_keeps_status() {
    let t0: u64 = 900;
    let mut rm = RoomManager::new();
    let id = new_room(&mut rm, RoomAccessMode::Everyone, vec![], t0);
    connect(&mut rm, id, 1, "host", t0);
    let acts = send(&mut rm, id, 1, WsMessage::Seek { position_ms: 77, user_id: 0 }, t0);
    assert_eq!(acts.len(), 1);
    let room = rm.get_room(id).unwrap();
    assert_eq!(room.position_ms, 77);
    assert!(matches!(room.status, RoomStatus::Idle));
}
