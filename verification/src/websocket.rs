//! The watch-party wire protocol and the authoritative dispatch of
//! inbound messages.
//!
//! [`RoomManager::handle_client_message`] is the per-connection message
//! step: given the sending user, one decoded frame and the current
//! wall-clock time, it mutates the room state and returns the fan-out
//! actions the transport layer must perform. Every state-changing
//! message from a user who has not yet acknowledged the room state
//! snapshot (the synced flag) is dropped silently.

use vstd::prelude::*;

use crate::room::{
    add_buffering_m, clear_ready_m, eff_position, mark_ready_m, may_join,
    media_change_m, next_episode_m, pause_m, queue_add_m, queue_remove_m, remove_buffering_m,
    set_status_m, update_position_m, RoomModel, RoomState, RoomStatus,
};
use crate::store::{same_except, RoomManager};

verus! {

/// A participant as shown in a room state snapshot.
#[derive(Clone, Debug)]
pub struct ParticipantInfo {
    pub user_id: i64,
    pub username: String,
    pub thumb: String,
    pub is_host: bool,
}

/// One frame of the wire protocol.
#[derive(Debug)]
pub enum WsMessage {
    Play { position_ms: u64, user_id: i64 },
    Pause { position_ms: u64, user_id: i64 },
    Seek { position_ms: u64, user_id: i64 },
    SyncRequest,
    SyncResponse { position_ms: u64, is_paused: bool, media_id: String },
    /// The periodic server heartbeat. The server time is carried in
    /// milliseconds; the wire encodes it as seconds.
    Heartbeat { server_time_ms: u64, timestamp: u64, media_id: String },
    NextEpisode,
    QueueAdd { media_id: String },
    QueueRemove { index: usize },
    ChatMessage { from: String, user_id: i64, message: String },
    Join { user_id: i64, username: String, thumb: String },
    Leave { user_id: i64, username: String },
    MediaChange { media_id: String, title: Option<String>, duration_ms: u64 },
    Navigate { media_id: String, route: String },
    Kicked { reason: Option<String> },
    RoomClosed,
    RoomStateSnapshot {
        media_id: String,
        media_title: Option<String>,
        position_ms: u64,
        is_paused: bool,
        participants: Vec<ParticipantInfo>,
        episode_queue: Vec<String>,
    },
    Buffering { user_id: i64 },
    Ready { user_id: i64 },
    AllReady,
    SyncAck,
    Ping,
    Pong,
    Error { message: String },
}

/// One fan-out action the transport layer must perform after a
/// dispatch step.
#[derive(Debug)]
pub enum Outbound {
    /// Send to every connected session of the room.
    Broadcast(WsMessage),
    /// Send to every connected session except the named user.
    BroadcastExcept(i64, WsMessage),
    /// Send to the named user only.
    SendTo(i64, WsMessage),
}

/// The store is untouched.
pub open spec fn unchanged_store(s1: RoomManager, s2: RoomManager) -> bool {
    &&& s2.rooms() == s1.rooms()
    &&& s2.codes() == s1.codes()
    &&& s2.conns() == s1.conns()
    &&& s2.synced() == s1.synced()
}

/// The store after an in-place update of one room to the model `rm`
/// (and no other change): the room maps agree elsewhere, the indexes
/// and registries are untouched, and a missing room means no change.
pub open spec fn room_step(s1: RoomManager, s2: RoomManager, id: u128, rm: RoomModel) -> bool {
    &&& s2.codes() == s1.codes()
    &&& s2.conns() == s1.conns()
    &&& s2.synced() == s1.synced()
    &&& (!s1.rooms().dom().contains(id) ==> s2.rooms() == s1.rooms())
    &&& (s1.rooms().dom().contains(id) ==> same_except(s1.rooms(), s2.rooms(), id)
        && s2.rooms().dom().contains(id) && s2.rooms()[id]@ == rm)
}

/// The room model after an accepted `Play` at position `p`: the sender
/// leaves the buffering set and the position becomes authoritative;
/// playback resumes only once nobody is left buffering.
pub open spec fn play_msg_m(r: RoomModel, uid: i64, p: u64, now: u64) -> RoomModel {
    let r2 = update_position_m(remove_buffering_m(r, uid), p, now);
    if r2.buffering_users == Set::<i64>::empty() {
        set_status_m(r2, RoomStatus::Watching, now)
    } else {
        r2
    }
}

/// The room model after an accepted `Buffering`: the sender joins the
/// buffering set and the room pauses into `Buffering` (snapshotting
/// the position when it was `Watching`).
pub open spec fn buffering_msg_m(r: RoomModel, uid: i64, now: u64) -> RoomModel {
    set_status_m(add_buffering_m(r, uid), RoomStatus::Buffering, now)
}

/// The room model after a `Ready` that reaches consensus: ready marks
/// clear and playback starts.
pub open spec fn all_ready_m(r: RoomModel, uid: i64, now: u64) -> RoomModel {
    set_status_m(clear_ready_m(mark_ready_m(r, uid)), RoomStatus::Watching, now)
}

/// Whether marking `uid` ready reaches consensus: someone is connected
/// and every connected user is then ready.
pub open spec fn ready_consensus(s: RoomManager, id: u128, uid: i64) -> bool {
    &&& s.rooms().dom().contains(id)
    &&& s.conns_of(id).len() > 0
    &&& forall|u: i64| #[trigger]
        s.conns_of(id).contains(u) ==> mark_ready_m(s.rooms()[id]@, uid).ready_users.contains(u)
}

/// The view of the player route for a media id.
pub open spec fn player_route(media_id: Seq<char>) -> Seq<char> {
    "/player/"@ + media_id
}

/// What one inbound frame from `user_id` does: how the store changes
/// and which fan-out actions come out. This is the authoritative
/// dispatch relation of the wire protocol.
pub open spec fn message_effect(
    s1: RoomManager,
    s2: RoomManager,
    acts: Seq<Outbound>,
    room_id: u128,
    user_id: i64,
    username: Seq<char>,
    msg: WsMessage,
    now_ms: u64,
) -> bool {
    match msg {
        WsMessage::Play { position_ms: p, user_id: _ } => {
            if !s1.synced_of(room_id).contains(user_id) {
                unchanged_store(s1, s2) && acts.len() == 0
            } else {
                &&& room_step(s1, s2, room_id, play_msg_m(s1.rooms()[room_id]@, user_id, p, now_ms))
                &&& acts.len() == 1
                &&& (acts[0] matches Outbound::BroadcastExcept(eu, m) && eu == user_id && (
                m matches WsMessage::Play { position_ms: p2, user_id: u2 } && p2 == p && u2
                    == user_id))
            }
        },
        WsMessage::Pause { position_ms: p, user_id: _ } => {
            if !s1.synced_of(room_id).contains(user_id) {
                unchanged_store(s1, s2) && acts.len() == 0
            } else {
                &&& room_step(s1, s2, room_id, pause_m(s1.rooms()[room_id]@, p, now_ms))
                &&& acts.len() == 1
                &&& (acts[0] matches Outbound::BroadcastExcept(eu, m) && eu == user_id && (
                m matches WsMessage::Pause { position_ms: p2, user_id: u2 } && p2 == p && u2
                    == user_id))
            }
        },
        WsMessage::Seek { position_ms: p, user_id: _ } => {
            if !s1.synced_of(room_id).contains(user_id) {
                unchanged_store(s1, s2) && acts.len() == 0
            } else {
                &&& room_step(
                    s1,
                    s2,
                    room_id,
                    update_position_m(s1.rooms()[room_id]@, p, now_ms),
                )
                &&& acts.len() == 1
                &&& (acts[0] matches Outbound::BroadcastExcept(eu, m) && eu == user_id && (
                m matches WsMessage::Seek { position_ms: p2, user_id: u2 } && p2 == p && u2
                    == user_id))
            }
        },
        WsMessage::SyncRequest => {
            &&& unchanged_store(s1, s2)
            &&& (!s1.rooms().dom().contains(room_id) ==> acts.len() == 0)
            &&& (s1.rooms().dom().contains(room_id) ==> acts.len() == 1 && (
            acts[0] matches Outbound::SendTo(tu, m) && tu == user_id && (
            m matches WsMessage::SyncResponse { position_ms, is_paused, media_id }
                && position_ms == eff_position(s1.rooms()[room_id]@, now_ms) && is_paused == (
            s1.rooms()[room_id]@.status != RoomStatus::Watching) && media_id@
                == s1.rooms()[room_id]@.media_id)))
        },
        WsMessage::SyncResponse { position_ms: p, is_paused, media_id } => {
            let is_host = s1.rooms().dom().contains(room_id)
                && s1.rooms()[room_id]@.host_user_id == user_id;
            if !is_host {
                unchanged_store(s1, s2) && acts.len() == 0
            } else {
                &&& room_step(
                    s1,
                    s2,
                    room_id,
                    update_position_m(s1.rooms()[room_id]@, p, now_ms),
                )
                &&& acts.len() == 1
                &&& (acts[0] matches Outbound::BroadcastExcept(eu, m) && eu == user_id && (
                m matches WsMessage::SyncResponse {
                    position_ms: p2,
                    is_paused: ip2,
                    media_id: m2,
                } && p2 == p && ip2 == is_paused && m2@ == media_id@))
            }
        },
        WsMessage::MediaChange { media_id, title, duration_ms } => {
            if !s1.synced_of(room_id).contains(user_id) {
                unchanged_store(s1, s2) && acts.len() == 0
            } else {
                let changed = s1.rooms().dom().contains(room_id)
                    && s1.rooms()[room_id]@.media_id != media_id@;
                &&& room_step(
                    s1,
                    s2,
                    room_id,
                    media_change_m(
                        s1.rooms()[room_id]@,
                        media_id@,
                        title.deep_view(),
                        duration_ms,
                        now_ms,
                    ),
                )
                &&& (!changed ==> acts.len() == 0)
                &&& (changed ==> acts.len() == 2 && (acts[0] matches Outbound::Broadcast(m) && (
                m matches WsMessage::MediaChange { media_id: m2, title: t2, duration_ms: d2 }
                    && m2@ == media_id@ && t2.deep_view() == title.deep_view() && d2
                    == duration_ms)) && (acts[1] matches Outbound::Broadcast(m) && (
                m matches WsMessage::Navigate { media_id: m3, route } && m3@ == media_id@
                    && route@ == player_route(media_id@))))
            }
        },
        WsMessage::NextEpisode => {
            let is_host = s1.rooms().dom().contains(room_id)
                && s1.rooms()[room_id]@.host_user_id == user_id;
            let has_next = s1.rooms().dom().contains(room_id)
                && s1.rooms()[room_id]@.episode_queue.len() > 0;
            if !s1.synced_of(room_id).contains(user_id) || !is_host || !has_next {
                unchanged_store(s1, s2) && acts.len() == 0
            } else {
                let next = s1.rooms()[room_id]@.episode_queue[0];
                &&& room_step(s1, s2, room_id, next_episode_m(s1.rooms()[room_id]@, now_ms))
                &&& acts.len() == 2
                &&& (acts[0] matches Outbound::Broadcast(m) && (
                m matches WsMessage::MediaChange { media_id: m2, title: t2, duration_ms: d2 }
                    && m2@ == next && t2 is None && d2 == 0))
                &&& (acts[1] matches Outbound::Broadcast(m) && (
                m matches WsMessage::Navigate { media_id: m3, route } && m3@ == next && route@
                    == player_route(next)))
            }
        },
        WsMessage::QueueAdd { media_id } => {
            &&& room_step(s1, s2, room_id, queue_add_m(s1.rooms()[room_id]@, media_id@))
            &&& acts.len() == 0
        },
        WsMessage::QueueRemove { index } => {
            &&& room_step(s1, s2, room_id, queue_remove_m(s1.rooms()[room_id]@, index as int))
            &&& acts.len() == 0
        },
        WsMessage::ChatMessage { from: _, user_id: _, message } => {
            &&& unchanged_store(s1, s2)
            &&& acts.len() == 1
            &&& (acts[0] matches Outbound::Broadcast(m) && (
            m matches WsMessage::ChatMessage { from: f2, user_id: u2, message: m2 } && f2@
                == username && u2 == user_id && m2@ == message@))
        },
        WsMessage::Navigate { media_id, route: _ } => {
            let is_host = s1.rooms().dom().contains(room_id)
                && s1.rooms()[room_id]@.host_user_id == user_id;
            if !is_host {
                unchanged_store(s1, s2) && acts.len() == 0
            } else {
                &&& unchanged_store(s1, s2)
                &&& acts.len() == 1
                &&& (acts[0] matches Outbound::Broadcast(m) && (
                m matches WsMessage::Navigate { media_id: m2, route } && m2@ == media_id@
                    && route@ == player_route(media_id@)))
            }
        },
        WsMessage::Buffering { user_id: _ } => {
            if !s1.synced_of(room_id).contains(user_id) {
                unchanged_store(s1, s2) && acts.len() == 0
            } else {
                &&& room_step(
                    s1,
                    s2,
                    room_id,
                    buffering_msg_m(s1.rooms()[room_id]@, user_id, now_ms),
                )
                &&& acts.len() == 1
                &&& (acts[0] matches Outbound::BroadcastExcept(eu, m) && eu == user_id && (
                m matches WsMessage::Buffering { user_id: u2 } && u2 == user_id))
            }
        },
        WsMessage::Ready { user_id: _ } => {
            let consensus = ready_consensus(s1, room_id, user_id);
            if consensus {
                &&& room_step(s1, s2, room_id, all_ready_m(s1.rooms()[room_id]@, user_id, now_ms))
                &&& acts.len() == 1
                &&& (acts[0] matches Outbound::Broadcast(m) && m is AllReady)
            } else {
                &&& room_step(s1, s2, room_id, mark_ready_m(s1.rooms()[room_id]@, user_id))
                &&& acts.len() == 0
            }
        },
        WsMessage::SyncAck => {
            &&& s2.rooms() == s1.rooms()
            &&& s2.codes() == s1.codes()
            &&& s2.conns() == s1.conns()
            &&& s2.synced() == s1.synced().insert(
                room_id,
                if s1.synced_of(room_id).contains(user_id) {
                    s1.synced_of(room_id)
                } else {
                    s1.synced_of(room_id).push(user_id)
                },
            )
            &&& acts.len() == 0
        },
        WsMessage::Ping => {
            &&& unchanged_store(s1, s2)
            &&& acts.len() == 1
            &&& (acts[0] matches Outbound::SendTo(tu, m) && tu == user_id && m is Pong)
        },
        _ => unchanged_store(s1, s2) && acts.len() == 0,
    }
}

impl RoomManager {
    /// Dispatch one inbound frame from a connected user: apply its
    /// state change under the room's lock and return the fan-out
    /// actions for the transport layer. `username` is the sender's
    /// display name, used for chat frames.
    pub fn handle_client_message(
        &mut self,
        room_id: u128,
        user_id: i64,
        username: &String,
        msg: WsMessage,
        now_ms: u64,
    ) -> (acts: Vec<Outbound>)
        requires
            old(self).wf(),
        ensures
            final(self).wf(),
            message_effect(
                *old(self),
                *final(self),
                acts@,
                room_id,
                user_id,
                username@,
                msg,
                now_ms,
            ),
    {
        let mut acts: Vec<Outbound> = Vec::new();
        match msg {
            WsMessage::Play { position_ms, user_id: _ } => {
                if !self.is_synced(room_id, user_id) {
                    return acts;
                }
                self.remove_buffering_user(room_id, user_id);
                self.update_position(room_id, position_ms, now_ms);
                if !self.has_buffering_users(room_id) {
                    self.set_status(room_id, RoomStatus::Watching, now_ms);
                }
                acts.push(
                    Outbound::BroadcastExcept(
                        user_id,
                        WsMessage::Play { position_ms, user_id },
                    ),
                );
            },
            WsMessage::Pause { position_ms, user_id: _ } => {
                if !self.is_synced(room_id, user_id) {
                    return acts;
                }
                self.update_position(room_id, position_ms, now_ms);
                self.set_status(room_id, RoomStatus::Paused, now_ms);
                acts.push(
                    Outbound::BroadcastExcept(
                        user_id,
                        WsMessage::Pause { position_ms, user_id },
                    ),
                );
            },
            WsMessage::Seek { position_ms, user_id: _ } => {
                if !self.is_synced(room_id, user_id) {
                    return acts;
                }
                self.update_position(room_id, position_ms, now_ms);
                acts.push(
                    Outbound::BroadcastExcept(
                        user_id,
                        WsMessage::Seek { position_ms, user_id },
                    ),
                );
            },
            WsMessage::SyncRequest => {
                let room_opt = self.get_room(room_id);
                if let Some(room) = room_opt {
                    let position_ms = self.compute_position_ms(room_id, now_ms).unwrap();
                    acts.push(
                        Outbound::SendTo(
                            user_id,
                            WsMessage::SyncResponse {
                                position_ms,
                                is_paused: !(room.status == RoomStatus::Watching),
                                media_id: room.media_id,
                            },
                        ),
                    );
                }
            },
            WsMessage::SyncResponse { position_ms, is_paused, media_id } => {
                if self.is_host(room_id, user_id) {
                    self.update_position(room_id, position_ms, now_ms);
                    acts.push(
                        Outbound::BroadcastExcept(
                            user_id,
                            WsMessage::SyncResponse { position_ms, is_paused, media_id },
                        ),
                    );
                }
            },
            WsMessage::MediaChange { media_id, title, duration_ms } => {
                if !self.is_synced(room_id, user_id) {
                    return acts;
                }
                let changed = self.set_media_if_changed(
                    room_id,
                    media_id.clone(),
                    clone_opt_string(&title),
                    duration_ms,
                    now_ms,
                );
                if changed {
                    let route = route_for(&media_id);
                    acts.push(
                        Outbound::Broadcast(
                            WsMessage::MediaChange {
                                media_id: media_id.clone(),
                                title,
                                duration_ms,
                            },
                        ),
                    );
                    acts.push(
                        Outbound::Broadcast(WsMessage::Navigate { media_id, route }),
                    );
                }
            },
            WsMessage::NextEpisode => {
                if !self.is_synced(room_id, user_id) {
                    return acts;
                }
                if self.is_host(room_id, user_id) {
                    let next_opt = self.next_in_queue(room_id, now_ms);
                    if let Some(next_media) = next_opt {
                        let route = route_for(&next_media);
                        acts.push(
                            Outbound::Broadcast(
                                WsMessage::MediaChange {
                                    media_id: next_media.clone(),
                                    title: None,
                                    duration_ms: 0,
                                },
                            ),
                        );
                        acts.push(
                            Outbound::Broadcast(
                                WsMessage::Navigate { media_id: next_media, route },
                            ),
                        );
                    }
                }
            },
            WsMessage::QueueAdd { media_id } => {
                self.add_to_queue(room_id, media_id);
            },
            WsMessage::QueueRemove { index } => {
                self.remove_from_queue(room_id, index);
            },
            WsMessage::ChatMessage { from: _, user_id: _, message } => {
                acts.push(
                    Outbound::Broadcast(
                        WsMessage::ChatMessage {
                            from: username.clone(),
                            user_id,
                            message,
                        },
                    ),
                );
            },
            WsMessage::Navigate { media_id, route: _ } => {
                if self.is_host(room_id, user_id) {
                    let route = route_for(&media_id);
                    acts.push(
                        Outbound::Broadcast(WsMessage::Navigate { media_id, route }),
                    );
                }
            },
            WsMessage::Buffering { user_id: _ } => {
                if !self.is_synced(room_id, user_id) {
                    return acts;
                }
                self.add_buffering_user(room_id, user_id);
                self.set_status(room_id, RoomStatus::Buffering, now_ms);
                acts.push(
                    Outbound::BroadcastExcept(user_id, WsMessage::Buffering { user_id }),
                );
            },
            WsMessage::Ready { user_id: _ } => {
                let all_ready = self.mark_ready(room_id, user_id);
                if all_ready {
                    self.clear_ready(room_id);
                    self.set_status(room_id, RoomStatus::Watching, now_ms);
                    acts.push(Outbound::Broadcast(WsMessage::AllReady));
                }
            },
            WsMessage::SyncAck => {
                self.mark_synced(room_id, user_id);
            },
            WsMessage::Ping => {
                acts.push(Outbound::SendTo(user_id, WsMessage::Pong));
            },
            _ => {},
        }
        acts
    }
}

/// The client route for playing a media item.
fn route_for(media_id: &String) -> (r: String)
    ensures
        r@ == player_route(media_id@),
{
    let mut r = String::from_str("/player/");
    r.append(media_id.as_str());
    r
}

/// Clone an optional string.
fn clone_opt_string(s: &Option<String>) -> (r: Option<String>)
    ensures
        r == *s,
{
    match s {
        Some(v) => Some(v.clone()),
        None => None,
    }
}

/// Whether the snapshot message matches the room model at time `now`.
pub open spec fn snapshot_ok(m: WsMessage, rm: RoomModel, now: u64) -> bool {
    m matches WsMessage::RoomStateSnapshot {
        media_id,
        media_title,
        position_ms,
        is_paused,
        participants,
        episode_queue,
    } && media_id@ == rm.media_id && media_title.deep_view() == rm.media_title && position_ms
        == eff_position(rm, now) && is_paused == (rm.status != RoomStatus::Watching)
        && participants@.len() == rm.participants.len() && (forall|i: int|
        0 <= i < rm.participants.len() ==> (#[trigger] participants@[i]).user_id
            == rm.participants[i].user_id && participants@[i].username@
            == rm.participants[i].username && participants@[i].thumb@ == rm.participants[i].thumb
            && participants@[i].is_host == (rm.participants[i].user_id == rm.host_user_id))
        && episode_queue.deep_view() == rm.episode_queue
}

/// Build the room state snapshot sent to a joining or resyncing user.
fn snapshot_for(room: &RoomState, now_ms: u64) -> (m: WsMessage)
    ensures
        snapshot_ok(m, room@, now_ms),
{
    let mut infos: Vec<ParticipantInfo> = Vec::new();
    let mut i: usize = 0;
    while i < room.participants.len()
        invariant
            0 <= i <= room.participants@.len(),
            infos@.len() == i,
            forall|j: int|
                0 <= j < i ==> (#[trigger] infos@[j]).user_id == room.participants@[j].user_id
                    && infos@[j].username@ == room.participants@[j].username@ && infos@[j].thumb@
                    == room.participants@[j].thumb@ && infos@[j].is_host == (
                room.participants@[j].user_id == room.host_user_id),
        decreases room.participants@.len() - i,
    {
        let user_id = room.participants[i].user_id;
        let username = room.participants[i].username.clone();
        let thumb = room.participants[i].thumb.clone();
        infos.push(
            ParticipantInfo { user_id, username, thumb, is_host: user_id == room.host_user_id },
        );
        i = i + 1;
    }
    let mut queue: Vec<String> = Vec::new();
    let mut k: usize = 0;
    while k < room.episode_queue.len()
        invariant
            0 <= k <= room.episode_queue@.len(),
            queue@.len() == k,
            forall|j: int| 0 <= j < k ==> #[trigger] queue@[j] == room.episode_queue@[j],
        decreases room.episode_queue@.len() - k,
    {
        queue.push(room.episode_queue[k].clone());
        k = k + 1;
    }
    let position_ms = crate::room::eff_position_of(room, now_ms);
    proof {
        assert(queue.deep_view() =~= room.episode_queue.deep_view());
    }
    WsMessage::RoomStateSnapshot {
        media_id: room.media_id.clone(),
        media_title: clone_opt_string(&room.media_title),
        position_ms,
        is_paused: !(room.status == RoomStatus::Watching),
        participants: infos,
        episode_queue: queue,
    }
}

/// The model of the participant record a connect creates.
pub open spec fn joiner_m(user_id: i64, username: Seq<char>, thumb: Seq<char>, now: u64)
    -> crate::room::ParticipantModel {
    crate::room::ParticipantModel { user_id, username, thumb, joined_at: now }
}

impl RoomManager {
    /// Register a joining user after their WebSocket upgrade: the
    /// connection is recorded (a reconnect replaces the prior entry),
    /// the host is auto-synced, the user becomes a participant, a
    /// `Join` goes to the others and the joiner is sent the freshly
    /// computed room state snapshot. Fails with not-found when the
    /// room does not exist, and with forbidden when the access rules
    /// deny the user, in both cases before any state change.
    pub fn handle_connect(
        &mut self,
        room_id: u128,
        user_id: i64,
        username: String,
        thumb: String,
        now_ms: u64,
    ) -> (r: Result<Vec<Outbound>, crate::http_error::Error>)
        requires
            old(self).wf(),
        ensures
            final(self).wf(),
            r is Ok <==> old(self).rooms().dom().contains(room_id) && may_join(
                old(self).rooms()[room_id]@,
                user_id,
            ),
            r matches Err(e) ==> unchanged_store(*old(self), *final(self)) && (e is NotFound <==> !old(
                self,
            ).rooms().dom().contains(room_id)) && (e is Forbidden <==> old(
                self,
            ).rooms().dom().contains(room_id) && !may_join(old(self).rooms()[room_id]@, user_id)),
            r matches Ok(acts) ==> {
                let rm = old(self).rooms()[room_id]@;
                let rm2 = crate::room::add_participant_m(
                    rm,
                    joiner_m(user_id, username@, thumb@, now_ms),
                );
                &&& final(self).codes() == old(self).codes()
                &&& final(self).conns() == old(self).conns().insert(
                    room_id,
                    if old(self).conns_of(room_id).contains(user_id) {
                        old(self).conns_of(room_id)
                    } else {
                        old(self).conns_of(room_id).push(user_id)
                    },
                )
                &&& (rm.host_user_id == user_id ==> final(self).synced() == old(
                    self,
                ).synced().insert(
                    room_id,
                    if old(self).synced_of(room_id).contains(user_id) {
                        old(self).synced_of(room_id)
                    } else {
                        old(self).synced_of(room_id).push(user_id)
                    },
                ))
                &&& (rm.host_user_id != user_id ==> final(self).synced() == old(self).synced())
                &&& same_except(old(self).rooms(), final(self).rooms(), room_id)
                &&& final(self).rooms().dom().contains(room_id)
                &&& final(self).rooms()[room_id]@ == rm2
                &&& acts@.len() == 2
                &&& (acts@[0] matches Outbound::BroadcastExcept(eu, m) && eu == user_id && (
                m matches WsMessage::Join { user_id: u2, username: n2, thumb: t2 } && u2
                    == user_id && n2@ == username@ && t2@ == thumb@))
                &&& (acts@[1] matches Outbound::SendTo(tu, m2) && tu == user_id && snapshot_ok(
                    m2,
                    rm2,
                    now_ms,
                ))
            },
    {
        if !room_exists(self, room_id) {
            return Err(
                crate::http_error::Error::NotFound(String::from_str("Room not found")),
            );
        }
        if !self.can_user_join(room_id, user_id) {
            return Err(
                crate::http_error::Error::Forbidden(
                    String::from_str("You are not allowed to join this room"),
                ),
            );
        }
        self.add_connection(room_id, user_id);
        if self.is_host(room_id, user_id) {
            self.mark_synced(room_id, user_id);
        }
        let joiner = crate::room::Participant {
            user_id,
            username: username.clone(),
            thumb: thumb.clone(),
            joined_at: now_ms,
        };
        self.add_participant(room_id, joiner);
        let mut acts: Vec<Outbound> = Vec::new();
        acts.push(
            Outbound::BroadcastExcept(user_id, WsMessage::Join { user_id, username, thumb }),
        );
        let fresh = self.get_room(room_id).unwrap();
        let snapshot = snapshot_for(&fresh, now_ms);
        acts.push(Outbound::SendTo(user_id, snapshot));
        Ok(acts)
    }
}

/// Whether a disconnect pauses the room: it was playing, or waiting on
/// a buffer.
pub open spec fn disc_pause_needed(rm: RoomModel) -> bool {
    rm.status == RoomStatus::Watching || rm.status == RoomStatus::Buffering
}

/// The room model after the pause step of a disconnect.
pub open spec fn after_pause_m(rm: RoomModel, now: u64) -> RoomModel {
    if disc_pause_needed(rm) {
        set_status_m(rm, RoomStatus::Paused, now)
    } else {
        rm
    }
}

/// The user ids of one entry of a registry map (empty when absent).
pub open spec fn ids_of(m: Map<u128, Seq<i64>>, id: u128) -> Seq<i64> {
    if m.dom().contains(id) {
        m[id]
    } else {
        Seq::empty()
    }
}

/// The room model after the cleanup steps of a disconnect, before the
/// participant is removed: pause if needed, drop the buffering and
/// ready marks of the leaving user.
pub open spec fn disc_cleanup_m(rm: RoomModel, uid: i64, now: u64) -> RoomModel {
    crate::room::remove_ready_m(remove_buffering_m(after_pause_m(rm, now), uid), uid)
}

/// Whether the remaining users reach ready consensus once `uid` has
/// disconnected from the room.
pub open spec fn disc_consensus(s1: RoomManager, room_id: u128, uid: i64, now: u64) -> bool {
    let rm2 = disc_cleanup_m(s1.rooms()[room_id]@, uid, now);
    let conns2 = ids_of(crate::store::without_user(s1.conns(), room_id, uid), room_id);
    &&& s1.rooms().dom().contains(room_id)
    &&& rm2.status == RoomStatus::Idle
    &&& rm2.ready_users != Set::<i64>::empty()
    &&& conns2.len() > 0
    &&& forall|u: i64| #[trigger] conns2.contains(u) ==> rm2.ready_users.contains(u)
}

/// The room model after a full disconnect of `uid` (before the store
/// decides whether the room is deleted).
pub open spec fn disc_room_m(rm: RoomModel, consensus: bool, uid: i64, now: u64) -> RoomModel {
    let rm2 = disc_cleanup_m(rm, uid, now);
    let rm3 = if consensus {
        set_status_m(clear_ready_m(rm2), RoomStatus::Watching, now)
    } else {
        rm2
    };
    crate::room::remove_participant_m(rm3, uid)
}

/// What a disconnect does: how the store changes and which fan-out
/// actions come out.
pub open spec fn disconnect_effect(
    s1: RoomManager,
    s2: RoomManager,
    acts: Seq<Outbound>,
    room_id: u128,
    user_id: i64,
    username: Seq<char>,
    now_ms: u64,
) -> bool {
    let contains = s1.rooms().dom().contains(room_id);
    let rm = s1.rooms()[room_id]@;
    let paused = contains && disc_pause_needed(rm);
    let consensus = disc_consensus(s1, room_id, user_id, now_ms);
    let rm4 = disc_room_m(rm, consensus, user_id, now_ms);
    &&& (!contains ==> s2.rooms() == s1.rooms() && s2.codes() == s1.codes() && s2.conns()
        == crate::store::without_user(s1.conns(), room_id, user_id) && s2.synced()
        == crate::store::without_user(s1.synced(), room_id, user_id))
    &&& (contains && rm4.participants.len() > 0 ==> same_except(s1.rooms(), s2.rooms(), room_id)
        && s2.rooms().dom().contains(room_id) && s2.rooms()[room_id]@ == rm4 && s2.codes()
        == s1.codes() && s2.conns() == crate::store::without_user(s1.conns(), room_id, user_id)
        && s2.synced() == crate::store::without_user(s1.synced(), room_id, user_id))
    &&& (contains && rm4.participants.len() == 0 ==> s2.rooms() == s1.rooms().remove(room_id)
        && s2.conns() == s1.conns().remove(room_id) && s2.synced() == s1.synced().remove(room_id)
        && s2.codes() == (match rm.invite_code {
        Some(c) => s1.codes().remove(c),
        None => s1.codes(),
    }))
    &&& acts.len() == 1 + (if paused { 1 as int } else { 0 }) + (if consensus {
        1 as int
    } else {
        0
    })
    &&& (paused ==> (acts[0] matches Outbound::Broadcast(m) && (
    m matches WsMessage::Pause { position_ms, user_id: u2 } && position_ms == after_pause_m(
        rm,
        now_ms,
    ).position_ms && u2 == user_id)))
    &&& (consensus ==> (acts[if paused { 1 as int } else { 0 }] matches Outbound::Broadcast(m)
        && m is AllReady))
    &&& (acts[acts.len() - 1] matches Outbound::Broadcast(m) && (
    m matches WsMessage::Leave { user_id: u2, username: n2 } && u2 == user_id && n2@ == username))
}

impl RoomManager {
    /// Clean up after a user's socket closes: drop their connection and
    /// synced mark; pause the room if it was playing or buffering (and
    /// tell the others at the snapshotted position); drop their
    /// buffering and ready marks; re-check ready consensus in case the
    /// leaving user was the last holdout; remove them as a participant
    /// (deleting the room when none remain); and announce the leave.
    pub fn handle_disconnect(
        &mut self,
        room_id: u128,
        user_id: i64,
        username: String,
        now_ms: u64,
    ) -> (acts: Vec<Outbound>)
        requires
            old(self).wf(),
        ensures
            final(self).wf(),
            disconnect_effect(
                *old(self),
                *final(self),
                acts@,
                room_id,
                user_id,
                username@,
                now_ms,
            ),
    {
        let mut acts: Vec<Outbound> = Vec::new();
        self.remove_connection(room_id, user_id);
        let room_opt = self.get_room(room_id);
        let paused = match &room_opt {
            Some(room) => room.status == RoomStatus::Watching || room.status
                == RoomStatus::Buffering,
            None => false,
        };
        if paused {
            self.set_status(room_id, RoomStatus::Paused, now_ms);
            let position_ms = self.get_room(room_id).unwrap().position_ms;
            acts.push(
                Outbound::Broadcast(WsMessage::Pause { position_ms, user_id }),
            );
        }
        self.remove_buffering_user(room_id, user_id);
        self.remove_ready_user(room_id, user_id);
        if self.check_all_ready(room_id) {
            self.clear_ready(room_id);
            self.set_status(room_id, RoomStatus::Watching, now_ms);
            acts.push(Outbound::Broadcast(WsMessage::AllReady));
        }
        self.remove_participant(room_id, user_id);
        proof {
            if old(self).rooms().dom().contains(room_id) {
                let rm = old(self).rooms()[room_id]@;
                let consensus = disc_consensus(*old(self), room_id, user_id, now_ms);
                let rm4 = disc_room_m(rm, consensus, user_id, now_ms);
                if rm4.participants.len() == 0 {
                    assert(self.rooms() =~= old(self).rooms().remove(room_id));
                    assert(self.conns() =~= old(self).conns().remove(room_id));
                    assert(self.synced() =~= old(self).synced().remove(room_id));
                }
            }
        }
        acts.push(
            Outbound::Broadcast(WsMessage::Leave { user_id, username }),
        );
        acts
    }
}

/// Look up room existence without copying the record out.
fn room_exists(s: &RoomManager, room_id: u128) -> (r: bool)
    ensures
        r == s.rooms().dom().contains(room_id),
{
    crate::store::dm_rooms_has(&s.rooms, room_id)
}

/// The message types gated by the synced flag: the state-changing
/// frames a racing late-joiner could otherwise use to overwrite
/// authoritative room state.
pub open spec fn sync_gated(msg: WsMessage) -> bool {
    ||| msg is Play
    ||| msg is Pause
    ||| msg is Seek
    ||| msg is MediaChange
    ||| msg is NextEpisode
    ||| msg is Buffering
}

/// A state-changing frame from a user whose synced flag is unset has
/// no effect: the store is untouched and nothing is fanned out.
pub proof fn lemma_unsynced_dropped(
    s1: RoomManager,
    s2: RoomManager,
    acts: Seq<Outbound>,
    room_id: u128,
    user_id: i64,
    username: Seq<char>,
    msg: WsMessage,
    now_ms: u64,
)
    requires
        message_effect(s1, s2, acts, room_id, user_id, username, msg, now_ms),
        sync_gated(msg),
        !s1.synced_of(room_id).contains(user_id),
    ensures
        unchanged_store(s1, s2),
        acts.len() == 0,
{
}

/// A `NextEpisode` from anyone but the host is ignored silently.
pub proof fn lemma_next_episode_non_host(
    s1: RoomManager,
    s2: RoomManager,
    acts: Seq<Outbound>,
    room_id: u128,
    user_id: i64,
    username: Seq<char>,
    now_ms: u64,
)
    requires
        message_effect(
            s1,
            s2,
            acts,
            room_id,
            user_id,
            username,
            WsMessage::NextEpisode,
            now_ms,
        ),
        s1.rooms().dom().contains(room_id) ==> s1.rooms()[room_id]@.host_user_id != user_id,
    ensures
        unchanged_store(s1, s2),
        acts.len() == 0,
{
}

/// `AllReady` is fanned out on a `Ready` frame iff, at that moment,
/// every connected user of the room is in the ready set (the sender
/// included) and at least one user is connected.
pub proof fn lemma_all_ready_iff(
    s1: RoomManager,
    s2: RoomManager,
    acts: Seq<Outbound>,
    room_id: u128,
    user_id: i64,
    username: Seq<char>,
    sender: i64,
    now_ms: u64,
)
    requires
        message_effect(
            s1,
            s2,
            acts,
            room_id,
            user_id,
            username,
            WsMessage::Ready { user_id: sender },
            now_ms,
        ),
    ensures
        (exists|i: int|
            0 <= i < acts.len() && (#[trigger] acts[i] matches Outbound::Broadcast(m)
                && m is AllReady)) <==> ready_consensus(s1, room_id, user_id),
{
    if ready_consensus(s1, room_id, user_id) {
        assert(acts[0] matches Outbound::Broadcast(m) && m is AllReady);
    }
}

/// When the leaving user was the last holdout of a pending ready
/// consensus, the disconnect itself triggers the `AllReady`.
pub proof fn lemma_disconnect_reaches_consensus(
    s1: RoomManager,
    s2: RoomManager,
    acts: Seq<Outbound>,
    room_id: u128,
    user_id: i64,
    username: Seq<char>,
    now_ms: u64,
)
    requires
        disconnect_effect(s1, s2, acts, room_id, user_id, username, now_ms),
        disc_consensus(s1, room_id, user_id, now_ms),
    ensures
        exists|i: int|
            0 <= i < acts.len() && (#[trigger] acts[i] matches Outbound::Broadcast(m)
                && m is AllReady),
{
    let paused = s1.rooms().dom().contains(room_id) && disc_pause_needed(
        s1.rooms()[room_id]@,
    );
    let at = if paused { 1 as int } else { 0 };
    assert(acts[at] matches Outbound::Broadcast(m) && m is AllReady);
}

} // verus!
