//! Room data model for the watch-party coordinator.
//!
//! A room is an in-memory record of one synchronized playback session:
//! who hosts it, who may join, what is playing, and the authoritative
//! playback position. While a room is `Watching`, the effective position
//! is an affine function of wall-clock time; every transition out of
//! `Watching` snapshots that effective position so later reads return
//! the correct stopped position.
//!
//! Contracts are stated over [`RoomModel`], the mathematical view of a
//! room: strings become `Seq<char>`, membership lists become `Seq` or
//! `Set`, and each state transition is a function on models.

use vstd::prelude::*;

verus! {

/// Who may join a room.
#[derive(Clone, Copy, PartialEq, Eq, Structural, Debug)]
pub enum RoomAccessMode {
    Everyone,
    InviteOnly,
    ByUser,
}

/// Playback state of a room.
#[derive(Clone, Copy, PartialEq, Eq, Structural, Debug)]
pub enum RoomStatus {
    Idle,
    Watching,
    Paused,
    Buffering,
}

/// One member of a room.
#[derive(Debug)]
pub struct Participant {
    pub user_id: i64,
    pub username: String,
    pub thumb: String,
    /// Wall-clock time in ms since epoch at which the participant joined.
    pub joined_at: u64,
}

impl Clone for Participant {
    fn clone(&self) -> (res: Self)
        ensures
            res == *self,
    {
        Participant {
            user_id: self.user_id,
            username: self.username.clone(),
            thumb: self.thumb.clone(),
            joined_at: self.joined_at,
        }
    }
}

/// Mathematical view of a participant.
pub struct ParticipantModel {
    pub user_id: i64,
    pub username: Seq<char>,
    pub thumb: Seq<char>,
    pub joined_at: u64,
}

impl View for Participant {
    type V = ParticipantModel;

    open spec fn view(&self) -> ParticipantModel {
        ParticipantModel {
            user_id: self.user_id,
            username: self.username@,
            thumb: self.thumb@,
            joined_at: self.joined_at,
        }
    }
}

/// The full state of one watch-party room.
#[derive(Clone, Debug)]
pub struct RoomState {
    /// Room identifier, assigned at creation, immutable.
    pub id: u128,
    pub name: Option<String>,
    /// The unique participant allowed to close the room, kick users,
    /// advance the queue and push authoritative sync responses.
    pub host_user_id: i64,
    pub host_username: String,
    /// Identifier of the loaded media item; empty means no media loaded.
    pub media_id: String,
    pub media_title: Option<String>,
    /// Authoritative playback position in ms as of `last_update_ms`.
    pub position_ms: u64,
    pub duration_ms: u64,
    pub status: RoomStatus,
    pub access_mode: RoomAccessMode,
    /// Present iff `access_mode` is `InviteOnly`.
    pub invite_code: Option<String>,
    /// Users explicitly granted access (`ByUser` configuration and
    /// invite-code redemption).
    pub allowed_user_ids: Vec<i64>,
    pub participants: Vec<Participant>,
    /// Media ids queued to play after the current one.
    pub episode_queue: Vec<String>,
    /// Users who have signalled they are buffered and ready to resume.
    pub ready_users: Vec<i64>,
    /// Users currently buffering.
    pub buffering_users: Vec<i64>,
    /// Wall-clock time in ms at which `position_ms` was last snapshotted.
    pub last_update_ms: u64,
    pub created_at: u64,
}

/// Mathematical view of a room.
pub struct RoomModel {
    pub id: u128,
    pub name: Option<Seq<char>>,
    pub host_user_id: i64,
    pub host_username: Seq<char>,
    pub media_id: Seq<char>,
    pub media_title: Option<Seq<char>>,
    pub position_ms: u64,
    pub duration_ms: u64,
    pub status: RoomStatus,
    pub access_mode: RoomAccessMode,
    pub invite_code: Option<Seq<char>>,
    pub allowed_user_ids: Seq<i64>,
    pub participants: Seq<ParticipantModel>,
    pub episode_queue: Seq<Seq<char>>,
    pub ready_users: Set<i64>,
    pub buffering_users: Set<i64>,
    pub last_update_ms: u64,
    pub created_at: u64,
}

impl View for RoomState {
    type V = RoomModel;

    open spec fn view(&self) -> RoomModel {
        RoomModel {
            id: self.id,
            name: self.name.deep_view(),
            host_user_id: self.host_user_id,
            host_username: self.host_username@,
            media_id: self.media_id@,
            media_title: self.media_title.deep_view(),
            position_ms: self.position_ms,
            duration_ms: self.duration_ms,
            status: self.status,
            access_mode: self.access_mode,
            invite_code: self.invite_code.deep_view(),
            allowed_user_ids: self.allowed_user_ids@,
            participants: self.participants@.map(|i: int, p: Participant| p@),
            episode_queue: self.episode_queue.deep_view(),
            ready_users: self.ready_users@.to_set(),
            buffering_users: self.buffering_users@.to_set(),
            last_update_ms: self.last_update_ms,
            created_at: self.created_at,
        }
    }
}

/// Saturating subtraction on u64, at the spec level.
pub open spec fn sub_sat(a: u64, b: u64) -> u64 {
    if a >= b {
        (a - b) as u64
    } else {
        0
    }
}

/// Saturating addition on u64, at the spec level.
pub open spec fn add_sat(a: u64, b: u64) -> u64 {
    if a + b > u64::MAX {
        u64::MAX
    } else {
        (a + b) as u64
    }
}

/// The effective playback position of a room at wall-clock time `now`:
/// while `Watching` the position advances with the clock; in every other
/// state the snapshotted position is returned unchanged.
pub open spec fn eff_position(r: RoomModel, now: u64) -> u64 {
    if r.status == RoomStatus::Watching {
        add_sat(r.position_ms, sub_sat(now, r.last_update_ms))
    } else {
        r.position_ms
    }
}

/// The user ids of a room's participants, in joining order.
pub open spec fn participant_ids(r: RoomModel) -> Seq<i64> {
    r.participants.map(|i: int, p: ParticipantModel| p.user_id)
}

/// Whether `uid` is currently a participant of the room.
pub open spec fn is_participant(r: RoomModel, uid: i64) -> bool {
    participant_ids(r).contains(uid)
}

/// Whether `uid` may join the room: the host always may; `Everyone`
/// admits anyone; `InviteOnly` admits participants and explicitly
/// allowed users; `ByUser` admits explicitly allowed users only.
pub open spec fn may_join(r: RoomModel, uid: i64) -> bool {
    ||| r.host_user_id == uid
    ||| r.access_mode == RoomAccessMode::Everyone
    ||| (r.access_mode == RoomAccessMode::InviteOnly && (is_participant(r, uid)
        || r.allowed_user_ids.contains(uid)))
    ||| (r.access_mode == RoomAccessMode::ByUser && r.allowed_user_ids.contains(uid))
}

/// Whether `uid` sees the room in a room listing. Same rule as joining.
pub open spec fn visible_to(r: RoomModel, uid: i64) -> bool {
    may_join(r, uid)
}

/// Setting the playback position: the sent position is authoritative
/// and the snapshot clock resets.
pub open spec fn update_position_m(r: RoomModel, position_ms: u64, now: u64) -> RoomModel {
    RoomModel { position_ms, last_update_ms: now, ..r }
}

/// A status change at time `now`. Leaving `Watching` first snapshots the
/// effective position, so reads from the new state return the position
/// at which playback stopped.
pub open spec fn set_status_m(r: RoomModel, status: RoomStatus, now: u64) -> RoomModel {
    RoomModel {
        position_ms: if r.status == RoomStatus::Watching && status != RoomStatus::Watching {
            eff_position(r, now)
        } else {
            r.position_ms
        },
        status,
        last_update_ms: now,
        ..r
    }
}

/// Loading a media item: position resets to 0, the room returns to
/// `Idle`, and the ready/buffering sets are cleared.
pub open spec fn set_media_m(
    r: RoomModel,
    media_id: Seq<char>,
    media_title: Option<Seq<char>>,
    duration_ms: u64,
    now: u64,
) -> RoomModel {
    RoomModel {
        media_id,
        media_title,
        duration_ms,
        position_ms: 0,
        status: RoomStatus::Idle,
        ready_users: Set::empty(),
        buffering_users: Set::empty(),
        last_update_ms: now,
        ..r
    }
}

/// A `MediaChange` message: a no-op when the media id is unchanged,
/// otherwise a full media load.
pub open spec fn media_change_m(
    r: RoomModel,
    media_id: Seq<char>,
    media_title: Option<Seq<char>>,
    duration_ms: u64,
    now: u64,
) -> RoomModel {
    if r.media_id == media_id {
        r
    } else {
        set_media_m(r, media_id, media_title, duration_ms, now)
    }
}

/// Advancing to the next queued episode: the queue head becomes the
/// current media, position resets, the room returns to `Idle` and the
/// ready/buffering sets are cleared. Title and duration keep their old
/// values until the next `MediaChange` refreshes them.
pub open spec fn next_episode_m(r: RoomModel, now: u64) -> RoomModel {
    RoomModel {
        media_id: r.episode_queue[0],
        episode_queue: r.episode_queue.drop_first(),
        position_ms: 0,
        status: RoomStatus::Idle,
        ready_users: Set::empty(),
        buffering_users: Set::empty(),
        last_update_ms: now,
        ..r
    }
}

/// Moving the queue entry at `from` to position `to` (a no-op when
/// either index is out of range).
pub open spec fn queue_reorder_m(r: RoomModel, from: int, to: int) -> RoomModel {
    if 0 <= from < r.episode_queue.len() && 0 <= to < r.episode_queue.len() {
        RoomModel {
            episode_queue: r.episode_queue.remove(from).insert(to, r.episode_queue[from]),
            ..r
        }
    } else {
        r
    }
}

/// A heartbeat snapshot at time `now`: the effective position becomes
/// the stored position and the snapshot clock resets, bounding drift.
pub open spec fn heartbeat_m(r: RoomModel, now: u64) -> RoomModel {
    RoomModel { position_ms: eff_position(r, now), last_update_ms: now, ..r }
}

/// Granting a user access: the id joins `allowed_user_ids` unless it is
/// already there.
pub open spec fn grant_access_m(r: RoomModel, uid: i64) -> RoomModel {
    if r.allowed_user_ids.contains(uid) {
        r
    } else {
        RoomModel { allowed_user_ids: r.allowed_user_ids.push(uid), ..r }
    }
}

/// Adding a participant: appended unless a participant with the same
/// user id is already present.
pub open spec fn add_participant_m(r: RoomModel, p: ParticipantModel) -> RoomModel {
    if participant_ids(r).contains(p.user_id) {
        r
    } else {
        RoomModel { participants: r.participants.push(p), ..r }
    }
}

/// Removing a participant by user id.
pub open spec fn remove_participant_m(r: RoomModel, uid: i64) -> RoomModel {
    RoomModel {
        participants: r.participants.filter(|p: ParticipantModel| p.user_id != uid),
        ..r
    }
}

/// Marking a user ready.
pub open spec fn mark_ready_m(r: RoomModel, uid: i64) -> RoomModel {
    RoomModel { ready_users: r.ready_users.insert(uid), ..r }
}

/// Clearing all ready marks.
pub open spec fn clear_ready_m(r: RoomModel) -> RoomModel {
    RoomModel { ready_users: Set::empty(), ..r }
}

/// A user's ready mark being dropped (on disconnect).
pub open spec fn remove_ready_m(r: RoomModel, uid: i64) -> RoomModel {
    RoomModel { ready_users: r.ready_users.remove(uid), ..r }
}

/// A user entering the buffering set.
pub open spec fn add_buffering_m(r: RoomModel, uid: i64) -> RoomModel {
    RoomModel { buffering_users: r.buffering_users.insert(uid), ..r }
}

/// A user leaving the buffering set.
pub open spec fn remove_buffering_m(r: RoomModel, uid: i64) -> RoomModel {
    RoomModel { buffering_users: r.buffering_users.remove(uid), ..r }
}

/// Appending a media id to the episode queue.
pub open spec fn queue_add_m(r: RoomModel, media_id: Seq<char>) -> RoomModel {
    RoomModel { episode_queue: r.episode_queue.push(media_id), ..r }
}

/// Removing the queue entry at `index` (a no-op when out of range).
pub open spec fn queue_remove_m(r: RoomModel, index: int) -> RoomModel {
    if 0 <= index < r.episode_queue.len() {
        RoomModel {
            episode_queue: r.episode_queue.remove(index),
            ..r
        }
    } else {
        r
    }
}

/// An element is in a filtered sequence iff it is in the original and
/// satisfies the predicate.
pub proof fn lemma_filter_contains_iff<A>(s: Seq<A>, pred: spec_fn(A) -> bool, y: A)
    ensures
        s.filter(pred).contains(y) <==> (s.contains(y) && pred(y)),
    decreases s.len(),
{
    reveal(Seq::filter);
    if s.len() > 0 {
        lemma_filter_contains_iff(s.drop_last(), pred, y);
        let sd = s.drop_last();
        let f = s.filter(pred);
        let fd = sd.filter(pred);
        if s.contains(y) && pred(y) {
            let i = choose|i: int| 0 <= i < s.len() && s[i] == y;
            if i < s.len() - 1 {
                assert(sd[i] == y);
                assert(sd.contains(y));
                if pred(s.last()) {
                    let j = choose|j: int| 0 <= j < fd.len() && fd[j] == y;
                    assert(f[j] == y);
                }
                assert(f.contains(y));
            } else {
                assert(f[f.len() - 1] == y);
                assert(f.contains(y));
            }
        }
        if f.contains(y) {
            let i = choose|i: int| 0 <= i < f.len() && f[i] == y;
            if pred(s.last()) {
                if i < f.len() - 1 {
                    assert(fd[i] == y);
                    assert(fd.contains(y));
                    let j = choose|j: int| 0 <= j < sd.len() && sd[j] == y;
                    assert(s[j] == y);
                    assert(s.contains(y));
                } else {
                    assert(y == s.last());
                    assert(s[s.len() - 1] == y);
                    assert(s.contains(y));
                }
            } else {
                assert(fd.contains(y));
                let j = choose|j: int| 0 <= j < sd.len() && sd[j] == y;
                assert(s[j] == y);
                assert(s.contains(y));
            }
        }
    }
}

/// Pushing onto a sequence inserts into its set of elements.
pub proof fn lemma_push_to_set(s: Seq<i64>, x: i64)
    ensures
        s.push(x).to_set() =~= s.to_set().insert(x),
{
    assert forall|y: i64| s.push(x).to_set().contains(y) implies s.to_set().insert(x).contains(
        y,
    ) by {
        if y != x {
            let i = choose|i: int| 0 <= i < s.push(x).len() && s.push(x)[i] == y;
            assert(s[i] == y);
            assert(s.contains(y));
        }
    }
    assert forall|y: i64| s.to_set().insert(x).contains(y) implies s.push(x).to_set().contains(
        y,
    ) by {
        if y == x {
            assert(s.push(x)[s.len() as int] == x);
            assert(s.push(x).contains(x));
        } else {
            let i = choose|i: int| 0 <= i < s.len() && s[i] == y;
            assert(s.push(x)[i] == y);
            assert(s.push(x).contains(y));
        }
    }
}

/// The predicate "is not this id".
pub open spec fn ne_id(uid: i64) -> spec_fn(i64) -> bool {
    |y: i64| y != uid
}

/// A sequence with every occurrence of one id dropped.
pub open spec fn drop_id(s: Seq<i64>, uid: i64) -> Seq<i64> {
    s.filter(ne_id(uid))
}

/// Dropping one value from a sequence removes it from its set of
/// elements.
pub proof fn lemma_filter_ne_to_set(s: Seq<i64>, x: i64)
    ensures
        drop_id(s, x).to_set() =~= s.to_set().remove(x),
{
    assert forall|z: i64|
        drop_id(s, x).to_set().contains(z) == s.to_set().remove(x).contains(z) by {
        lemma_filter_contains_iff(s, ne_id(x), z);
        assert(ne_id(x)(z) == (z != x));
    }
}

/// Membership in the participant-id projection coincides with a
/// participant entry carrying that user id.
pub proof fn lemma_is_participant_iff(rm: RoomModel, v: Seq<Participant>, uid: i64)
    requires
        rm.participants == v.map(|i: int, p: Participant| p@),
    ensures
        is_participant(rm, uid) <==> exists|j: int| 0 <= j < v.len() && v[j].user_id == uid,
{
    if is_participant(rm, uid) {
        let i = choose|i: int|
            0 <= i < participant_ids(rm).len() && participant_ids(rm)[i] == uid;
        assert(v[i].user_id == uid);
    }
    if exists|j: int| 0 <= j < v.len() && v[j].user_id == uid {
        let j = choose|j: int| 0 <= j < v.len() && v[j].user_id == uid;
        assert(participant_ids(rm)[j] == uid);
        assert(participant_ids(rm).contains(uid));
    }
}

/// Filtering participants by user id commutes with taking their views.
pub proof fn lemma_filter_map_participants(v: Seq<Participant>, uid: i64)
    ensures
        v.filter(|p: Participant| p.user_id != uid).map(|i: int, p: Participant| p@) == v.map(
            |i: int, p: Participant| p@,
        ).filter(|pm: ParticipantModel| pm.user_id != uid),
    decreases v.len(),
{
    reveal(Seq::filter);
    let view_fn = |i: int, p: Participant| p@;
    if v.len() == 0 {
        assert(v.filter(|p: Participant| p.user_id != uid).map(view_fn) =~= v.map(view_fn).filter(
            |pm: ParticipantModel| pm.user_id != uid,
        ));
    } else {
        let prefix = v.drop_last();
        lemma_filter_map_participants(prefix, uid);
        assert(v.map(view_fn).drop_last() =~= prefix.map(view_fn));
        assert(v.map(view_fn).last() == v.last()@);
        if v.last().user_id != uid {
            assert(v.filter(|p: Participant| p.user_id != uid) == prefix.filter(
                |p: Participant| p.user_id != uid,
            ).push(v.last()));
            assert(prefix.filter(|p: Participant| p.user_id != uid).push(v.last()).map(view_fn)
                =~= prefix.filter(|p: Participant| p.user_id != uid).map(view_fn).push(
                v.last()@,
            ));
        }
    }
}

/// The effective playback position, computed on a room record.
pub fn eff_position_of(room: &RoomState, now_ms: u64) -> (p: u64)
    ensures
        p == eff_position(room@, now_ms),
{
    if room.status == RoomStatus::Watching {
        let elapsed: u64 = if now_ms >= room.last_update_ms {
            now_ms - room.last_update_ms
        } else {
            0
        };
        if room.position_ms <= u64::MAX - elapsed {
            room.position_ms + elapsed
        } else {
            u64::MAX
        }
    } else {
        room.position_ms
    }
}

/// A `MediaChange` that actually changes the media id resets the room:
/// position zero, `Idle`, and empty ready/buffering sets.
pub proof fn lemma_media_change_resets(
    r: RoomModel,
    media_id: Seq<char>,
    media_title: Option<Seq<char>>,
    duration_ms: u64,
    now: u64,
)
    requires
        r.media_id != media_id,
    ensures
        media_change_m(r, media_id, media_title, duration_ms, now).position_ms == 0,
        media_change_m(r, media_id, media_title, duration_ms, now).status == RoomStatus::Idle,
        media_change_m(r, media_id, media_title, duration_ms, now).ready_users =~= Set::<
            i64,
        >::empty(),
        media_change_m(r, media_id, media_title, duration_ms, now).buffering_users =~= Set::<
            i64,
        >::empty(),
        media_change_m(r, media_id, media_title, duration_ms, now).media_id == media_id,
{
}

/// While a room stays in `Watching`, the effective position never
/// decreases as wall-clock time advances.
pub proof fn lemma_position_monotone(r: RoomModel, t1: u64, t2: u64)
    requires
        r.status == RoomStatus::Watching,
        t1 <= t2,
    ensures
        eff_position(r, t1) <= eff_position(r, t2),
{
}

/// Any transition out of `Watching` stores exactly the effective
/// position computed at the moment of the transition, so no playback
/// time is lost or invented by stopping.
pub proof fn lemma_snapshot_exact(r: RoomModel, status: RoomStatus, now: u64)
    requires
        r.status == RoomStatus::Watching,
        status != RoomStatus::Watching,
    ensures
        set_status_m(r, status, now).position_ms == eff_position(r, now),
        eff_position(set_status_m(r, status, now), now) == eff_position(r, now),
{
}

/// Applying the same `MediaChange` twice in a row (at any two times)
/// leaves the room exactly as applying it once: the second application
/// sees an unchanged media id and is a no-op.
pub proof fn lemma_media_change_idempotent(
    r: RoomModel,
    media_id: Seq<char>,
    media_title: Option<Seq<char>>,
    duration_ms: u64,
    t1: u64,
    t2: u64,
)
    ensures
        media_change_m(
            media_change_m(r, media_id, media_title, duration_ms, t1),
            media_id,
            media_title,
            duration_ms,
            t2,
        ) == media_change_m(r, media_id, media_title, duration_ms, t1),
{
}

/// The room state after a `Pause` at position `p`: the sent position is
/// taken as authoritative, then the status change snapshots it.
pub open spec fn pause_m(r: RoomModel, p: u64, now: u64) -> RoomModel {
    set_status_m(update_position_m(r, p, now), RoomStatus::Paused, now)
}

/// The room state after an accepted `Play` at position `p` (nobody left
/// buffering): position update, then transition to `Watching`.
pub open spec fn play_m(r: RoomModel, p: u64, now: u64) -> RoomModel {
    set_status_m(update_position_m(r, p, now), RoomStatus::Watching, now)
}

/// A `Pause` at position `p` followed immediately (same wall-clock
/// instant, no other mutation) by a `Play` at position `p` leaves the
/// stored position exactly `p`: both operations snapshot.
pub proof fn lemma_pause_play_position(r: RoomModel, p: u64, now: u64)
    ensures
        play_m(pause_m(r, p, now), p, now).position_ms == p,
        pause_m(r, p, now).position_ms == p,
{
}

} // verus!
