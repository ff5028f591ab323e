//! The room store: a concurrent map of room id to room record, plus the
//! invite-code index, the synced-users index and the connection registry.
//!
//! The maps themselves are `dashmap::DashMap` values used through a small
//! trusted layer; every operation on room state above that layer is
//! verified. Contracts are stated over the `Map` views that the trusted
//! layer names.

use vstd::prelude::*;

use crate::room::{
    add_participant_m, grant_access_m, is_participant, lemma_filter_map_participants,
    lemma_is_participant_iff, may_join, media_change_m, next_episode_m, participant_ids,
    queue_add_m, queue_remove_m, remove_participant_m, set_media_m, set_status_m,
    update_position_m, add_buffering_m, clear_ready_m, eff_position, lemma_filter_ne_to_set,
    lemma_push_to_set, mark_ready_m, remove_buffering_m, remove_ready_m, heartbeat_m,
    visible_to, drop_id,
    Participant,
    RoomAccessMode, RoomModel, RoomState, RoomStatus,
};

verus! {

#[verifier::external_type_specification]
#[verifier::external_body]
#[verifier::reject_recursive_types(K)]
#[verifier::reject_recursive_types(V)]
#[verifier::reject_recursive_types(S)]
pub struct ExDashMap<K, V, S>(dashmap::DashMap<K, V, S>);

/// The entries a room map holds.
pub uninterp spec fn room_entries(m: dashmap::DashMap<u128, RoomState>) -> Map<u128, RoomState>;

/// The entries an invite-code index holds.
pub uninterp spec fn code_entries(m: dashmap::DashMap<String, u128>) -> Map<Seq<char>, u128>;

/// The entries a per-room user-id list map holds.
pub uninterp spec fn id_list_entries(m: dashmap::DashMap<u128, Vec<i64>>) -> Map<u128, Seq<i64>>;

/// The empty room map.
pub open spec fn no_rooms() -> Map<u128, RoomState> {
    Map::empty()
}

/// The empty invite-code index.
pub open spec fn no_codes() -> Map<Seq<char>, u128> {
    Map::empty()
}

/// The empty user-id list map.
pub open spec fn no_id_lists() -> Map<u128, Seq<i64>> {
    Map::empty()
}

/// Relies on dashmap::DashMap::get: returns the value stored under the
/// key, if any (cloned out of the read guard).
#[verifier::external_body]
pub(crate) fn dm_rooms_get(m: &dashmap::DashMap<u128, RoomState>, id: u128) -> (r: Option<
    RoomState,
>)
    ensures
        r == if room_entries(*m).dom().contains(id) {
            Some(room_entries(*m)[id])
        } else {
            None::<RoomState>
        },
{
    m.get(&id).map(|e| e.value().clone())
}

/// Relies on dashmap::DashMap::insert: stores the value under the key,
/// replacing any prior value.
#[verifier::external_body]
pub(crate) fn dm_rooms_put(m: &mut dashmap::DashMap<u128, RoomState>, id: u128, r: RoomState)
    ensures
        room_entries(*final(m)) == room_entries(*old(m)).insert(id, r),
{
    m.insert(id, r);
}

/// Relies on dashmap::DashMap::remove: deletes the entry under the key.
#[verifier::external_body]
pub(crate) fn dm_rooms_del(m: &mut dashmap::DashMap<u128, RoomState>, id: u128)
    ensures
        room_entries(*final(m)) == room_entries(*old(m)).remove(id),
{
    m.remove(&id);
}

/// Relies on dashmap::DashMap::iter: yields every entry exactly once,
/// in no particular order.
#[verifier::external_body]
pub(crate) fn dm_rooms_keys(m: &dashmap::DashMap<u128, RoomState>) -> (r: Vec<u128>)
    ensures
        r@.no_duplicates(),
        forall|id: u128| #[trigger] r@.contains(id) <==> room_entries(*m).dom().contains(id),
{
    m.iter().map(|e| *e.key()).collect()
}

/// Relies on dashmap::DashMap::get: returns the value stored under the
/// key, if any.
#[verifier::external_body]
pub(crate) fn dm_codes_get(m: &dashmap::DashMap<String, u128>, code: &str) -> (r: Option<u128>)
    ensures
        r == if code_entries(*m).dom().contains(code@) {
            Some(code_entries(*m)[code@])
        } else {
            None::<u128>
        },
{
    m.get(code).map(|e| *e.value())
}

/// Relies on dashmap::DashMap::insert: stores the value under the key,
/// replacing any prior value.
#[verifier::external_body]
pub(crate) fn dm_codes_put(m: &mut dashmap::DashMap<String, u128>, code: String, id: u128)
    ensures
        code_entries(*final(m)) == code_entries(*old(m)).insert(code@, id),
{
    m.insert(code, id);
}

/// Relies on dashmap::DashMap::remove: deletes the entry under the key.
#[verifier::external_body]
pub(crate) fn dm_codes_del(m: &mut dashmap::DashMap<String, u128>, code: &str)
    ensures
        code_entries(*final(m)) == code_entries(*old(m)).remove(code@),
{
    m.remove(code);
}

/// Relies on dashmap::DashMap::get: returns the value stored under the
/// key, if any (cloned out of the read guard).
#[verifier::external_body]
pub(crate) fn dm_ids_get(m: &dashmap::DashMap<u128, Vec<i64>>, id: u128) -> (r: Option<Vec<i64>>)
    ensures
        r matches Some(v) ==> id_list_entries(*m).dom().contains(id) && v@ == id_list_entries(*m)[id],
        r is None ==> !id_list_entries(*m).dom().contains(id),
{
    m.get(&id).map(|e| e.value().clone())
}

/// Relies on dashmap::DashMap::insert: stores the value under the key,
/// replacing any prior value.
#[verifier::external_body]
pub(crate) fn dm_ids_put(m: &mut dashmap::DashMap<u128, Vec<i64>>, id: u128, v: Vec<i64>)
    ensures
        id_list_entries(*final(m)) == id_list_entries(*old(m)).insert(id, v@),
{
    m.insert(id, v);
}

/// Relies on dashmap::DashMap::remove: deletes the entry under the key.
#[verifier::external_body]
pub(crate) fn dm_ids_del(m: &mut dashmap::DashMap<u128, Vec<i64>>, id: u128)
    ensures
        id_list_entries(*final(m)) == id_list_entries(*old(m)).remove(id),
{
    m.remove(&id);
}

/// Relies on dashmap::DashMap::new: creates an empty map.
#[verifier::external_body]
pub(crate) fn dm_rooms_new() -> (m: dashmap::DashMap<u128, RoomState>)
    ensures
        room_entries(m) == no_rooms(),
{
    dashmap::DashMap::new()
}

/// Relies on dashmap::DashMap::new: creates an empty map.
#[verifier::external_body]
pub(crate) fn dm_codes_new() -> (m: dashmap::DashMap<String, u128>)
    ensures
        code_entries(m) == no_codes(),
{
    dashmap::DashMap::new()
}

/// Relies on dashmap::DashMap::new: creates an empty map.
#[verifier::external_body]
pub(crate) fn dm_ids_new() -> (m: dashmap::DashMap<u128, Vec<i64>>)
    ensures
        id_list_entries(m) == no_id_lists(),
{
    dashmap::DashMap::new()
}

/// Relies on dashmap::DashMap::contains_key: whether the key is present.
#[verifier::external_body]
pub(crate) fn dm_rooms_has(m: &dashmap::DashMap<u128, RoomState>, id: u128) -> (r: bool)
    ensures
        r == room_entries(*m).dom().contains(id),
{
    m.contains_key(&id)
}

/// Relies on uuid::Uuid::new_v4: a fresh random 128-bit identifier.
/// Nothing is assumed of its value.
#[verifier::external_body]
pub(crate) fn fresh_uuid128() -> u128 {
    uuid::Uuid::new_v4().as_u128()
}

/// Format the top 32 bits of a random value as 8 uppercase hexadecimal
/// characters, the shape of an invite code.
fn code_from_bits(n: u128) -> (s: String)
    ensures
        s@.len() == 8,
        forall|i: int| 0 <= i < 8 ==> crate::strutil::is_code_char(#[trigger] s@[i]),
{
    let mut s = String::new();
    let mut k: usize = 0;
    while k < 8
        invariant
            0 <= k <= 8,
            s@.len() == k,
            forall|i: int| 0 <= i < k ==> crate::strutil::is_code_char(#[trigger] s@[i]),
        decreases 8 - k,
    {
        let shift: u32 = 124 - 4 * (k as u32);
        let nib: u8 = ((n >> shift) % 16) as u8;
        crate::strutil::push_char(&mut s, crate::strutil::hex_upper(nib));
        k = k + 1;
    }
    s
}

/// Whether some participant of the list carries the given user id.
fn participants_contain(v: &Vec<Participant>, uid: i64) -> (r: bool)
    ensures
        r == exists|j: int| 0 <= j < v@.len() && v@[j].user_id == uid,
{
    let mut i: usize = 0;
    while i < v.len()
        invariant
            0 <= i <= v@.len(),
            forall|j: int| 0 <= j < i ==> v@[j].user_id != uid,
        decreases v@.len() - i,
    {
        if v[i].user_id == uid {
            return true;
        }
        i = i + 1;
    }
    false
}

/// The concurrent store of all active rooms.
pub struct RoomManager {
    pub rooms: dashmap::DashMap<u128, RoomState>,
    pub connections: dashmap::DashMap<u128, Vec<i64>>,
    pub synced_users: dashmap::DashMap<u128, Vec<i64>>,
    pub invite_codes: dashmap::DashMap<String, u128>,
}

/// Well-formedness of a room record held under key `id`.
pub open spec fn room_wf(rm: RoomModel, id: u128) -> bool {
    &&& rm.id == id
    &&& (rm.access_mode == RoomAccessMode::InviteOnly <==> rm.invite_code is Some)
    &&& (rm.invite_code matches Some(c) ==> c.len() == 8)
    &&& rm.participants.len() > 0
}

/// Well-formedness of a room map and its invite-code index: every room
/// is well formed under its key; a room's invite code is in the index,
/// pointing back at the room; and every index entry points at an
/// existing room carrying that code. The last two give: for
/// `InviteOnly` rooms, the invite code is in the index iff the room
/// exists.
pub open spec fn wf_maps(rooms: Map<u128, RoomState>, codes: Map<Seq<char>, u128>) -> bool {
    &&& forall|id: u128| #![trigger rooms.dom().contains(id)]
        rooms.dom().contains(id) ==> room_wf(rooms[id]@, id)
    &&& forall|id: u128| #![trigger rooms.dom().contains(id)]
        rooms.dom().contains(id) && rooms[id]@.invite_code is Some
            ==> codes.dom().contains(rooms[id]@.invite_code.unwrap())
            && codes[rooms[id]@.invite_code.unwrap()] == id
    &&& forall|c: Seq<char>| #![trigger codes.dom().contains(c)]
        codes.dom().contains(c) ==> rooms.dom().contains(codes[c])
            && rooms[codes[c]]@.invite_code == Some(c)
}

/// Two room maps that agree everywhere except possibly at `id`, with
/// equal domains.
pub open spec fn same_except(a: Map<u128, RoomState>, b: Map<u128, RoomState>, id: u128) -> bool {
    &&& b.dom() =~= a.dom()
    &&& forall|j: u128| #![auto] a.dom().contains(j) && j != id ==> b[j] == a[j]
}

/// An in-place room update that cannot disturb store well-formedness:
/// identity, access mode and invite code are untouched, and the room
/// keeps at least one participant.
pub open spec fn keeps_room_shape(a: RoomModel, b: RoomModel) -> bool {
    &&& b.id == a.id
    &&& b.access_mode == a.access_mode
    &&& b.invite_code == a.invite_code
    &&& b.participants.len() > 0
}

/// Replacing one room by a shape-preserving update keeps the store well
/// formed.
pub proof fn lemma_wf_update(
    rooms1: Map<u128, RoomState>,
    rooms2: Map<u128, RoomState>,
    codes: Map<Seq<char>, u128>,
    id: u128,
)
    requires
        wf_maps(rooms1, codes),
        same_except(rooms1, rooms2, id),
        rooms2.dom().contains(id) ==> rooms1.dom().contains(id) && keeps_room_shape(
            rooms1[id]@,
            rooms2[id]@,
        ),
    ensures
        wf_maps(rooms2, codes),
{
    assert forall|id2: u128| #![trigger rooms2.dom().contains(id2)]
        rooms2.dom().contains(id2) implies room_wf(rooms2[id2]@, id2) && (
        rooms2[id2]@.invite_code is Some ==> codes.dom().contains(rooms2[id2]@.invite_code.unwrap())
            && codes[rooms2[id2]@.invite_code.unwrap()] == id2) by {
        assert(rooms1.dom().contains(id2));
    }
    assert forall|c: Seq<char>| #![trigger codes.dom().contains(c)]
        codes.dom().contains(c) implies rooms2.dom().contains(codes[c])
        && rooms2[codes[c]]@.invite_code == Some(c) by {
        assert(rooms1.dom().contains(codes[c]));
        assert(rooms1[codes[c]]@.invite_code == Some(c));
        if codes[c] != id {
            assert(rooms2[codes[c]] == rooms1[codes[c]]);
        }
    }
    assert(wf_maps(rooms2, codes));
}

/// Whether a vector contains a value.
pub fn vec_contains_i64(v: &Vec<i64>, x: i64) -> (r: bool)
    ensures
        r == v@.contains(x),
{
    let mut i: usize = 0;
    while i < v.len()
        invariant
            0 <= i <= v@.len(),
            forall|j: int| 0 <= j < i ==> v@[j] != x,
        decreases v@.len() - i,
    {
        if v[i] == x {
            return true;
        }
        i = i + 1;
    }
    false
}

/// Append a value unless it is already present.
pub fn push_unique_i64(v: &mut Vec<i64>, x: i64)
    ensures
        final(v)@ == if old(v)@.contains(x) {
            old(v)@
        } else {
            old(v)@.push(x)
        },
{
    if !vec_contains_i64(v, x) {
        v.push(x);
    }
}

/// Remove every participant entry carrying the given user id.
fn remove_participants_with_id(v: &mut Vec<Participant>, uid: i64)
    ensures
        final(v)@ == old(v)@.filter(|p: Participant| p.user_id != uid),
{
    let mut out: Vec<Participant> = Vec::new();
    let mut i: usize = 0;
    while i < v.len()
        invariant
            0 <= i <= v@.len(),
            out@ == v@.subrange(0, i as int).filter(|p: Participant| p.user_id != uid),
        decreases v@.len() - i,
    {
        proof {
            reveal(Seq::filter);
            assert(v@.subrange(0, i + 1 as int).drop_last() =~= v@.subrange(0, i as int));
        }
        if v[i].user_id != uid {
            let p = v[i].clone();
            proof {
                assert(p == v@[i as int]);
            }
            out.push(p);
        }
        i = i + 1;
    }
    proof {
        assert(v@.subrange(0, v@.len() as int) =~= v@);
    }
    *v = out;
}

/// Whether every id of `sub` also occurs in `sup`.
fn all_ids_in(sub: &Vec<i64>, sup: &Vec<i64>) -> (r: bool)
    ensures
        r == (forall|u: i64| #[trigger] sub@.contains(u) ==> sup@.contains(u)),
{
    let mut i: usize = 0;
    while i < sub.len()
        invariant
            0 <= i <= sub@.len(),
            forall|j: int| 0 <= j < i ==> #[trigger] sup@.contains(sub@[j]),
        decreases sub@.len() - i,
    {
        if !vec_contains_i64(sup, sub[i]) {
            proof {
                assert(sub@.contains(sub@[i as int]));
            }
            return false;
        }
        i = i + 1;
    }
    proof {
        assert forall|u: i64| #[trigger] sub@.contains(u) implies sup@.contains(u) by {
            let j = choose|j: int| 0 <= j < sub@.len() && sub@[j] == u;
            assert(sup@.contains(sub@[j]));
        }
    }
    true
}

/// Remove every occurrence of a value.
pub fn remove_all_i64(v: &mut Vec<i64>, x: i64)
    ensures
        final(v)@ == drop_id(old(v)@, x),
{
    let mut out: Vec<i64> = Vec::new();
    let mut i: usize = 0;
    while i < v.len()
        invariant
            0 <= i <= v@.len(),
            out@ == drop_id(v@.subrange(0, i as int), x),
        decreases v@.len() - i,
    {
        proof {
            reveal(Seq::filter);
            assert(v@.subrange(0, i + 1 as int).drop_last() =~= v@.subrange(0, i as int));
        }
        if v[i] != x {
            out.push(v[i]);
        }
        i = i + 1;
    }
    proof {
        assert(v@.subrange(0, v@.len() as int) =~= v@);
    }
    *v = out;
}

impl RoomManager {
    /// The rooms held by the store, keyed by room id.
    pub open spec fn rooms(&self) -> Map<u128, RoomState> {
        room_entries(self.rooms)
    }

    /// The invite-code index: code to room id.
    pub open spec fn codes(&self) -> Map<Seq<char>, u128> {
        code_entries(self.invite_codes)
    }

    /// The connection registry: room id to connected user ids.
    pub open spec fn conns(&self) -> Map<u128, Seq<i64>> {
        id_list_entries(self.connections)
    }

    /// The synced-users index: room id to users who have acknowledged
    /// the room state snapshot.
    pub open spec fn synced(&self) -> Map<u128, Seq<i64>> {
        id_list_entries(self.synced_users)
    }

    /// The connected user ids of a room (empty when the room has no
    /// registry entry).
    pub open spec fn conns_of(&self, id: u128) -> Seq<i64> {
        if self.conns().dom().contains(id) {
            self.conns()[id]
        } else {
            Seq::empty()
        }
    }

    /// The synced user ids of a room.
    pub open spec fn synced_of(&self, id: u128) -> Seq<i64> {
        if self.synced().dom().contains(id) {
            self.synced()[id]
        } else {
            Seq::empty()
        }
    }

    /// Store-wide well-formedness: every room is well formed under its
    /// key; a room's invite code is in the index, pointing back at the
    /// room; and every index entry points at an existing room carrying
    /// that code. Together the last two give: for `InviteOnly` rooms,
    /// the invite code is in the index iff the room exists.
    pub open spec fn wf(&self) -> bool {
        wf_maps(self.rooms(), self.codes())
    }

    /// Create an empty store.
    pub fn new() -> (s: Self)
        ensures
            s.rooms() == no_rooms(),
            s.codes() == no_codes(),
            s.conns() == no_id_lists(),
            s.synced() == no_id_lists(),
            s.wf(),
    {
        RoomManager {
            rooms: dm_rooms_new(),
            connections: dm_ids_new(),
            synced_users: dm_ids_new(),
            invite_codes: dm_codes_new(),
        }
    }

    /// Look a room up by id.
    pub fn get_room(&self, id: u128) -> (r: Option<RoomState>)
        ensures
            r == if self.rooms().dom().contains(id) {
                Some(self.rooms()[id])
            } else {
                None::<RoomState>
            },
    {
        dm_rooms_get(&self.rooms, id)
    }

    /// Look a room id up by invite code.
    pub fn room_id_by_invite_code(&self, code: &str) -> (r: Option<u128>)
        ensures
            r == if self.codes().dom().contains(code@) {
                Some(self.codes()[code@])
            } else {
                None::<u128>
            },
    {
        dm_codes_get(&self.invite_codes, code)
    }

    /// Draw room ids until one is unused, giving up after a small bound
    /// of collisions.
    fn fresh_room_id(&self) -> (id: Option<u128>)
        ensures
            id matches Some(i) ==> !self.rooms().dom().contains(i),
            self.rooms().dom() =~= Set::<u128>::empty() ==> id is Some,
    {
        let mut tries: usize = 0;
        while tries < 16
            invariant
                tries <= 16,
                tries > 0 ==> !(self.rooms().dom() =~= Set::<u128>::empty()),
            decreases 16 - tries,
        {
            let id = fresh_uuid128();
            if !dm_rooms_has(&self.rooms, id) {
                return Some(id);
            }
            proof {
                assert(self.rooms().dom().contains(id));
            }
            tries = tries + 1;
        }
        None
    }

    /// Draw invite codes until one is unused, giving up after a small
    /// bound of collisions.
    fn fresh_code(&self) -> (code: Option<String>)
        ensures
            code matches Some(c) ==> c@.len() == 8 && !self.codes().dom().contains(c@) && (
            forall|i: int| 0 <= i < 8 ==> crate::strutil::is_code_char(#[trigger] c@[i])),
            self.codes().dom() =~= Set::<Seq<char>>::empty() ==> code is Some,
    {
        let mut tries: usize = 0;
        while tries < 16
            invariant
                tries <= 16,
                tries > 0 ==> !(self.codes().dom() =~= Set::<Seq<char>>::empty()),
            decreases 16 - tries,
        {
            let code = code_from_bits(fresh_uuid128());
            if dm_codes_get(&self.invite_codes, code.as_str()).is_none() {
                return Some(code);
            }
            proof {
                assert(self.codes().dom().contains(code@));
            }
            tries = tries + 1;
        }
        None
    }

    /// Create a room: the caller becomes the host and first participant;
    /// an `InviteOnly` room gets a fresh 8-character invite code,
    /// registered in the index (codes are drawn again on collision, and
    /// an internal error is surfaced in the vanishingly unlikely case
    /// that the random draws keep colliding).
    pub fn create_room(
        &mut self,
        name: Option<String>,
        host_user_id: i64,
        host_username: String,
        host_thumb: String,
        access_mode: RoomAccessMode,
        allowed_user_ids: Vec<i64>,
        now_ms: u64,
    ) -> (result: Result<RoomState, crate::http_error::Error>)
        requires
            old(self).wf(),
        ensures
            final(self).wf(),
            old(self).rooms().dom() =~= Set::<u128>::empty() ==> result is Ok,
            result matches Err(e) ==> e is InternalError && final(self).rooms() == old(self).rooms() && final(self).codes() == old(self).codes() && final(self).conns() == old(self).conns() && final(self).synced() == old(self).synced(),
            result matches Ok(r) ==> {
                &&& !old(self).rooms().dom().contains(r.id)
                &&& final(self).rooms() == old(self).rooms().insert(r.id, r)
                &&& final(self).conns() == old(self).conns().insert(r.id, Seq::<i64>::empty())
                &&& final(self).synced() == old(self).synced()
                &&& r@.name == name.deep_view()
                &&& r@.host_user_id == host_user_id
                &&& r@.host_username == host_username@
                &&& r@.media_id =~= Seq::<char>::empty()
                &&& r@.media_title is None
                &&& r@.position_ms == 0
                &&& r@.duration_ms == 0
                &&& r@.status == RoomStatus::Idle
                &&& r@.access_mode == access_mode
                &&& (access_mode == RoomAccessMode::InviteOnly <==> r@.invite_code is Some)
                &&& (r@.invite_code matches Some(c) ==> c.len() == 8 && (forall|i: int|
                    0 <= i < 8 ==> crate::strutil::is_code_char(#[trigger] c[i])) && !old(
                    self,
                ).codes().dom().contains(c) && final(self).codes() == old(self).codes().insert(
                    c,
                    r.id,
                ))
                &&& (r@.invite_code is None ==> final(self).codes() == old(self).codes())
                &&& r@.allowed_user_ids == allowed_user_ids@
                &&& r@.participants.len() == 1
                &&& r@.participants[0].user_id == host_user_id
                &&& r@.participants[0].username == host_username@
                &&& r@.participants[0].thumb == host_thumb@
                &&& r@.participants[0].joined_at == now_ms
                &&& r@.episode_queue.len() == 0
                &&& r@.ready_users =~= Set::<i64>::empty()
                &&& r@.buffering_users =~= Set::<i64>::empty()
                &&& r@.last_update_ms == now_ms
                &&& r@.created_at == now_ms
            },
    {
        let id_opt = self.fresh_room_id();
        let id = match id_opt {
            Some(i) => i,
            None => {
                return Err(
                    crate::http_error::Error::InternalError(
                        String::from_str("could not draw an unused room id"),
                    ),
                );
            },
        };
        let host = Participant {
            user_id: host_user_id,
            username: host_username.clone(),
            thumb: host_thumb,
            joined_at: now_ms,
        };
        let mut participants: Vec<Participant> = Vec::new();
        participants.push(host);
        let mut room = RoomState {
            id,
            name,
            host_user_id,
            host_username,
            media_id: String::new(),
            media_title: None,
            position_ms: 0,
            duration_ms: 0,
            status: RoomStatus::Idle,
            access_mode,
            invite_code: None,
            allowed_user_ids,
            participants,
            episode_queue: Vec::new(),
            ready_users: Vec::new(),
            buffering_users: Vec::new(),
            last_update_ms: now_ms,
            created_at: now_ms,
        };
        if access_mode == RoomAccessMode::InviteOnly {
            let code_opt = self.fresh_code();
            let code = match code_opt {
                Some(c) => c,
                None => {
                    proof {
                        if old(self).rooms().dom() =~= Set::<u128>::empty() {
                            assert(self.codes().dom() =~= Set::<Seq<char>>::empty()) by {
                                assert forall|c2: Seq<char>| !(#[trigger] self.codes(
                                ).dom().contains(c2)) by {
                                    if self.codes().dom().contains(c2) {
                                        assert(self.rooms().dom().contains(self.codes()[c2]));
                                    }
                                }
                            }
                            assert(false);
                        }
                    }
                    return Err(
                        crate::http_error::Error::InternalError(
                            String::from_str("could not draw an unused invite code"),
                        ),
                    );
                },
            };
            dm_codes_put(&mut self.invite_codes, code.clone(), id);
            room.invite_code = Some(code);
        }
        dm_rooms_put(&mut self.rooms, id, room);
        dm_ids_put(&mut self.connections, id, Vec::new());
        let got = dm_rooms_get(&self.rooms, id);
        let r = got.unwrap();
        proof {
            lemma_create_room_wf(
                old(self).rooms(),
                old(self).codes(),
                self.rooms(),
                self.codes(),
                id,
            );
        }
        Ok(r)
    }

    /// Store an updated room under its key. The update must keep the
    /// room's shape (identity, access mode, invite code, a nonempty
    /// participant list), so the store stays well formed.
    pub(crate) fn put_room(&mut self, room_id: u128, room: RoomState)
        requires
            old(self).wf(),
            old(self).rooms().dom().contains(room_id),
            crate::store::keeps_room_shape(old(self).rooms()[room_id]@, room@),
        ensures
            final(self).wf(),
            final(self).codes() == old(self).codes(),
            final(self).conns() == old(self).conns(),
            final(self).synced() == old(self).synced(),
            same_except(old(self).rooms(), final(self).rooms(), room_id),
            final(self).rooms().dom().contains(room_id),
            final(self).rooms()[room_id] == room,
    {
        dm_rooms_put(&mut self.rooms, room_id, room);
        proof {
            lemma_wf_update(old(self).rooms(), self.rooms(), self.codes(), room_id);
        }
    }

    /// Whether the user may join the room (false when the room does not
    /// exist): the host always may; `Everyone` admits anyone;
    /// `InviteOnly` admits participants and allowed users; `ByUser`
    /// admits allowed users only.
    pub fn can_user_join(&self, room_id: u128, user_id: i64) -> (r: bool)
        ensures
            r == (self.rooms().dom().contains(room_id) && may_join(
                self.rooms()[room_id]@,
                user_id,
            )),
    {
        let room_opt = dm_rooms_get(&self.rooms, room_id);
        match room_opt {
            None => false,
            Some(room) => {
                proof {
                    lemma_is_participant_iff(room@, room.participants@, user_id);
                }
                if room.host_user_id == user_id {
                    true
                } else {
                    match room.access_mode {
                        RoomAccessMode::Everyone => true,
                        RoomAccessMode::InviteOnly => participants_contain(
                            &room.participants,
                            user_id,
                        ) || vec_contains_i64(&room.allowed_user_ids, user_id),
                        RoomAccessMode::ByUser => vec_contains_i64(
                            &room.allowed_user_ids,
                            user_id,
                        ),
                    }
                }
            },
        }
    }

    /// Grant a user access (used when they redeem an invite code).
    pub fn grant_access(&mut self, room_id: u128, user_id: i64)
        requires
            old(self).wf(),
        ensures
            final(self).wf(),
            final(self).codes() == old(self).codes(),
            final(self).conns() == old(self).conns(),
            final(self).synced() == old(self).synced(),
            !old(self).rooms().dom().contains(room_id) ==> final(self).rooms() == old(self).rooms(),
            old(self).rooms().dom().contains(room_id) ==> same_except(
                old(self).rooms(),
                final(self).rooms(),
                room_id,
            ) && final(self).rooms().dom().contains(room_id) && final(self).rooms()[room_id]@
                == grant_access_m(old(self).rooms()[room_id]@, user_id),
    {
        let room_opt = dm_rooms_get(&self.rooms, room_id);
        if let Some(mut room) = room_opt {
            if !vec_contains_i64(&room.allowed_user_ids, user_id) {
                room.allowed_user_ids.push(user_id);
            }
            dm_rooms_put(&mut self.rooms, room_id, room);
            proof {
                lemma_wf_update(old(self).rooms(), self.rooms(), self.codes(), room_id);
            }
        }
    }

    /// Whether the user is the room's host.
    pub fn is_host(&self, room_id: u128, user_id: i64) -> (r: bool)
        ensures
            r == (self.rooms().dom().contains(room_id)
                && self.rooms()[room_id]@.host_user_id == user_id),
    {
        let room_opt = dm_rooms_get(&self.rooms, room_id);
        match room_opt {
            Some(room) => room.host_user_id == user_id,
            None => false,
        }
    }

    /// Whether the user has completed their initial sync (sent a
    /// `SyncAck`). Unsynced users are blocked from sending
    /// state-changing messages.
    pub fn is_synced(&self, room_id: u128, user_id: i64) -> (r: bool)
        ensures
            r == self.synced_of(room_id).contains(user_id),
    {
        let v_opt = dm_ids_get(&self.synced_users, room_id);
        match v_opt {
            Some(v) => vec_contains_i64(&v, user_id),
            None => false,
        }
    }

    /// Mark a user as synced after they acknowledge the room state
    /// snapshot.
    pub fn mark_synced(&mut self, room_id: u128, user_id: i64)
        ensures
            final(self).rooms() == old(self).rooms(),
            final(self).codes() == old(self).codes(),
            final(self).conns() == old(self).conns(),
            final(self).synced() == old(self).synced().insert(
                room_id,
                if old(self).synced_of(room_id).contains(user_id) {
                    old(self).synced_of(room_id)
                } else {
                    old(self).synced_of(room_id).push(user_id)
                },
            ),
    {
        let v_opt = dm_ids_get(&self.synced_users, room_id);
        let mut v = match v_opt {
            Some(v) => v,
            None => Vec::new(),
        };
        push_unique_i64(&mut v, user_id);
        dm_ids_put(&mut self.synced_users, room_id, v);
    }

    /// Register a connection for the user. A reconnect leaves a single
    /// registry entry for the pair.
    pub fn add_connection(&mut self, room_id: u128, user_id: i64)
        ensures
            final(self).rooms() == old(self).rooms(),
            final(self).codes() == old(self).codes(),
            final(self).synced() == old(self).synced(),
            final(self).conns() == old(self).conns().insert(
                room_id,
                if old(self).conns_of(room_id).contains(user_id) {
                    old(self).conns_of(room_id)
                } else {
                    old(self).conns_of(room_id).push(user_id)
                },
            ),
    {
        let v_opt = dm_ids_get(&self.connections, room_id);
        let mut v = match v_opt {
            Some(v) => v,
            None => Vec::new(),
        };
        push_unique_i64(&mut v, user_id);
        dm_ids_put(&mut self.connections, room_id, v);
    }

    /// Remove the user's connection and synced mark.
    pub fn remove_connection(&mut self, room_id: u128, user_id: i64)
        ensures
            final(self).rooms() == old(self).rooms(),
            final(self).codes() == old(self).codes(),
            !old(self).conns().dom().contains(room_id) ==> final(self).conns() == old(self).conns(),
            old(self).conns().dom().contains(room_id) ==> final(self).conns() == old(self).conns().insert(room_id, drop_id(old(self).conns_of(room_id), user_id)),
            !old(self).synced().dom().contains(room_id) ==> final(self).synced() == old(self).synced(),
            old(self).synced().dom().contains(room_id) ==> final(self).synced() == old(self).synced().insert(room_id, drop_id(old(self).synced_of(room_id), user_id)),
    {
        let conns_opt = dm_ids_get(&self.connections, room_id);
        if let Some(mut v) = conns_opt {
            remove_all_i64(&mut v, user_id);
            dm_ids_put(&mut self.connections, room_id, v);
        }
        let synced_opt = dm_ids_get(&self.synced_users, room_id);
        if let Some(mut v) = synced_opt {
            remove_all_i64(&mut v, user_id);
            dm_ids_put(&mut self.synced_users, room_id, v);
        }
    }

    /// Add a participant to the room, unless a participant with the
    /// same user id is already present.
    pub fn add_participant(&mut self, room_id: u128, participant: Participant)
        requires
            old(self).wf(),
        ensures
            final(self).wf(),
            final(self).codes() == old(self).codes(),
            final(self).conns() == old(self).conns(),
            final(self).synced() == old(self).synced(),
            !old(self).rooms().dom().contains(room_id) ==> final(self).rooms() == old(self).rooms(),
            old(self).rooms().dom().contains(room_id) ==> same_except(
                old(self).rooms(),
                final(self).rooms(),
                room_id,
            ) && final(self).rooms().dom().contains(room_id) && final(self).rooms()[room_id]@
                == add_participant_m(old(self).rooms()[room_id]@, participant@),
    {
        let room_opt = dm_rooms_get(&self.rooms, room_id);
        if let Some(mut room) = room_opt {
            proof {
                lemma_is_participant_iff(room@, room.participants@, participant.user_id);
            }
            if !participants_contain(&room.participants, participant.user_id) {
                room.participants.push(participant);
                proof {
                    assert(room@.participants =~= add_participant_m(
                        old(self).rooms()[room_id]@,
                        participant@,
                    ).participants);
                }
            }
            dm_rooms_put(&mut self.rooms, room_id, room);
            proof {
                lemma_wf_update(old(self).rooms(), self.rooms(), self.codes(), room_id);
            }
        }
    }

    /// Remove a participant. When the last participant leaves, the room
    /// is deleted together with its registry entries and its
    /// invite-code index entry.
    pub fn remove_participant(&mut self, room_id: u128, user_id: i64)
        requires
            old(self).wf(),
        ensures
            final(self).wf(),
            !old(self).rooms().dom().contains(room_id) ==> final(self).rooms() == old(self).rooms() && final(self).codes() == old(self).codes() && final(self).conns() == old(self).conns() && final(self).synced() == old(self).synced(),
            old(self).rooms().dom().contains(room_id) && remove_participant_m(
                old(self).rooms()[room_id]@,
                user_id,
            ).participants.len() > 0 ==> same_except(
                old(self).rooms(),
                final(self).rooms(),
                room_id,
            ) && final(self).rooms().dom().contains(room_id) && final(self).rooms()[room_id]@
                == remove_participant_m(old(self).rooms()[room_id]@, user_id) && final(self).codes() == old(self).codes() && final(self).conns() == old(self).conns() && final(self).synced() == old(self).synced(),
            old(self).rooms().dom().contains(room_id) && remove_participant_m(
                old(self).rooms()[room_id]@,
                user_id,
            ).participants.len() == 0 ==> final(self).rooms() == old(self).rooms().remove(room_id)
                && final(self).conns() == old(self).conns().remove(room_id) && final(self).synced() == old(self).synced().remove(room_id) && final(self).codes() == (match old(self).rooms()[room_id]@.invite_code {
                Some(c) => old(self).codes().remove(c),
                None => old(self).codes(),
            }),
    {
        let room_opt = dm_rooms_get(&self.rooms, room_id);
        if let Some(mut room) = room_opt {
            proof {
                lemma_filter_map_participants(room.participants@, user_id);
            }
            remove_participants_with_id(&mut room.participants, user_id);
            if room.participants.len() == 0 {
                dm_rooms_del(&mut self.rooms, room_id);
                dm_ids_del(&mut self.connections, room_id);
                dm_ids_del(&mut self.synced_users, room_id);
                if let Some(code) = &room.invite_code {
                    dm_codes_del(&mut self.invite_codes, code.as_str());
                }
                proof {
                    lemma_remove_room_wf(
                        old(self).rooms(),
                        old(self).codes(),
                        self.rooms(),
                        self.codes(),
                        room_id,
                    );
                }
            } else {
                dm_rooms_put(&mut self.rooms, room_id, room);
                proof {
                    lemma_wf_update(old(self).rooms(), self.rooms(), self.codes(), room_id);
                }
            }
        }
    }

    /// The stored username of a participant, when present.
    pub fn participant_username(&self, room_id: u128, user_id: i64) -> (r: Option<String>)
        ensures
            r is Some <==> self.rooms().dom().contains(room_id) && is_participant(
                self.rooms()[room_id]@,
                user_id,
            ),
            r matches Some(u) ==> exists|j: int|
                0 <= j < self.rooms()[room_id]@.participants.len()
                    && self.rooms()[room_id]@.participants[j].user_id == user_id
                    && self.rooms()[room_id]@.participants[j].username == u@,
    {
        let room_opt = dm_rooms_get(&self.rooms, room_id);
        match room_opt {
            None => None,
            Some(room) => {
                let mut i: usize = 0;
                while i < room.participants.len()
                    invariant
                        self.rooms().dom().contains(room_id),
                        room == self.rooms()[room_id],
                        0 <= i <= room.participants@.len(),
                        forall|j: int| 0 <= j < i ==> room.participants@[j].user_id != user_id,
                    decreases room.participants@.len() - i,
                {
                    if room.participants[i].user_id == user_id {
                        proof {
                            assert(room@.participants[i as int].user_id == user_id);
                            assert(participant_ids(room@)[i as int] == user_id);
                            assert(is_participant(room@, user_id));
                        }
                        return Some(room.participants[i].username.clone());
                    }
                    i = i + 1;
                }
                proof {
                    lemma_is_participant_iff(room@, room.participants@, user_id);
                }
                None
            },
        }
    }

    /// Take the sent position as authoritative and reset the snapshot
    /// clock.
    pub fn update_position(&mut self, room_id: u128, position_ms: u64, now_ms: u64)
        requires
            old(self).wf(),
        ensures
            final(self).wf(),
            final(self).codes() == old(self).codes(),
            final(self).conns() == old(self).conns(),
            final(self).synced() == old(self).synced(),
            !old(self).rooms().dom().contains(room_id) ==> final(self).rooms() == old(self).rooms(),
            old(self).rooms().dom().contains(room_id) ==> same_except(
                old(self).rooms(),
                final(self).rooms(),
                room_id,
            ) && final(self).rooms().dom().contains(room_id) && final(self).rooms()[room_id]@
                == update_position_m(old(self).rooms()[room_id]@, position_ms, now_ms),
    {
        let room_opt = dm_rooms_get(&self.rooms, room_id);
        if let Some(mut room) = room_opt {
            room.position_ms = position_ms;
            room.last_update_ms = now_ms;
            dm_rooms_put(&mut self.rooms, room_id, room);
            proof {
                lemma_wf_update(old(self).rooms(), self.rooms(), self.codes(), room_id);
            }
        }
    }

    /// Change the playback status. Leaving `Watching` first snapshots
    /// the effective position, so reads from the new state return the
    /// position at which playback stopped.
    pub fn set_status(&mut self, room_id: u128, status: RoomStatus, now_ms: u64)
        requires
            old(self).wf(),
        ensures
            final(self).wf(),
            final(self).codes() == old(self).codes(),
            final(self).conns() == old(self).conns(),
            final(self).synced() == old(self).synced(),
            !old(self).rooms().dom().contains(room_id) ==> final(self).rooms() == old(self).rooms(),
            old(self).rooms().dom().contains(room_id) ==> same_except(
                old(self).rooms(),
                final(self).rooms(),
                room_id,
            ) && final(self).rooms().dom().contains(room_id) && final(self).rooms()[room_id]@
                == set_status_m(old(self).rooms()[room_id]@, status, now_ms),
    {
        let room_opt = dm_rooms_get(&self.rooms, room_id);
        if let Some(mut room) = room_opt {
            if room.status == RoomStatus::Watching && status != RoomStatus::Watching {
                let elapsed: u64 = if now_ms >= room.last_update_ms {
                    now_ms - room.last_update_ms
                } else {
                    0
                };
                room.position_ms = if room.position_ms <= u64::MAX - elapsed {
                    room.position_ms + elapsed
                } else {
                    u64::MAX
                };
            }
            room.status = status;
            room.last_update_ms = now_ms;
            dm_rooms_put(&mut self.rooms, room_id, room);
            proof {
                lemma_wf_update(old(self).rooms(), self.rooms(), self.codes(), room_id);
            }
        }
    }

    /// Load a media item unconditionally: position resets, the room
    /// returns to `Idle`, and the ready/buffering sets are cleared.
    pub fn set_media(
        &mut self,
        room_id: u128,
        media_id: String,
        media_title: Option<String>,
        duration_ms: u64,
        now_ms: u64,
    )
        requires
            old(self).wf(),
        ensures
            final(self).wf(),
            final(self).codes() == old(self).codes(),
            final(self).conns() == old(self).conns(),
            final(self).synced() == old(self).synced(),
            !old(self).rooms().dom().contains(room_id) ==> final(self).rooms() == old(self).rooms(),
            old(self).rooms().dom().contains(room_id) ==> same_except(
                old(self).rooms(),
                final(self).rooms(),
                room_id,
            ) && final(self).rooms().dom().contains(room_id) && final(self).rooms()[room_id]@
                == set_media_m(
                old(self).rooms()[room_id]@,
                media_id@,
                media_title.deep_view(),
                duration_ms,
                now_ms,
            ),
    {
        let room_opt = dm_rooms_get(&self.rooms, room_id);
        if let Some(mut room) = room_opt {
            room.media_id = media_id;
            room.media_title = media_title;
            room.duration_ms = duration_ms;
            room.position_ms = 0;
            room.status = RoomStatus::Idle;
            room.ready_users = Vec::new();
            room.buffering_users = Vec::new();
            room.last_update_ms = now_ms;
            proof {
                assert(room@.ready_users =~= Set::<i64>::empty());
                assert(room@.buffering_users =~= Set::<i64>::empty());
            }
            dm_rooms_put(&mut self.rooms, room_id, room);
            proof {
                lemma_wf_update(old(self).rooms(), self.rooms(), self.codes(), room_id);
            }
        }
    }

    /// Load a media item only if the media id actually changed; a
    /// repeated `MediaChange` with the same id is a no-op, which
    /// prevents duplicate resets from concurrent frontends. Returns
    /// whether anything changed.
    pub fn set_media_if_changed(
        &mut self,
        room_id: u128,
        media_id: String,
        media_title: Option<String>,
        duration_ms: u64,
        now_ms: u64,
    ) -> (changed: bool)
        requires
            old(self).wf(),
        ensures
            final(self).wf(),
            final(self).codes() == old(self).codes(),
            final(self).conns() == old(self).conns(),
            final(self).synced() == old(self).synced(),
            changed == (old(self).rooms().dom().contains(room_id) && old(self).rooms()[room_id]@.media_id != media_id@),
            !old(self).rooms().dom().contains(room_id) ==> final(self).rooms() == old(self).rooms(),
            old(self).rooms().dom().contains(room_id) ==> same_except(
                old(self).rooms(),
                final(self).rooms(),
                room_id,
            ) && final(self).rooms().dom().contains(room_id) && final(self).rooms()[room_id]@
                == media_change_m(
                old(self).rooms()[room_id]@,
                media_id@,
                media_title.deep_view(),
                duration_ms,
                now_ms,
            ),
    {
        let room_opt = dm_rooms_get(&self.rooms, room_id);
        match room_opt {
            None => false,
            Some(mut room) => {
                if room.media_id == media_id {
                    proof {
                        assert(same_except(old(self).rooms(), self.rooms(), room_id));
                    }
                    false
                } else {
                    room.media_id = media_id;
                    room.media_title = media_title;
                    room.duration_ms = duration_ms;
                    room.position_ms = 0;
                    room.status = RoomStatus::Idle;
                    room.ready_users = Vec::new();
                    room.buffering_users = Vec::new();
                    room.last_update_ms = now_ms;
                    proof {
                        assert(room@.ready_users =~= Set::<i64>::empty());
                        assert(room@.buffering_users =~= Set::<i64>::empty());
                    }
                    dm_rooms_put(&mut self.rooms, room_id, room);
                    proof {
                        lemma_wf_update(old(self).rooms(), self.rooms(), self.codes(), room_id);
                    }
                    true
                }
            },
        }
    }

    /// Append a media id to the episode queue.
    pub fn add_to_queue(&mut self, room_id: u128, media_id: String)
        requires
            old(self).wf(),
        ensures
            final(self).wf(),
            final(self).codes() == old(self).codes(),
            final(self).conns() == old(self).conns(),
            final(self).synced() == old(self).synced(),
            !old(self).rooms().dom().contains(room_id) ==> final(self).rooms() == old(self).rooms(),
            old(self).rooms().dom().contains(room_id) ==> same_except(
                old(self).rooms(),
                final(self).rooms(),
                room_id,
            ) && final(self).rooms().dom().contains(room_id) && final(self).rooms()[room_id]@
                == queue_add_m(old(self).rooms()[room_id]@, media_id@),
    {
        let room_opt = dm_rooms_get(&self.rooms, room_id);
        if let Some(mut room) = room_opt {
            room.episode_queue.push(media_id);
            proof {
                assert(room@.episode_queue =~= queue_add_m(
                    old(self).rooms()[room_id]@,
                    media_id@,
                ).episode_queue);
            }
            dm_rooms_put(&mut self.rooms, room_id, room);
            proof {
                lemma_wf_update(old(self).rooms(), self.rooms(), self.codes(), room_id);
            }
        }
    }

    /// Remove the queue entry at `index`; out-of-range indexes are
    /// ignored.
    pub fn remove_from_queue(&mut self, room_id: u128, index: usize)
        requires
            old(self).wf(),
        ensures
            final(self).wf(),
            final(self).codes() == old(self).codes(),
            final(self).conns() == old(self).conns(),
            final(self).synced() == old(self).synced(),
            !old(self).rooms().dom().contains(room_id) ==> final(self).rooms() == old(self).rooms(),
            old(self).rooms().dom().contains(room_id) ==> same_except(
                old(self).rooms(),
                final(self).rooms(),
                room_id,
            ) && final(self).rooms().dom().contains(room_id) && final(self).rooms()[room_id]@
                == queue_remove_m(old(self).rooms()[room_id]@, index as int),
    {
        let room_opt = dm_rooms_get(&self.rooms, room_id);
        if let Some(mut room) = room_opt {
            if index < room.episode_queue.len() {
                room.episode_queue.remove(index);
                proof {
                    assert(room@.episode_queue =~= queue_remove_m(
                        old(self).rooms()[room_id]@,
                        index as int,
                    ).episode_queue);
                }
                dm_rooms_put(&mut self.rooms, room_id, room);
                proof {
                    lemma_wf_update(old(self).rooms(), self.rooms(), self.codes(), room_id);
                }
            } else {
                proof {
                    assert(same_except(old(self).rooms(), self.rooms(), room_id));
                }
            }
        }
    }

    /// Advance to the next queued episode, if any: the queue head
    /// becomes the current media, position resets, the room returns to
    /// `Idle` and the ready/buffering sets are cleared.
    pub fn next_in_queue(&mut self, room_id: u128, now_ms: u64) -> (next: Option<String>)
        requires
            old(self).wf(),
        ensures
            final(self).wf(),
            final(self).codes() == old(self).codes(),
            final(self).conns() == old(self).conns(),
            final(self).synced() == old(self).synced(),
            next is None ==> final(self).rooms() == old(self).rooms() && (!old(self).rooms().dom().contains(room_id) || old(self).rooms()[room_id]@.episode_queue.len() == 0),
            next matches Some(m) ==> old(self).rooms().dom().contains(room_id) && old(self).rooms()[room_id]@.episode_queue.len() > 0 && m@ == old(self).rooms()[room_id]@.episode_queue[0] && same_except(
                old(self).rooms(),
                final(self).rooms(),
                room_id,
            ) && final(self).rooms().dom().contains(room_id) && final(self).rooms()[room_id]@
                == next_episode_m(old(self).rooms()[room_id]@, now_ms),
    {
        let room_opt = dm_rooms_get(&self.rooms, room_id);
        match room_opt {
            None => None,
            Some(mut room) => {
                if room.episode_queue.len() == 0 {
                    None
                } else {
                    let next = room.episode_queue.remove(0);
                    room.media_id = next.clone();
                    room.position_ms = 0;
                    room.status = RoomStatus::Idle;
                    room.ready_users = Vec::new();
                    room.buffering_users = Vec::new();
                    room.last_update_ms = now_ms;
                    proof {
                        assert(room@.ready_users =~= Set::<i64>::empty());
                        assert(room@.buffering_users =~= Set::<i64>::empty());
                        assert(room@.episode_queue =~= next_episode_m(
                            old(self).rooms()[room_id]@,
                            now_ms,
                        ).episode_queue);
                    }
                    dm_rooms_put(&mut self.rooms, room_id, room);
                    proof {
                        lemma_wf_update(old(self).rooms(), self.rooms(), self.codes(), room_id);
                    }
                    Some(next)
                }
            },
        }
    }

    /// Mark a user as ready. Returns whether every connected user of
    /// the room is now ready (and at least one user is connected): the
    /// moment the coordinator emits `AllReady`.
    pub fn mark_ready(&mut self, room_id: u128, user_id: i64) -> (all_ready: bool)
        requires
            old(self).wf(),
        ensures
            final(self).wf(),
            final(self).codes() == old(self).codes(),
            final(self).conns() == old(self).conns(),
            final(self).synced() == old(self).synced(),
            !old(self).rooms().dom().contains(room_id) ==> final(self).rooms() == old(self).rooms() && !all_ready,
            old(self).rooms().dom().contains(room_id) ==> same_except(
                old(self).rooms(),
                final(self).rooms(),
                room_id,
            ) && final(self).rooms().dom().contains(room_id) && final(self).rooms()[room_id]@
                == mark_ready_m(old(self).rooms()[room_id]@, user_id) && all_ready == (old(self).conns_of(room_id).len() > 0 && (forall|u: i64| #[trigger] old(self).conns_of(
                room_id,
            ).contains(u) ==> mark_ready_m(
                old(self).rooms()[room_id]@,
                user_id,
            ).ready_users.contains(u))),
    {
        let room_opt = dm_rooms_get(&self.rooms, room_id);
        match room_opt {
            None => false,
            Some(mut room) => {
                push_unique_i64(&mut room.ready_users, user_id);
                proof {
                    if old(self).rooms()[room_id].ready_users@.contains(user_id) {
                        assert(room@.ready_users =~= mark_ready_m(
                            old(self).rooms()[room_id]@,
                            user_id,
                        ).ready_users);
                    } else {
                        lemma_push_to_set(
                            old(self).rooms()[room_id].ready_users@,
                            user_id,
                        );
                    }
                }
                let conns_opt = dm_ids_get(&self.connections, room_id);
                let conns = match conns_opt {
                    Some(v) => v,
                    None => Vec::new(),
                };
                let all_ready = if conns.len() == 0 {
                    false
                } else {
                    all_ids_in(&conns, &room.ready_users)
                };
                dm_rooms_put(&mut self.rooms, room_id, room);
                proof {
                    lemma_wf_update(old(self).rooms(), self.rooms(), self.codes(), room_id);
                }
                all_ready
            },
        }
    }

    /// Clear all ready marks.
    pub fn clear_ready(&mut self, room_id: u128)
        requires
            old(self).wf(),
        ensures
            final(self).wf(),
            final(self).codes() == old(self).codes(),
            final(self).conns() == old(self).conns(),
            final(self).synced() == old(self).synced(),
            !old(self).rooms().dom().contains(room_id) ==> final(self).rooms() == old(self).rooms(),
            old(self).rooms().dom().contains(room_id) ==> same_except(
                old(self).rooms(),
                final(self).rooms(),
                room_id,
            ) && final(self).rooms().dom().contains(room_id) && final(self).rooms()[room_id]@
                == clear_ready_m(old(self).rooms()[room_id]@),
    {
        let room_opt = dm_rooms_get(&self.rooms, room_id);
        if let Some(mut room) = room_opt {
            room.ready_users = Vec::new();
            proof {
                assert(room@.ready_users =~= Set::<i64>::empty());
            }
            dm_rooms_put(&mut self.rooms, room_id, room);
            proof {
                lemma_wf_update(old(self).rooms(), self.rooms(), self.codes(), room_id);
            }
        }
    }

    /// Add a user to the buffering set.
    pub fn add_buffering_user(&mut self, room_id: u128, user_id: i64)
        requires
            old(self).wf(),
        ensures
            final(self).wf(),
            final(self).codes() == old(self).codes(),
            final(self).conns() == old(self).conns(),
            final(self).synced() == old(self).synced(),
            !old(self).rooms().dom().contains(room_id) ==> final(self).rooms() == old(self).rooms(),
            old(self).rooms().dom().contains(room_id) ==> same_except(
                old(self).rooms(),
                final(self).rooms(),
                room_id,
            ) && final(self).rooms().dom().contains(room_id) && final(self).rooms()[room_id]@
                == add_buffering_m(old(self).rooms()[room_id]@, user_id),
    {
        let room_opt = dm_rooms_get(&self.rooms, room_id);
        if let Some(mut room) = room_opt {
            push_unique_i64(&mut room.buffering_users, user_id);
            proof {
                if old(self).rooms()[room_id].buffering_users@.contains(user_id) {
                    assert(room@.buffering_users =~= add_buffering_m(
                        old(self).rooms()[room_id]@,
                        user_id,
                    ).buffering_users);
                } else {
                    lemma_push_to_set(
                        old(self).rooms()[room_id].buffering_users@,
                        user_id,
                    );
                }
            }
            dm_rooms_put(&mut self.rooms, room_id, room);
            proof {
                lemma_wf_update(old(self).rooms(), self.rooms(), self.codes(), room_id);
            }
        }
    }

    /// Remove a user from the buffering set.
    pub fn remove_buffering_user(&mut self, room_id: u128, user_id: i64)
        requires
            old(self).wf(),
        ensures
            final(self).wf(),
            final(self).codes() == old(self).codes(),
            final(self).conns() == old(self).conns(),
            final(self).synced() == old(self).synced(),
            !old(self).rooms().dom().contains(room_id) ==> final(self).rooms() == old(self).rooms(),
            old(self).rooms().dom().contains(room_id) ==> same_except(
                old(self).rooms(),
                final(self).rooms(),
                room_id,
            ) && final(self).rooms().dom().contains(room_id) && final(self).rooms()[room_id]@
                == remove_buffering_m(old(self).rooms()[room_id]@, user_id),
    {
        let room_opt = dm_rooms_get(&self.rooms, room_id);
        if let Some(mut room) = room_opt {
            remove_all_i64(&mut room.buffering_users, user_id);
            proof {
                lemma_filter_ne_to_set(old(self).rooms()[room_id].buffering_users@, user_id);
            }
            dm_rooms_put(&mut self.rooms, room_id, room);
            proof {
                lemma_wf_update(old(self).rooms(), self.rooms(), self.codes(), room_id);
            }
        }
    }

    /// Drop a user's ready mark (used on disconnect).
    pub fn remove_ready_user(&mut self, room_id: u128, user_id: i64)
        requires
            old(self).wf(),
        ensures
            final(self).wf(),
            final(self).codes() == old(self).codes(),
            final(self).conns() == old(self).conns(),
            final(self).synced() == old(self).synced(),
            !old(self).rooms().dom().contains(room_id) ==> final(self).rooms() == old(
                self,
            ).rooms(),
            old(self).rooms().dom().contains(room_id) ==> same_except(
                old(self).rooms(),
                final(self).rooms(),
                room_id,
            ) && final(self).rooms().dom().contains(room_id) && final(self).rooms()[room_id]@
                == remove_ready_m(old(self).rooms()[room_id]@, user_id),
    {
        let room_opt = dm_rooms_get(&self.rooms, room_id);
        if let Some(mut room) = room_opt {
            remove_all_i64(&mut room.ready_users, user_id);
            proof {
                lemma_filter_ne_to_set(old(self).rooms()[room_id].ready_users@, user_id);
            }
            dm_rooms_put(&mut self.rooms, room_id, room);
            proof {
                lemma_wf_update(old(self).rooms(), self.rooms(), self.codes(), room_id);
            }
        }
    }

    /// Whether any user of the room is currently buffering.
    pub fn has_buffering_users(&self, room_id: u128) -> (r: bool)
        ensures
            r == (self.rooms().dom().contains(room_id)
                && self.rooms()[room_id]@.buffering_users != Set::<i64>::empty()),
    {
        let room_opt = dm_rooms_get(&self.rooms, room_id);
        match room_opt {
            None => false,
            Some(room) => {
                if room.buffering_users.len() > 0 {
                    proof {
                        assert(room.buffering_users@.contains(room.buffering_users@[0]));
                        assert(room@.buffering_users.contains(room.buffering_users@[0]));
                    }
                    true
                } else {
                    proof {
                        assert(room@.buffering_users =~= Set::<i64>::empty());
                    }
                    false
                }
            },
        }
    }

    /// Whether an `AllReady` is due without a new `Ready` message: the
    /// room is `Idle`, at least one user signalled ready, at least one
    /// user is connected, and every connected user is ready. Used after
    /// a disconnect, in case the leaving user was the last holdout.
    pub fn check_all_ready(&self, room_id: u128) -> (r: bool)
        ensures
            r == (self.rooms().dom().contains(room_id) && self.rooms()[room_id]@.status
                == RoomStatus::Idle && self.rooms()[room_id]@.ready_users != Set::<i64>::empty()
                && self.conns_of(room_id).len() > 0 && (forall|u: i64| #[trigger] self.conns_of(
                room_id,
            ).contains(u) ==> self.rooms()[room_id]@.ready_users.contains(u))),
    {
        let room_opt = dm_rooms_get(&self.rooms, room_id);
        match room_opt {
            None => false,
            Some(room) => {
                if !(room.status == RoomStatus::Idle) {
                    return false;
                }
                if room.ready_users.len() == 0 {
                    proof {
                        assert(room@.ready_users =~= Set::<i64>::empty());
                    }
                    return false;
                }
                proof {
                    assert(room.ready_users@.contains(room.ready_users@[0]));
                    assert(room@.ready_users.contains(room.ready_users@[0]));
                }
                let conns_opt = dm_ids_get(&self.connections, room_id);
                let conns = match conns_opt {
                    Some(v) => v,
                    None => Vec::new(),
                };
                if conns.len() == 0 {
                    return false;
                }
                all_ids_in(&conns, &room.ready_users)
            },
        }
    }

    /// The effective playback position of the room at time `now_ms`.
    pub fn compute_position_ms(&self, room_id: u128, now_ms: u64) -> (r: Option<u64>)
        ensures
            r == if self.rooms().dom().contains(room_id) {
                Some(eff_position(self.rooms()[room_id]@, now_ms))
            } else {
                None::<u64>
            },
    {
        let room_opt = dm_rooms_get(&self.rooms, room_id);
        match room_opt {
            None => None,
            Some(room) => {
                if room.status == RoomStatus::Watching {
                    let elapsed: u64 = if now_ms >= room.last_update_ms {
                        now_ms - room.last_update_ms
                    } else {
                        0
                    };
                    let pos: u64 = if room.position_ms <= u64::MAX - elapsed {
                        room.position_ms + elapsed
                    } else {
                        u64::MAX
                    };
                    Some(pos)
                } else {
                    Some(room.position_ms)
                }
            },
        }
    }
}

/// Whether a heartbeat is due for the room: it is `Watching` and at
/// least one user is connected.
pub open spec fn heartbeat_due(
    rooms: Map<u128, RoomState>,
    conns: Map<u128, Seq<i64>>,
    id: u128,
) -> bool {
    &&& rooms.dom().contains(id)
    &&& rooms[id]@.status == RoomStatus::Watching
    &&& conns.dom().contains(id)
    &&& conns[id].len() > 0
}

/// The room ids of a heartbeat report.
pub open spec fn tick_ids(r: Seq<(u128, u64, String)>) -> Seq<u128> {
    r.map(|k: int, e: (u128, u64, String)| e.0)
}

/// A user-id list map with one user filtered out of one entry.
pub open spec fn without_user(m: Map<u128, Seq<i64>>, id: u128, uid: i64) -> Map<u128, Seq<i64>> {
    if m.dom().contains(id) {
        m.insert(id, drop_id(m[id], uid))
    } else {
        m
    }
}

impl RoomManager {
    /// List the rooms visible to the user: rooms they host, `Everyone`
    /// rooms, and restricted rooms they participate in or are allowed
    /// into. Order is unspecified.
    pub fn list_rooms_for_user(&self, user_id: i64) -> (r: Vec<RoomState>)
        requires
            self.wf(),
        ensures
            forall|i: int|
                0 <= i < r@.len() ==> self.rooms().dom().contains(#[trigger] r@[i].id)
                    && r@[i] == self.rooms()[r@[i].id] && visible_to(r@[i]@, user_id),
            forall|id: u128| #[trigger]
                self.rooms().dom().contains(id) && visible_to(self.rooms()[id]@, user_id)
                    ==> exists|i: int| 0 <= i < r@.len() && r@[i].id == id,
    {
        let keys = dm_rooms_keys(&self.rooms);
        let mut out: Vec<RoomState> = Vec::new();
        let mut i: usize = 0;
        while i < keys.len()
            invariant
                self.wf(),
                keys@.no_duplicates(),
                forall|id: u128| #[trigger]
                    keys@.contains(id) <==> self.rooms().dom().contains(id),
                0 <= i <= keys@.len(),
                forall|j: int|
                    0 <= j < out@.len() ==> self.rooms().dom().contains(#[trigger] out@[j].id)
                        && out@[j] == self.rooms()[out@[j].id] && visible_to(out@[j]@, user_id),
                forall|j: int|
                    0 <= j < i && visible_to(self.rooms()[keys@[j]]@, user_id) ==> exists|k: int|
                        0 <= k < out@.len() && out@[k].id == #[trigger] keys@[j],
            decreases keys@.len() - i,
        {
            let id = keys[i];
            proof {
                assert(keys@.contains(keys@[i as int]));
            }
            let ghost prev_out = out@;
            let can = self.can_user_join(id, user_id);
            if can {
                let room_opt = dm_rooms_get(&self.rooms, id);
                let room = room_opt.unwrap();
                proof {
                    assert(room_wf(self.rooms()[id]@, id));
                }
                out.push(room);
                proof {
                    assert(out@[out@.len() - 1].id == id);
                }
            }
            proof {
                assert forall|j: int|
                    0 <= j < i + 1 && visible_to(self.rooms()[#[trigger] keys@[j]]@, user_id)
                    implies exists|k: int| 0 <= k < out@.len() && out@[k].id == keys@[j] by {
                    if j == i as int {
                        assert(out@[out@.len() - 1].id == keys@[j]);
                    } else {
                        let k = choose|k: int|
                            0 <= k < prev_out.len() && prev_out[k].id == keys@[j];
                        assert(out@[k].id == keys@[j]);
                    }
                }
            }
            i = i + 1;
        }
        proof {
            assert forall|id: u128| #[trigger]
                self.rooms().dom().contains(id) && visible_to(self.rooms()[id]@, user_id)
                implies exists|i2: int| 0 <= i2 < out@.len() && out@[i2].id == id by {
                assert(keys@.contains(id));
                let j = choose|j: int| 0 <= j < keys@.len() && keys@[j] == id;
                assert(visible_to(self.rooms()[keys@[j]]@, user_id));
            }
        }
        out
    }

    /// One heartbeat pass at time `now_ms`: every `Watching` room with
    /// at least one connection has its effective position snapshotted,
    /// and is reported exactly once as (room id, snapshotted position,
    /// media id) for the driver to broadcast. All other rooms are
    /// untouched.
    pub fn heartbeat_tick(&mut self, now_ms: u64) -> (r: Vec<(u128, u64, String)>)
        requires
            old(self).wf(),
        ensures
            final(self).wf(),
            final(self).codes() == old(self).codes(),
            final(self).conns() == old(self).conns(),
            final(self).synced() == old(self).synced(),
            final(self).rooms().dom() =~= old(self).rooms().dom(),
            forall|id: u128| #[trigger]
                old(self).rooms().dom().contains(id) ==> if heartbeat_due(
                    old(self).rooms(),
                    old(self).conns(),
                    id,
                ) {
                    final(self).rooms()[id]@ == heartbeat_m(old(self).rooms()[id]@, now_ms)
                } else {
                    final(self).rooms()[id] == old(self).rooms()[id]
                },
            forall|i: int|
                0 <= i < r@.len() ==> heartbeat_due(
                    old(self).rooms(),
                    old(self).conns(),
                    #[trigger] r@[i].0,
                ) && r@[i].1 == eff_position(old(self).rooms()[r@[i].0]@, now_ms) && r@[i].2@
                    == old(self).rooms()[r@[i].0]@.media_id,
            tick_ids(r@).no_duplicates(),
            forall|id: u128| #![trigger tick_ids(r@).contains(id)]
                tick_ids(r@).contains(id) <==> heartbeat_due(
                    old(self).rooms(),
                    old(self).conns(),
                    id,
                ),
    {
        let keys = dm_rooms_keys(&self.rooms);
        let mut out: Vec<(u128, u64, String)> = Vec::new();
        let mut i: usize = 0;
        while i < keys.len()
            invariant
                old(self).wf(),
                self.wf(),
                keys@.no_duplicates(),
                forall|id: u128| #[trigger]
                    keys@.contains(id) <==> old(self).rooms().dom().contains(id),
                self.codes() == old(self).codes(),
                self.conns() == old(self).conns(),
                self.synced() == old(self).synced(),
                self.rooms().dom() =~= old(self).rooms().dom(),
                0 <= i <= keys@.len(),
                forall|j: int|
                    i <= j < keys@.len() ==> self.rooms()[#[trigger] keys@[j]] == old(self).rooms()[keys@[j]],
                forall|j: int|
                    0 <= j < i ==> if heartbeat_due(
                        old(self).rooms(),
                        old(self).conns(),
                        keys@[j],
                    ) {
                        self.rooms()[#[trigger] keys@[j]]@ == heartbeat_m(
                            old(self).rooms()[keys@[j]]@,
                            now_ms,
                        )
                    } else {
                        self.rooms()[keys@[j]] == old(self).rooms()[keys@[j]]
                    },
                forall|k: int|
                    0 <= k < out@.len() ==> heartbeat_due(
                        old(self).rooms(),
                        old(self).conns(),
                        #[trigger] out@[k].0,
                    ) && out@[k].1 == eff_position(old(self).rooms()[out@[k].0]@, now_ms)
                        && out@[k].2@ == old(self).rooms()[out@[k].0]@.media_id,
                tick_ids(out@).no_duplicates(),
                forall|id: u128| #![trigger tick_ids(out@).contains(id)]
                    tick_ids(out@).contains(id) ==> exists|j: int|
                        0 <= j < i && keys@[j] == id,
                forall|j: int|
                    0 <= j < i && heartbeat_due(old(self).rooms(), old(self).conns(), keys@[j])
                        ==> tick_ids(out@).contains(#[trigger] keys@[j]),
            decreases keys@.len() - i,
        {
            let id = keys[i];
            proof {
                assert(keys@.contains(keys@[i as int]));
            }
            let ghost prev_out = out@;
            let ghost was_due = heartbeat_due(old(self).rooms(), old(self).conns(), id);
            let room_opt = dm_rooms_get(&self.rooms, id);
            let mut room = room_opt.unwrap();
            if room.status == RoomStatus::Watching {
                let conns_opt = dm_ids_get(&self.connections, id);
                let has_conns = match &conns_opt {
                    Some(v) => v.len() > 0,
                    None => false,
                };
                proof {
                    assert(has_conns == (old(self).conns().dom().contains(id) && old(
                        self,
                    ).conns()[id].len() > 0));
                }
                if has_conns {
                    let elapsed: u64 = if now_ms >= room.last_update_ms {
                        now_ms - room.last_update_ms
                    } else {
                        0
                    };
                    let pos: u64 = if room.position_ms <= u64::MAX - elapsed {
                        room.position_ms + elapsed
                    } else {
                        u64::MAX
                    };
                    proof {
                        assert(pos == eff_position(old(self).rooms()[id]@, now_ms));
                    }
                    room.position_ms = pos;
                    room.last_update_ms = now_ms;
                    let media = room.media_id.clone();
                    let ghost prev_rooms = self.rooms();
                    dm_rooms_put(&mut self.rooms, id, room);
                    proof {
                        lemma_wf_update(prev_rooms, self.rooms(), self.codes(), id);
                        assert(self.rooms()[id]@ == heartbeat_m(
                            old(self).rooms()[id]@,
                            now_ms,
                        ));
                    }
                    out.push((id, pos, media));
                    proof {
                        assert(tick_ids(out@) =~= tick_ids(prev_out).push(id));
                        assert forall|k: int|
                            0 <= k < i && #[trigger] keys@[k] == id implies false by {
                            assert(keys@[k] != keys@[i as int]);
                        }
                        assert(!tick_ids(prev_out).contains(id));
                        assert(tick_ids(out@)[tick_ids(out@).len() - 1] == id);
                        assert(tick_ids(out@).contains(id));
                    }
                }
            }
            proof {
                assert forall|id2: u128| #![trigger tick_ids(out@).contains(id2)]
                    tick_ids(out@).contains(id2) implies exists|j: int|
                    0 <= j < i + 1 && keys@[j] == id2 by {
                    let k = choose|k: int|
                        0 <= k < tick_ids(out@).len() && tick_ids(out@)[k] == id2;
                    if k < prev_out.len() {
                        assert(tick_ids(prev_out)[k] == id2);
                        assert(tick_ids(prev_out).contains(id2));
                        let j = choose|j: int| 0 <= j < i && keys@[j] == id2;
                        assert(keys@[j] == id2);
                    } else {
                        assert(keys@[i as int] == id2);
                    }
                }
                assert forall|j: int|
                    0 <= j < i + 1 && heartbeat_due(
                        old(self).rooms(),
                        old(self).conns(),
                        keys@[j],
                    ) implies tick_ids(out@).contains(#[trigger] keys@[j]) by {
                    if j < i as int {
                        assert(tick_ids(prev_out).contains(keys@[j]));
                        let k = choose|k: int|
                            0 <= k < tick_ids(prev_out).len() && tick_ids(prev_out)[k]
                                == keys@[j];
                        assert(tick_ids(out@)[k] == keys@[j]);
                    } else {
                        assert(was_due);
                        assert(tick_ids(out@)[tick_ids(out@).len() - 1] == keys@[j]);
                    }
                }
            }
            i = i + 1;
        }
        proof {
            assert forall|id: u128| #![trigger tick_ids(out@).contains(id)]
                heartbeat_due(old(self).rooms(), old(self).conns(), id) implies tick_ids(
                out@,
            ).contains(id) by {
                assert(keys@.contains(id));
                let j = choose|j: int| 0 <= j < keys@.len() && keys@[j] == id;
                assert(heartbeat_due(old(self).rooms(), old(self).conns(), keys@[j]));
            }
            assert forall|id: u128| #[trigger]
                old(self).rooms().dom().contains(id) implies (if heartbeat_due(
                old(self).rooms(),
                old(self).conns(),
                id,
            ) {
                self.rooms()[id]@ == heartbeat_m(old(self).rooms()[id]@, now_ms)
            } else {
                self.rooms()[id] == old(self).rooms()[id]
            }) by {
                assert(keys@.contains(id));
                let j = choose|j: int| 0 <= j < keys@.len() && keys@[j] == id;
            }
        }
        out
    }

    /// Close a room outright: the room, its registry entries and its
    /// invite-code index entry are all removed. The fan-out of
    /// `RoomClosed` and the closing of sessions happen at the transport
    /// layer before this state change.
    pub fn close_room(&mut self, room_id: u128)
        requires
            old(self).wf(),
        ensures
            final(self).wf(),
            final(self).rooms() == old(self).rooms().remove(room_id),
            final(self).conns() == old(self).conns().remove(room_id),
            final(self).synced() == old(self).synced().remove(room_id),
            old(self).rooms().dom().contains(room_id) ==> final(self).codes() == (match old(self).rooms()[room_id]@.invite_code {
                Some(c) => old(self).codes().remove(c),
                None => old(self).codes(),
            }),
            !old(self).rooms().dom().contains(room_id) ==> final(self).codes() == old(self).codes(),
    {
        let room_opt = dm_rooms_get(&self.rooms, room_id);
        if let Some(room) = room_opt {
            if let Some(code) = &room.invite_code {
                dm_codes_del(&mut self.invite_codes, code.as_str());
            }
        }
        dm_rooms_del(&mut self.rooms, room_id);
        dm_ids_del(&mut self.connections, room_id);
        dm_ids_del(&mut self.synced_users, room_id);
        proof {
            if old(self).rooms().dom().contains(room_id) {
                lemma_remove_room_wf(
                    old(self).rooms(),
                    old(self).codes(),
                    self.rooms(),
                    self.codes(),
                    room_id,
                );
            } else {
                assert(self.rooms() =~= old(self).rooms());
            }
        }
    }

    /// Kick a user: their connection and synced mark are dropped and
    /// they are removed as a participant (deleting the room if they
    /// were the last one). Returns the kicked user's stored username,
    /// for the `Leave` broadcast. Sending `Kicked` and closing the
    /// socket happen at the transport layer.
    pub fn kick_user(&mut self, room_id: u128, user_id: i64) -> (username: Option<String>)
        requires
            old(self).wf(),
        ensures
            final(self).wf(),
            username is Some <==> old(self).rooms().dom().contains(room_id) && is_participant(
                old(self).rooms()[room_id]@,
                user_id,
            ),
            username matches Some(u) ==> exists|j: int|
                0 <= j < old(self).rooms()[room_id]@.participants.len() && old(self).rooms()[room_id]@.participants[j].user_id == user_id && old(self).rooms()[room_id]@.participants[j].username == u@,
            !old(self).rooms().dom().contains(room_id) ==> final(self).rooms() == old(self).rooms() && final(self).codes() == old(self).codes() && final(self).conns()
                == without_user(old(self).conns(), room_id, user_id) && final(self).synced()
                == without_user(old(self).synced(), room_id, user_id),
            old(self).rooms().dom().contains(room_id) && remove_participant_m(
                old(self).rooms()[room_id]@,
                user_id,
            ).participants.len() > 0 ==> same_except(
                old(self).rooms(),
                final(self).rooms(),
                room_id,
            ) && final(self).rooms().dom().contains(room_id) && final(self).rooms()[room_id]@
                == remove_participant_m(old(self).rooms()[room_id]@, user_id) && final(self).codes() == old(self).codes() && final(self).conns() == without_user(
                old(self).conns(),
                room_id,
                user_id,
            ) && final(self).synced() == without_user(old(self).synced(), room_id, user_id),
            old(self).rooms().dom().contains(room_id) && remove_participant_m(
                old(self).rooms()[room_id]@,
                user_id,
            ).participants.len() == 0 ==> final(self).rooms() == old(self).rooms().remove(
                room_id,
            ) && final(self).conns() == old(self).conns().remove(room_id) && final(self).synced()
                == old(self).synced().remove(room_id) && final(self).codes() == (match old(self).rooms()[room_id]@.invite_code {
                Some(c) => old(self).codes().remove(c),
                None => old(self).codes(),
            }),
    {
        let username = self.participant_username(room_id, user_id);
        self.remove_connection(room_id, user_id);
        self.remove_participant(room_id, user_id);
        proof {
            if old(self).rooms().dom().contains(room_id) && remove_participant_m(
                old(self).rooms()[room_id]@,
                user_id,
            ).participants.len() == 0 {
                assert(self.conns() =~= old(self).conns().remove(room_id));
                assert(self.synced() =~= old(self).synced().remove(room_id));
            }
        }
        username
    }
}

/// In a well-formed store, an `InviteOnly` room's code is in the
/// code-to-id index iff the room exists: each direction of the index
/// correspondence, extracted from well-formedness.
pub proof fn lemma_invite_code_index_iff(s: RoomManager, id: u128, c: Seq<char>)
    requires
        s.wf(),
    ensures
        s.rooms().dom().contains(id) && s.rooms()[id]@.invite_code == Some(c)
            ==> s.codes().dom().contains(c) && s.codes()[c] == id,
        s.codes().dom().contains(c) && s.codes()[c] == id ==> s.rooms().dom().contains(id)
            && s.rooms()[id]@.invite_code == Some(c),
{
}

/// In a well-formed store there is no room without participants: a
/// room with zero participants has been removed, so no lookup can
/// observe one.
pub proof fn lemma_no_empty_rooms(s: RoomManager, id: u128)
    requires
        s.wf(),
        s.rooms().dom().contains(id),
    ensures
        s.rooms()[id]@.participants.len() > 0,
{
}

/// Inserting a fresh, well-formed room (with a fresh invite code, when
/// it has one) keeps the store well formed.
proof fn lemma_create_room_wf(
    rooms1: Map<u128, RoomState>,
    codes1: Map<Seq<char>, u128>,
    rooms2: Map<u128, RoomState>,
    codes2: Map<Seq<char>, u128>,
    id: u128,
)
    requires
        wf_maps(rooms1, codes1),
        !rooms1.dom().contains(id),
        rooms2.dom().contains(id),
        rooms2 == rooms1.insert(id, rooms2[id]),
        room_wf(rooms2[id]@, id),
        match rooms2[id]@.invite_code {
            Some(c) => !codes1.dom().contains(c) && codes2 == codes1.insert(c, id),
            None => codes2 == codes1,
        },
    ensures
        wf_maps(rooms2, codes2),
{
    assert forall|id2: u128| #![trigger rooms2.dom().contains(id2)]
        rooms2.dom().contains(id2) implies room_wf(rooms2[id2]@, id2) && (
        rooms2[id2]@.invite_code is Some ==> codes2.dom().contains(
            rooms2[id2]@.invite_code.unwrap(),
        ) && codes2[rooms2[id2]@.invite_code.unwrap()] == id2) by {
        if id2 != id {
            assert(rooms1.dom().contains(id2));
            assert(rooms2[id2] == rooms1[id2]);
            if rooms1[id2]@.invite_code is Some {
                let c2 = rooms1[id2]@.invite_code.unwrap();
                assert(codes1.dom().contains(c2) && codes1[c2] == id2);
            }
        }
    }
    assert forall|c: Seq<char>| #![trigger codes2.dom().contains(c)]
        codes2.dom().contains(c) implies rooms2.dom().contains(codes2[c])
        && rooms2[codes2[c]]@.invite_code == Some(c) by {
        if rooms2[id]@.invite_code matches Some(cn) && c == cn {
        } else {
            assert(codes1.dom().contains(c));
            assert(rooms1.dom().contains(codes1[c]));
            assert(codes1[c] != id);
        }
    }
    assert(wf_maps(rooms2, codes2));
}

/// Deleting a room together with its invite-code entry keeps the store
/// well formed.
proof fn lemma_remove_room_wf(
    rooms1: Map<u128, RoomState>,
    codes1: Map<Seq<char>, u128>,
    rooms2: Map<u128, RoomState>,
    codes2: Map<Seq<char>, u128>,
    id: u128,
)
    requires
        wf_maps(rooms1, codes1),
        rooms1.dom().contains(id),
        rooms2 == rooms1.remove(id),
        codes2 == (match rooms1[id]@.invite_code {
            Some(c) => codes1.remove(c),
            None => codes1,
        }),
    ensures
        wf_maps(rooms2, codes2),
{
    assert forall|id2: u128| #![trigger rooms2.dom().contains(id2)]
        rooms2.dom().contains(id2) implies room_wf(rooms2[id2]@, id2) && (
        rooms2[id2]@.invite_code is Some ==> codes2.dom().contains(
            rooms2[id2]@.invite_code.unwrap(),
        ) && codes2[rooms2[id2]@.invite_code.unwrap()] == id2) by {
        assert(rooms1.dom().contains(id2));
        assert(id2 != id);
        if rooms1[id2]@.invite_code is Some {
            let c2 = rooms1[id2]@.invite_code.unwrap();
            assert(codes1.dom().contains(c2) && codes1[c2] == id2);
            if rooms1[id]@.invite_code is Some {
                let c = rooms1[id]@.invite_code.unwrap();
                assert(codes1[c] == id);
                assert(c2 != c);
            }
        }
    }
    assert forall|c: Seq<char>| #![trigger codes2.dom().contains(c)]
        codes2.dom().contains(c) implies rooms2.dom().contains(codes2[c])
        && rooms2[codes2[c]]@.invite_code == Some(c) by {
        assert(codes1.dom().contains(c));
        assert(rooms1.dom().contains(codes1[c]));
        assert(rooms1[codes1[c]]@.invite_code == Some(c));
        if codes1[c] == id {
            assert(rooms1[id]@.invite_code == Some(c));
            assert(!codes2.dom().contains(c));
        }
    }
    assert(wf_maps(rooms2, codes2));
}

} // verus!
