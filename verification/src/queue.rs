//! Episode-queue utilities on the room store.

use vstd::prelude::*;

use crate::room::{queue_reorder_m, RoomModel};
use crate::store::{same_except, RoomManager};

verus! {

impl RoomManager {
    /// The episode queue of a room; empty when the room does not exist.
    pub fn get_queue(&self, room_id: u128) -> (q: Vec<String>)
        ensures
            self.rooms().dom().contains(room_id) ==> q.deep_view()
                == self.rooms()[room_id]@.episode_queue,
            !self.rooms().dom().contains(room_id) ==> q.deep_view() =~= Seq::<Seq<char>>::empty(),
    {
        let room_opt = self.get_room(room_id);
        match room_opt {
            None => Vec::new(),
            Some(room) => {
                let mut q: Vec<String> = Vec::new();
                let mut i: usize = 0;
                while i < room.episode_queue.len()
                    invariant
                        0 <= i <= room.episode_queue@.len(),
                        q@.len() == i,
                        forall|j: int| 0 <= j < i ==> #[trigger] q@[j] == room.episode_queue@[j],
                    decreases room.episode_queue@.len() - i,
                {
                    q.push(room.episode_queue[i].clone());
                    i = i + 1;
                }
                proof {
                    assert(q.deep_view() =~= room.episode_queue.deep_view());
                }
                q
            },
        }
    }

    /// Clear the whole episode queue of a room.
    pub fn clear_queue(&mut self, room_id: u128)
        requires
            old(self).wf(),
        ensures
            final(self).wf(),
            final(self).codes() == old(self).codes(),
            final(self).conns() == old(self).conns(),
            final(self).synced() == old(self).synced(),
            !old(self).rooms().dom().contains(room_id) ==> final(self).rooms() == old(
                self,
            ).rooms(),
            old(self).rooms().dom().contains(room_id) ==> same_except(
                old(self).rooms(),
                final(self).rooms(),
                room_id,
            ) && final(self).rooms().dom().contains(room_id) && final(self).rooms()[room_id]@
                == (RoomModel {
                episode_queue: Seq::empty(),
                ..old(self).rooms()[room_id]@
            }),
    {
        let room_opt = self.get_room(room_id);
        if let Some(mut room) = room_opt {
            room.episode_queue = Vec::new();
            proof {
                assert(room@.episode_queue =~= Seq::<Seq<char>>::empty());
            }
            self.put_room(room_id, room);
        }
    }

    /// Move the queue entry at `from` to position `to`; out-of-range
    /// indexes are ignored.
    pub fn reorder_queue(&mut self, room_id: u128, from: usize, to: usize)
        requires
            old(self).wf(),
        ensures
            final(self).wf(),
            final(self).codes() == old(self).codes(),
            final(self).conns() == old(self).conns(),
            final(self).synced() == old(self).synced(),
            !old(self).rooms().dom().contains(room_id) ==> final(self).rooms() == old(
                self,
            ).rooms(),
            old(self).rooms().dom().contains(room_id) ==> same_except(
                old(self).rooms(),
                final(self).rooms(),
                room_id,
            ) && final(self).rooms().dom().contains(room_id) && final(self).rooms()[room_id]@
                == queue_reorder_m(old(self).rooms()[room_id]@, from as int, to as int),
    {
        let room_opt = self.get_room(room_id);
        if let Some(mut room) = room_opt {
            if from < room.episode_queue.len() && to < room.episode_queue.len() {
                let item = room.episode_queue.remove(from);
                room.episode_queue.insert(to, item);
                proof {
                    assert(room@.episode_queue =~= queue_reorder_m(
                        old(self).rooms()[room_id]@,
                        from as int,
                        to as int,
                    ).episode_queue);
                }
                self.put_room(room_id, room);
            }
        }
    }
}

} // verus!
