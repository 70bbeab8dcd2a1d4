//! Rooms: a two-slot rendezvous record that pairs two session tokens.

use vstd::prelude::*;
use vstd::pervasive::unreached;

use crate::auth::{Auth, AuthMetadata};
use crate::db::{BucketInfo, Data, Metadata, RecordBody};

verus! {

/// A room record: a six-character code, an `offer` slot and an
/// `answer` slot, and the service tag the creator registered.
pub type Room = Data<RoomData, RoomMetadata, RoomInfo>;

pub struct RoomInfo {}

impl BucketInfo for RoomInfo {
    open spec fn spec_prefix() -> Seq<char> {
        "room"@
    }

    open spec fn spec_key_length() -> u8 {
        6
    }

    fn prefix() -> (r: &'static str) {
        "room"
    }

    fn key_length() -> (r: u8) {
        6
    }
}

/// The persisted body of a room. An empty `offer` means the slot is
/// still open; the second joiner must present a service tag equal to
/// `service` or be turned away.
pub struct RoomData {
    pub service: String,
    pub offer: String,
    pub answer: Option<String>,
}

impl RecordBody for RoomData {
    open spec fn is_fresh(&self) -> bool {
        self.service@.len() == 0 && self.offer@.len() == 0 && self.answer is None
    }

    fn fresh() -> (r: Self) {
        RoomData { service: String::new(), offer: String::new(), answer: None }
    }
}

/// A room's slots fill in order: an occupied answer slot implies an
/// occupied offer slot.
pub open spec fn room_wf(d: RoomData) -> bool {
    d.answer is Some ==> d.offer@.len() > 0
}

/// Rooms carry no metadata.
pub struct RoomMetadata {}

impl Metadata for RoomMetadata {
    open spec fn is_fresh(&self, now: u64) -> bool {
        true
    }

    open spec fn decode_spec(pairs: Seq<(String, String)>) -> Option<RoomMetadata> {
        Some(RoomMetadata {  })
    }

    open spec fn encodes(&self, pairs: Seq<(String, String)>) -> bool {
        pairs.len() == 0
    }

    fn fresh(now: u64) -> (r: Self) {
        RoomMetadata {  }
    }

    fn from_pairs(pairs: &Vec<(String, String)>) -> (r: Option<Self>) {
        Some(RoomMetadata {  })
    }

    fn to_pairs(&self) -> (r: Vec<(String, String)>) {
        Vec::new()
    }
}

impl Room {
    /// The slot opposite the caller: the answer token if the caller
    /// holds the offer slot, the offer token otherwise.
    pub fn get_peer(&self, peer: &Auth) -> (r: Option<String>)
        requires
            self.data is Some,
        ensures
            ({
                let d = self.data->Some_0;
                if peer.key@ == d.offer@ {
                    r == d.answer
                } else {
                    r == Some(d.offer)
                }
            }),
    {
        let data = match &self.data {
            Some(d) => d,
            None => unreached(),
        };
        if peer.key == data.offer {
            match &data.answer {
                Some(a) => Some(a.clone()),
                None => None,
            }
        } else {
            Some(data.offer.clone())
        }
    }

    /// Joins a session into the room. The first joiner takes the
    /// offer slot and registers its service tag on the room; the
    /// second takes the answer slot, but only with an equal service
    /// tag. A full room, or a mismatched tag, turns the joiner away
    /// with nothing changed.
    pub fn join_room(&mut self, peer: &mut Auth) -> (r: bool)
        requires
            old(self).data is Some,
            old(peer).meta.service is Some,
            room_wf(old(self).data->Some_0),
        ensures
            final(self).data is Some,
            room_wf(final(self).data->Some_0),
            final(self).key == old(self).key,
            final(self).meta == old(self).meta,
            final(peer).key == old(peer).key,
            final(peer).data == old(peer).data,
            ({
                let d = old(self).data->Some_0;
                let svc = old(peer).meta.service->Some_0;
                let nd = final(self).data->Some_0;
                let is_offer = d.offer@.len() == 0;
                let is_answer = d.answer is None;
                if !is_offer && !is_answer {
                    !r && *final(self) == *old(self) && *final(peer) == *old(peer)
                } else if is_offer {
                    &&& r
                    &&& nd.service == svc
                    &&& nd.offer == old(peer).key
                    &&& nd.answer == d.answer
                    &&& final(self).modified
                    &&& final(peer).meta == (AuthMetadata {
                        room: Some(old(self).key),
                        ..old(peer).meta
                    })
                    &&& final(peer).modified
                } else if svc@ != d.service@ {
                    !r && *final(self) == *old(self) && *final(peer) == *old(peer)
                } else {
                    &&& r
                    &&& nd.service == d.service
                    &&& nd.offer == d.offer
                    &&& nd.answer == Some(old(peer).key)
                    &&& final(self).modified
                    &&& final(peer).meta == (AuthMetadata {
                        room: Some(old(self).key),
                        ..old(peer).meta
                    })
                    &&& final(peer).modified
                }
            }),
    {
        let mut data = self.data.take().unwrap();
        let service = match &peer.meta.service {
            Some(s) => s.clone(),
            None => unreached(),
        };

        let is_offer = data.offer.as_str().is_empty();
        let is_answer = data.answer.is_none();
        if !is_offer && !is_answer {
            self.data = Some(data);
            return false;
        }

        if is_offer {
            data.service = service;
            data.offer = peer.key.clone();
        } else if !(service == data.service) {
            self.data = Some(data);
            return false;
        } else {
            data.answer = Some(peer.key.clone());
        }

        self.data = Some(data);
        peer.set_room(self);
        self.modified = true;

        true
    }
}

} // verus!
