//! Session numbering per (service-id, method-id) pair: each pair counts
//! 1, 2, ..., 0xFFFF, then 1 again; 0 is never handed out.

use vstd::prelude::*;
use std::collections::HashMap;

verus! {

broadcast use vstd::std_specs::hash::group_hash_axioms;

/// The map key of a (service-id, method-id) pair.
pub open spec fn pair_key(service_id: u16, method_id: u16) -> u32 {
    (service_id as int * 65536 + method_id as int) as u32
}

/// The session id that follows `v`.
pub open spec fn next_in_cycle(v: u16) -> u16 {
    if v == 0xFFFF {
        1
    } else {
        (v + 1) as u16
    }
}

/// The id that the next request of a pair gets, given the stored counters:
/// 1 for a pair never seen.
pub open spec fn pending_id(counters: Map<u32, u16>, key: u32) -> u16 {
    if counters.contains_key(key) {
        counters[key]
    } else {
        1
    }
}

/// Distinct pairs have distinct keys, so their counters are independent.
pub proof fn lemma_pair_key_injective(s1: u16, m1: u16, s2: u16, m2: u16)
    ensures
        pair_key(s1, m1) == pair_key(s2, m2) ==> s1 == s2 && m1 == m2,
{
}

/// The sequence of ids never reaches 0: from any legal id the next is legal,
/// it is one more below 0xFFFF, and 0xFFFF wraps to 1.
pub proof fn lemma_session_cycle(v: u16)
    requires
        v != 0,
    ensures
        next_in_cycle(v) != 0,
        v < 0xFFFF ==> next_in_cycle(v) == v + 1,
        v == 0xFFFF ==> next_in_cycle(v) == 1,
{
}

/// Hands out session ids per (service-id, method-id) pair.
pub struct SessionIdManager {
    /// For each pair seen, the id its next request gets.
    counters: HashMap<u32, u16>,
}

impl View for SessionIdManager {
    type V = Map<u32, u16>;

    closed spec fn view(&self) -> Map<u32, u16> {
        self.counters@
    }
}

impl SessionIdManager {
    /// Every stored next id is a legal session id.
    pub open spec fn wf(&self) -> bool {
        forall|k: u32| #[trigger] self@.contains_key(k) ==> self@[k] != 0
    }

    pub fn new() -> (r: SessionIdManager)
        ensures
            r@ == Map::<u32, u16>::empty(),
            r.wf(),
    {
        SessionIdManager { counters: HashMap::new() }
    }

    /// Returns the pair's current id and advances its counter, wrapping
    /// from 0xFFFF to 1.
    pub fn next_session_id(&mut self, service_id: u16, method_id: u16) -> (r: u16)
        requires
            old(self).wf(),
        ensures
            final(self).wf(),
            r == pending_id(old(self)@, pair_key(service_id, method_id)),
            r != 0,
            final(self)@ == old(self)@.insert(pair_key(service_id, method_id), next_in_cycle(r)),
    {
        let key: u32 = (service_id as u32) * 65536 + (method_id as u32);
        let current: u16 = match self.counters.get(&key) {
            Some(c) => *c,
            None => 1,
        };
        assert(current == pending_id(old(self)@, key));
        assert(current != 0);
        let next: u16 = if current == 0xFFFF {
            1
        } else {
            current + 1
        };
        self.counters.insert(key, next);
        assert(self@ == old(self)@.insert(key, next));
        assert(forall|k: u32| #[trigger] self@.contains_key(k) ==> self@[k] != 0);
        current
    }

    /// Makes the pair's next id 1 again, if the pair was seen.
    pub fn reset(&mut self, service_id: u16, method_id: u16)
        requires
            old(self).wf(),
        ensures
            final(self).wf(),
            old(self)@.contains_key(pair_key(service_id, method_id)) ==> final(self)@ == old(
                self,
            )@.insert(pair_key(service_id, method_id), 1),
            !old(self)@.contains_key(pair_key(service_id, method_id)) ==> final(self)@ == old(
                self,
            )@,
    {
        let key: u32 = (service_id as u32) * 65536 + (method_id as u32);
        if self.counters.contains_key(&key) {
            self.counters.insert(key, 1u16);
            assert(self@ == old(self)@.insert(key, 1u16));
            assert(forall|k: u32| #[trigger] self@.contains_key(k) ==> self@[k] != 0);
        }
    }

    /// Forgets every pair: each starts at 1 again.
    pub fn reset_all(&mut self)
        ensures
            final(self)@ == Map::<u32, u16>::empty(),
            final(self).wf(),
    {
        self.counters.clear();
    }
}

} // verus!
