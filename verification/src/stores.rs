//! The ordered record stores: typed views over one persisted map segment
//! each, with the serialization proofs discharging the round-trip guarantee.

use vstd::prelude::*;
use crate::codec::{
    decode_member, decode_task, encode_member, encode_task, lemma_encode_member_injective,
    lemma_encode_task_injective, member_encodable, spec_encode_member, spec_encode_task,
    task_encodable,
};
use crate::model::{Member, MemberView, Task, TaskView};
use crate::stable::{map_entries, map_get, map_insert, map_new, map_pairs, map_remove, RawMap, Segment};

verus! {

/// A persisted ordered map from task identifier to serialized task.
pub struct TaskStore {
    raw: RawMap,
    records: Ghost<Map<u64, TaskView>>,
}

impl View for TaskStore {
    type V = Map<u64, TaskView>;

    closed spec fn view(&self) -> Map<u64, TaskView> {
        self.records@
    }
}

impl TaskStore {
    /// Every record is stored under its own identifier as the canonical
    /// serialized form of its abstract value.
    pub closed spec fn wf(self) -> bool {
        &&& map_entries(self.raw).dom().finite()
        &&& self.records@.dom() == map_entries(self.raw).dom()
        &&& forall|k: u64| #[trigger]
            self.records@.contains_key(k) ==> {
                &&& task_encodable(self.records@[k])
                &&& map_entries(self.raw)[k] == spec_encode_task(self.records@[k])
                &&& self.records@[k].id == k
            }
    }

    /// Starts an empty store in the given segment.
    pub fn new(segment: Segment) -> (s: TaskStore)
        ensures
            s.wf(),
            s@ =~= Map::empty(),
    {
        let raw = map_new(segment);
        TaskStore { raw, records: Ghost(Map::empty()) }
    }

    /// Point lookup.
    pub fn get(&self, id: u64) -> (r: Option<Task>)
        requires
            self.wf(),
        ensures
            match r {
                Some(t) => self@.contains_key(id) && t@ == self@[id] && t@.id == id
                    && task_encodable(t@),
                None => !self@.contains_key(id),
            },
    {
        match map_get(&self.raw, id) {
            Option::None => None,
            Option::Some(bytes) => {
                match decode_task(&bytes) {
                    Option::Some(task) => {
                        proof {
                            lemma_encode_task_injective(task@, self.records@[id]);
                        }
                        Some(task)
                    },
                    Option::None => {
                        proof {
                            assert(false);
                        }
                        None
                    },
                }
            },
        }
    }

    /// Full replace of the record under its identifier; returns the previous
    /// record, if any.
    pub fn put(&mut self, t: &Task) -> (prev: Option<Task>)
        requires
            old(self).wf(),
            task_encodable(t@),
        ensures
            final(self).wf(),
            final(self)@ == old(self)@.insert(t.id, t@),
            match prev {
                Some(p) => old(self)@.contains_key(t.id) && p@ == old(self)@[t.id],
                None => !old(self)@.contains_key(t.id),
            },
    {
        let bytes_opt = encode_task(t);
        if bytes_opt.is_none() {
            proof {
                assert(false);
            }
            return None;
        }
        let bytes = bytes_opt.unwrap();
        let prev_bytes = map_insert(&mut self.raw, t.id, bytes);
        self.records = Ghost(self.records@.insert(t.id, t@));
        match prev_bytes {
            Option::None => None,
            Option::Some(pb) => {
                match decode_task(&pb) {
                    Option::Some(p) => {
                        proof {
                            lemma_encode_task_injective(p@, old(self).records@[t.id]);
                        }
                        Some(p)
                    },
                    Option::None => {
                        proof {
                            assert(false);
                        }
                        None
                    },
                }
            },
        }
    }

    /// Removes the record under the identifier and returns it, if any.
    pub fn remove(&mut self, id: u64) -> (prev: Option<Task>)
        requires
            old(self).wf(),
        ensures
            final(self).wf(),
            final(self)@ == old(self)@.remove(id),
            match prev {
                Some(p) => old(self)@.contains_key(id) && p@ == old(self)@[id],
                None => !old(self)@.contains_key(id),
            },
    {
        let prev_bytes = map_remove(&mut self.raw, id);
        self.records = Ghost(self.records@.remove(id));
        match prev_bytes {
            Option::None => None,
            Option::Some(pb) => {
                match decode_task(&pb) {
                    Option::Some(p) => {
                        proof {
                            lemma_encode_task_injective(p@, old(self).records@[id]);
                        }
                        Some(p)
                    },
                    Option::None => {
                        proof {
                            assert(false);
                        }
                        None
                    },
                }
            },
        }
    }

    /// One full pass over the current records, in ascending identifier order.
    pub fn all(&self) -> (r: Vec<Task>)
        requires
            self.wf(),
        ensures
            forall|i: int|
                0 <= i < r@.len() ==> self@.contains_key(#[trigger] r@[i]@.id) && r@[i]@
                    == self@[r@[i]@.id],
            forall|i: int, j: int| 0 <= i < j < r@.len() ==> r@[i]@.id < r@[j]@.id,
            forall|k: u64| #[trigger]
                self@.contains_key(k) ==> exists|i: int| 0 <= i < r@.len() && r@[i]@.id == k,
            r@.len() == self@.dom().len(),
    {
        let pairs = map_pairs(&self.raw);
        let mut out: Vec<Task> = Vec::new();
        let mut idx: usize = 0;
        while idx < pairs.len()
            invariant
                self.wf(),
                forall|i: int|
                    0 <= i < pairs@.len() ==> map_entries(self.raw).contains_key(
                        #[trigger] pairs@[i].0,
                    ) && pairs@[i].1@ == map_entries(self.raw)[pairs@[i].0],
                forall|i: int, j: int| 0 <= i < j < pairs@.len() ==> pairs@[i].0 < pairs@[j].0,
                forall|k: u64| #[trigger]
                    map_entries(self.raw).contains_key(k) ==> exists|i: int|
                        0 <= i < pairs@.len() && pairs@[i].0 == k,
                0 <= idx <= pairs@.len(),
                out@.len() == idx,
                forall|i: int|
                    0 <= i < idx ==> (#[trigger] out@[i])@ == self@[pairs@[i].0] && out@[i]@.id
                        == pairs@[i].0,
            decreases pairs@.len() - idx,
        {
            match decode_task(&pairs[idx].1) {
                Option::Some(task) => {
                    proof {
                        lemma_encode_task_injective(task@, self.records@[pairs@[idx as int].0]);
                    }
                    out.push(task);
                },
                Option::None => {
                    proof {
                        assert(false);
                    }
                },
            }
            idx = idx + 1;
        }
        proof {
            assert forall|k: u64| #[trigger] self@.contains_key(k) implies exists|i: int|
                0 <= i < out@.len() && out@[i]@.id == k by {
                assert(map_entries(self.raw).contains_key(k));
                let i = choose|i: int| 0 <= i < pairs@.len() && pairs@[i].0 == k;
                assert(out@[i]@.id == k);
            }
            assert(out@.len() == self@.dom().len()) by {
                lemma_pairs_len(pairs@, map_entries(self.raw).dom());
            }
        }
        out
    }
}

/// A vector of distinct, strictly ascending keys that covers a finite set
/// has exactly the set's cardinality.
proof fn lemma_pairs_len(pairs: Seq<(u64, Vec<u8>)>, dom: Set<u64>)
    requires
        dom.finite(),
        forall|i: int| 0 <= i < pairs.len() ==> dom.contains(#[trigger] pairs[i].0),
        forall|i: int, j: int| 0 <= i < j < pairs.len() ==> pairs[i].0 < pairs[j].0,
        forall|k: u64| #[trigger] dom.contains(k) ==> exists|i: int|
            0 <= i < pairs.len() && pairs[i].0 == k,
    ensures
        pairs.len() == dom.len(),
    decreases pairs.len(),
{
    if pairs.len() == 0 {
        assert forall|k: u64| !(#[trigger] dom.contains(k)) by {
            if dom.contains(k) {
                let i = choose|i: int| 0 <= i < pairs.len() && pairs[i].0 == k;
            }
        }
        assert(dom =~= Set::empty());
    } else {
        let last = pairs[pairs.len() - 1].0;
        let rest = pairs.drop_last();
        let dom_rest = dom.remove(last);
        assert forall|k: u64| #[trigger] dom_rest.contains(k) implies exists|i: int|
            0 <= i < rest.len() && rest[i].0 == k by {
            let i = choose|i: int| 0 <= i < pairs.len() && pairs[i].0 == k;
            assert(i < pairs.len() - 1);
            assert(rest[i].0 == k);
        }
        assert forall|i: int| 0 <= i < rest.len() implies dom_rest.contains(
            #[trigger] rest[i].0,
        ) by {
            assert(pairs[i].0 < last);
        }
        lemma_pairs_len(rest, dom_rest);
        assert(dom.contains(last));
        assert(dom_rest.len() == dom.len() - 1);
    }
}

/// A persisted ordered map from member identifier to serialized member.
pub struct MemberStore {
    raw: RawMap,
    records: Ghost<Map<u64, MemberView>>,
}

impl View for MemberStore {
    type V = Map<u64, MemberView>;

    closed spec fn view(&self) -> Map<u64, MemberView> {
        self.records@
    }
}

impl MemberStore {
    /// Every record is stored under its own identifier as the canonical
    /// serialized form of its abstract value.
    pub closed spec fn wf(self) -> bool {
        &&& map_entries(self.raw).dom().finite()
        &&& self.records@.dom() == map_entries(self.raw).dom()
        &&& forall|k: u64| #[trigger]
            self.records@.contains_key(k) ==> {
                &&& member_encodable(self.records@[k])
                &&& map_entries(self.raw)[k] == spec_encode_member(self.records@[k])
                &&& self.records@[k].id == k
            }
    }

    /// Starts an empty store in the given segment.
    pub fn new(segment: Segment) -> (s: MemberStore)
        ensures
            s.wf(),
            s@ =~= Map::empty(),
    {
        let raw = map_new(segment);
        MemberStore { raw, records: Ghost(Map::empty()) }
    }

    /// Point lookup.
    pub fn get(&self, id: u64) -> (r: Option<Member>)
        requires
            self.wf(),
        ensures
            match r {
                Some(m) => self@.contains_key(id) && m@ == self@[id] && m@.id == id
                    && member_encodable(m@),
                None => !self@.contains_key(id),
            },
    {
        match map_get(&self.raw, id) {
            Option::None => None,
            Option::Some(bytes) => {
                match decode_member(&bytes) {
                    Option::Some(member) => {
                        proof {
                            lemma_encode_member_injective(member@, self.records@[id]);
                        }
                        Some(member)
                    },
                    Option::None => {
                        proof {
                            assert(false);
                        }
                        None
                    },
                }
            },
        }
    }

    /// Full replace of the record under its identifier; returns the previous
    /// record, if any.
    pub fn put(&mut self, m: &Member) -> (prev: Option<Member>)
        requires
            old(self).wf(),
            member_encodable(m@),
        ensures
            final(self).wf(),
            final(self)@ == old(self)@.insert(m.id, m@),
            match prev {
                Some(p) => old(self)@.contains_key(m.id) && p@ == old(self)@[m.id],
                None => !old(self)@.contains_key(m.id),
            },
    {
        let bytes_opt = encode_member(m);
        if bytes_opt.is_none() {
            proof {
                assert(false);
            }
            return None;
        }
        let bytes = bytes_opt.unwrap();
        let prev_bytes = map_insert(&mut self.raw, m.id, bytes);
        self.records = Ghost(self.records@.insert(m.id, m@));
        match prev_bytes {
            Option::None => None,
            Option::Some(pb) => {
                match decode_member(&pb) {
                    Option::Some(p) => {
                        proof {
                            lemma_encode_member_injective(p@, old(self).records@[m.id]);
                        }
                        Some(p)
                    },
                    Option::None => {
                        proof {
                            assert(false);
                        }
                        None
                    },
                }
            },
        }
    }

    /// Removes the record under the identifier and returns it, if any.
    pub fn remove(&mut self, id: u64) -> (prev: Option<Member>)
        requires
            old(self).wf(),
        ensures
            final(self).wf(),
            final(self)@ == old(self)@.remove(id),
            match prev {
                Some(p) => old(self)@.contains_key(id) && p@ == old(self)@[id],
                None => !old(self)@.contains_key(id),
            },
    {
        let prev_bytes = map_remove(&mut self.raw, id);
        self.records = Ghost(self.records@.remove(id));
        match prev_bytes {
            Option::None => None,
            Option::Some(pb) => {
                match decode_member(&pb) {
                    Option::Some(p) => {
                        proof {
                            lemma_encode_member_injective(p@, old(self).records@[id]);
                        }
                        Some(p)
                    },
                    Option::None => {
                        proof {
                            assert(false);
                        }
                        None
                    },
                }
            },
        }
    }

    /// One full pass over the current records, in ascending identifier order.
    pub fn all(&self) -> (r: Vec<Member>)
        requires
            self.wf(),
        ensures
            forall|i: int|
                0 <= i < r@.len() ==> self@.contains_key(#[trigger] r@[i]@.id) && r@[i]@
                    == self@[r@[i]@.id],
            forall|i: int, j: int| 0 <= i < j < r@.len() ==> r@[i]@.id < r@[j]@.id,
            forall|k: u64| #[trigger]
                self@.contains_key(k) ==> exists|i: int| 0 <= i < r@.len() && r@[i]@.id == k,
            r@.len() == self@.dom().len(),
    {
        let pairs = map_pairs(&self.raw);
        let mut out: Vec<Member> = Vec::new();
        let mut idx: usize = 0;
        while idx < pairs.len()
            invariant
                self.wf(),
                forall|i: int|
                    0 <= i < pairs@.len() ==> map_entries(self.raw).contains_key(
                        #[trigger] pairs@[i].0,
                    ) && pairs@[i].1@ == map_entries(self.raw)[pairs@[i].0],
                forall|i: int, j: int| 0 <= i < j < pairs@.len() ==> pairs@[i].0 < pairs@[j].0,
                forall|k: u64| #[trigger]
                    map_entries(self.raw).contains_key(k) ==> exists|i: int|
                        0 <= i < pairs@.len() && pairs@[i].0 == k,
                0 <= idx <= pairs@.len(),
                out@.len() == idx,
                forall|i: int|
                    0 <= i < idx ==> (#[trigger] out@[i])@ == self@[pairs@[i].0] && out@[i]@.id
                        == pairs@[i].0,
            decreases pairs@.len() - idx,
        {
            match decode_member(&pairs[idx].1) {
                Option::Some(member) => {
                    proof {
                        lemma_encode_member_injective(member@, self.records@[pairs@[idx as int].0]);
                    }
                    out.push(member);
                },
                Option::None => {
                    proof {
                        let k = pairs@[idx as int].0;
                        assert(self.records@.contains_key(k));
                        assert(pairs@[idx as int].1@ == spec_encode_member(self.records@[k]));
                        assert(false);
                    }
                },
            }
            idx = idx + 1;
        }
        proof {
            assert forall|k: u64| #[trigger] self@.contains_key(k) implies exists|i: int|
                0 <= i < out@.len() && out@[i]@.id == k by {
                assert(map_entries(self.raw).contains_key(k));
                let i = choose|i: int| 0 <= i < pairs@.len() && pairs@[i].0 == k;
                assert(out@[i]@.id == k);
            }
            assert(out@.len() == self@.dom().len()) by {
                lemma_pairs_len(pairs@, map_entries(self.raw).dom());
            }
        }
        out
    }
}

} // verus!
