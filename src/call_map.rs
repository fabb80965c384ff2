//! The call table: a fixed array of `MAX_CALLS` slots with allocation, lookup by Call-ID
//! and release, and the laws that hold of them.

use vstd::prelude::*;

use crate::sip_defs::{
    empty_call, fresh_call, Call, CallMap, CallMapView, CallView, A_LEG, B_LEG,
    MAX_CALLS,
};
use crate::text::same_text;

verus! {

/// The number of active slots among `s`.
pub open spec fn count_active(s: Seq<CallView>) -> nat
    decreases s.len(),
{
    if s.len() == 0 {
        0
    } else {
        count_active(s.drop_last()) + if s.last().is_active {
            1nat
        } else {
            0nat
        }
    }
}

/// An inactive slot is neutral in every field but its index.
pub open spec fn slot_ok(c: CallView, i: int) -> bool {
    &&& c.index == i
    &&& !c.is_active ==> c == empty_call(i as usize)
}

/// The table's invariant: `MAX_CALLS` slots, each at its own index, inactive slots neutral,
/// and `size` the number of active slots.
pub open spec fn table_ok(v: CallMapView) -> bool {
    &&& v.slots.len() == MAX_CALLS
    &&& forall|i: int| 0 <= i < v.slots.len() ==> slot_ok(#[trigger] v.slots[i], i)
    &&& v.size == count_active(v.slots)
}

/// Position `k` holds the lowest inactive slot.
pub open spec fn lowest_inactive(s: Seq<CallView>, k: int) -> bool {
    &&& 0 <= k < s.len()
    &&& !s[k].is_active
    &&& forall|j: int| 0 <= j < k ==> (#[trigger] s[j]).is_active
}

/// The table once slot `i` is released: the slot is neutral again, and `size` drops by one,
/// not below zero, where the slot was active.
pub open spec fn released(v: CallMapView, i: int) -> CallMapView {
    if 0 <= i < v.slots.len() {
        CallMapView {
            slots: v.slots.update(i, empty_call(i as usize)),
            size: if v.slots[i].is_active && v.size > 0 {
                (v.size - 1) as nat
            } else {
                v.size
            },
        }
    } else {
        v
    }
}

/// The slot that an allocation takes: the lowest inactive one, while `size` is below
/// `MAX_CALLS`.
pub open spec fn allocation_slot(v: CallMapView) -> Option<int> {
    if v.size < MAX_CALLS && exists|k: int| lowest_inactive(v.slots, k) {
        Some(choose|k: int| lowest_inactive(v.slots, k))
    } else {
        None
    }
}

/// The table once an allocation has taken slot `k`.
pub open spec fn allocated(v: CallMapView, k: int) -> CallMapView {
    CallMapView { slots: v.slots.update(k, fresh_call(k as usize)), size: v.size + 1 }
}

/// The slot, and the leg, that a Call-ID names: the first active slot whose A-leg or
/// B-leg Call-ID it is, the A-leg winning within a slot.
pub open spec fn slot_matches(c: CallView, id: Seq<char>) -> bool {
    c.is_active && (c.a_leg_uuid == id || c.b_leg_uuid == id)
}

pub open spec fn first_match(s: Seq<CallView>, id: Seq<char>, k: int) -> bool {
    &&& 0 <= k < s.len()
    &&& slot_matches(s[k], id)
    &&& forall|j: int| 0 <= j < k ==> !slot_matches(#[trigger] s[j], id)
}

pub open spec fn lookup(s: Seq<CallView>, id: Seq<char>) -> (Option<int>, i32) {
    if id.len() == 0 {
        (None, 0)
    } else if exists|k: int| first_match(s, id, k) {
        let k = choose|k: int| first_match(s, id, k);
        (Some(k), if s[k].a_leg_uuid == id {
            A_LEG
        } else {
            B_LEG
        })
    } else {
        (None, 0)
    }
}

pub proof fn lemma_count_update(s: Seq<CallView>, i: int, c: CallView)
    requires
        0 <= i < s.len(),
    ensures
        count_active(s.update(i, c)) + (if s[i].is_active {
            1int
        } else {
            0int
        }) == count_active(s) + (if c.is_active {
            1int
        } else {
            0int
        }),
    decreases s.len(),
{
    if i == s.len() - 1 {
        assert(s.update(i, c).drop_last() =~= s.drop_last());
    } else {
        lemma_count_update(s.drop_last(), i, c);
        assert(s.update(i, c).drop_last() =~= s.drop_last().update(i, c));
    }
}

pub proof fn lemma_count_bound(s: Seq<CallView>)
    ensures
        count_active(s) <= s.len(),
        count_active(s) == s.len() ==> forall|j: int| 0 <= j < s.len() ==> (#[trigger] s[j]).is_active,
    decreases s.len(),
{
    if s.len() > 0 {
        lemma_count_bound(s.drop_last());
        if count_active(s) == s.len() {
            assert forall|j: int| 0 <= j < s.len() implies (#[trigger] s[j]).is_active by {
                if j < s.len() - 1 {
                    assert(s.drop_last()[j] == s[j]);
                }
            }
        }
    }
}

impl CallMap {
    /// A table of `MAX_CALLS` inactive slots.
    pub fn new() -> (r: CallMap)
        ensures
            table_ok(r@),
            r@.size == 0,
            forall|i: int| 0 <= i < MAX_CALLS ==> #[trigger] r@.slots[i] == empty_call(i as usize),
    {
        let mut calls: Vec<Call> = Vec::with_capacity(MAX_CALLS);
        let mut i: usize = 0;
        while i < MAX_CALLS
            invariant
                i <= MAX_CALLS,
                calls@.len() == i,
                forall|j: int| 0 <= j < i ==> #[trigger] calls@[j]@ == empty_call(j as usize),
                count_active(calls@.map_values(|c: Call| c@)) == 0,
            decreases MAX_CALLS - i,
        {
            let ghost before = calls@.map_values(|c: Call| c@);
            calls.push(Call::empty(i));
            proof {
                assert(calls@.map_values(|c: Call| c@).drop_last() =~= before);
            }
            i = i + 1;
        }
        let r = CallMap { calls, size: 0 };
        proof {
            assert forall|j: int| 0 <= j < r@.slots.len() implies slot_ok(#[trigger] r@.slots[j], j) by {
                assert(r@.slots[j] == calls@[j]@);
            }
        }
        r
    }

    /// The slot, and the leg, that `call_id` names among the active slots; `(None, 0)` where
    /// none does, and at once for an empty Call-ID.
    pub fn find_call_by_callid(call_map: &CallMap, call_id: &str) -> (r: (Option<usize>, i32))
        ensures
            ({
                let (k, leg) = lookup(call_map@.slots, call_id@);
                &&& leg == r.1
                &&& match k {
                    Some(i) => r.0 == Some(i as usize),
                    None => r.0 is None,
                }
            }),
    {
        if call_id.is_empty() {
            return (None, 0);
        }
        let ghost s = call_map@.slots;
        let mut index: usize = 0;
        while index < call_map.calls.len()
            invariant
                s == call_map@.slots,
                s.len() == call_map.calls@.len(),
                index <= s.len(),
                call_id@.len() > 0,
                forall|j: int| 0 <= j < index ==> !slot_matches(#[trigger] s[j], call_id@),
            decreases s.len() - index,
        {
            let call = &call_map.calls[index];
            assert(s[index as int] == call@);
            if call.is_active {
                if same_text(call.a_leg_uuid.as_str(), call_id) {
                    proof {
                        assert(first_match(s, call_id@, index as int));
                        let k = choose|k: int| first_match(s, call_id@, k);
                        assert(k == index) by {
                            if k < index {
                                assert(!slot_matches(s[k], call_id@));
                            } else if k > index {
                                assert(!slot_matches(s[index as int], call_id@));
                            }
                        }
                    }
                    return (Some(index), A_LEG);
                }
                if same_text(call.b_leg_uuid.as_str(), call_id) {
                    proof {
                        assert(first_match(s, call_id@, index as int));
                        let k = choose|k: int| first_match(s, call_id@, k);
                        assert(k == index) by {
                            if k < index {
                                assert(!slot_matches(s[k], call_id@));
                            } else if k > index {
                                assert(!slot_matches(s[index as int], call_id@));
                            }
                        }
                    }
                    return (Some(index), B_LEG);
                }
            }
            index = index + 1;
        }
        proof {
            assert(!exists|k: int| first_match(s, call_id@, k));
        }
        (None, 0)
    }

    /// Takes the lowest inactive slot, makes it a fresh active slot and counts it; `None`
    /// where the table is full.
    pub fn allocate_new_call_mut(call_map: &mut CallMap) -> (r: Option<usize>)
        requires
            table_ok(old(call_map)@),
        ensures
            table_ok(final(call_map)@),
            match allocation_slot(old(call_map)@) {
                Some(k) => r == Some(k as usize) && final(call_map)@ == allocated(old(call_map)@, k),
                None => r is None && final(call_map)@ == old(call_map)@,
            },
            r is None <==> old(call_map)@.size == MAX_CALLS,
    {
        let ghost v = call_map@;
        proof {
            lemma_count_bound(v.slots);
        }
        if call_map.size >= MAX_CALLS {
            return None;
        }
        let mut i: usize = 0;
        while i < MAX_CALLS
            invariant
                call_map@ == v,
                old(call_map)@ == v,
                table_ok(v),
                v.size < MAX_CALLS,
                i <= MAX_CALLS,
                forall|j: int| 0 <= j < i ==> (#[trigger] v.slots[j]).is_active,
            decreases MAX_CALLS - i,
        {
            assert(v.slots[i as int] == call_map.calls@[i as int]@);
            if !call_map.calls[i].is_active {
                let mut call = Call::empty(i);
                call.is_active = true;
                call_map.calls.set(i, call);
                call_map.size = call_map.size + 1;
                proof {
                    assert(lowest_inactive(v.slots, i as int));
                    lemma_allocation_slot_is(v, i as int);
                    assert(call_map@.slots =~= v.slots.update(i as int, fresh_call(i)));
                    lemma_count_update(v.slots, i as int, fresh_call(i));
                    let w = call_map@;
                    assert forall|j: int| 0 <= j < w.slots.len() implies slot_ok(#[trigger] w.slots[j], j) by {
                        if j != i {
                            assert(w.slots[j] == v.slots[j]);
                        }
                    }
                    assert(allocation_slot(v) == Some(i as int));
                    assert(w == allocated(v, i as int));
                }
                return Some(i);
            }
            i = i + 1;
        }
        proof {
            assert(count_active(v.slots) == MAX_CALLS) by {
                lemma_all_active(v.slots);
            }
        }
        None
    }

    /// Makes slot `index` neutral again, keeping its index, and uncounts it where it was
    /// active. Releasing an inactive slot, or an index past the table, changes nothing
    /// but that slot's neutral fields.
    pub fn release_call(&mut self, index: usize)
        ensures
            final(self)@ == released(old(self)@, index as int),
            table_ok(old(self)@) ==> table_ok(final(self)@),
    {
        let ghost v = self@;
        if index < self.calls.len() {
            let was_active = self.calls[index].is_active;
            assert(was_active == v.slots[index as int].is_active);
            self.calls.set(index, Call::empty(index));
            if was_active {
                self.size = if self.size > 0 {
                    self.size - 1
                } else {
                    0
                };
            }
            proof {
                assert(self@.slots =~= v.slots.update(index as int, empty_call(index)));
                if table_ok(v) {
                    lemma_count_update(v.slots, index as int, empty_call(index));
                    let w = self@;
                    assert forall|j: int| 0 <= j < w.slots.len() implies slot_ok(#[trigger] w.slots[j], j) by {
                        if j != index {
                            assert(w.slots[j] == v.slots[j]);
                        }
                    }
                }
            }
        }
    }
}

/// Releasing a slot twice leaves the table as releasing it once does.
pub proof fn release_is_idempotent(v: CallMapView, i: int)
    ensures
        released(released(v, i), i) == released(v, i),
{
    if 0 <= i < v.slots.len() {
        let once = released(v, i);
        assert(once.slots.update(i, empty_call(i as usize)) =~= once.slots);
    }
}

/// Releasing an inactive slot leaves `size` as it was.
pub proof fn release_inactive_keeps_size(v: CallMapView, i: int)
    requires
        0 <= i < v.slots.len(),
        !v.slots[i].is_active,
    ensures
        released(v, i).size == v.size,
        released(v, i).slots[i] == empty_call(i as usize),
{
}

/// An allocation, the release of the slot it took, and a second allocation: the second
/// takes the same slot as the first.
pub proof fn allocate_release_allocate_same_slot(v: CallMapView)
    requires
        table_ok(v),
        allocation_slot(v) is Some,
    ensures
        ({
            let k = allocation_slot(v)->0;
            allocation_slot(released(allocated(v, k), k)) == Some(k)
        }),
{
    let k = choose|k: int| lowest_inactive(v.slots, k);
    let w = released(allocated(v, k), k);
    assert(w.slots =~= v.slots.update(k, empty_call(k as usize)));
    assert(w.size == v.size);
    assert(lowest_inactive(w.slots, k)) by {
        assert forall|j: int| 0 <= j < k implies (#[trigger] w.slots[j]).is_active by {
            assert(w.slots[j] == v.slots[j]);
        }
    }
    lemma_allocation_slot_is(w, k);
}

pub proof fn lemma_lookup_in_range(s: Seq<CallView>, id: Seq<char>)
    ensures
        lookup(s, id).0 matches Some(k) ==> first_match(s, id, k),
{
}

pub proof fn lemma_allocation_in_range(v: CallMapView)
    ensures
        allocation_slot(v) matches Some(k) ==> lowest_inactive(v.slots, k),
{
}

/// Releasing any slot keeps the table's invariant.
pub proof fn lemma_release_keeps_table(v: CallMapView, i: int)
    requires
        table_ok(v),
    ensures
        table_ok(released(v, i)),
{
    if 0 <= i < v.slots.len() {
        lemma_count_update(v.slots, i, empty_call(i as usize));
        if v.slots[i].is_active {
            lemma_count_bound(v.slots);
            assert(count_active(v.slots) >= 1) by {
                lemma_count_update(v.slots, i, empty_call(i as usize));
            }
        }
        let w = released(v, i);
        assert forall|j: int| 0 <= j < w.slots.len() implies slot_ok(#[trigger] w.slots[j], j) by {
            if j != i {
                assert(w.slots[j] == v.slots[j]);
            }
        }
    }
}

/// An allocation keeps the table's invariant.
pub proof fn lemma_allocate_keeps_table(v: CallMapView, k: int)
    requires
        table_ok(v),
        lowest_inactive(v.slots, k),
    ensures
        table_ok(allocated(v, k)),
{
    lemma_count_update(v.slots, k, fresh_call(k as usize));
    let w = allocated(v, k);
    assert forall|j: int| 0 <= j < w.slots.len() implies slot_ok(#[trigger] w.slots[j], j) by {
        if j != k {
            assert(w.slots[j] == v.slots[j]);
        }
    }
}

/// Replacing an active slot by an active slot of the same index keeps the invariant.
pub proof fn lemma_active_update_keeps_table(v: CallMapView, i: int, c: CallView)
    requires
        table_ok(v),
        0 <= i < v.slots.len(),
        v.slots[i].is_active,
        c.is_active,
        c.index == i,
    ensures
        table_ok(CallMapView { slots: v.slots.update(i, c), size: v.size }),
{
    lemma_count_update(v.slots, i, c);
    let w = CallMapView { slots: v.slots.update(i, c), size: v.size };
    assert forall|j: int| 0 <= j < w.slots.len() implies slot_ok(#[trigger] w.slots[j], j) by {
        if j != i {
            assert(w.slots[j] == v.slots[j]);
        }
    }
}

/// An ID that no active slot holds is found nowhere.
pub proof fn lemma_lookup_none(s: Seq<CallView>, id: Seq<char>, k: int)
    requires
        id.len() > 0,
        lookup(s, id).0 is None,
        0 <= k < s.len(),
    ensures
        !slot_matches(s[k], id),
    decreases k,
{
    if slot_matches(s[k], id) {
        if forall|j: int| 0 <= j < k ==> !slot_matches(#[trigger] s[j], id) {
            assert(first_match(s, id, k));
        } else {
            let j = choose|j: int| 0 <= j < k && slot_matches(#[trigger] s[j], id);
            lemma_lookup_none(s, id, j);
        }
    }
}

/// The allocation slot is the lowest inactive slot, wherever `size` leaves room.
pub proof fn lemma_allocation_slot_is(v: CallMapView, k: int)
    requires
        lowest_inactive(v.slots, k),
        v.size < MAX_CALLS,
    ensures
        allocation_slot(v) == Some(k),
{
    let c = choose|c: int| lowest_inactive(v.slots, c);
    if c < k {
        assert(v.slots[c].is_active);
    } else if c > k {
        assert(v.slots[k].is_active);
    }
}

proof fn lemma_all_active(s: Seq<CallView>)
    requires
        forall|j: int| 0 <= j < s.len() ==> (#[trigger] s[j]).is_active,
    ensures
        count_active(s) == s.len(),
    decreases s.len(),
{
    if s.len() > 0 {
        assert forall|j: int| 0 <= j < s.drop_last().len() implies (#[trigger] s.drop_last()[j]).is_active by {
            assert(s.drop_last()[j] == s[j]);
        }
        lemma_all_active(s.drop_last());
    }
}

} // verus!
