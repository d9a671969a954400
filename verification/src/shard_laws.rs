//! What reads and writes of one shard guarantee, proved over shard images.
use crate::codec::{all_zero, KEY_LEN};
use crate::storage_file::{
    entry_key, entry_of, entry_state, entry_value, image_holds, lemma_entry_of_state, probe_end, probe_move, slot_of, spec_read,
    spec_write, spec_write_slot, store, KeyEntryState, ProbeEnd, ProbeMove, ProbeState,
    ReadOutcome, ENTRY_LEN,
};
use vstd::prelude::*;

verus! {

/// A key of full width that is not the reserved all-zero pattern.
pub open spec fn valid_key(key: Seq<u8>) -> bool {
    key.len() == KEY_LEN && !all_zero(key)
}

/// Storing an entry replaces one slot and leaves every other slot, and the
/// length of the image, as it was.
pub proof fn lemma_store_frame(image: Seq<u8>, slots: nat, slot: nat, entry: Seq<u8>)
    requires
        image_holds(image, slots),
        slot < slots,
        entry.len() == ENTRY_LEN,
    ensures
        store(image, slot, entry).len() == image.len(),
        image_holds(store(image, slot, entry), slots),
        slot_of(store(image, slot, entry), slot) == entry,
        forall|other: nat|
            other < slots && other != slot ==> #[trigger] slot_of(
                store(image, slot, entry),
                other,
            ) == slot_of(image, other),
{
    let stored = store(image, slot, entry);
    assert(ENTRY_LEN == 136);
    assert((slot + 1) * ENTRY_LEN <= slots * ENTRY_LEN) by (nonlinear_arith)
        requires
            slot < slots,
    ;
    assert(slot_of(stored, slot) =~= entry);
    assert forall|other: nat| other < slots && other != slot implies #[trigger] slot_of(
        stored,
        other,
    ) == slot_of(image, other) by {
        assert((other + 1) * ENTRY_LEN <= slots * ENTRY_LEN) by (nonlinear_arith)
            requires
                other < slots,
        ;
        if other < slot {
            assert((other + 1) * ENTRY_LEN <= slot * ENTRY_LEN) by (nonlinear_arith)
                requires
                    other < slot,
            ;
        } else {
            assert((slot + 1) * ENTRY_LEN <= other * ENTRY_LEN) by (nonlinear_arith)
                requires
                    slot < other,
            ;
        }
        assert(slot_of(stored, other) =~= slot_of(image, other));
    }
}

/// Storing the same entry in the same slot twice is storing it once.
pub proof fn lemma_store_twice(image: Seq<u8>, slots: nat, slot: nat, entry: Seq<u8>)
    requires
        image_holds(image, slots),
        slot < slots,
        entry.len() == ENTRY_LEN,
    ensures
        store(store(image, slot, entry), slot, entry) == store(image, slot, entry),
{
    assert(ENTRY_LEN == 136);
    assert((slot + 1) * ENTRY_LEN <= slots * ENTRY_LEN) by (nonlinear_arith)
        requires
            slot < slots,
    ;
    assert(store(store(image, slot, entry), slot, entry) =~= store(image, slot, entry));
}

/// A probe that goes on stays well formed, and a probe that ends does so at
/// a slot of the shard whose state says why: the slot of a hit holds the
/// key, the slot of a vacancy is free.
pub proof fn lemma_probe_end(image: Seq<u8>, p: ProbeState)
    requires
        p.wf(),
    ensures
        match probe_end(image, p) {
            ProbeEnd::Hit { slot, value } => slot < p.slots && entry_state(
                p.key,
                slot_of(image, slot),
            ) == KeyEntryState::Same(value),
            ProbeEnd::Vacant { slot } => slot < p.slots && entry_state(p.key, slot_of(image, slot))
                == KeyEntryState::Free,
            ProbeEnd::Exhausted => true,
        },
    decreases p.left,
{
    match probe_move(p, slot_of(image, p.slot)) {
        ProbeMove::Advance(q) => {
            lemma_next_wf(p);
            lemma_probe_end(image, q);
        },
        _ => {},
    }
}

/// The probe one slot further is well formed when the probe may go on.
pub proof fn lemma_next_wf(p: ProbeState)
    requires
        p.wf(),
        p.left > 1,
    ensures
        p.next().wf(),
{
    assert((p.slot + 1) % p.slots < p.slots) by (nonlinear_arith)
        requires
            p.slots > 0,
    ;
}

/// Once an entry for the probe's key is stored in the slot where the probe
/// ends, the probe ends there with a hit on the stored value.
proof fn lemma_probe_after_store(image: Seq<u8>, p: ProbeState, target: nat, value: u64)
    requires
        p.wf(),
        valid_key(p.key),
        image_holds(image, p.slots),
        match probe_end(image, p) {
            ProbeEnd::Hit { slot, value } => slot == target,
            ProbeEnd::Vacant { slot } => slot == target,
            ProbeEnd::Exhausted => false,
        },
    ensures
        probe_end(store(image, target, entry_of(p.key, value)), p) == (ProbeEnd::Hit {
            slot: target,
            value,
        }),
    decreases p.left,
{
    let entry = entry_of(p.key, value);
    let stored = store(image, target, entry);
    lemma_probe_end(image, p);
    lemma_entry_of_state(p.key, value);
    lemma_store_frame(image, p.slots, target, entry);
    match probe_move(p, slot_of(image, p.slot)) {
        ProbeMove::Advance(q) => {
            lemma_next_wf(p);
            lemma_probe_after_store(image, q, target, value);
            assert(p.slot != target);
            assert(slot_of(stored, p.slot) == slot_of(image, p.slot));
        },
        _ => {
            assert(p.slot == target);
        },
    }
}

/// Storing an entry for another key, in a slot that was free or already
/// held that other key, does not change where a probe that hits ends.
proof fn lemma_probe_undisturbed(
    image: Seq<u8>,
    p: ProbeState,
    target: nat,
    other_key: Seq<u8>,
    other_value: u64,
)
    requires
        p.wf(),
        valid_key(other_key),
        other_key != p.key,
        image_holds(image, p.slots),
        target < p.slots,
        entry_state(other_key, slot_of(image, target)) != KeyEntryState::Different,
        probe_end(image, p) is Hit,
    ensures
        probe_end(store(image, target, entry_of(other_key, other_value)), p) == probe_end(
            image,
            p,
        ),
    decreases p.left,
{
    let entry = entry_of(other_key, other_value);
    let stored = store(image, target, entry);
    lemma_entry_of_state(other_key, other_value);
    lemma_store_frame(image, p.slots, target, entry);
    if p.slot != target {
        assert(slot_of(stored, p.slot) == slot_of(image, p.slot));
    }
    match probe_move(p, slot_of(image, p.slot)) {
        ProbeMove::Advance(q) => {
            lemma_next_wf(p);
            lemma_probe_undisturbed(image, q, target, other_key, other_value);
        },
        _ => {},
    }
}

/// The first probe of a shard with at least one slot is well formed.
pub proof fn lemma_start_wf(slots: nat, pos: nat, key: Seq<u8>)
    requires
        1 <= slots,
        slots * ENTRY_LEN <= u64::MAX,
        key.len() == KEY_LEN,
    ensures
        ProbeState::start(slots, pos, key).wf(),
{
    assert(pos % slots < slots) by (nonlinear_arith)
        requires
            slots > 0,
    ;
}

/// A shard whose offsets fit a file, with the image that holds its slots.
/// It may be without slots.
pub open spec fn shard_wf(image: Seq<u8>, slots: nat) -> bool {
    &&& slots * ENTRY_LEN <= u64::MAX
    &&& image_holds(image, slots)
}

/// A shard without slots has room for no key and holds none: every write
/// and every read of it is exhausted, whatever its image.
pub proof fn lemma_no_slots_no_room(image: Seq<u8>, pos: nat, key: Seq<u8>, value: u64)
    ensures
        spec_read(image, 0, pos, key) == ReadOutcome::Exhausted,
        spec_write_slot(image, 0, pos, key) is None,
        spec_write(image, 0, pos, key, value) is None,
{
}

/// A read that ends otherwise than exhausted, and a write that finds room,
/// are those of a shard with at least one slot.
pub proof fn lemma_room_means_slots(image: Seq<u8>, slots: nat, pos: nat, key: Seq<u8>)
    ensures
        spec_read(image, slots, pos, key) != ReadOutcome::Exhausted ==> slots >= 1,
        spec_write_slot(image, slots, pos, key) is Some ==> slots >= 1,
{
}

/// A write keeps the length of the image and changes nothing when the shard
/// is full of other keys.
pub proof fn lemma_write_keeps_shape(
    image: Seq<u8>,
    slots: nat,
    pos: nat,
    key: Seq<u8>,
    value: u64,
)
    requires
        shard_wf(image, slots),
        valid_key(key),
    ensures
        spec_write(image, slots, pos, key, value) matches Some(after) ==> after.len()
            == image.len() && shard_wf(after, slots),
        spec_write_slot(image, slots, pos, key) matches Some(slot) ==> slot < slots,
{
    if let Some(slot) = spec_write_slot(image, slots, pos, key) {
        lemma_room_means_slots(image, slots, pos, key);
        lemma_start_wf(slots, pos, key);
        lemma_probe_end(image, ProbeState::start(slots, pos, key));
        lemma_entry_of_state(key, value);
        lemma_store_frame(image, slots, slot, entry_of(key, value));
    }
}

/// A key that was written is read back with the value written: after a
/// write that found room, a read of the same key from the same position
/// finds that value.
pub proof fn lemma_read_after_write(
    image: Seq<u8>,
    slots: nat,
    pos: nat,
    key: Seq<u8>,
    value: u64,
)
    requires
        shard_wf(image, slots),
        valid_key(key),
        spec_write(image, slots, pos, key, value) is Some,
    ensures
        spec_read(spec_write(image, slots, pos, key, value)->0, slots, pos, key)
            == ReadOutcome::Found(value),
{
    let p = ProbeState::start(slots, pos, key);
    lemma_start_wf(slots, pos, key);
    let target = spec_write_slot(image, slots, pos, key)->0;
    lemma_probe_after_store(image, p, target, value);
}

/// Writing a key again lands in the slot of the first write, whatever the
/// value: a write never fails, nor moves, once the key is stored.
pub proof fn lemma_write_again_same_slot(
    image: Seq<u8>,
    slots: nat,
    pos: nat,
    key: Seq<u8>,
    first: u64,
)
    requires
        shard_wf(image, slots),
        valid_key(key),
        spec_write(image, slots, pos, key, first) is Some,
    ensures
        spec_write_slot(spec_write(image, slots, pos, key, first)->0, slots, pos, key)
            == spec_write_slot(image, slots, pos, key),
{
    let p = ProbeState::start(slots, pos, key);
    lemma_start_wf(slots, pos, key);
    let target = spec_write_slot(image, slots, pos, key)->0;
    lemma_probe_after_store(image, p, target, first);
}

/// Writing the same key and value twice leaves the image that the first
/// write left.
pub proof fn lemma_write_idempotent(
    image: Seq<u8>,
    slots: nat,
    pos: nat,
    key: Seq<u8>,
    value: u64,
)
    requires
        shard_wf(image, slots),
        valid_key(key),
        spec_write(image, slots, pos, key, value) is Some,
    ensures
        spec_write(spec_write(image, slots, pos, key, value)->0, slots, pos, key, value)
            == spec_write(image, slots, pos, key, value),
        spec_read(
            spec_write(spec_write(image, slots, pos, key, value)->0, slots, pos, key, value)->0,
            slots,
            pos,
            key,
        ) == ReadOutcome::Found(value),
{
    lemma_write_again_same_slot(image, slots, pos, key, value);
    lemma_write_keeps_shape(image, slots, pos, key, value);
    lemma_entry_of_state(key, value);
    let target = spec_write_slot(image, slots, pos, key)->0;
    lemma_store_twice(image, slots, target, entry_of(key, value));
    lemma_read_after_write(image, slots, pos, key, value);
}

/// The last write wins: after two writes of one key, a read finds the value
/// of the second.
pub proof fn lemma_last_write_wins(
    image: Seq<u8>,
    slots: nat,
    pos: nat,
    key: Seq<u8>,
    first: u64,
    second: u64,
)
    requires
        shard_wf(image, slots),
        valid_key(key),
        spec_write(image, slots, pos, key, first) is Some,
    ensures
        spec_write(spec_write(image, slots, pos, key, first)->0, slots, pos, key, second) is Some,
        spec_read(
            spec_write(spec_write(image, slots, pos, key, first)->0, slots, pos, key, second)->0,
            slots,
            pos,
            key,
        ) == ReadOutcome::Found(second),
{
    lemma_write_again_same_slot(image, slots, pos, key, first);
    lemma_write_keeps_shape(image, slots, pos, key, first);
    let after = spec_write(image, slots, pos, key, first)->0;
    lemma_read_after_write(after, slots, pos, key, second);
}

/// In a shard with slots that was never written, no key is found.
pub proof fn lemma_fresh_shard_is_empty(image: Seq<u8>, slots: nat, pos: nat, key: Seq<u8>)
    requires
        shard_wf(image, slots),
        1 <= slots,
        all_zero(image),
    ensures
        spec_read(image, slots, pos, key) == ReadOutcome::Absent,
{
    let p = ProbeState::start(slots, pos, key);
    assert(p.slot < slots) by (nonlinear_arith)
        requires
            p.slot == pos % slots,
            slots > 0,
    ;
    assert((p.slot + 1) * ENTRY_LEN <= slots * ENTRY_LEN) by (nonlinear_arith)
        requires
            p.slot < slots,
    ;
    assert(all_zero(slot_of(image, p.slot)));
}

/// A write of one key does not disturb another: a key that was found is
/// found with the same value after any write of a different key to the
/// same shard, from whatever positions the two start.
pub proof fn lemma_write_keeps_other_keys(
    image: Seq<u8>,
    slots: nat,
    pos: nat,
    key: Seq<u8>,
    other_pos: nat,
    other_key: Seq<u8>,
    other_value: u64,
)
    requires
        shard_wf(image, slots),
        valid_key(key),
        valid_key(other_key),
        key != other_key,
        spec_read(image, slots, pos, key) is Found,
        spec_write(image, slots, other_pos, other_key, other_value) is Some,
    ensures
        spec_read(
            spec_write(image, slots, other_pos, other_key, other_value)->0,
            slots,
            pos,
            key,
        ) == spec_read(image, slots, pos, key),
{
    let p = ProbeState::start(slots, pos, key);
    let q = ProbeState::start(slots, other_pos, other_key);
    lemma_start_wf(slots, pos, key);
    lemma_start_wf(slots, other_pos, other_key);
    lemma_probe_end(image, q);
    let target = spec_write_slot(image, slots, other_pos, other_key)->0;
    lemma_probe_undisturbed(image, p, target, other_key, other_value);
}

/// Two different keys written from the same position both read back with
/// their own values.
pub proof fn lemma_colliding_keys_round_trip(
    image: Seq<u8>,
    slots: nat,
    pos: nat,
    key: Seq<u8>,
    value: u64,
    other_key: Seq<u8>,
    other_value: u64,
)
    requires
        shard_wf(image, slots),
        valid_key(key),
        valid_key(other_key),
        key != other_key,
        spec_write(image, slots, pos, key, value) is Some,
        spec_write(spec_write(image, slots, pos, key, value)->0, slots, pos, other_key, other_value)
            is Some,
    ensures
        ({
            let first = spec_write(image, slots, pos, key, value)->0;
            let both = spec_write(first, slots, pos, other_key, other_value)->0;
            &&& spec_read(both, slots, pos, key) == ReadOutcome::Found(value)
            &&& spec_read(both, slots, pos, other_key) == ReadOutcome::Found(other_value)
        }),
{
    let first = spec_write(image, slots, pos, key, value)->0;
    lemma_write_keeps_shape(image, slots, pos, key, value);
    lemma_read_after_write(image, slots, pos, key, value);
    lemma_write_keeps_other_keys(first, slots, pos, key, pos, other_key, other_value);
    lemma_read_after_write(first, slots, pos, other_key, other_value);
}

/// In a shard that was never written and has at least two slots, two
/// different keys written from the same position lie in neighbouring slots:
/// the first in the slot of the position, the second in the slot after it.
pub proof fn lemma_colliding_keys_adjacent(
    image: Seq<u8>,
    slots: nat,
    pos: nat,
    key: Seq<u8>,
    value: u64,
    other_key: Seq<u8>,
)
    requires
        shard_wf(image, slots),
        2 <= slots,
        all_zero(image),
        valid_key(key),
        valid_key(other_key),
        key != other_key,
    ensures
        spec_write_slot(image, slots, pos, key) == Some(pos % slots),
        spec_write_slot(
            store(image, pos % slots, entry_of(key, value)),
            slots,
            pos,
            other_key,
        ) == Some((pos % slots + 1) % slots),
{
    let p = ProbeState::start(slots, pos, key);
    let q = ProbeState::start(slots, pos, other_key);
    lemma_start_wf(slots, pos, key);
    lemma_start_wf(slots, pos, other_key);
    let home = p.slot;
    let entry = entry_of(key, value);
    let first = store(image, home, entry);
    assert((home + 1) * ENTRY_LEN <= slots * ENTRY_LEN) by (nonlinear_arith)
        requires
            home < slots,
    ;
    assert(all_zero(slot_of(image, home)));
    lemma_entry_of_state(key, value);
    lemma_store_frame(image, slots, home, entry);
    lemma_next_wf(q);
    let beside = q.next().slot;
    assert(beside != home) by (nonlinear_arith)
        requires
            beside == (home + 1) % slots,
            home < slots,
            2 <= slots,
    ;
    assert((beside + 1) * ENTRY_LEN <= slots * ENTRY_LEN) by (nonlinear_arith)
        requires
            beside < slots,
    ;
    assert(all_zero(slot_of(image, beside)));
    assert(slot_of(first, beside) == slot_of(image, beside));
    assert(probe_move(q, slot_of(first, home)) == ProbeMove::Advance(q.next()));
    assert(probe_move(q.next(), slot_of(first, beside)) == ProbeMove::Vacant);
    assert(probe_end(first, q.next()) == (ProbeEnd::Vacant { slot: beside }));
    assert(probe_end(first, q) == probe_end(first, q.next()));
}

/// Every entry of the shard is where a probe for its key finds it: each
/// slot that is not free holds a key that is not all zero, and the probe
/// for that key, begun at the position `home` gives the key, ends with a
/// hit at that very slot. No key is then stored twice, and no free slot
/// lies on the way to an entry.
pub open spec fn shard_consistent(
    image: Seq<u8>,
    slots: nat,
    home: spec_fn(Seq<u8>) -> nat,
) -> bool {
    forall|slot: nat|
        slot < slots && !all_zero(#[trigger] slot_of(image, slot)) ==> {
            let entry = slot_of(image, slot);
            &&& valid_key(entry_key(entry))
            &&& probe_end(image, ProbeState::start(slots, home(entry_key(entry)), entry_key(entry)))
                == (ProbeEnd::Hit { slot, value: entry_value(entry) })
        }
}

/// A shard that was never written is consistent.
pub proof fn lemma_fresh_shard_consistent(
    image: Seq<u8>,
    slots: nat,
    home: spec_fn(Seq<u8>) -> nat,
)
    requires
        shard_wf(image, slots),
        all_zero(image),
    ensures
        shard_consistent(image, slots, home),
{
    assert forall|slot: nat| slot < slots implies all_zero(#[trigger] slot_of(image, slot)) by {
        assert((slot + 1) * ENTRY_LEN <= slots * ENTRY_LEN) by (nonlinear_arith)
            requires
                slot < slots,
        ;
    }
}

/// A write from the home position of its key keeps a shard consistent.
pub proof fn lemma_write_keeps_consistent(
    image: Seq<u8>,
    slots: nat,
    home: spec_fn(Seq<u8>) -> nat,
    key: Seq<u8>,
    value: u64,
)
    requires
        shard_wf(image, slots),
        valid_key(key),
        shard_consistent(image, slots, home),
        spec_write(image, slots, home(key), key, value) is Some,
    ensures
        shard_consistent(spec_write(image, slots, home(key), key, value)->0, slots, home),
{
    let after = spec_write(image, slots, home(key), key, value)->0;
    let written = ProbeState::start(slots, home(key), key);
    let target = spec_write_slot(image, slots, home(key), key)->0;
    let stored = entry_of(key, value);
    lemma_start_wf(slots, home(key), key);
    lemma_probe_end(image, written);
    lemma_entry_of_state(key, value);
    lemma_store_frame(image, slots, target, stored);
    assert forall|slot: nat| slot < slots && !all_zero(#[trigger] slot_of(after, slot)) implies {
        let entry = slot_of(after, slot);
        &&& valid_key(entry_key(entry))
        &&& probe_end(after, ProbeState::start(slots, home(entry_key(entry)), entry_key(entry)))
            == (ProbeEnd::Hit { slot, value: entry_value(entry) })
    } by {
        let entry = slot_of(after, slot);
        if slot == target {
            lemma_probe_after_store(image, written, target, value);
        } else {
            assert(entry == slot_of(image, slot));
            let held = entry_key(entry);
            let found = ProbeState::start(slots, home(held), held);
            lemma_start_wf(slots, home(held), held);
            lemma_probe_undisturbed(image, found, target, key, value);
        }
    }
}

} // verus!
