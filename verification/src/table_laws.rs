//! What `get` and `set` guarantee of a table, proved over the images of its
//! shards.
use crate::codec::{all_zero, KEY_LEN};
use crate::persistent_hashtable::{
    item_fits, item_number, lemma_routing_arithmetic, place_of, shard_index, spec_get,
    spec_hash, spec_set, start_pos, DataStorageOperationError, DirItem, SPLIT_FACTOR,
};
use crate::shard_names::{lemma_shard_name_number, shard_name};
use crate::shard_laws::{
    lemma_fresh_shard_consistent, lemma_fresh_shard_is_empty, lemma_last_write_wins,
    lemma_no_slots_no_room, lemma_read_after_write, lemma_store_frame, lemma_write_idempotent,
    lemma_write_keeps_consistent, lemma_write_keeps_other_keys, lemma_write_keeps_shape,
    shard_consistent, shard_wf, valid_key,
};
use crate::storage_file::{
    entry_key, entry_of, key_bytes, lemma_entry_of_state, slot_of, spec_read, spec_write_slot,
    ENTRY_LEN,
};
use vstd::prelude::*;

verus! {

/// The images are those of a table: one for each shard, each holding every
/// slot of its shard. A shard may be without slots.
pub open spec fn table_wf(slots: Seq<nat>, images: Seq<Seq<u8>>) -> bool {
    &&& slots.len() == SPLIT_FACTOR
    &&& images.len() == SPLIT_FACTOR
    &&& forall|k: int| 0 <= k < SPLIT_FACTOR ==> shard_wf(#[trigger] images[k], slots[k])
}

/// The key is stored in the table.
pub open spec fn spec_holds(slots: Seq<nat>, images: Seq<Seq<u8>>, key: Seq<char>) -> bool {
    let place = place_of(key);
    spec_read(images[place.shard], slots[place.shard], place.pos, place.key) is Found
}

/// Every key has a place in the table: a fixed-width form and one of the
/// shards.
pub proof fn lemma_place(key: Seq<char>)
    ensures
        0 <= place_of(key).shard < SPLIT_FACTOR,
        place_of(key).key.len() == KEY_LEN,
        place_of(key).key == key_bytes(key),
{
    lemma_routing_arithmetic(spec_hash(key_bytes(key)));
}

/// A `set` that found room leaves the images of a table, and changes only
/// the image of the shard of its key.
pub proof fn lemma_set_keeps_table(
    slots: Seq<nat>,
    images: Seq<Seq<u8>>,
    key: Seq<char>,
    value: u64,
)
    requires
        table_wf(slots, images),
        valid_key(key_bytes(key)),
        spec_set(slots, images, key, value) is Ok,
    ensures
        table_wf(slots, spec_set(slots, images, key, value)->Ok_0),
        forall|k: int|
            0 <= k < SPLIT_FACTOR && k != place_of(key).shard ==> spec_set(
                slots,
                images,
                key,
                value,
            )->Ok_0[k] == images[k],
{
    lemma_place(key);
    let place = place_of(key);
    lemma_write_keeps_shape(images[place.shard], slots[place.shard], place.pos, place.key, value);
}

/// A key that was set is stored, and is got with the value set.
pub proof fn lemma_get_after_set(
    slots: Seq<nat>,
    images: Seq<Seq<u8>>,
    key: Seq<char>,
    value: u64,
)
    requires
        table_wf(slots, images),
        valid_key(key_bytes(key)),
        spec_set(slots, images, key, value) is Ok,
    ensures
        spec_holds(slots, spec_set(slots, images, key, value)->Ok_0, key),
        spec_get(slots, spec_set(slots, images, key, value)->Ok_0, key) == Ok::<
            u64,
            DataStorageOperationError,
        >(value),
{
    lemma_place(key);
    let place = place_of(key);
    lemma_read_after_write(images[place.shard], slots[place.shard], place.pos, place.key, value);
}

/// Setting a key to the same value twice leaves every shard as the first
/// `set` left it, and the key is got with that value.
pub proof fn lemma_set_idempotent(
    slots: Seq<nat>,
    images: Seq<Seq<u8>>,
    key: Seq<char>,
    value: u64,
)
    requires
        table_wf(slots, images),
        valid_key(key_bytes(key)),
        spec_set(slots, images, key, value) is Ok,
    ensures
        spec_set(slots, spec_set(slots, images, key, value)->Ok_0, key, value) == spec_set(
            slots,
            images,
            key,
            value,
        ),
        spec_get(slots, spec_set(slots, images, key, value)->Ok_0, key) == Ok::<
            u64,
            DataStorageOperationError,
        >(value),
{
    lemma_place(key);
    let place = place_of(key);
    let once = spec_set(slots, images, key, value)->Ok_0;
    lemma_write_idempotent(images[place.shard], slots[place.shard], place.pos, place.key, value);
    lemma_get_after_set(slots, images, key, value);
    assert(once.update(place.shard, once[place.shard]) =~= once);
}

/// The last `set` wins: after two of one key, the key is got with the
/// value of the second, which never fails for want of room.
pub proof fn lemma_last_set_wins(
    slots: Seq<nat>,
    images: Seq<Seq<u8>>,
    key: Seq<char>,
    first: u64,
    second: u64,
)
    requires
        table_wf(slots, images),
        valid_key(key_bytes(key)),
        spec_set(slots, images, key, first) is Ok,
    ensures
        spec_set(slots, spec_set(slots, images, key, first)->Ok_0, key, second) is Ok,
        spec_get(
            slots,
            spec_set(slots, spec_set(slots, images, key, first)->Ok_0, key, second)->Ok_0,
            key,
        ) == Ok::<u64, DataStorageOperationError>(second),
{
    lemma_place(key);
    let place = place_of(key);
    lemma_last_write_wins(
        images[place.shard],
        slots[place.shard],
        place.pos,
        place.key,
        first,
        second,
    );
}

/// Of a table that has a shard without slots, every `get` and every `set`
/// that is routed to that shard fails, and names the shard.
pub proof fn lemma_shard_without_slots_fails(
    slots: Seq<nat>,
    images: Seq<Seq<u8>>,
    key: Seq<char>,
    value: u64,
)
    requires
        slots[place_of(key).shard] == 0,
    ensures
        spec_get(slots, images, key) == Err::<u64, DataStorageOperationError>(
            DataStorageOperationError { shard: place_of(key).shard as usize },
        ),
        spec_set(slots, images, key, value) == Err::<Seq<Seq<u8>>, DataStorageOperationError>(
            DataStorageOperationError { shard: place_of(key).shard as usize },
        ),
{
    let place = place_of(key);
    lemma_no_slots_no_room(images[place.shard], place.pos, place.key, value);
}

/// In a table whose shards have slots and were never written, every key is
/// got as zero.
pub proof fn lemma_fresh_table_is_empty(slots: Seq<nat>, images: Seq<Seq<u8>>, key: Seq<char>)
    requires
        table_wf(slots, images),
        forall|k: int| 0 <= k < SPLIT_FACTOR ==> 1 <= #[trigger] slots[k],
        forall|k: int| 0 <= k < SPLIT_FACTOR ==> all_zero(#[trigger] images[k]),
    ensures
        spec_get(slots, images, key) == Ok::<
            u64,
            DataStorageOperationError,
        >(0),
{
    lemma_place(key);
    let place = place_of(key);
    lemma_fresh_shard_is_empty(images[place.shard], slots[place.shard], place.pos, place.key);
}

/// A `set` touches one shard only: what a key of another shard is got as
/// does not change, whether it is stored or not.
pub proof fn lemma_set_keeps_other_shards(
    slots: Seq<nat>,
    images: Seq<Seq<u8>>,
    key: Seq<char>,
    other_key: Seq<char>,
    other_value: u64,
)
    requires
        table_wf(slots, images),
        valid_key(key_bytes(other_key)),
        place_of(key).shard != place_of(other_key).shard,
        spec_set(slots, images, other_key, other_value) is Ok,
    ensures
        spec_get(slots, spec_set(slots, images, other_key, other_value)->Ok_0, key) == spec_get(
            slots,
            images,
            key,
        ),
{
    lemma_place(key);
    lemma_place(other_key);
}

/// A `set` of one key does not disturb another: a key that is stored is
/// got with the same value after any `set` of a key with another
/// fixed-width form.
pub proof fn lemma_set_keeps_other_keys(
    slots: Seq<nat>,
    images: Seq<Seq<u8>>,
    key: Seq<char>,
    other_key: Seq<char>,
    other_value: u64,
)
    requires
        table_wf(slots, images),
        valid_key(key_bytes(key)),
        valid_key(key_bytes(other_key)),
        key_bytes(key) != key_bytes(other_key),
        spec_holds(slots, images, key),
        spec_set(slots, images, other_key, other_value) is Ok,
    ensures
        spec_holds(slots, spec_set(slots, images, other_key, other_value)->Ok_0, key),
        spec_get(slots, spec_set(slots, images, other_key, other_value)->Ok_0, key) == spec_get(
            slots,
            images,
            key,
        ),
{
    lemma_place(key);
    lemma_place(other_key);
    let place = place_of(key);
    let other = place_of(other_key);
    if place.shard == other.shard {
        lemma_write_keeps_other_keys(
            images[place.shard],
            slots[place.shard],
            place.pos,
            place.key,
            other.pos,
            other.key,
            other_value,
        );
    }
}

/// Two keys with different fixed-width forms, set one after the other, are
/// both got with their own values, wherever their probes begin.
pub proof fn lemma_two_keys_round_trip(
    slots: Seq<nat>,
    images: Seq<Seq<u8>>,
    key: Seq<char>,
    value: u64,
    other_key: Seq<char>,
    other_value: u64,
)
    requires
        table_wf(slots, images),
        valid_key(key_bytes(key)),
        valid_key(key_bytes(other_key)),
        key_bytes(key) != key_bytes(other_key),
        spec_set(slots, images, key, value) is Ok,
        spec_set(slots, spec_set(slots, images, key, value)->Ok_0, other_key, other_value) is Ok,
    ensures
        ({
            let first = spec_set(slots, images, key, value)->Ok_0;
            let both = spec_set(slots, first, other_key, other_value)->Ok_0;
            &&& spec_get(slots, both, key) == Ok::<
                u64,
                DataStorageOperationError,
            >(value)
            &&& spec_get(slots, both, other_key) == Ok::<
                u64,
                DataStorageOperationError,
            >(other_value)
        }),
{
    let first = spec_set(slots, images, key, value)->Ok_0;
    lemma_set_keeps_table(slots, images, key, value);
    lemma_get_after_set(slots, images, key, value);
    lemma_set_keeps_other_keys(slots, first, key, other_key, other_value);
    lemma_get_after_set(slots, first, other_key, other_value);
}

/// The entry is a regular file that bears the name given to the file of
/// shard `number`.
pub open spec fn is_shard_file(item: DirItem, number: nat) -> bool {
    &&& item.is_file
    &&& item.name is Some
    &&& item.name->0@ == shard_name(number)
}

/// The directory that a fresh table leaves is accepted when it is listed
/// again, in whatever order: where each entry is the file that was named
/// for one shard, and no two are named for the same, every entry can serve,
/// and each for the shard it was named for.
pub proof fn lemma_created_directory_fits(items: Seq<DirItem>, numbers: Seq<nat>)
    requires
        items.len() == SPLIT_FACTOR,
        numbers.len() == SPLIT_FACTOR,
        forall|i: int|
            0 <= i < SPLIT_FACTOR ==> numbers[i] < SPLIT_FACTOR && is_shard_file(
                #[trigger] items[i],
                numbers[i],
            ),
        forall|i: int, j: int| 0 <= i < j < SPLIT_FACTOR ==> numbers[i] != numbers[j],
    ensures
        forall|i: int|
            0 <= i < SPLIT_FACTOR ==> item_fits(items, i) && item_number(#[trigger] items[i])
                == Some(numbers[i] as usize),
{
    assert forall|i: int| 0 <= i < SPLIT_FACTOR implies item_number(#[trigger] items[i]) == Some(
        numbers[i] as usize,
    ) by {
        assert(is_shard_file(items[i], numbers[i]));
        lemma_shard_name_number(numbers[i]);
    }
    assert forall|i: int| 0 <= i < SPLIT_FACTOR implies item_fits(items, i) by {
        assert(is_shard_file(items[i], numbers[i]));
        assert forall|j: int| 0 <= j < i implies item_number(#[trigger] items[j]) != item_number(
            items[i],
        ) by {
            assert(numbers[j] != numbers[i]);
        }
    }
}

/// The position in its shard at which the probe for a fixed-width key
/// begins.
pub open spec fn home() -> spec_fn(Seq<u8>) -> nat {
    |key: Seq<u8>| start_pos(spec_hash(key)) as nat
}

/// Every entry of the shard number `shard` holds a key that the hash sends
/// to that shard.
pub open spec fn keys_belong(image: Seq<u8>, slots: nat, shard: int) -> bool {
    forall|slot: nat|
        slot < slots && !all_zero(#[trigger] slot_of(image, slot)) ==> shard_index(
            spec_hash(entry_key(slot_of(image, slot))),
        ) == shard
}

/// Every entry of the table is where a `get` of its key finds it: it lies
/// in the shard of its key, and the probe that begins at the position of
/// its key ends at it, with no free slot on the way.
pub open spec fn table_consistent(slots: Seq<nat>, images: Seq<Seq<u8>>) -> bool {
    forall|k: int|
        0 <= k < SPLIT_FACTOR ==> shard_consistent(#[trigger] images[k], slots[k], home())
            && keys_belong(images[k], slots[k], k)
}

/// A table whose shards were never written is consistent.
pub proof fn lemma_fresh_table_consistent(slots: Seq<nat>, images: Seq<Seq<u8>>)
    requires
        table_wf(slots, images),
        forall|k: int| 0 <= k < SPLIT_FACTOR ==> all_zero(#[trigger] images[k]),
    ensures
        table_consistent(slots, images),
{
    assert forall|k: int| 0 <= k < SPLIT_FACTOR implies shard_consistent(
        #[trigger] images[k],
        slots[k],
        home(),
    ) && keys_belong(images[k], slots[k], k) by {
        lemma_fresh_shard_consistent(images[k], slots[k], home());
        assert forall|slot: nat| slot < slots[k] implies all_zero(
            #[trigger] slot_of(images[k], slot),
        ) by {
            assert((slot + 1) * ENTRY_LEN <= slots[k] * ENTRY_LEN) by (nonlinear_arith)
                requires
                    slot < slots[k],
            ;
        }
    }
}

/// A `set` keeps a table consistent.
pub proof fn lemma_set_keeps_consistent(
    slots: Seq<nat>,
    images: Seq<Seq<u8>>,
    key: Seq<char>,
    value: u64,
)
    requires
        table_wf(slots, images),
        table_consistent(slots, images),
        valid_key(key_bytes(key)),
        spec_set(slots, images, key, value) is Ok,
    ensures
        table_consistent(slots, spec_set(slots, images, key, value)->Ok_0),
{
    lemma_place(key);
    let place = place_of(key);
    let after = spec_set(slots, images, key, value)->Ok_0;
    let image = images[place.shard];
    let count = slots[place.shard];
    assert(home()(place.key) == place.pos);
    lemma_write_keeps_consistent(image, count, home(), place.key, value);
    lemma_write_keeps_shape(image, count, place.pos, place.key, value);
    let target = spec_write_slot(image, count, place.pos, place.key)->0;
    lemma_entry_of_state(place.key, value);
    lemma_store_frame(image, count, target, entry_of(place.key, value));
    assert forall|k: int| 0 <= k < SPLIT_FACTOR implies shard_consistent(
        #[trigger] after[k],
        slots[k],
        home(),
    ) && keys_belong(after[k], slots[k], k) by {
        if k == place.shard {
            assert forall|slot: nat|
                slot < count && !all_zero(#[trigger] slot_of(after[k], slot)) implies shard_index(
                spec_hash(entry_key(slot_of(after[k], slot))),
            ) == k by {
                if slot != target {
                    assert(slot_of(after[k], slot) == slot_of(image, slot));
                }
            }
        } else {
            assert(after[k] == images[k]);
        }
    }
}

} // verus!
