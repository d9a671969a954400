//! The table: a fixed number of shards, and the routing of a key to the
//! shard and the slot where its probe begins.
use crate::codec::encode_key;
use crate::shard_names::{extract_file_num, file_number_below, shard_file_name, shard_name};
use crate::storage_file::{
    end_slot, entry_of, image_holds, key_bytes, probe_end, probe_move, read_outcome, spec_read,
    spec_write, store, KeyValue, ProbeMove, ProbeState, ReadOp, ReadOutcome, ReadStep,
    StorageFile, WriteOp, WriteStep, ENTRY_LEN, FILE_SIZE, SLOTS_PER_SHARD,
};
use std::collections::hash_map::DefaultHasher;
use std::hash::Hasher;
use vstd::prelude::*;
use vstd::set_lib::{lemma_int_range, lemma_subset_equality, set_int_range};
use vstd::std_specs::hash::DefaultHasherAdditionalSpecFns;
use vstd::utf8::encode_utf8;

verus! {

/// The number of low bits of a hash that select the shard.
pub const SPLIT_EXPONENT: usize = 2;

/// The number of shards of a table.
pub const SPLIT_FACTOR: usize = 4;

/// The bits of a hash that select the shard.
pub const SPLIT_MASK: u64 = 3;

/// The 64-bit hash of a fixed-width key: that of the standard library's
/// default hasher, fed the key in one piece.
pub open spec fn spec_hash(key: Seq<u8>) -> u64 {
    DefaultHasher::spec_finish(seq![key])
}

/// The shard that a hash selects: its low bits.
pub open spec fn shard_index(hash: u64) -> usize {
    (hash & SPLIT_MASK) as usize
}

/// The position in its shard at which the probe for a hash begins: the
/// hash without the bits that selected the shard.
pub open spec fn start_pos(hash: u64) -> u64 {
    hash >> (SPLIT_EXPONENT as u64)
}

/// The shard of a hash is its remainder by the number of shards, and the
/// position its quotient: together they give the hash back.
pub proof fn lemma_routing_arithmetic(hash: u64)
    ensures
        shard_index(hash) == hash % (SPLIT_FACTOR as u64),
        shard_index(hash) < SPLIT_FACTOR,
        start_pos(hash) == hash / (SPLIT_FACTOR as u64),
{
    assert(hash & 3 == hash % 4) by (bit_vector);
    assert(hash >> 2 == hash / 4) by (bit_vector);
}

/// Hashes a fixed-width key.
pub fn hash_key(key: &[u8]) -> (hash: u64)
    ensures
        hash == spec_hash(key@),
{
    let mut hasher = DefaultHasher::new();
    hasher.write(key);
    assert(hasher@ =~= seq![key@]);
    hasher.finish()
}

/// Routes a hash: the shard it selects and the position where its probe
/// begins.
pub fn route(hash: u64) -> (place: (usize, u64))
    ensures
        place.0 == shard_index(hash),
        place.0 < SPLIT_FACTOR,
        place.1 == start_pos(hash),
{
    proof {
        lemma_routing_arithmetic(hash);
    }
    ((hash & SPLIT_MASK) as usize, hash >> (SPLIT_EXPONENT as u64))
}

/// An entry of the storage directory, as the table needs to know it.
#[derive(Debug)]
pub struct DirItem {
    /// The name of the entry; `None` when it is not valid Unicode.
    pub name: Option<String>,
    /// Whether the entry is a regular file.
    pub is_file: bool,
    /// The length of the entry in bytes.
    pub len: u64,
}

/// Why a storage directory cannot serve as a table.
#[derive(Debug, PartialEq, Eq)]
pub enum ParseHashtableError {
    /// The entry at this place of the listing is no shard file of the
    /// table.
    InvalidItemError(usize),
    /// The directory holds more entries than the table has shards, of which
    /// there are this many.
    TooManyItems(usize),
    /// The directory holds fewer entries than the table has shards: so many
    /// were expected, and so many found.
    NotEnoughItems(usize, usize),
}

/// The number of the shard that a directory entry is named for.
pub open spec fn item_number(item: DirItem) -> Option<usize> {
    match item.name {
        Some(name) => file_number_below(encode_utf8(name@), SPLIT_FACTOR as nat),
        None => None,
    }
}

/// The entry at place `i` of a listing can serve as a shard: it is a
/// regular file, its name gives it the number of a shard, and no entry
/// before it has that number. Its length does not matter.
pub open spec fn item_fits(items: Seq<DirItem>, i: int) -> bool {
    &&& items[i].is_file
    &&& item_number(items[i]) is Some
    &&& forall|j: int| 0 <= j < i ==> item_number(#[trigger] items[j]) != item_number(items[i])
}

/// What a table is made of: the number of slots and the file name of each
/// shard, and whether the files are still to be created.
pub struct TableView {
    pub slots: Seq<nat>,
    pub names: Seq<Seq<char>>,
    pub fresh: bool,
}

/// A table of `SPLIT_FACTOR` shards.
pub struct PersistentHashtable {
    files: Vec<StorageFile>,
    names: Vec<String>,
    fresh: bool,
}

impl View for PersistentHashtable {
    type V = TableView;

    closed spec fn view(&self) -> TableView {
        TableView {
            slots: Seq::new(self.files@.len(), |k: int| self.files@[k].spec_slots()),
            names: Seq::new(self.names@.len(), |k: int| self.names@[k]@),
            fresh: self.fresh,
        }
    }
}

impl TableView {
    /// The table has `SPLIT_FACTOR` shards, each with offsets that fit a
    /// file. A shard may be without slots.
    pub open spec fn wf(self) -> bool {
        &&& self.slots.len() == SPLIT_FACTOR
        &&& self.names.len() == SPLIT_FACTOR
        &&& forall|k: int|
            0 <= k < SPLIT_FACTOR ==> (#[trigger] self.slots[k]) * ENTRY_LEN <= u64::MAX
    }

    /// The shard that `item` is named for is kept in the file of that name,
    /// with the slots that the length of the file gives it.
    pub open spec fn serves(self, item: DirItem) -> bool {
        &&& item.name matches Some(name)
        &&& item_number(item) matches Some(number)
        &&& self.names[number as int] == name@
        &&& self.slots[number as int] == item.len / ENTRY_LEN
    }
}


/// A shard has no room for a key: every one of its slots holds another
/// key, or it has no slot at all.
#[derive(Clone, Copy, Debug, PartialEq, Eq, Structural)]
pub struct DataStorageOperationError {
    /// The number of the shard.
    pub shard: usize,
}

/// The place of a key in a table: its fixed-width form, the shard that its
/// hash selects, and the position at which its probe begins.
pub struct Place {
    pub key: Seq<u8>,
    pub shard: int,
    pub pos: nat,
}

/// The place of the key that a client names `key`.
pub open spec fn place_of(key: Seq<char>) -> Place {
    let bytes = key_bytes(key);
    let hash = spec_hash(bytes);
    Place { key: bytes, shard: shard_index(hash) as int, pos: start_pos(hash) as nat }
}

/// What a `get` answers whose read of shard number `shard` has the outcome
/// `outcome`: the value stored, or zero when the key is not stored.
pub open spec fn get_answer(shard: usize, outcome: ReadOutcome) -> Result<
    u64,
    DataStorageOperationError,
> {
    match outcome {
        ReadOutcome::Found(value) => Ok(value),
        ReadOutcome::Absent => Ok(0),
        ReadOutcome::Exhausted => Err(DataStorageOperationError { shard }),
    }
}

/// What a `get` of `key` answers on a table whose shards have the numbers
/// of slots `slots` and the bytes `images`.
pub open spec fn spec_get(slots: Seq<nat>, images: Seq<Seq<u8>>, key: Seq<char>) -> Result<
    u64,
    DataStorageOperationError,
> {
    let place = place_of(key);
    get_answer(
        place.shard as usize,
        spec_read(images[place.shard], slots[place.shard], place.pos, place.key),
    )
}

/// The bytes of the shards after a `set` of `key` to `value`: one slot of
/// one shard is replaced.
pub open spec fn spec_set(
    slots: Seq<nat>,
    images: Seq<Seq<u8>>,
    key: Seq<char>,
    value: u64,
) -> Result<Seq<Seq<u8>>, DataStorageOperationError> {
    let place = place_of(key);
    match spec_write(images[place.shard], slots[place.shard], place.pos, place.key, value) {
        Some(after) => Ok(images.update(place.shard, after)),
        None => Err(DataStorageOperationError { shard: place.shard as usize }),
    }
}

/// A `get` that waits for the bytes of the slot at [`GetOp::offset`] of the
/// file of shard [`GetOp::shard`].
pub struct GetOp {
    shard: usize,
    op: ReadOp,
}

/// How a `get` goes on: at its beginning, and each time it has seen the
/// slot it asked for.
pub enum GetStep {
    /// Fetch the slot that this `get` asks for.
    Fetch(GetOp),
    /// The `get` has ended, with this answer.
    Done(Result<u64, DataStorageOperationError>),
}

impl GetOp {
    /// The number of the shard that is read.
    pub closed spec fn spec_shard(self) -> usize {
        self.shard
    }

    /// Where the probe of the shard stands.
    pub closed spec fn state(self) -> ProbeState {
        self.op.state()
    }

    /// The number of the shard to read from: the read lock of that shard
    /// is to be held until the `get` has ended.
    pub fn shard(&self) -> (shard: usize)
        ensures
            shard == self.spec_shard(),
    {
        self.shard
    }

    /// The byte offset, in the file of the shard, of the slot to fetch.
    pub fn offset(&self) -> (offset: u64)
        ensures
            offset == self.state().offset(),
            self.state().wf(),
    {
        self.op.offset()
    }

    /// Takes the bytes of the slot asked for and decides how the `get`
    /// goes on.
    pub fn step(self, entry: &[u8]) -> (step: GetStep)
        requires
            entry@.len() == ENTRY_LEN,
        ensures
            match probe_move(self.state(), entry@) {
                ProbeMove::Hit(value) => step == GetStep::Done(Ok(value)),
                ProbeMove::Vacant => step == GetStep::Done(Ok(0)),
                ProbeMove::Advance(next) => step matches GetStep::Fetch(op) && op.state() == next
                    && op.spec_shard() == self.spec_shard(),
                ProbeMove::Exhausted => step == GetStep::Done(
                    Err(DataStorageOperationError { shard: self.spec_shard() }),
                ),
            },
    {
        let shard: usize = self.shard;
        match self.op.step(entry) {
            ReadStep::Fetch(op) => GetStep::Fetch(GetOp { shard, op }),
            ReadStep::Found(found) => GetStep::Done(Ok(found.value)),
            ReadStep::Absent => GetStep::Done(Ok(0)),
            ReadStep::Exhausted => GetStep::Done(Err(DataStorageOperationError { shard })),
        }
    }

    /// Carries the `get` out on the bytes of its shard, held in memory.
    pub fn run(self, image: &[u8]) -> (answer: Result<u64, DataStorageOperationError>)
        requires
            image_holds(image@, self.state().slots),
        ensures
            answer == get_answer(
                self.spec_shard(),
                read_outcome(probe_end(image@, self.state())),
            ),
    {
        let shard: usize = self.shard;
        match self.op.run(image) {
            ReadOutcome::Found(value) => Ok(value),
            ReadOutcome::Absent => Ok(0),
            ReadOutcome::Exhausted => Err(DataStorageOperationError { shard }),
        }
    }
}

/// A `set` that waits for the bytes of the slot at [`SetOp::offset`] of the
/// file of shard [`SetOp::shard`].
pub struct SetOp {
    shard: usize,
    op: WriteOp,
}

/// How a `set` goes on: at its beginning, and each time it has seen the
/// slot it asked for.
pub enum SetStep {
    /// Fetch the slot that this `set` asks for.
    Fetch(SetOp),
    /// Store `entry` at byte `offset` of the file of the shard and make it
    /// durable: the `set` has then ended well.
    Store { offset: u64, entry: Vec<u8> },
    /// The `set` has failed, and nothing is to be stored.
    Failed(DataStorageOperationError),
}

impl SetOp {
    /// The number of the shard that is written.
    pub closed spec fn spec_shard(self) -> usize {
        self.shard
    }

    /// Where the probe of the shard stands.
    pub closed spec fn state(self) -> ProbeState {
        self.op.state()
    }

    /// The value to store.
    pub closed spec fn value(self) -> u64 {
        self.op.value()
    }

    /// The number of the shard to write to: the write lock of that shard
    /// is to be held until the `set` has ended.
    pub fn shard(&self) -> (shard: usize)
        ensures
            shard == self.spec_shard(),
    {
        self.shard
    }

    /// The byte offset, in the file of the shard, of the slot to fetch.
    pub fn offset(&self) -> (offset: u64)
        ensures
            offset == self.state().offset(),
            self.state().wf(),
    {
        self.op.offset()
    }

    /// Takes the bytes of the slot asked for and decides how the `set`
    /// goes on.
    pub fn step(self, entry: &[u8]) -> (step: SetStep)
        requires
            entry@.len() == ENTRY_LEN,
        ensures
            match probe_move(self.state(), entry@) {
                ProbeMove::Hit(_) | ProbeMove::Vacant => step matches SetStep::Store {
                    offset,
                    entry: stored,
                } && offset == self.state().offset() && stored@ == entry_of(
                    self.state().key,
                    self.value(),
                ),
                ProbeMove::Advance(next) => step matches SetStep::Fetch(op) && op.state() == next
                    && op.value() == self.value() && op.spec_shard() == self.spec_shard(),
                ProbeMove::Exhausted => step == SetStep::Failed(
                    DataStorageOperationError { shard: self.spec_shard() },
                ),
            },
    {
        let shard: usize = self.shard;
        match self.op.step(entry) {
            WriteStep::Fetch(op) => SetStep::Fetch(SetOp { shard, op }),
            WriteStep::Store { offset, entry } => SetStep::Store { offset, entry },
            WriteStep::Exhausted => SetStep::Failed(DataStorageOperationError { shard }),
        }
    }

    /// Carries the `set` out on the bytes of its shard, held in memory:
    /// one slot is replaced, or none where the shard has no room.
    pub fn run(self, image: &mut Vec<u8>) -> (done: Result<(), DataStorageOperationError>)
        requires
            image_holds(old(image)@, self.state().slots),
        ensures
            match end_slot(probe_end(old(image)@, self.state())) {
                Some(slot) => done is Ok && final(image)@ == store(
                    old(image)@,
                    slot,
                    entry_of(self.state().key, self.value()),
                ),
                None => done == Err::<(), _>(
                    DataStorageOperationError { shard: self.spec_shard() },
                ) && final(image)@ == old(image)@,
            },
    {
        let shard: usize = self.shard;
        match self.op.run(image) {
            Some(_) => Ok(()),
            None => Err(DataStorageOperationError { shard }),
        }
    }
}

/// `step` is how the `get` of `key` begins on `table`: it fails at once
/// where the shard of the key has no slot, and else asks for the slot at
/// which the probe for the key begins.
pub open spec fn begins_get(table: TableView, key: Seq<char>, step: GetStep) -> bool {
    let place = place_of(key);
    if table.slots[place.shard] == 0 {
        step == GetStep::Done(Err(DataStorageOperationError { shard: place.shard as usize }))
    } else {
        &&& step matches GetStep::Fetch(op)
        &&& op.spec_shard() == place.shard
        &&& op.state() == ProbeState::start(table.slots[place.shard], place.pos, place.key)
        &&& op.state().wf()
    }
}

/// `step` is how the `set` of `key` to `value` begins on `table`: it fails
/// at once where the shard of the key has no slot, and else asks for the
/// slot at which the probe for the key begins.
pub open spec fn begins_set(table: TableView, key: Seq<char>, value: u64, step: SetStep) -> bool {
    let place = place_of(key);
    if table.slots[place.shard] == 0 {
        step == SetStep::Failed(DataStorageOperationError { shard: place.shard as usize })
    } else {
        &&& step matches SetStep::Fetch(op)
        &&& op.spec_shard() == place.shard
        &&& op.state() == ProbeState::start(table.slots[place.shard], place.pos, place.key)
        &&& op.state().wf()
        &&& op.value() == value
    }
}

/// Numbers below a bound that are all different, one for each number below
/// the bound, leave no number out.
proof fn lemma_all_numbers_taken(seen: Set<int>, bound: int)
    requires
        0 <= bound,
        seen.finite(),
        seen.len() == bound,
        forall|k: int| seen.contains(k) ==> 0 <= k < bound,
    ensures
        forall|k: int| 0 <= k < bound ==> seen.contains(k),
{
    lemma_int_range(0, bound);
    lemma_subset_equality(seen, set_int_range(0, bound));
    assert forall|k: int| 0 <= k < bound implies seen.contains(k) by {
        assert(set_int_range(0, bound).contains(k));
    }
}

/// Finds, for each shard, the place in the listing of the entry that is
/// named for it; or the place of the first entry that cannot serve.
fn place_items(items: &Vec<DirItem>) -> (placed: Result<Vec<usize>, usize>)
    requires
        items@.len() == SPLIT_FACTOR,
    ensures
        match placed {
            Ok(placed) => {
                &&& placed@.len() == SPLIT_FACTOR
                &&& forall|j: int| 0 <= j < SPLIT_FACTOR ==> item_fits(items@, j)
                &&& forall|n: int| 0 <= n < SPLIT_FACTOR ==> #[trigger] placed@[n] < SPLIT_FACTOR
                &&& forall|j: int|
                    0 <= j < SPLIT_FACTOR ==> 0 <= item_number(#[trigger] items@[j])->0
                        < SPLIT_FACTOR && placed@[item_number(items@[j])->0 as int] == j
            },
            Err(misfit) => {
                &&& misfit < SPLIT_FACTOR
                &&& !item_fits(items@, misfit as int)
                &&& forall|j: int| 0 <= j < misfit ==> item_fits(items@, j)
            },
        },
{
    // `SPLIT_FACTOR` stands for a shard that has no entry yet.
    let mut placed: Vec<usize> = Vec::new();
    while placed.len() < SPLIT_FACTOR
        invariant
            placed@.len() <= SPLIT_FACTOR,
            forall|k: int| 0 <= k < placed@.len() ==> placed@[k] == SPLIT_FACTOR,
        decreases SPLIT_FACTOR - placed@.len(),
    {
        placed.push(SPLIT_FACTOR);
    }
    let ghost mut seen: Set<int> = Set::empty();
    let mut i: usize = 0;
    while i < SPLIT_FACTOR
        invariant
            i <= SPLIT_FACTOR,
            items@.len() == SPLIT_FACTOR,
            placed@.len() == SPLIT_FACTOR,
            seen.finite(),
            seen.len() == i,
            forall|k: int| seen.contains(k) <==> 0 <= k < SPLIT_FACTOR && placed@[k] < i,
            forall|k: int|
                0 <= k < SPLIT_FACTOR ==> #[trigger] placed@[k] < i || placed@[k] == SPLIT_FACTOR,
            forall|k: int|
                0 <= k < SPLIT_FACTOR && #[trigger] placed@[k] < i ==> item_number(
                    items@[placed@[k] as int],
                ) == Some(k as usize),
            forall|j: int|
                0 <= j < i ==> item_fits(items@, j) && placed@[item_number(
                    #[trigger] items@[j],
                )->0 as int] == j,
        decreases SPLIT_FACTOR - i,
    {
        let item: &DirItem = &items[i];
        let number: Option<usize> = match &item.name {
            Some(name) => extract_file_num(name.as_str(), SPLIT_FACTOR),
            None => None,
        };
        assert(number == item_number(items@[i as int]));
        if !item.is_file {
            return Err(i);
        }
        match number {
            None => {
                return Err(i);
            },
            Some(k) => {
                if placed[k] != SPLIT_FACTOR {
                    let ghost earlier = placed@[k as int] as int;
                    assert(item_number(items@[earlier]) == item_number(items@[i as int]));
                    return Err(i);
                }
                assert forall|j: int| 0 <= j < i implies item_number(#[trigger] items@[j])
                    != item_number(items@[i as int]) by {
                    assert(placed@[item_number(items@[j])->0 as int] == j);
                }
                placed.set(k, i);
                proof {
                    let before = seen;
                    seen = seen.insert(k as int);
                    assert(!before.contains(k as int));
                }
            },
        }
        i = i + 1;
    }
    proof {
        lemma_all_numbers_taken(seen, SPLIT_FACTOR as int);
        assert forall|n: int| 0 <= n < SPLIT_FACTOR implies #[trigger] placed@[n]
            < SPLIT_FACTOR by {
            assert(seen.contains(n));
        }
    }
    Ok(placed)
}

impl PersistentHashtable {
    #[verifier::type_invariant]
    spec fn inv(self) -> bool {
        self.files@.len() == SPLIT_FACTOR && self.names@.len() == SPLIT_FACTOR
    }

    /// Makes the table of a storage directory from the listing of its
    /// entries.
    ///
    /// An empty directory gives a fresh table, whose shard files are still
    /// to be created under the names `0.kek`, `1.kek` and so on, each of
    /// `FILE_SIZE` bytes. A directory with entries must hold exactly one
    /// regular file for each shard, known by its name; the shards are then
    /// taken in the order of their numbers, whatever the order of the
    /// listing, each with the slots that the length of its file gives it.
    /// The first entry of the listing that cannot serve is reported.
    pub fn new(items: Vec<DirItem>) -> (table: Result<PersistentHashtable, ParseHashtableError>)
        ensures
            items@.len() > SPLIT_FACTOR ==> table == Err::<PersistentHashtable, _>(
                ParseHashtableError::TooManyItems(SPLIT_FACTOR),
            ),
            0 < items@.len() < SPLIT_FACTOR ==> table == Err::<PersistentHashtable, _>(
                ParseHashtableError::NotEnoughItems(SPLIT_FACTOR, items@.len() as usize),
            ),
            items@.len() == 0 ==> (table matches Ok(made) && made@.wf() && made@.fresh
                && forall|k: int|
                0 <= k < SPLIT_FACTOR ==> #[trigger] made@.slots[k] == SLOTS_PER_SHARD
                    && made@.names[k] == shard_name(k as nat)),
            items@.len() == SPLIT_FACTOR ==> (table is Ok <==> forall|i: int|
                0 <= i < SPLIT_FACTOR ==> item_fits(items@, i)),
            items@.len() == SPLIT_FACTOR ==> match table {
                Ok(made) => made@.wf() && !made@.fresh && forall|i: int|
                    0 <= i < SPLIT_FACTOR ==> item_fits(items@, i) && made@.serves(
                        #[trigger] items@[i],
                    ),
                Err(error) => error matches ParseHashtableError::InvalidItemError(i) && 0 <= i
                    < SPLIT_FACTOR && !item_fits(items@, i as int) && forall|j: int|
                    0 <= j < i ==> item_fits(items@, j),
            },
    {
        let count: usize = items.len();
        if count > SPLIT_FACTOR {
            return Err(ParseHashtableError::TooManyItems(SPLIT_FACTOR));
        }
        if count == 0 {
            return Ok(Self::create());
        }
        if count < SPLIT_FACTOR {
            return Err(ParseHashtableError::NotEnoughItems(SPLIT_FACTOR, count));
        }
        let placed: Vec<usize> = match place_items(&items) {
            Ok(placed) => placed,
            Err(misfit) => {
                return Err(ParseHashtableError::InvalidItemError(misfit));
            },
        };
        let mut files: Vec<StorageFile> = Vec::new();
        let mut names: Vec<String> = Vec::new();
        let mut k: usize = 0;
        while k < SPLIT_FACTOR
            invariant
                k <= SPLIT_FACTOR,
                items@.len() == SPLIT_FACTOR,
                placed@.len() == SPLIT_FACTOR,
                files@.len() == k,
                names@.len() == k,
                forall|n: int| 0 <= n < SPLIT_FACTOR ==> #[trigger] placed@[n] < SPLIT_FACTOR,
                forall|j: int| 0 <= j < SPLIT_FACTOR ==> item_fits(items@, j),
                forall|n: int|
                    0 <= n < k ==> (#[trigger] files@[n]).spec_slots() == items@[placed@[n] as int].len
                        / ENTRY_LEN && items@[placed@[n] as int].name == Some(names@[n]),
            decreases SPLIT_FACTOR - k,
        {
            let item: &DirItem = &items[placed[k]];
            assert(item_fits(items@, placed@[k as int] as int));
            let file: StorageFile = StorageFile::new(item.len);
            let name: String = item.name.as_ref().unwrap().clone();
            files.push(file);
            names.push(name);
            k = k + 1;
        }
        let made = PersistentHashtable { files, names, fresh: false };
        proof {
            assert forall|n: int| 0 <= n < SPLIT_FACTOR implies (#[trigger] made@.slots[n])
                * ENTRY_LEN <= u64::MAX by {
                let len = items@[placed@[n] as int].len;
                assert((len / ENTRY_LEN) * ENTRY_LEN <= len) by (nonlinear_arith)
                    requires
                        ENTRY_LEN == 136,
                ;
            }
            assert forall|i: int| 0 <= i < SPLIT_FACTOR implies item_fits(items@, i)
                && made@.serves(#[trigger] items@[i]) by {
                let n = item_number(items@[i])->0 as int;
                assert(placed@[n] == i);
                assert(files@[n].spec_slots() == items@[i].len / ENTRY_LEN);
                assert(made@.names[n] == names@[n]@);
            }
        }
        Ok(made)
    }

    /// The table of an empty directory.
    fn create() -> (made: PersistentHashtable)
        ensures
            made@.wf(),
            made@.fresh,
            forall|k: int|
                0 <= k < SPLIT_FACTOR ==> #[trigger] made@.slots[k] == SLOTS_PER_SHARD
                    && made@.names[k] == shard_name(k as nat),
    {
        let mut files: Vec<StorageFile> = Vec::new();
        let mut names: Vec<String> = Vec::new();
        let mut k: usize = 0;
        while k < SPLIT_FACTOR
            invariant
                k <= SPLIT_FACTOR,
                files@.len() == k,
                names@.len() == k,
                forall|n: int|
                    0 <= n < k ==> (#[trigger] files@[n]).spec_slots() == SLOTS_PER_SHARD
                        && names@[n]@ == shard_name(n as nat),
            decreases SPLIT_FACTOR - k,
        {
            assert(ENTRY_LEN == 136 && FILE_SIZE == 2_040_000_000);
            files.push(StorageFile::new(FILE_SIZE));
            names.push(shard_file_name(k));
            k = k + 1;
        }
        PersistentHashtable { files, names, fresh: true }
    }

    /// Tells whether the shard files are still to be created.
    pub fn is_fresh(&self) -> (fresh: bool)
        ensures
            fresh == self@.fresh,
    {
        self.fresh
    }

    /// The name of the file of shard number `shard`.
    pub fn file_name(&self, shard: usize) -> (name: &String)
        requires
            shard < SPLIT_FACTOR,
        ensures
            name@ == self@.names[shard as int],
    {
        proof {
            use_type_invariant(self);
        }
        &self.names[shard]
    }

    /// Shard number `shard`.
    pub fn file(&self, shard: usize) -> (file: &StorageFile)
        requires
            shard < SPLIT_FACTOR,
        ensures
            file.spec_slots() == self@.slots[shard as int],
    {
        proof {
            use_type_invariant(self);
        }
        &self.files[shard]
    }

    /// Begins the `get` of `key`: it is routed by the hash of its
    /// fixed-width form. Where the shard of the key has no slot, the `get`
    /// fails at once.
    pub fn get(&self, key: String) -> (step: GetStep)
        ensures
            begins_get(self@, key@, step),
            0 <= place_of(key@).shard < SPLIT_FACTOR,
    {
        proof {
            use_type_invariant(self);
        }
        let fixed: Vec<u8> = encode_key(key.as_str());
        let (shard, pos) = route(hash_key(fixed.as_slice()));
        match self.files[shard].read(pos, key) {
            ReadStep::Fetch(op) => GetStep::Fetch(GetOp { shard, op }),
            _ => GetStep::Done(Err(DataStorageOperationError { shard })),
        }
    }

    /// Begins the `set` of `key` to `value`: it is routed by the hash of
    /// the fixed-width form of the key. Where the shard of the key has no
    /// slot, the `set` fails at once.
    pub fn set(&self, key: String, value: u64) -> (step: SetStep)
        ensures
            begins_set(self@, key@, value, step),
            0 <= place_of(key@).shard < SPLIT_FACTOR,
    {
        proof {
            use_type_invariant(self);
        }
        let fixed: Vec<u8> = encode_key(key.as_str());
        let (shard, pos) = route(hash_key(fixed.as_slice()));
        match self.files[shard].write(pos, KeyValue { key, value }) {
            WriteStep::Fetch(op) => SetStep::Fetch(SetOp { shard, op }),
            _ => SetStep::Failed(DataStorageOperationError { shard }),
        }
    }
}

} // verus!
