//! One shard: a fixed-length array of slots, searched by open addressing
//! with linear probing.
//!
//! A shard is modelled by its image, the bytes of its file. The probing of a
//! shard is a state machine: an operation names the byte offset of the slot
//! it needs next, is handed the bytes of that slot, and either asks for the
//! following slot or ends. The effect of an operation on an image is given
//! by [`spec_read`] and [`spec_write`].
use crate::codec::{
    all_zero, decode_le, encode_key, encode_le, is_all_zero, le_bytes, le_value,
    lemma_le_bytes_len, lemma_le_round_trip, lemma_le_value_bound, lemma_pow256_widths, slot_key,
    KEY_LEN, VALUE_LEN,
};
use vstd::prelude::*;
use vstd::slice::slice_subrange;
use vstd::utf8::encode_utf8;

verus! {

/// The width, in bytes, of a key followed by its value.
pub const KEY_VALUE_LEN: u64 = KEY_LEN + VALUE_LEN;

/// The width, in bytes, of one slot.
pub const ENTRY_LEN: u64 = KEY_VALUE_LEN;

/// The number of slots of a shard file of the standard size.
pub const SLOTS_PER_SHARD: u64 = 15_000_000;

/// The length, in bytes, of a shard file of the standard size.
pub const FILE_SIZE: u64 = ENTRY_LEN * SLOTS_PER_SHARD;

/// A key as a client names it, with the value stored under it.
#[derive(Debug)]
pub struct KeyValue {
    pub key: String,
    pub value: u64,
}

/// What a slot is to somebody who looks for a key.
#[derive(Clone, Copy, Debug, PartialEq, Eq, Structural)]
pub enum KeyEntryState {
    /// The slot was never written: all its bytes are zero.
    Free,
    /// The slot holds another key.
    Different,
    /// The slot holds the key, with this value.
    Same(u64),
}

/// The key field of a slot.
pub open spec fn entry_key(entry: Seq<u8>) -> Seq<u8> {
    entry.subrange(0, KEY_LEN as int)
}

/// The value field of a slot, read as a little-endian number.
pub open spec fn entry_value(entry: Seq<u8>) -> u64 {
    le_value(entry.subrange(KEY_LEN as int, ENTRY_LEN as int)) as u64
}

/// The bytes of a slot that holds `key`, of full width, with `value`.
pub open spec fn entry_of(key: Seq<u8>, value: u64) -> Seq<u8> {
    key + le_bytes(value as nat, VALUE_LEN as nat)
}

/// The state of the slot `entry` for somebody who looks for `key`.
pub open spec fn entry_state(key: Seq<u8>, entry: Seq<u8>) -> KeyEntryState {
    if all_zero(entry) {
        KeyEntryState::Free
    } else if key == entry_key(entry) {
        KeyEntryState::Same(entry_value(entry))
    } else {
        KeyEntryState::Different
    }
}

/// A slot written for a key that is not all zero holds that key and value.
pub proof fn lemma_entry_of_state(key: Seq<u8>, value: u64)
    requires
        key.len() == KEY_LEN,
        !all_zero(key),
    ensures
        entry_of(key, value).len() == ENTRY_LEN,
        entry_key(entry_of(key, value)) == key,
        entry_value(entry_of(key, value)) == value,
        entry_state(key, entry_of(key, value)) == KeyEntryState::Same(value),
        forall|other: Seq<u8>|
            other != key ==> #[trigger] entry_state(other, entry_of(key, value))
                == KeyEntryState::Different,
{
    let entry = entry_of(key, value);
    let field = le_bytes(value as nat, VALUE_LEN as nat);
    lemma_le_bytes_len(value as nat, VALUE_LEN as nat);
    lemma_pow256_widths();
    lemma_le_round_trip(value as nat, VALUE_LEN as nat);
    assert(entry_key(entry) =~= key);
    assert(entry.subrange(KEY_LEN as int, ENTRY_LEN as int) =~= field);
    let i = choose|i: int| 0 <= i < key.len() && key[i] != 0;
    assert(entry[i] == key[i]);
}

/// Classifies a slot for somebody who looks for `key`.
pub fn get_entry_state(key: &[u8], entry_bytes: &[u8]) -> (state: KeyEntryState)
    requires
        entry_bytes@.len() == ENTRY_LEN,
    ensures
        state == entry_state(key@, entry_bytes@),
{
    if is_all_zero(entry_bytes) {
        return KeyEntryState::Free;
    }
    let width: usize = KEY_LEN as usize;
    if key.len() != width {
        return KeyEntryState::Different;
    }
    let mut i: usize = 0;
    while i < width
        invariant
            i <= width == KEY_LEN,
            key@.len() == KEY_LEN,
            entry_bytes@.len() == ENTRY_LEN,
            !all_zero(entry_bytes@),
            forall|j: int| 0 <= j < i ==> key@[j] == entry_bytes@[j],
        decreases width - i,
    {
        if key[i] != entry_bytes[i] {
            assert(entry_key(entry_bytes@)[i as int] != key@[i as int]);
            return KeyEntryState::Different;
        }
        i = i + 1;
    }
    assert(key@ =~= entry_key(entry_bytes@));
    let field: &[u8] = slice_subrange(entry_bytes, width, ENTRY_LEN as usize);
    proof {
        lemma_le_value_bound(field@);
        lemma_pow256_widths();
    }
    KeyEntryState::Same(decode_le(field))
}

/// Lays out the slot that holds `key` with `value`.
pub fn encode_entry(key: &[u8], value: u64) -> (entry: Vec<u8>)
    requires
        key@.len() == KEY_LEN,
    ensures
        entry@ == entry_of(key@, value),
{
    let mut entry: Vec<u8> = Vec::new();
    entry.extend_from_slice(key);
    let mut field: Vec<u8> = encode_le(value, 8);
    entry.append(&mut field);
    entry
}

/// Where a probe stands: the key it looks for, the slot it needs next, the
/// number of slots of the shard, and how many slots it may still examine.
pub struct ProbeState {
    pub key: Seq<u8>,
    pub slot: nat,
    pub slots: nat,
    pub left: nat,
}

impl ProbeState {
    /// The key has full width, the slot lies in the shard, and the probe may
    /// examine at least one slot and at most every slot once.
    pub open spec fn wf(self) -> bool {
        &&& self.key.len() == KEY_LEN
        &&& self.slot < self.slots
        &&& 1 <= self.left <= self.slots
        &&& self.slots * ENTRY_LEN <= u64::MAX
    }

    /// The probe for `key` that begins at position `pos` of a shard of
    /// `slots` slots: at the slot `pos` modulo `slots`, with every slot yet
    /// to examine. In a shard without slots it has none to examine.
    pub open spec fn start(slots: nat, pos: nat, key: Seq<u8>) -> ProbeState {
        ProbeState {
            key,
            slot: if slots == 0 {
                0
            } else {
                pos % slots
            },
            slots,
            left: slots,
        }
    }

    /// The probe one slot further, wrapping at the end of the shard.
    pub open spec fn next(self) -> ProbeState {
        ProbeState {
            key: self.key,
            slot: (self.slot + 1) % self.slots,
            slots: self.slots,
            left: (self.left - 1) as nat,
        }
    }

    /// The byte offset, in the shard file, of the slot that the probe needs.
    pub open spec fn offset(self) -> nat {
        self.slot * (ENTRY_LEN as nat)
    }
}

/// What a probe does once it has seen the slot it asked for.
pub enum ProbeMove {
    /// The slot holds the key, with this value: the probe ends here.
    Hit(u64),
    /// The slot is free: the probe ends here.
    Vacant,
    /// The slot holds another key: the probe goes on in this state.
    Advance(ProbeState),
    /// The slot holds another key and it was the last one allowed.
    Exhausted,
}

/// The move of the probe `p` on the bytes `entry` of the slot it asked for.
pub open spec fn probe_move(p: ProbeState, entry: Seq<u8>) -> ProbeMove {
    match entry_state(p.key, entry) {
        KeyEntryState::Free => ProbeMove::Vacant,
        KeyEntryState::Same(value) => ProbeMove::Hit(value),
        KeyEntryState::Different => if p.left > 1 {
            ProbeMove::Advance(p.next())
        } else {
            ProbeMove::Exhausted
        },
    }
}

/// The bytes of slot number `slot` of a shard image.
pub open spec fn slot_of(image: Seq<u8>, slot: nat) -> Seq<u8> {
    image.subrange(slot * ENTRY_LEN, slot * ENTRY_LEN + ENTRY_LEN)
}

/// The image with slot number `slot` replaced by `entry`.
pub open spec fn store(image: Seq<u8>, slot: nat, entry: Seq<u8>) -> Seq<u8> {
    image.subrange(0, slot * ENTRY_LEN) + entry + image.subrange(
        slot * ENTRY_LEN + ENTRY_LEN,
        image.len() as int,
    )
}

/// An image holds every slot of a shard of `slots` slots.
pub open spec fn image_holds(image: Seq<u8>, slots: nat) -> bool {
    slots * ENTRY_LEN <= image.len()
}

/// Where a probe ends on a given image.
pub enum ProbeEnd {
    /// At `slot`, which holds the key with `value`.
    Hit { slot: nat, value: u64 },
    /// At `slot`, which is free.
    Vacant { slot: nat },
    /// Nowhere: every slot allowed held another key.
    Exhausted,
}

/// Runs the probe `p` over `image` to its end. A probe that has no slot
/// left to examine, as every probe of a shard without slots, is exhausted
/// before it looks at any.
pub open spec fn probe_end(image: Seq<u8>, p: ProbeState) -> ProbeEnd
    decreases p.left,
{
    if p.left == 0 {
        ProbeEnd::Exhausted
    } else {
        match probe_move(p, slot_of(image, p.slot)) {
            ProbeMove::Hit(value) => ProbeEnd::Hit { slot: p.slot, value },
            ProbeMove::Vacant => ProbeEnd::Vacant { slot: p.slot },
            ProbeMove::Advance(q) => probe_end(image, q),
            ProbeMove::Exhausted => ProbeEnd::Exhausted,
        }
    }
}

/// The result of a read.
#[derive(Clone, Copy, Debug, PartialEq, Eq, Structural)]
pub enum ReadOutcome {
    /// The key is stored with this value.
    Found(u64),
    /// The key is not stored.
    Absent,
    /// Every slot of the shard holds another key.
    Exhausted,
}

/// What a read finds whose probe ends at `end`.
pub open spec fn read_outcome(end: ProbeEnd) -> ReadOutcome {
    match end {
        ProbeEnd::Hit { slot, value } => ReadOutcome::Found(value),
        ProbeEnd::Vacant { slot } => ReadOutcome::Absent,
        ProbeEnd::Exhausted => ReadOutcome::Exhausted,
    }
}

/// The slot in which a write stores its entry whose probe ends at `end`:
/// the slot that is free or holds the key, and none where the probe is
/// exhausted.
pub open spec fn end_slot(end: ProbeEnd) -> Option<nat> {
    match end {
        ProbeEnd::Hit { slot, value } => Some(slot),
        ProbeEnd::Vacant { slot } => Some(slot),
        ProbeEnd::Exhausted => None,
    }
}

/// What a read of `key`, begun at position `pos`, finds in a shard of
/// `slots` slots whose bytes are `image`. In a shard without slots every
/// read is exhausted.
pub open spec fn spec_read(image: Seq<u8>, slots: nat, pos: nat, key: Seq<u8>) -> ReadOutcome {
    read_outcome(probe_end(image, ProbeState::start(slots, pos, key)))
}

/// The slot in which a write of `key`, begun at position `pos`, stores its
/// entry: the first one on its way that is free or holds the key. `None`
/// when every slot of the shard holds another key, as it is in a shard
/// without slots.
pub open spec fn spec_write_slot(image: Seq<u8>, slots: nat, pos: nat, key: Seq<u8>) -> Option<
    nat,
> {
    end_slot(probe_end(image, ProbeState::start(slots, pos, key)))
}

/// The image that a write of `key` with `value`, begun at position `pos`,
/// leaves behind: exactly one slot is replaced. `None` when every slot of
/// the shard holds another key; the image then stays as it is.
pub open spec fn spec_write(
    image: Seq<u8>,
    slots: nat,
    pos: nat,
    key: Seq<u8>,
    value: u64,
) -> Option<Seq<u8>> {
    match spec_write_slot(image, slots, pos, key) {
        Some(slot) => Some(store(image, slot, entry_of(key, value))),
        None => None,
    }
}

/// The fixed-width key under which a key named by a client is stored.
pub open spec fn key_bytes(key: Seq<char>) -> Seq<u8> {
    slot_key(encode_utf8(key))
}

/// A shard file, known by the number of slots that its length gives it. A
/// file shorter than one slot is a shard without slots: every read and
/// every write of it is exhausted at once.
pub struct StorageFile {
    slots: u64,
}

/// The executable form of a [`ProbeState`].
struct Probe {
    key: Vec<u8>,
    slot: u64,
    slots: u64,
    left: u64,
}

impl View for Probe {
    type V = ProbeState;

    closed spec fn view(&self) -> ProbeState {
        ProbeState {
            key: self.key@,
            slot: self.slot as nat,
            slots: self.slots as nat,
            left: self.left as nat,
        }
    }
}

impl Probe {
    fn start(slots: u64, pos: u64, key: &str) -> (probe: Probe)
        requires
            1 <= slots,
            slots * ENTRY_LEN <= u64::MAX,
        ensures
            probe@ == ProbeState::start(slots as nat, pos as nat, key_bytes(key@)),
            probe@.wf(),
    {
        Probe { key: encode_key(key), slot: pos % slots, slots, left: slots }
    }

    fn offset(&self) -> (offset: u64)
        requires
            self@.wf(),
        ensures
            offset == self@.offset(),
    {
        assert(self.slot * ENTRY_LEN <= self.slots * ENTRY_LEN) by (nonlinear_arith)
            requires
                self.slot <= self.slots,
        ;
        self.slot * ENTRY_LEN
    }

    fn next(self) -> (probe: Probe)
        requires
            self@.wf(),
            self@.left > 1,
        ensures
            probe@ == self@.next(),
            probe@.wf(),
    {
        let slot: u64 = if self.slot + 1 == self.slots {
            0
        } else {
            self.slot + 1
        };
        assert(slot == (self.slot + 1) % (self.slots as int)) by (nonlinear_arith)
            requires
                self.slot < self.slots,
                slot == if self.slot + 1 == self.slots {
                    0
                } else {
                    self.slot + 1
                },
        ;
        Probe { key: self.key, slot, slots: self.slots, left: self.left - 1 }
    }
}

/// A read in progress: it waits for the bytes of the slot at [`ReadOp::offset`].
pub struct ReadOp {
    key: String,
    probe: Probe,
}

/// How a read goes on: at its beginning, and each time it has seen the
/// slot it asked for.
pub enum ReadStep {
    /// Fetch the slot that this read asks for.
    Fetch(ReadOp),
    /// The key is stored, with this value.
    Found(KeyValue),
    /// The key is not stored.
    Absent,
    /// Every slot of the shard holds another key.
    Exhausted,
}

impl ReadOp {
    #[verifier::type_invariant]
    spec fn inv(self) -> bool {
        self.probe@.wf()
    }

    /// Where the read stands.
    pub closed spec fn state(self) -> ProbeState {
        self.probe@
    }

    /// The key as the client named it.
    pub closed spec fn key(self) -> Seq<char> {
        self.key@
    }

    /// The byte offset, in the shard file, of the slot to fetch.
    pub fn offset(&self) -> (offset: u64)
        ensures
            offset == self.state().offset(),
            self.state().wf(),
    {
        proof {
            use_type_invariant(self);
        }
        self.probe.offset()
    }

    /// Takes the bytes of the slot at [`ReadOp::offset`] and decides how the
    /// read goes on.
    pub fn step(self, entry: &[u8]) -> (step: ReadStep)
        requires
            entry@.len() == ENTRY_LEN,
        ensures
            match probe_move(self.state(), entry@) {
                ProbeMove::Hit(value) => step matches ReadStep::Found(found) && found.key@
                    == self.key() && found.value == value,
                ProbeMove::Vacant => step is Absent,
                ProbeMove::Advance(next) => step matches ReadStep::Fetch(op) && op.state() == next
                    && op.key() == self.key(),
                ProbeMove::Exhausted => step is Exhausted,
            },
    {
        proof {
            use_type_invariant(&self);
        }
        match get_entry_state(self.probe.key.as_slice(), entry) {
            KeyEntryState::Free => ReadStep::Absent,
            KeyEntryState::Same(value) => ReadStep::Found(KeyValue { key: self.key, value }),
            KeyEntryState::Different => if self.probe.left > 1 {
                ReadStep::Fetch(ReadOp { key: self.key, probe: self.probe.next() })
            } else {
                ReadStep::Exhausted
            },
        }
    }

    /// Carries the read out on the bytes of a shard that is held in
    /// memory.
    pub fn run(self, image: &[u8]) -> (outcome: ReadOutcome)
        requires
            image_holds(image@, self.state().slots),
        ensures
            outcome == read_outcome(probe_end(image@, self.state())),
    {
        let ghost start = self.state();
        let mut op = self;
        loop
            invariant
                start == self.state(),
                image_holds(image@, op.state().slots),
                probe_end(image@, op.state()) == probe_end(image@, start),
            decreases op.state().left,
        {
            let offset: u64 = op.offset();
            proof {
                lemma_slot_in_image(image@, op.state());
            }
            let at: usize = fetch_at(image, offset);
            let entry: &[u8] = slice_subrange(image, at, at + ENTRY_LEN as usize);
            match op.step(entry) {
                ReadStep::Fetch(next) => {
                    op = next;
                },
                ReadStep::Found(found) => {
                    return ReadOutcome::Found(found.value);
                },
                ReadStep::Absent => {
                    return ReadOutcome::Absent;
                },
                ReadStep::Exhausted => {
                    return ReadOutcome::Exhausted;
                },
            }
        }
    }
}

/// The slot that a probe asks for lies within an image that holds the
/// shard.
pub proof fn lemma_slot_in_image(image: Seq<u8>, p: ProbeState)
    requires
        p.wf(),
        image_holds(image, p.slots),
    ensures
        p.offset() + ENTRY_LEN <= image.len(),
        slot_of(image, p.slot) == image.subrange(
            p.offset() as int,
            p.offset() + ENTRY_LEN as int,
        ),
{
    assert((p.slot + 1) * ENTRY_LEN <= p.slots * ENTRY_LEN) by (nonlinear_arith)
        requires
            p.slot < p.slots,
    ;
}

/// The place in memory of the slot at byte `offset` of a shard whose image
/// holds it.
fn fetch_at(image: &[u8], offset: u64) -> (at: usize)
    requires
        offset + ENTRY_LEN <= image@.len(),
    ensures
        at == offset,
        at + ENTRY_LEN <= image@.len() <= usize::MAX,
{
    let len: usize = image.len();
    assert(offset + ENTRY_LEN <= len);
    offset as usize
}

/// A write in progress: it waits for the bytes of the slot at
/// [`WriteOp::offset`].
pub struct WriteOp {
    value: u64,
    probe: Probe,
}

/// How a write goes on: at its beginning, and each time it has seen the
/// slot it asked for.
pub enum WriteStep {
    /// Fetch the slot that this write asks for.
    Fetch(WriteOp),
    /// The slot is free or holds the key: store `entry` at byte `offset` of
    /// the shard file, which ends the write.
    Store { offset: u64, entry: Vec<u8> },
    /// Every slot of the shard holds another key: nothing is stored.
    Exhausted,
}

impl WriteOp {
    #[verifier::type_invariant]
    spec fn inv(self) -> bool {
        self.probe@.wf()
    }

    /// Where the write stands.
    pub closed spec fn state(self) -> ProbeState {
        self.probe@
    }

    /// The value to store.
    pub closed spec fn value(self) -> u64 {
        self.value
    }

    /// The byte offset, in the shard file, of the slot to fetch.
    pub fn offset(&self) -> (offset: u64)
        ensures
            offset == self.state().offset(),
            self.state().wf(),
    {
        proof {
            use_type_invariant(self);
        }
        self.probe.offset()
    }

    /// Takes the bytes of the slot at [`WriteOp::offset`] and decides how the
    /// write goes on.
    pub fn step(self, entry: &[u8]) -> (step: WriteStep)
        requires
            entry@.len() == ENTRY_LEN,
        ensures
            match probe_move(self.state(), entry@) {
                ProbeMove::Hit(_) | ProbeMove::Vacant => step matches WriteStep::Store {
                    offset,
                    entry: stored,
                } && offset == self.state().offset() && stored@ == entry_of(
                    self.state().key,
                    self.value(),
                ),
                ProbeMove::Advance(next) => step matches WriteStep::Fetch(op) && op.state() == next
                    && op.value() == self.value(),
                ProbeMove::Exhausted => step is Exhausted,
            },
    {
        proof {
            use_type_invariant(&self);
        }
        match get_entry_state(self.probe.key.as_slice(), entry) {
            KeyEntryState::Free | KeyEntryState::Same(_) => WriteStep::Store {
                offset: self.probe.offset(),
                entry: encode_entry(self.probe.key.as_slice(), self.value),
            },
            KeyEntryState::Different => if self.probe.left > 1 {
                WriteStep::Fetch(WriteOp { value: self.value, probe: self.probe.next() })
            } else {
                WriteStep::Exhausted
            },
        }
    }

    /// Carries the write out on the bytes of a shard that is held in
    /// memory. Gives the byte offset of the slot that was stored, or
    /// `None` where every slot of the shard holds another key.
    pub fn run(self, image: &mut Vec<u8>) -> (stored: Option<u64>)
        requires
            image_holds(old(image)@, self.state().slots),
        ensures
            match end_slot(probe_end(old(image)@, self.state())) {
                Some(slot) => stored == Some((slot * ENTRY_LEN) as u64) && final(image)@ == store(
                    old(image)@,
                    slot,
                    entry_of(self.state().key, self.value()),
                ),
                None => stored is None && final(image)@ == old(image)@,
            },
    {
        let ghost start = self.state();
        let mut op = self;
        loop
            invariant
                start == self.state(),
                image@ == old(image)@,
                image_holds(image@, op.state().slots),
                probe_end(image@, op.state()) == probe_end(image@, start),
                op.state().key == start.key,
                op.value() == self.value(),
            decreases op.state().left,
        {
            let ghost slot = op.state().slot;
            let offset: u64 = op.offset();
            proof {
                lemma_slot_in_image(image@, op.state());
            }
            let at: usize = fetch_at(image.as_slice(), offset);
            let entry: &[u8] = slice_subrange(image.as_slice(), at, at + ENTRY_LEN as usize);
            match op.step(entry) {
                WriteStep::Fetch(next) => {
                    op = next;
                },
                WriteStep::Store { offset, entry } => {
                    let mut entry = entry;
                    let mut rest: Vec<u8> = image.split_off(at + ENTRY_LEN as usize);
                    image.truncate(at);
                    image.append(&mut entry);
                    image.append(&mut rest);
                    assert(image@ =~= store(
                        old(image)@,
                        slot,
                        entry_of(start.key, self.value()),
                    ));
                    return Some(offset);
                },
                WriteStep::Exhausted => {
                    return None;
                },
            }
        }
    }
}

impl StorageFile {
    #[verifier::type_invariant]
    spec fn inv(self) -> bool {
        self.slots * ENTRY_LEN <= u64::MAX
    }

    /// The number of slots of the shard.
    pub closed spec fn spec_slots(self) -> nat {
        self.slots as nat
    }

    /// The shard whose file is `file_len` bytes long: it has as many slots
    /// as fit that length, which may be none.
    pub fn new(file_len: u64) -> (file: StorageFile)
        ensures
            file.spec_slots() == file_len / ENTRY_LEN,
    {
        let slots: u64 = file_len / ENTRY_LEN;
        assert(slots * ENTRY_LEN <= file_len) by (nonlinear_arith)
            requires
                slots == file_len / ENTRY_LEN,
                ENTRY_LEN > 0,
        ;
        StorageFile { slots }
    }

    /// The number of slots of the shard.
    pub fn slots(&self) -> (slots: u64)
        ensures
            slots == self.spec_slots(),
            slots * ENTRY_LEN <= u64::MAX,
    {
        proof {
            use_type_invariant(self);
        }
        self.slots
    }

    /// Begins a read of `key` at position `pos`: the first slot to fetch is
    /// `pos` modulo the number of slots. In a shard without slots the read
    /// is exhausted at once.
    pub fn read(&self, pos: u64, key: String) -> (step: ReadStep)
        ensures
            self.spec_slots() == 0 ==> step is Exhausted,
            self.spec_slots() > 0 ==> (step matches ReadStep::Fetch(op) && op.state()
                == ProbeState::start(self.spec_slots(), pos as nat, key_bytes(key@))
                && op.state().wf() && op.key() == key@),
    {
        proof {
            use_type_invariant(self);
        }
        if self.slots == 0 {
            ReadStep::Exhausted
        } else {
            let probe = Probe::start(self.slots, pos, key.as_str());
            ReadStep::Fetch(ReadOp { key, probe })
        }
    }

    /// Begins a write of `key_value` at position `pos`: the first slot to
    /// fetch is `pos` modulo the number of slots. In a shard without slots
    /// the write is exhausted at once.
    pub fn write(&self, pos: u64, key_value: KeyValue) -> (step: WriteStep)
        ensures
            self.spec_slots() == 0 ==> step is Exhausted,
            self.spec_slots() > 0 ==> (step matches WriteStep::Fetch(op) && op.state()
                == ProbeState::start(self.spec_slots(), pos as nat, key_bytes(key_value.key@))
                && op.state().wf() && op.value() == key_value.value),
    {
        proof {
            use_type_invariant(self);
        }
        if self.slots == 0 {
            WriteStep::Exhausted
        } else {
            let probe = Probe::start(self.slots, pos, key_value.key.as_str());
            WriteStep::Fetch(WriteOp { value: key_value.value, probe })
        }
    }
}

} // verus!
