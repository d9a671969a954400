use persistent_storage::codec::encode_key;
use persistent_storage::storage_file::{
    encode_entry, get_entry_state, KeyEntryState, KeyValue, ReadOp, ReadOutcome, ReadStep,
    StorageFile, WriteOp, WriteStep,
    ENTRY_LEN, FILE_SIZE, KEY_VALUE_LEN, SLOTS_PER_SHARD,
};

const SLOT: usize = 136;

/// Runs a read on the bytes of a shard, as a caller with a file would.
/// `Err` tells that the shard is full of other keys.
fn read(file: &StorageFile, image: &[u8], pos: u64, key: &str) -> Result<Option<u64>, ()> {
    let mut step = file.read(pos, key.to_string());
    loop {
        match step {
            ReadStep::Fetch(op) => {
                let at = op.offset() as usize;
                step = op.step(&image[at..at + SLOT]);
            }
            ReadStep::Found(found) => {
                assert_eq!(found.key, key);
                return Ok(Some(found.value));
            }
            ReadStep::Absent => return Ok(None),
            ReadStep::Exhausted => return Err(()),
        }
    }
}

/// Runs a write on the bytes of a shard. Gives the number of the slot that
/// was written; `Err` tells that the shard is full of other keys.
fn write(
    file: &StorageFile,
    image: &mut Vec<u8>,
    pos: u64,
    key: &str,
    value: u64,
) -> Result<usize, ()> {
    let mut step = file.write(
        pos,
        KeyValue {
            key: key.to_string(),
            value,
        },
    );
    loop {
        match step {
            WriteStep::Fetch(op) => {
                let at = op.offset() as usize;
                step = op.step(&image[at..at + SLOT]);
            }
            WriteStep::Store { offset, entry } => {
                assert_eq!(entry.len(), SLOT);
                assert_eq!(offset % 136, 0);
                let at = offset as usize;
                image[at..at + SLOT].copy_from_slice(&entry);
                return Ok(at / SLOT);
            }
            WriteStep::Exhausted => return Err(()),
        }
    }
}

fn shard(slots: usize) -> (StorageFile, Vec<u8>) {
    let image = vec![0u8; slots * SLOT];
    (StorageFile::new(image.len() as u64), image)
}

/// The read that has begun and waits for its first slot.
fn reading(file: &StorageFile, pos: u64, key: &str) -> ReadOp {
    match file.read(pos, key.to_string()) {
        ReadStep::Fetch(op) => op,
        _ => panic!("the shard has slots"),
    }
}

/// The write that has begun and waits for its first slot.
fn writing(file: &StorageFile, pos: u64, key: &str, value: u64) -> WriteOp {
    let kv = KeyValue {
        key: key.to_string(),
        value,
    };
    match file.write(pos, kv) {
        WriteStep::Fetch(op) => op,
        _ => panic!("the shard has slots"),
    }
}

#[test]
fn sizes_of_a_shard() {
    assert_eq!(KEY_VALUE_LEN, 136);
    assert_eq!(ENTRY_LEN, 136);
    assert_eq!(SLOTS_PER_SHARD, 15_000_000);
    assert_eq!(FILE_SIZE, 2_040_000_000);
}

#[test]
fn entry_is_the_key_then_the_value() {
    let key = encode_key("alpha");
    let entry = encode_entry(&key, 42);
    assert_eq!(entry.len(), 136);
    assert_eq!(&entry[..128], &key[..]);
    assert_eq!(&entry[128..], &[42, 0, 0, 0, 0, 0, 0, 0]);
}

#[test]
fn entry_state_free() {
    let key = encode_key("alpha");
    assert_eq!(get_entry_state(&key, &[0u8; 136]), KeyEntryState::Free);
    // A free slot is free for every key, the all-zero one too.
    assert_eq!(get_entry_state(&[0u8; 128], &[0u8; 136]), KeyEntryState::Free);
}

#[test]
fn entry_state_same() {
    let key = encode_key("alpha");
    let entry = encode_entry(&key, 99);
    assert_eq!(get_entry_state(&key, &entry), KeyEntryState::Same(99));
    let entry = encode_entry(&key, 0);
    assert_eq!(get_entry_state(&key, &entry), KeyEntryState::Same(0));
    let entry = encode_entry(&key, u64::MAX);
    assert_eq!(get_entry_state(&key, &entry), KeyEntryState::Same(u64::MAX));
}

#[test]
fn entry_state_reads_the_value_little_endian() {
    let key = encode_key("k");
    let mut entry = encode_entry(&key, 0);
    entry[128] = 1;
    entry[129] = 2;
    assert_eq!(get_entry_state(&key, &entry), KeyEntryState::Same(513));
}

#[test]
fn entry_state_different() {
    let key = encode_key("alpha");
    let other = encode_key("beta");
    let entry = encode_entry(&other, 99);
    assert_eq!(get_entry_state(&key, &entry), KeyEntryState::Different);
    // A key that differs in its last byte only.
    let mut near = key.clone();
    near[127] = 1;
    assert_eq!(
        get_entry_state(&near, &encode_entry(&key, 1)),
        KeyEntryState::Different
    );
}

#[test]
fn entry_state_of_a_key_of_another_width() {
    let entry = encode_entry(&encode_key("alpha"), 5);
    assert_eq!(get_entry_state(b"alpha", &entry), KeyEntryState::Different);
    assert_eq!(get_entry_state(b"alpha", &[0u8; 136]), KeyEntryState::Free);
}

#[test]
fn entry_with_a_value_only_is_not_free() {
    // The all-zero key with a value: the slot is not free.
    let mut entry = vec![0u8; 136];
    entry[130] = 3;
    assert_eq!(
        get_entry_state(&encode_key("alpha"), &entry),
        KeyEntryState::Different
    );
}

#[test]
fn a_file_has_the_slots_that_fit_its_length() {
    assert_eq!(StorageFile::new(0).slots(), 0);
    assert_eq!(StorageFile::new(135).slots(), 0);
    assert_eq!(StorageFile::new(136).slots(), 1);
    assert_eq!(StorageFile::new(271).slots(), 1);
    assert_eq!(StorageFile::new(272).slots(), 2);
    assert_eq!(StorageFile::new(FILE_SIZE).slots(), 15_000_000);
    assert_eq!(StorageFile::new(u64::MAX).slots(), u64::MAX / 136);
}

#[test]
fn a_shard_without_slots_is_exhausted_at_once() {
    for len in [0u64, 1, 135] {
        let file = StorageFile::new(len);
        let image = vec![0u8; len as usize];
        for pos in [0u64, 1, 7, u64::MAX] {
            assert!(matches!(
                file.read(pos, "alpha".to_string()),
                ReadStep::Exhausted
            ));
            let kv = KeyValue {
                key: "alpha".to_string(),
                value: 1,
            };
            assert!(matches!(file.write(pos, kv), WriteStep::Exhausted));
            assert_eq!(read(&file, &image, pos, "alpha"), Err(()));
            let mut copy = image.clone();
            assert_eq!(write(&file, &mut copy, pos, "alpha", 1), Err(()));
            assert_eq!(copy, image);
        }
    }
}

#[test]
fn a_read_starts_at_the_position_modulo_the_slots() {
    let (file, _) = shard(8);
    assert_eq!(reading(&file, 0, "a").offset(), 0);
    assert_eq!(reading(&file, 3, "a").offset(), 3 * 136);
    assert_eq!(reading(&file, 8, "a").offset(), 0);
    assert_eq!(reading(&file, 21, "a").offset(), 5 * 136);
    assert_eq!(reading(&file, u64::MAX, "a").offset(), (u64::MAX % 8) * 136);
    let big = StorageFile::new(FILE_SIZE);
    assert_eq!(reading(&big, 15_000_001, "a").offset(), 136);
    assert_eq!(writing(&file, 13, "a", 1).offset(), 5 * 136);
}

#[test]
fn absent_in_a_fresh_shard() {
    let (file, image) = shard(8);
    for pos in 0..20 {
        assert_eq!(read(&file, &image, pos, "alpha"), Ok(None));
    }
}

#[test]
fn round_trip() {
    let (file, mut image) = shard(8);
    assert_eq!(write(&file, &mut image, 3, "alpha", 42), Ok(3));
    assert_eq!(read(&file, &image, 3, "alpha"), Ok(Some(42)));
    assert_eq!(&image[3 * SLOT..4 * SLOT], &encode_entry(&encode_key("alpha"), 42)[..]);
}

#[test]
fn round_trip_of_the_value_zero() {
    let (file, mut image) = shard(4);
    assert_eq!(write(&file, &mut image, 1, "alpha", 0), Ok(1));
    assert_eq!(read(&file, &image, 1, "alpha"), Ok(Some(0)));
}

#[test]
fn set_is_idempotent() {
    let (file, mut image) = shard(8);
    write(&file, &mut image, 3, "alpha", 42).unwrap();
    let once = image.clone();
    assert_eq!(write(&file, &mut image, 3, "alpha", 42), Ok(3));
    assert_eq!(image, once);
    assert_eq!(read(&file, &image, 3, "alpha"), Ok(Some(42)));
}

#[test]
fn last_writer_wins() {
    let (file, mut image) = shard(8);
    assert_eq!(write(&file, &mut image, 3, "alpha", 42), Ok(3));
    assert_eq!(write(&file, &mut image, 3, "alpha", 99), Ok(3));
    assert_eq!(read(&file, &image, 3, "alpha"), Ok(Some(99)));
    // Only the slot of the key was ever written.
    let used = image.chunks(SLOT).filter(|slot| slot.iter().any(|b| *b != 0)).count();
    assert_eq!(used, 1);
}

#[test]
fn colliding_keys_lie_in_adjacent_slots() {
    let (file, mut image) = shard(8);
    assert_eq!(write(&file, &mut image, 5, "a", 1), Ok(5));
    assert_eq!(write(&file, &mut image, 5, "b", 2), Ok(6));
    assert_eq!(read(&file, &image, 5, "a"), Ok(Some(1)));
    assert_eq!(read(&file, &image, 5, "b"), Ok(Some(2)));
    assert_eq!(&image[5 * SLOT..5 * SLOT + 1], b"a");
    assert_eq!(&image[6 * SLOT..6 * SLOT + 1], b"b");
    // Overwriting the first leaves the second where it is.
    assert_eq!(write(&file, &mut image, 5, "a", 10), Ok(5));
    assert_eq!(read(&file, &image, 5, "b"), Ok(Some(2)));
    assert_eq!(read(&file, &image, 5, "a"), Ok(Some(10)));
}

#[test]
fn probing_wraps_at_the_end_of_the_shard() {
    let (file, mut image) = shard(4);
    assert_eq!(write(&file, &mut image, 3, "a", 1), Ok(3));
    assert_eq!(write(&file, &mut image, 3, "b", 2), Ok(0));
    assert_eq!(write(&file, &mut image, 3, "c", 3), Ok(1));
    assert_eq!(read(&file, &image, 3, "c"), Ok(Some(3)));
    assert_eq!(read(&file, &image, 3, "b"), Ok(Some(2)));
    assert_eq!(read(&file, &image, 3, "d"), Ok(None));
}

#[test]
fn a_write_does_not_disturb_other_keys() {
    let (file, mut image) = shard(16);
    for (i, key) in ["k0", "k1", "k2", "k3", "k4", "k5"].iter().enumerate() {
        write(&file, &mut image, 7, key, i as u64 + 100).unwrap();
    }
    write(&file, &mut image, 9, "other", 1).unwrap();
    write(&file, &mut image, 7, "k2", 5).unwrap();
    for (i, key) in ["k0", "k1", "k3", "k4", "k5"].iter().enumerate() {
        let expected = if i < 2 { i as u64 + 100 } else { i as u64 + 101 };
        assert_eq!(read(&file, &image, 7, key), Ok(Some(expected)));
    }
    assert_eq!(read(&file, &image, 7, "k2"), Ok(Some(5)));
    assert_eq!(read(&file, &image, 9, "other"), Ok(Some(1)));
}

#[test]
fn a_full_shard_overflows() {
    let (file, mut image) = shard(3);
    assert_eq!(write(&file, &mut image, 1, "a", 1), Ok(1));
    assert_eq!(write(&file, &mut image, 1, "b", 2), Ok(2));
    assert_eq!(write(&file, &mut image, 1, "c", 3), Ok(0));
    let full = image.clone();
    // No room for a fourth key: nothing is written.
    assert_eq!(write(&file, &mut image, 1, "d", 4), Err(()));
    assert_eq!(image, full);
    assert_eq!(read(&file, &image, 1, "d"), Err(()));
    // The keys that are stored can still be read and overwritten.
    assert_eq!(read(&file, &image, 1, "c"), Ok(Some(3)));
    assert_eq!(write(&file, &mut image, 1, "c", 30), Ok(0));
    assert_eq!(read(&file, &image, 1, "c"), Ok(Some(30)));
}

#[test]
fn a_shard_of_one_slot() {
    let (file, mut image) = shard(1);
    assert_eq!(read(&file, &image, 77, "a"), Ok(None));
    assert_eq!(write(&file, &mut image, 77, "a", 1), Ok(0));
    assert_eq!(read(&file, &image, 12, "a"), Ok(Some(1)));
    assert_eq!(write(&file, &mut image, 77, "b", 1), Err(()));
    assert_eq!(read(&file, &image, 77, "b"), Err(()));
}

#[test]
fn a_probe_examines_each_slot_once() {
    let (file, mut image) = shard(5);
    for key in ["a", "b", "c", "d", "e"] {
        write(&file, &mut image, 2, key, 1).unwrap();
    }
    let mut op = reading(&file, 2, "absent");
    let mut offsets = vec![op.offset()];
    loop {
        let at = op.offset() as usize;
        match op.step(&image[at..at + SLOT]) {
            ReadStep::Fetch(next) => {
                op = next;
                offsets.push(op.offset());
            }
            ReadStep::Exhausted => break,
            _ => panic!("the shard is full of other keys"),
        }
    }
    assert_eq!(offsets, vec![2 * 136, 3 * 136, 4 * 136, 0, 136]);
}

#[test]
fn a_write_stores_one_slot() {
    let (file, image) = shard(8);
    let op = writing(&file, 2, "alpha", 7);
    match op.step(&image[2 * SLOT..3 * SLOT]) {
        WriteStep::Store { offset, entry } => {
            assert_eq!(offset, 2 * 136);
            assert_eq!(entry, encode_entry(&encode_key("alpha"), 7));
        }
        _ => panic!("a free slot takes the entry"),
    }
}

#[test]
fn keys_that_agree_in_their_first_128_bytes_are_one_key() {
    let (file, mut image) = shard(8);
    let long = format!("{}{}", "x".repeat(128), "one");
    let other = format!("{}{}", "x".repeat(128), "two");
    assert_eq!(write(&file, &mut image, 4, &long, 1), Ok(4));
    assert_eq!(write(&file, &mut image, 4, &other, 2), Ok(4));
    let mut op = reading(&file, 4, &long);
    let at = op.offset() as usize;
    match op.step(&image[at..at + SLOT]) {
        ReadStep::Found(found) => {
            assert_eq!(found.key, long);
            assert_eq!(found.value, 2);
        }
        _ => panic!("the key is stored"),
    }
    op = reading(&file, 4, &"x".repeat(128));
    match op.step(&image[at..at + SLOT]) {
        ReadStep::Found(found) => assert_eq!(found.value, 2),
        _ => panic!("the key is stored"),
    }
}

#[test]
fn a_read_carried_out_in_memory() {
    let (file, mut image) = shard(4);
    write(&file, &mut image, 3, "a", 1).unwrap();
    write(&file, &mut image, 3, "b", 2).unwrap();
    assert_eq!(reading(&file, 3, "a").run(&image), ReadOutcome::Found(1));
    assert_eq!(reading(&file, 3, "b").run(&image), ReadOutcome::Found(2));
    assert_eq!(reading(&file, 3, "c").run(&image), ReadOutcome::Absent);
    assert_eq!(reading(&file, 1, "a").run(&image), ReadOutcome::Absent);
    write(&file, &mut image, 3, "c", 3).unwrap();
    write(&file, &mut image, 3, "d", 4).unwrap();
    assert_eq!(reading(&file, 0, "e").run(&image), ReadOutcome::Exhausted);
    assert_eq!(reading(&file, 0, "d").run(&image), ReadOutcome::Found(4));
}

#[test]
fn a_write_carried_out_in_memory() {
    let (file, mut image) = shard(4);
    let (_, mut other) = shard(4);
    for (key, value, slot) in [("a", 1, 3), ("b", 2, 0), ("a", 5, 3), ("c", 3, 1), ("d", 4, 2)] {
        assert_eq!(
            writing(&file, 3, key, value).run(&mut image),
            Some(slot * 136)
        );
        assert_eq!(write(&file, &mut other, 3, key, value), Ok(slot as usize));
        assert_eq!(image, other);
        assert_eq!(image.len(), 4 * 136);
    }
    let full = image.clone();
    assert_eq!(writing(&file, 3, "e", 9).run(&mut image), None);
    assert_eq!(image, full);
}

#[test]
fn an_image_longer_than_its_slots_keeps_its_tail() {
    let mut image = vec![0u8; 2 * 136 + 50];
    image[2 * 136 + 7] = 9;
    let file = StorageFile::new(image.len() as u64);
    assert_eq!(file.slots(), 2);
    assert_eq!(writing(&file, 1, "a", 1).run(&mut image), Some(136));
    assert_eq!(image.len(), 2 * 136 + 50);
    assert_eq!(image[2 * 136 + 7], 9);
    assert_eq!(reading(&file, 1, "a").run(&image), ReadOutcome::Found(1));
}
