use persistent_storage::codec::encode_key;
use persistent_storage::persistent_hashtable::{
    hash_key, route, DataStorageOperationError, DirItem, GetOp, GetStep, ParseHashtableError,
    PersistentHashtable, SetOp, SetStep, SPLIT_EXPONENT, SPLIT_FACTOR, SPLIT_MASK,
};
use persistent_storage::storage_file::{encode_entry, FILE_SIZE};
use std::collections::hash_map::DefaultHasher;
use std::collections::HashMap;
use std::hash::Hasher;

/// The files of a table, kept in memory: of each shard the slots that were
/// written, by their offset. Every other slot is zero.
struct Disk {
    shards: Vec<HashMap<u64, Vec<u8>>>,
}

impl Disk {
    fn new() -> Disk {
        Disk {
            shards: vec![HashMap::new(); 4],
        }
    }

    fn slot(&self, shard: usize, offset: u64) -> Vec<u8> {
        self.shards[shard]
            .get(&offset)
            .cloned()
            .unwrap_or(vec![0u8; 136])
    }

    fn written(&self) -> usize {
        self.shards.iter().map(|shard| shard.len()).sum()
    }
}

fn run_get(disk: &Disk, mut step: GetStep) -> Result<u64, DataStorageOperationError> {
    loop {
        match step {
            GetStep::Fetch(op) => {
                let entry = disk.slot(op.shard(), op.offset());
                step = op.step(&entry);
            }
            GetStep::Done(answer) => return answer,
        }
    }
}

fn run_set(disk: &mut Disk, mut step: SetStep) -> Result<(), DataStorageOperationError> {
    let mut shard = 0;
    loop {
        match step {
            SetStep::Fetch(op) => {
                shard = op.shard();
                let entry = disk.slot(shard, op.offset());
                step = op.step(&entry);
            }
            SetStep::Store { offset, entry } => {
                disk.shards[shard].insert(offset, entry);
                return Ok(());
            }
            SetStep::Failed(error) => return Err(error),
        }
    }
}

/// The `get` that has begun and waits for its first slot.
fn getting(table: &PersistentHashtable, key: &str) -> GetOp {
    match table.get(key.to_string()) {
        GetStep::Fetch(op) => op,
        GetStep::Done(_) => panic!("the shard has slots"),
    }
}

/// The `set` that has begun and waits for its first slot.
fn setting(table: &PersistentHashtable, key: &str, value: u64) -> SetOp {
    match table.set(key.to_string(), value) {
        SetStep::Fetch(op) => op,
        _ => panic!("the shard has slots"),
    }
}

fn get(table: &PersistentHashtable, disk: &Disk, key: &str) -> Result<u64, DataStorageOperationError> {
    run_get(disk, table.get(key.to_string()))
}

fn set(
    table: &PersistentHashtable,
    disk: &mut Disk,
    key: &str,
    value: u64,
) -> Result<(), DataStorageOperationError> {
    run_set(disk, table.set(key.to_string(), value))
}

fn item(name: &str, len: u64) -> DirItem {
    DirItem {
        name: Some(name.to_string()),
        is_file: true,
        len,
    }
}

fn fresh() -> PersistentHashtable {
    PersistentHashtable::new(Vec::new()).unwrap()
}

/// A table whose shards have `slots` slots each.
fn small(slots: u64) -> PersistentHashtable {
    PersistentHashtable::new(vec![
        item("0.kek", slots * 136),
        item("1.kek", slots * 136),
        item("2.kek", slots * 136),
        item("3.kek", slots * 136),
    ])
    .unwrap()
}

/// Keys that the hash sends to the shard `shard`.
fn keys_of_shard(shard: usize, count: usize) -> Vec<String> {
    (0..)
        .map(|i| format!("key-{}", i))
        .filter(|key| route(hash_key(&encode_key(key))).0 == shard)
        .take(count)
        .collect()
}

#[test]
fn the_table_has_four_shards() {
    assert_eq!(SPLIT_EXPONENT, 2);
    assert_eq!(SPLIT_FACTOR, 4);
    assert_eq!(SPLIT_MASK, 3);
}

#[test]
fn route_takes_the_low_bits_for_the_shard() {
    assert_eq!(route(0), (0, 0));
    assert_eq!(route(1), (1, 0));
    assert_eq!(route(3), (3, 0));
    assert_eq!(route(4), (0, 1));
    assert_eq!(route(13), (1, 3));
    assert_eq!(route(0xdead_beef), (3, 0xdead_beef >> 2));
    assert_eq!(route(u64::MAX), (3, u64::MAX >> 2));
}

#[test]
fn the_hash_is_that_of_the_default_hasher() {
    let key = encode_key("alpha");
    let mut hasher = DefaultHasher::new();
    hasher.write(&key);
    assert_eq!(hash_key(&key), hasher.finish());
    assert_eq!(hash_key(&key), hash_key(&encode_key("alpha")));
    assert_ne!(hash_key(&key), hash_key(&encode_key("beta")));
}

#[test]
fn an_empty_directory_gives_a_fresh_table() {
    let table = fresh();
    assert!(table.is_fresh());
    for shard in 0..4 {
        assert_eq!(table.file_name(shard), &format!("{}.kek", shard));
        assert_eq!(table.file(shard).slots(), 15_000_000);
    }
}

#[test]
fn too_many_items() {
    let items = vec![
        item("0.kek", FILE_SIZE),
        item("1.kek", FILE_SIZE),
        item("2.kek", FILE_SIZE),
        item("3.kek", FILE_SIZE),
        item("4.kek", FILE_SIZE),
    ];
    assert_eq!(
        PersistentHashtable::new(items).err(),
        Some(ParseHashtableError::TooManyItems(4))
    );
    let many = (0..40).map(|i| item(&format!("{}.kek", i), FILE_SIZE)).collect();
    assert_eq!(
        PersistentHashtable::new(many).err(),
        Some(ParseHashtableError::TooManyItems(4))
    );
}

#[test]
fn not_enough_items() {
    for count in 1..4 {
        let items = (0..count)
            .map(|i| item(&format!("{}.kek", i), FILE_SIZE))
            .collect();
        assert_eq!(
            PersistentHashtable::new(items).err(),
            Some(ParseHashtableError::NotEnoughItems(4, count))
        );
    }
}

#[test]
fn a_directory_of_four_shard_files_is_reopened() {
    let table = small(8);
    assert!(!table.is_fresh());
    for shard in 0..4 {
        assert_eq!(table.file_name(shard), &format!("{}.kek", shard));
        assert_eq!(table.file(shard).slots(), 8);
    }
}

#[test]
fn shards_are_taken_in_the_order_of_their_numbers() {
    let table = PersistentHashtable::new(vec![
        item("2.kek", 136 * 12),
        item("0.kek", 136 * 10),
        item("3.kek", 136 * 13),
        item("1.kek", 136 * 11),
    ])
    .unwrap();
    for shard in 0..4usize {
        assert_eq!(table.file_name(shard), &format!("{}.kek", shard));
        assert_eq!(table.file(shard).slots(), 10 + shard as u64);
    }
}

#[test]
fn a_shard_file_is_known_by_its_stem() {
    let table = PersistentHashtable::new(vec![
        item("+1.kek", 136),
        item("3", 136 * 2),
        item("00.dat", 136 * 3),
        item("2.kek.old", 136 * 4 + 135),
    ])
    .unwrap();
    assert_eq!(table.file_name(0), "00.dat");
    assert_eq!(table.file_name(1), "+1.kek");
    assert_eq!(table.file_name(2), "2.kek.old");
    assert_eq!(table.file_name(3), "3");
    assert_eq!(table.file(0).slots(), 3);
    assert_eq!(table.file(2).slots(), 4);
}

#[test]
fn a_subdirectory_is_invalid() {
    let mut items = vec![
        item("0.kek", FILE_SIZE),
        item("1.kek", FILE_SIZE),
        item("2.kek", FILE_SIZE),
        item("3.kek", FILE_SIZE),
    ];
    items[2].is_file = false;
    assert_eq!(
        PersistentHashtable::new(items).err(),
        Some(ParseHashtableError::InvalidItemError(2))
    );
}

#[test]
fn a_name_without_a_shard_number_is_invalid() {
    for name in ["four.kek", "4.kek", ".kek", "-1.kek", "1x.kek", ""] {
        let items = vec![
            item("0.kek", FILE_SIZE),
            item(name, FILE_SIZE),
            item("2.kek", FILE_SIZE),
            item("3.kek", FILE_SIZE),
        ];
        assert_eq!(
            PersistentHashtable::new(items).err(),
            Some(ParseHashtableError::InvalidItemError(1))
        );
    }
}

#[test]
fn a_name_that_is_not_unicode_is_invalid() {
    let mut items = vec![
        item("0.kek", FILE_SIZE),
        item("1.kek", FILE_SIZE),
        item("2.kek", FILE_SIZE),
        item("3.kek", FILE_SIZE),
    ];
    items[3].name = None;
    assert_eq!(
        PersistentHashtable::new(items).err(),
        Some(ParseHashtableError::InvalidItemError(3))
    );
}

#[test]
fn a_shard_number_that_comes_twice_is_invalid() {
    let items = vec![
        item("0.kek", FILE_SIZE),
        item("1.kek", FILE_SIZE),
        item("1.bak", FILE_SIZE),
        item("3.kek", FILE_SIZE),
    ];
    assert_eq!(
        PersistentHashtable::new(items).err(),
        Some(ParseHashtableError::InvalidItemError(2))
    );
}

#[test]
fn the_length_of_a_file_does_not_decide_whether_it_serves() {
    for len in [0u64, 1, 135, 136, 137, u64::MAX] {
        let table = PersistentHashtable::new(vec![
            item("0.kek", len),
            item("1.kek", FILE_SIZE),
            item("2.kek", 0),
            item("3.kek", FILE_SIZE),
        ])
        .unwrap();
        assert!(!table.is_fresh());
        assert_eq!(table.file(0).slots(), len / 136);
        assert_eq!(table.file(1).slots(), 15_000_000);
        assert_eq!(table.file(2).slots(), 0);
        assert_eq!(table.file_name(0), "0.kek");
    }
    let empty = PersistentHashtable::new(vec![
        item("3.kek", 0),
        item("2.kek", 0),
        item("1.kek", 0),
        item("0.kek", 0),
    ])
    .unwrap();
    for shard in 0..4 {
        assert_eq!(empty.file(shard).slots(), 0);
        assert_eq!(empty.file_name(shard), &format!("{}.kek", shard));
    }
}

#[test]
fn a_shard_without_slots_fails_what_is_routed_to_it() {
    // Shard 2 has a file too short for a slot; the others have room.
    let table = PersistentHashtable::new(vec![
        item("0.kek", 136 * 4),
        item("1.kek", 136 * 4),
        item("2.kek", 135),
        item("3.kek", 136 * 4),
    ])
    .unwrap();
    let mut disk = Disk::new();
    for key in keys_of_shard(2, 3) {
        assert!(matches!(
            table.get(key.clone()),
            GetStep::Done(Err(DataStorageOperationError { shard: 2 }))
        ));
        assert!(matches!(
            table.set(key.clone(), 5),
            SetStep::Failed(DataStorageOperationError { shard: 2 })
        ));
        assert_eq!(
            get(&table, &disk, &key),
            Err(DataStorageOperationError { shard: 2 })
        );
        assert_eq!(
            set(&table, &mut disk, &key, 5),
            Err(DataStorageOperationError { shard: 2 })
        );
    }
    assert_eq!(disk.written(), 0);
    for shard in [0, 1, 3] {
        for key in keys_of_shard(shard, 2) {
            assert_eq!(get(&table, &disk, &key), Ok(0));
            assert_eq!(set(&table, &mut disk, &key, 9), Ok(()));
            assert_eq!(get(&table, &disk, &key), Ok(9));
        }
    }
}

#[test]
fn the_first_invalid_item_is_reported() {
    let mut items = vec![
        item("0.kek", FILE_SIZE),
        item("x.kek", FILE_SIZE),
        item("y.kek", FILE_SIZE),
        item("3.kek", 0),
    ];
    items[2].is_file = false;
    assert_eq!(
        PersistentHashtable::new(items).err(),
        Some(ParseHashtableError::InvalidItemError(1))
    );
}

#[test]
fn get_is_routed_by_the_hash_of_the_fixed_width_key() {
    let table = fresh();
    for key in ["alpha", "beta", "", "a much longer key than the others"] {
        let hash = hash_key(&encode_key(key));
        let op = getting(&table, key);
        assert_eq!(op.shard(), (hash & 3) as usize);
        assert_eq!(op.offset(), ((hash >> 2) % 15_000_000) * 136);
        let op = setting(&table, key, 1);
        assert_eq!(op.shard(), (hash & 3) as usize);
        assert_eq!(op.offset(), ((hash >> 2) % 15_000_000) * 136);
    }
}

#[test]
fn absence_in_a_fresh_table() {
    let table = fresh();
    let disk = Disk::new();
    for key in ["alpha", "beta", "gamma", "", "\0"] {
        assert_eq!(get(&table, &disk, key), Ok(0));
    }
}

#[test]
fn table_round_trip() {
    let table = fresh();
    let mut disk = Disk::new();
    assert_eq!(set(&table, &mut disk, "alpha", 42), Ok(()));
    assert_eq!(get(&table, &disk, "alpha"), Ok(42));
    assert_eq!(get(&table, &disk, "beta"), Ok(0));
    assert_eq!(disk.written(), 1);
}

#[test]
fn table_set_is_idempotent() {
    let table = fresh();
    let mut disk = Disk::new();
    set(&table, &mut disk, "alpha", 42).unwrap();
    let once = disk.shards.clone();
    set(&table, &mut disk, "alpha", 42).unwrap();
    assert_eq!(disk.shards, once);
    assert_eq!(get(&table, &disk, "alpha"), Ok(42));
}

#[test]
fn table_last_writer_wins() {
    let table = fresh();
    let mut disk = Disk::new();
    set(&table, &mut disk, "alpha", 42).unwrap();
    set(&table, &mut disk, "alpha", 99).unwrap();
    assert_eq!(get(&table, &disk, "alpha"), Ok(99));
    assert_eq!(disk.written(), 1);
}

#[test]
fn a_set_writes_the_slot_of_the_key() {
    let table = fresh();
    let mut disk = Disk::new();
    set(&table, &mut disk, "alpha", 42).unwrap();
    let hash = hash_key(&encode_key("alpha"));
    let shard = (hash & 3) as usize;
    let offset = ((hash >> 2) % 15_000_000) * 136;
    assert_eq!(
        disk.shards[shard].get(&offset),
        Some(&encode_entry(&encode_key("alpha"), 42))
    );
}

#[test]
fn many_keys_round_trip() {
    let table = small(64);
    let mut disk = Disk::new();
    for i in 0..100u64 {
        assert_eq!(set(&table, &mut disk, &format!("key-{}", i), i + 1), Ok(()));
    }
    for i in 0..100u64 {
        assert_eq!(get(&table, &disk, &format!("key-{}", i)), Ok(i + 1));
    }
    assert_eq!(get(&table, &disk, "key-100"), Ok(0));
    assert_eq!(disk.written(), 100);
}

#[test]
fn a_set_leaves_the_other_shards_alone() {
    let table = small(16);
    let mut disk = Disk::new();
    let zero = keys_of_shard(0, 1);
    let one = keys_of_shard(1, 3);
    set(&table, &mut disk, &zero[0], 5).unwrap();
    let before = disk.shards[0].clone();
    for key in &one {
        set(&table, &mut disk, key, 6).unwrap();
    }
    assert_eq!(disk.shards[0], before);
    assert_eq!(disk.shards[1].len(), 3);
    assert!(disk.shards[2].is_empty());
    assert_eq!(get(&table, &disk, &zero[0]), Ok(5));
}

#[test]
fn a_full_shard_fails_the_set_and_names_the_shard() {
    let table = small(2);
    let mut disk = Disk::new();
    let keys = keys_of_shard(2, 3);
    assert_eq!(set(&table, &mut disk, &keys[0], 1), Ok(()));
    assert_eq!(set(&table, &mut disk, &keys[1], 2), Ok(()));
    let full = disk.shards.clone();
    assert_eq!(
        set(&table, &mut disk, &keys[2], 3),
        Err(DataStorageOperationError { shard: 2 })
    );
    assert_eq!(disk.shards, full);
    assert_eq!(
        get(&table, &disk, &keys[2]),
        Err(DataStorageOperationError { shard: 2 })
    );
    assert_eq!(get(&table, &disk, &keys[0]), Ok(1));
    assert_eq!(get(&table, &disk, &keys[1]), Ok(2));
    // The other shards have room.
    let other = keys_of_shard(3, 1);
    assert_eq!(set(&table, &mut disk, &other[0], 4), Ok(()));
}

#[test]
fn what_was_set_is_found_after_a_restart() {
    let mut disk = Disk::new();
    {
        let table = fresh();
        set(&table, &mut disk, "alpha", 42).unwrap();
        set(&table, &mut disk, "beta", 43).unwrap();
    }
    // The directory now holds the four files that the fresh table named.
    let names: Vec<String> = (0..4).map(|shard| fresh().file_name(shard).clone()).collect();
    let listing = vec![
        item(&names[3], FILE_SIZE),
        item(&names[1], FILE_SIZE),
        item(&names[0], FILE_SIZE),
        item(&names[2], FILE_SIZE),
    ];
    let table = PersistentHashtable::new(listing).unwrap();
    assert!(!table.is_fresh());
    for shard in 0..4 {
        assert_eq!(table.file_name(shard), &names[shard]);
    }
    assert_eq!(get(&table, &disk, "alpha"), Ok(42));
    assert_eq!(get(&table, &disk, "beta"), Ok(43));
    assert_eq!(get(&table, &disk, "gamma"), Ok(0));
}

#[test]
fn a_table_agrees_with_a_map() {
    // A run of sets and gets, chosen by a small generator, against a map
    // that is its own witness.
    let table = small(32);
    let mut disk = Disk::new();
    let mut model: HashMap<String, u64> = HashMap::new();
    let mut state: u64 = 0x2545_f491_4f6c_dd1d;
    for _ in 0..2000 {
        state ^= state << 13;
        state ^= state >> 7;
        state ^= state << 17;
        let key = format!("key-{}", state % 90);
        if state % 3 == 0 {
            let value = state >> 8;
            assert_eq!(set(&table, &mut disk, &key, value), Ok(()));
            model.insert(key, value);
        } else {
            let expected = model.get(&key).cloned().unwrap_or(0);
            assert_eq!(get(&table, &disk, &key), Ok(expected));
        }
    }
    assert_eq!(disk.written(), model.len());
    for (key, value) in &model {
        assert_eq!(get(&table, &disk, key), Ok(*value));
    }
}

#[test]
fn a_table_held_in_memory() {
    let table = small(2);
    let mut images = vec![vec![0u8; 2 * 136]; 4];
    let keys = keys_of_shard(1, 3);
    for (i, key) in keys.iter().take(2).enumerate() {
        let op = setting(&table, key, i as u64 + 7);
        assert_eq!(op.shard(), 1);
        assert_eq!(op.run(&mut images[1]), Ok(()));
    }
    let full = images.clone();
    let op = setting(&table, &keys[2], 9);
    assert_eq!(
        op.run(&mut images[1]),
        Err(DataStorageOperationError { shard: 1 })
    );
    assert_eq!(images, full);
    assert_eq!(getting(&table, &keys[0]).run(&images[1]), Ok(7));
    assert_eq!(getting(&table, &keys[1]).run(&images[1]), Ok(8));
    assert_eq!(
        getting(&table, &keys[2]).run(&images[1]),
        Err(DataStorageOperationError { shard: 1 })
    );
    let other = keys_of_shard(0, 1);
    assert_eq!(getting(&table, &other[0]).run(&images[0]), Ok(0));
    // The slots in memory are those that the steps store on disk.
    let mut disk = Disk::new();
    for (i, key) in keys.iter().take(2).enumerate() {
        set(&table, &mut disk, key, i as u64 + 7).unwrap();
    }
    for (offset, entry) in &disk.shards[1] {
        let at = *offset as usize;
        assert_eq!(&images[1][at..at + 136], &entry[..]);
    }
}
