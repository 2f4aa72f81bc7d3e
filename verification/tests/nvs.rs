use core::sync::atomic::Ordering;
use esp_nvs::error::Error;
use esp_nvs::mem_flash::MemFlash;
use esp_nvs::{Get, Key};
use portable_atomic::AtomicU8;
use std::cell::RefCell;
use std::rc::Rc;
use wifimanager::error::WmError;
use wifimanager::nvs::{
    can_name, entry_address, may_open, report, reserve, Nvs, PartitionScan, PART_ENTRY_SIZE, PART_OFFSET,
    PART_SIZE,
};

fn entry(kind: u8, subtype: u8, offset: u32, size: u32) -> [u8; 32] {
    let mut e = [0u8; 32];
    e[0] = 0xaa;
    e[1] = 0x50;
    e[2] = kind;
    e[3] = subtype;
    e[4..8].copy_from_slice(&offset.to_le_bytes());
    e[8..12].copy_from_slice(&size.to_le_bytes());
    e
}

/// Reads of the partition table that all worked.
fn reads(entries: &[[u8; 32]]) -> Vec<Option<[u8; 32]>> {
    entries.iter().map(|e| Some(*e)).collect()
}

fn count(counter: &AtomicU8) -> u8 {
    counter.load(Ordering::Relaxed)
}

fn ok(inner: &'static str) -> Result<&'static str, Error> {
    Ok(inner)
}

#[test]
fn the_storage_partition_is_found() {
    let entries = vec![
        entry(0, 0, 0x10000, 0x100000),
        entry(1, 2, 0x12345678, 0x9abcdef0),
        entry(1, 2, 1, 2),
    ];
    assert_eq!(
        Nvs::<()>::read_nvs_partition_offset(&reads(&entries)),
        Some((0x12345678, 0x9abcdef0))
    );
}

#[test]
fn foreign_entries_are_skipped_and_the_end_is_respected() {
    let mut foreign = entry(1, 2, 5, 6);
    foreign[0] = 0xeb;
    let mut foreign_second = entry(1, 2, 5, 6);
    foreign_second[1] = 0x51;
    let found = vec![foreign, foreign_second, entry(1, 1, 7, 8), entry(0, 2, 7, 8), entry(1, 2, 9, 10)];
    assert_eq!(Nvs::<()>::read_nvs_partition_offset(&reads(&found)), Some((9, 10)));
    let ended = vec![foreign, [0xff; 32], entry(1, 2, 9, 10)];
    assert_eq!(Nvs::<()>::read_nvs_partition_offset(&reads(&ended)), None);
    assert_eq!(Nvs::<()>::read_nvs_partition_offset(&Vec::new()), None);
}

#[test]
fn the_table_has_room_for_so_many_entries() {
    let n = (PART_SIZE / PART_ENTRY_SIZE) as usize;
    let mut entries = vec![[0u8; 32]; n];
    entries[n - 1] = entry(1, 2, 3, 4);
    assert_eq!(Nvs::<()>::read_nvs_partition_offset(&reads(&entries)), Some((3, 4)));
    entries[n - 1] = [0u8; 32];
    entries.push(entry(1, 2, 3, 4));
    assert_eq!(Nvs::<()>::read_nvs_partition_offset(&reads(&entries)), None);
}

#[test]
fn a_failed_first_read_is_the_end_of_the_table() {
    let table = vec![None, Some(entry(1, 2, 3, 4))];
    assert_eq!(Nvs::<()>::read_nvs_partition_offset(&table), None);
    let mut scan = PartitionScan::new();
    scan.entry_failed();
    assert_eq!(scan.next_address(), None);
    assert_eq!(scan.found(), None);
}

#[test]
fn a_failed_read_repeats_the_entry_before() {
    let table = vec![Some(entry(0, 0, 1, 2)), None, Some(entry(1, 2, 3, 4))];
    assert_eq!(Nvs::<()>::read_nvs_partition_offset(&table), Some((3, 4)));
    let mut scan = PartitionScan::new();
    scan.entry(&entry(0, 0, 1, 2));
    scan.entry_failed();
    assert_eq!(scan.next_address(), Some(PART_OFFSET + 64));
    assert_eq!(scan.found(), None);
}

#[test]
fn an_attempt_is_reserved_once() {
    let mut counter = AtomicU8::new(0);
    assert!(reserve(&mut counter).is_ok());
    assert_eq!(count(&counter), 1);
    assert!(matches!(reserve(&mut counter), Err(WmError::Other)));
    assert_eq!(count(&counter), 1);
}

#[test]
fn a_scan_asks_for_the_entries_in_turn() {
    let mut scan = PartitionScan::new();
    assert_eq!(scan.next_address(), Some(PART_OFFSET));
    scan.entry(&[0; 32]);
    assert_eq!(scan.next_address(), Some(PART_OFFSET + 32));
    assert_eq!(scan.found(), None);
    scan.entry(&entry(1, 2, 3, 4));
    assert_eq!(scan.next_address(), None);
    assert_eq!(scan.found(), Some((3, 4)));
}

#[test]
fn a_scan_ends_at_the_end_of_the_table() {
    let mut scan = PartitionScan::new();
    scan.entry(&[0xff; 32]);
    assert_eq!(scan.next_address(), None);
    assert_eq!(scan.found(), None);
    let mut scan = PartitionScan::new();
    let mut reads = 0;
    while let Some(address) = scan.next_address() {
        assert!(address < PART_OFFSET + PART_SIZE);
        scan.entry(&[0; 32]);
        reads += 1;
    }
    assert_eq!(reads, 96);
    assert_eq!(PART_OFFSET, 0x8000);
}

#[test]
fn a_second_opening_is_refused() {
    let mut counter = AtomicU8::new(0);
    let first = Nvs::new(1, 2, &mut counter, |offset, size| {
        assert_eq!((offset, size), (1, 2));
        ok("storage")
    });
    assert!(first.is_ok());
    assert_eq!(count(&counter), 1);
    let second = Nvs::new(1, 2, &mut counter, |_, _| -> Result<&str, Error> { panic!() });
    assert!(matches!(second, Err(WmError::Other)));
    assert_eq!(count(&counter), 1);
}

#[test]
fn a_failed_opening_is_reported_and_stays_counted() {
    let mut counter = AtomicU8::new(0);
    let r = Nvs::new(1, 2, &mut counter, |_, _| Err::<(), Error>(Error::FlashError));
    assert!(matches!(r, Err(WmError::NvsError(Error::FlashError))));
    assert_eq!(count(&counter), 1);
    assert!(matches!(
        Nvs::new(1, 2, &mut counter, |_, _| ok("storage")),
        Err(WmError::Other)
    ));
}

#[test]
fn the_count_decides_whether_to_open() {
    assert!(may_open(0).is_ok());
    assert!(matches!(may_open(1), Err(WmError::Other)));
    assert!(matches!(may_open(255), Err(WmError::Other)));
    for n in [1, 3, 255] {
        let mut counter = AtomicU8::new(n);
        let r = Nvs::new(1, 2, &mut counter, |_, _| -> Result<&str, Error> { panic!() });
        assert!(matches!(r, Err(WmError::Other)));
        assert_eq!(count(&counter), n);
    }
}

#[test]
fn unchecked_opening_asks_nobody() {
    let r = Nvs::new_unchecked(3, 4, |offset, size| Ok::<usize, Error>(offset * 10 + size));
    assert_eq!(*r.ok().unwrap().inner(), 34);
    assert!(matches!(
        Nvs::from_opened(Err::<(), Error>(Error::KeyNotFound), 0, 0),
        Err(WmError::NvsError(Error::KeyNotFound))
    ));
}

#[test]
fn opening_by_the_partition_table() {
    let mut counter = AtomicU8::new(0);
    let entries = vec![entry(1, 2, 0x9000, 0x6000)];
    let r = Nvs::new_from_part_table(&reads(&entries), &mut counter, |offset, size| {
        Ok::<(usize, usize), Error>((offset, size))
    });
    assert_eq!(*r.ok().unwrap().inner(), (0x9000, 0x6000));
    let mut counter = AtomicU8::new(0);
    let r = Nvs::new_from_part_table(&Vec::new(), &mut counter, |_, _| ok("storage"));
    assert!(matches!(r, Err(WmError::Other)));
    assert_eq!(count(&counter), 0);
    let mut counter = AtomicU8::new(1);
    let r = Nvs::new_from_part_table(&reads(&entries), &mut counter, |_, _| ok("storage"));
    assert!(matches!(r, Err(WmError::Other)));
    assert_eq!(count(&counter), 1);
    let mut counter = AtomicU8::new(0);
    let r = Nvs::new_from_part_table(&reads(&entries), &mut counter, |_, _| {
        Err::<(), Error>(Error::FlashError)
    });
    assert!(matches!(r, Err(WmError::NvsError(Error::FlashError))));
    assert_eq!(count(&counter), 1);
}

#[test]
fn the_counter_shows_the_handles_that_are_left() {
    let mut counter = AtomicU8::new(0);
    let first = Nvs::new(1, 2, &mut counter, |_, _| Ok::<Rc<u8>, Error>(Rc::new(7))).ok().unwrap();
    let mut handles = vec![first];
    for _ in 0..4 {
        let next = handles[0].clone(&mut counter);
        handles.push(next);
    }
    let mut left = 5;
    for i in [2, 0, 1, 1, 0] {
        assert_eq!(count(&counter), left);
        assert!(matches!(
            Nvs::new(1, 2, &mut counter, |_, _| ok("storage")),
            Err(WmError::Other)
        ));
        handles.remove(i).release(&mut counter);
        left -= 1;
    }
    assert_eq!(count(&counter), 0);
    assert!(Nvs::new(1, 2, &mut counter, |_, _| ok("storage")).is_ok());
}

#[test]
fn the_counter_wraps_around() {
    let mut counter = AtomicU8::new(255);
    let handle = Nvs::new_from_nvs((), 0, 0, &mut counter);
    assert_eq!(count(&counter), 0);
    handle.release(&mut counter);
    assert_eq!(count(&counter), 255);
}

#[test]
fn handles_are_counted() {
    let mut counter = AtomicU8::new(0);
    let first = Nvs::new_from_nvs(Rc::new(7), 1, 2, &mut counter);
    assert_eq!(count(&counter), 1);
    let second = first.clone(&mut counter);
    assert_eq!(count(&counter), 2);
    assert!(Rc::ptr_eq(first.inner(), second.inner()));
    assert_eq!(*first.release(&mut counter), 7);
    assert_eq!(count(&counter), 1);
    second.release(&mut counter);
    assert_eq!(count(&counter), 0);
    assert!(Nvs::new(1, 2, &mut counter, |_, _| ok("storage")).is_ok());
}

#[test]
fn names_are_padded_to_sixteen_bytes() {
    let (namespace, name) = entry_address("WIFI_SETUP");
    assert_eq!(namespace.as_bytes(), b"wifimanager\0\0\0\0\0");
    assert_eq!(name.as_bytes(), b"WIFI_SETUP\0\0\0\0\0\0");
    let (_, longest) = entry_address("abcdefghijklmno");
    assert_eq!(longest.as_bytes(), b"abcdefghijklmno\0");
    let (_, empty) = entry_address("");
    assert_eq!(empty.as_bytes(), &[0; 16]);
    assert_ne!(entry_address("a").1.as_bytes(), entry_address("b").1.as_bytes());
}

#[test]
fn only_short_ascii_texts_are_names() {
    assert!(can_name(""));
    assert!(can_name("abcdefghijklmno"));
    assert!(!can_name("abcdefghijklmnop"));
    assert!(!can_name("\u{e4}"));
    assert!(!can_name("a\0"));
}

#[test]
fn entries_are_read_written_and_deleted_by_address() {
    let mut counter = AtomicU8::new(0);
    let nvs = Nvs::new_from_nvs(5, 1, 2, &mut counter);
    let check = |namespace: Key, name: Key| {
        assert_eq!(namespace.as_bytes(), b"wifimanager\0\0\0\0\0");
        assert_eq!(name.as_bytes(), b"key\0\0\0\0\0\0\0\0\0\0\0\0\0");
    };
    let got = nvs.get("key", |inner: &i32, n, k| {
        check(n, k);
        Ok::<i32, Error>(inner + 1)
    });
    assert_eq!(got.ok(), Some(6));
    let set = nvs.set("key", 9, |inner: &i32, n, k, value| {
        check(n, k);
        assert_eq!((*inner, value), (5, 9));
        Ok(())
    });
    assert!(set.is_ok());
    let deleted = nvs.delete("key", |inner: &i32, n, k| {
        check(n, k);
        assert_eq!(*inner, 5);
        Err(Error::KeyNotFound)
    });
    assert!(matches!(deleted, Err(WmError::NvsError(Error::KeyNotFound))));
}

#[test]
fn results_of_the_storage_are_reported() {
    assert!(matches!(report(Ok::<u8, Error>(3)), Ok(3)));
    assert!(matches!(
        report(Err::<u8, Error>(Error::NamespaceNotFound)),
        Err(WmError::NvsError(Error::NamespaceNotFound))
    ));
}

#[test]
fn entries_are_kept_in_a_real_storage() {
    let mut counter = AtomicU8::new(0);
    let nvs = Nvs::new(0, 0x4000, &mut counter, |offset, size| {
        esp_nvs::Nvs::new(offset, size, MemFlash::new(4)).map(RefCell::new)
    })
    .ok()
    .unwrap();
    let read = |key: &str| {
        nvs.get(key, |inner: &RefCell<esp_nvs::Nvs<MemFlash>>, n, k| {
            Get::<u32>::get(&mut *inner.borrow_mut(), &n, &k)
        })
    };
    let write = |key: &str, value: u32| {
        nvs.set(key, value, |inner: &RefCell<esp_nvs::Nvs<MemFlash>>, n, k, value| {
            esp_nvs::Set::set(&mut *inner.borrow_mut(), &n, &k, value)
        })
    };
    assert!(matches!(read("a"), Err(WmError::NvsError(_))));
    assert!(write("a", 7).is_ok());
    assert!(write("b", 8).is_ok());
    assert_eq!(read("a").ok(), Some(7));
    assert_eq!(read("b").ok(), Some(8));
    assert!(nvs.delete("a", |inner, n, k| inner.borrow_mut().delete(&n, &k)).is_ok());
    assert!(matches!(read("a"), Err(WmError::NvsError(Error::KeyNotFound))));
    assert_eq!(read("b").ok(), Some(8));
}

#[test]
fn a_storage_that_cannot_be_opened_is_reported() {
    let mut counter = AtomicU8::new(0);
    let r = Nvs::new(1, 0x4000, &mut counter, |offset, size| {
        esp_nvs::Nvs::new(offset, size, MemFlash::new(4))
    });
    assert!(matches!(r, Err(WmError::NvsError(Error::InvalidPartitionOffset))));
}
