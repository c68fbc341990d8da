use fekv::entry::EntryRef;
use fekv::raftstore::RaftDiskStorage;

fn temp_store_with_entries(ents: &Vec<EntryRef>) -> RaftDiskStorage {
    let mut storage = RaftDiskStorage::new();
    storage.wl().clear();
    for e in ents.clone().drain(..) {
        let core = storage.wl();
        core.set_entry(e.index, e).unwrap();
    }
    storage
}

fn new_entry(index: u64, term: u64) -> EntryRef {
    let mut e = EntryRef::new();
    e.term = term;
    e.index = index;
    e
}

#[test]
fn test_storage_term() {
    let ents = vec![new_entry(3, 3), new_entry(4, 4), new_entry(5, 5)];
    let storage = temp_store_with_entries(&ents);

    let mut tests = vec![
        (2, Err("err")),
        (3, Ok(3)),
        (4, Ok(4)),
        (5, Ok(5)),
        (6, Err("err")),
    ];

    for (i, (idx, wterm)) in tests.drain(..).enumerate() {
        let t = storage.term(idx);
        if wterm.is_err() && !t.is_err() {
            panic!("#{}: expect res {:?}, got {:?}", i, wterm, t);
        }
        if wterm.is_ok() {
            let tmpt = t.as_ref().ok();
            let tmpw = wterm.as_ref().ok();
            if tmpt != tmpw {
                panic!("#{}: expect res {:?}, got {:?}", i, wterm, t);
            }
        }
    }
}

#[test]
fn test_storage_entries() {
    let ents = vec![
        new_entry(3, 3),
        new_entry(4, 4),
        new_entry(5, 5),
        new_entry(6, 6),
    ];
    let storage = temp_store_with_entries(&ents);
    let max_u64 = u64::max_value();
    let mut tests = vec![
        (2, 6, max_u64, Err("err")),
        (3, 4, max_u64, Ok(vec![new_entry(3, 3)])),
        (4, 5, max_u64, Ok(vec![new_entry(4, 4)])),
        (4, 6, max_u64, Ok(vec![new_entry(4, 4), new_entry(5, 5)])),
        (
            4,
            7,
            max_u64,
            Ok(vec![new_entry(4, 4), new_entry(5, 5), new_entry(6, 6)]),
        ),
        // even if maxsize is zero, the first entry should be returned
        (4, 7, 0, Ok(vec![new_entry(4, 4)])),
        // limit to 2
        (4, 7, 8 as u64, Ok(vec![new_entry(4, 4), new_entry(5, 5)])),
        (4, 7, 10 as u64, Ok(vec![new_entry(4, 4), new_entry(5, 5)])),
        (4, 7, 11 as u64, Ok(vec![new_entry(4, 4), new_entry(5, 5)])),
        // all
        (
            4,
            7,
            12 as u64,
            Ok(vec![new_entry(4, 4), new_entry(5, 5), new_entry(6, 6)]),
        ),
    ];
    for (i, (lo, hi, maxsize, wentries)) in tests.drain(..).enumerate() {
        let e = storage.entries(lo, hi, Some(maxsize));
        if e.is_err() && !wentries.is_err() {
            panic!("#{}: expect entries {:?}, got {:?}", i, wentries, e);
        }
        if wentries.is_ok() {
            let tmpe = e.as_ref().ok();
            let tmpw = wentries.as_ref().ok();
            if tmpe != tmpw {
                panic!("#{}: expect entries {:?}, got {:?}", i, wentries, e);
            }
        }
    }
}

#[test]
fn test_storage_last_index() {
    let ents = vec![new_entry(3, 3), new_entry(4, 4), new_entry(5, 5)];
    let mut storage = temp_store_with_entries(&ents);
    let wresult = Ok(5);
    let result = storage.last_index();
    if result != wresult {
        panic!("FAIL: want {:?}, got {:?}", wresult, result);
    }
    storage.wl().append(&[new_entry(6, 5)]).unwrap();
    let wresult = Ok(6);
    let result = storage.last_index();
    if result != wresult {
        panic!("want {:?}, got {:?}", wresult, result);
    }
}

#[test]
fn test_storage_first_index() {
    let ents = vec![new_entry(3, 3), new_entry(4, 4), new_entry(5, 5)];
    let mut storage = temp_store_with_entries(&ents);
    assert_eq!(storage.first_index(), Ok(3));
    storage.wl().compact(4).unwrap();
    assert_eq!(storage.first_index(), Ok(4));
    storage.wl().compact(5).unwrap();
    assert_eq!(storage.first_index(), Ok(5));
}

#[test]
fn test_storage_compact() {
    let ents = vec![new_entry(3, 3), new_entry(4, 4), new_entry(5, 5)];
    let mut storage = temp_store_with_entries(&ents);

    let mut tests = vec![(2, 3, 3, 3), (3, 3, 3, 3), (4, 4, 4, 2), (5, 5, 5, 1)];
    for (i, (idx, windex, wterm, wlen)) in tests.drain(..).enumerate() {
        storage.wl().compact(idx).unwrap();
        let index = storage.first_index().unwrap();
        if index != windex {
            panic!("#{}: want {}, index {}", i, windex, index);
        }
        let term = if let Ok(v) = storage.entries(index, index + 1, Some(1)) {
            v.first().map_or(0, |e| e.term)
        } else {
            0
        };
        if term != wterm {
            panic!("#{}: want {}, term {}", i, wterm, term);
        }
        let last = storage.last_index().unwrap();
        let len = storage.entries(index, last + 1, Some(100)).unwrap().len();
        if len != wlen {
            panic!("#{}: want {}, term {}", i, wlen, len);
        }
    }
}

#[test]
fn test_storage_append() {
    let ents = vec![new_entry(3, 3), new_entry(4, 4), new_entry(5, 5)];
    let mut tests = vec![
        (
            vec![new_entry(3, 3), new_entry(4, 4), new_entry(5, 5)],
            Some(vec![new_entry(3, 3), new_entry(4, 4), new_entry(5, 5)]),
        ),
        (
            vec![new_entry(3, 3), new_entry(4, 6), new_entry(5, 6)],
            Some(vec![new_entry(3, 3), new_entry(4, 6), new_entry(5, 6)]),
        ),
        (
            vec![
                new_entry(3, 3),
                new_entry(4, 4),
                new_entry(5, 5),
                new_entry(6, 5),
            ],
            Some(vec![
                new_entry(3, 3),
                new_entry(4, 4),
                new_entry(5, 5),
                new_entry(6, 5),
            ]),
        ),
        // overwrite compacted raft logs is not allowed
        (
            vec![new_entry(2, 3), new_entry(3, 3), new_entry(4, 5)],
            None,
        ),
        // truncate the existing entries and append
        (
            vec![new_entry(4, 5)],
            Some(vec![new_entry(3, 3), new_entry(4, 5)]),
        ),
        // direct append
        (
            vec![new_entry(6, 6)],
            Some(vec![
                new_entry(3, 3),
                new_entry(4, 4),
                new_entry(5, 5),
                new_entry(6, 6),
            ]),
        ),
    ];
    for (i, (entries, wentries)) in tests.drain(..).enumerate() {
        let mut storage = temp_store_with_entries(&ents);
        let res = storage.wl().append(&entries);
        if let Some(wentries) = wentries {
            let _ = res.unwrap();
            let e = &storage
                .entries(3, 3 + wentries.len() as u64, Some(100000))
                .unwrap();
            if *e != wentries {
                panic!("#{}: want {:?}, entries {:?}", i, wentries, e);
            }
        } else {
            res.unwrap_err();
        }
    }
}
