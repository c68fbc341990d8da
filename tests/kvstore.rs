use fekv::kvstore::{KVStorage, MemKVStore};

#[test]
fn test_memkvstore() {
    let mut ms = MemKVStore::new();

    // set & get
    ms.set(String::from("foo"), b"bar".to_vec()).unwrap();
    ms.set(String::from("bar"), b"baz".to_vec()).unwrap();
    assert_eq!(ms.get(String::from("foo")).unwrap(), b"bar");
    assert_eq!(ms.get(String::from("bar")).unwrap(), b"baz");

    // get non existant key
    let e = ms.get(String::from("missing"));
    assert!(e.is_err());

    // delete
    ms.set(String::from("delete_me"), b"junk".to_vec()).unwrap();
    assert_eq!(ms.get(String::from("delete_me")).unwrap(), b"junk");
    // can delete once
    let res = ms.delete(String::from("delete_me"));
    assert_eq!(res.unwrap(), true);
    // second get should throw an error
    let e = ms.get(String::from("delete_me"));
    assert!(e.is_err());
    // second delete should return false as key removed
    let res = ms.delete(String::from("delete_me"));
    assert_eq!(res.unwrap(), false);
}

#[test]
fn memkvstore_set_overwrites_value() {
    let mut ms = MemKVStore::new();
    ms.set(String::from("k"), b"one".to_vec()).unwrap();
    ms.set(String::from("k"), b"two".to_vec()).unwrap();
    assert_eq!(ms.get(String::from("k")).unwrap(), b"two");
    assert_eq!(ms.delete(String::from("k")).unwrap(), true);
    assert_eq!(ms.delete(String::from("k")).unwrap(), false);
}

#[test]
fn memkvstore_delete_keeps_other_keys() {
    let mut ms = MemKVStore::new();
    ms.set(String::from("a"), b"1".to_vec()).unwrap();
    ms.set(String::from("b"), b"2".to_vec()).unwrap();
    ms.set(String::from("c"), b"3".to_vec()).unwrap();
    assert_eq!(ms.delete(String::from("a")).unwrap(), true);
    assert!(ms.get(String::from("a")).is_err());
    assert_eq!(ms.get(String::from("b")).unwrap(), b"2");
    assert_eq!(ms.get(String::from("c")).unwrap(), b"3");
    ms.set(String::from(""), Vec::new()).unwrap();
    assert_eq!(ms.get(String::from("")).unwrap(), Vec::<u8>::new());
}
