use fekv::kvmap::KvError;
use fekv::store::{MemStore, Storage};

#[test]
fn store_test_memstore() {
    let mut ms = MemStore::new();

    // set & get
    ms.set(String::from("foo"), b"bar".to_vec()).unwrap();
    ms.set(String::from("bar"), b"baz".to_vec()).unwrap();
    assert_eq!(ms.get(String::from("foo")).unwrap(), b"bar");
    assert_eq!(ms.get(String::from("bar")).unwrap(), b"baz");

    // get non existant key
    let e = ms.get(String::from("missing"));
    assert!(e.is_err());

    // delete
    ms.set(String::from("delete_me"), b"junk".to_vec()).unwrap();
    assert_eq!(ms.get(String::from("delete_me")).unwrap(), b"junk");
    // can delete once
    let res = ms.delete(String::from("delete_me"));
    assert_eq!(res.unwrap(), true);
    // second get should throw an error
    let e = ms.get(String::from("delete_me"));
    assert!(e.is_err());
    // second delete should also throw an error
    let e = ms.delete(String::from("delete_me"));
    assert!(e.is_err());
}

#[test]
fn memstore_test_memstore() {
    let mut ms = MemStore::new();

    // set & get
    ms.set(String::from("foo"), b"bar".to_vec()).unwrap();
    ms.set(String::from("bar"), b"baz".to_vec()).unwrap();
    assert_eq!(ms.get(String::from("foo")).unwrap(), b"bar");
    assert_eq!(ms.get(String::from("bar")).unwrap(), b"baz");

    // get non existant key
    let e = ms.get(String::from("missing"));
    assert!(e.is_err());

    // delete
    ms.set(String::from("delete_me"), b"junk".to_vec()).unwrap();
    assert_eq!(ms.get(String::from("delete_me")).unwrap(), b"junk");
    // can delete once
    let res = ms.delete(String::from("delete_me"));
    assert_eq!(res.unwrap(), true);
    // second get should throw an error
    let e = ms.get(String::from("delete_me"));
    assert!(e.is_err());
    // second delete should also throw an error
    let e = ms.delete(String::from("delete_me"));
    assert!(e.is_err());
}

#[test]
fn memstore_missing_key_errors_are_not_found() {
    let mut ms = MemStore::new();
    assert_eq!(ms.get(String::from("nothing")), Err(KvError::NotFound));
    assert_eq!(ms.delete(String::from("nothing")), Err(KvError::NotFound));
    ms.set(String::from("x"), b"y".to_vec()).unwrap();
    ms.set(String::from("x"), b"z".to_vec()).unwrap();
    assert_eq!(ms.get(String::from("x")), Ok(b"z".to_vec()));
}
