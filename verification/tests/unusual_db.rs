//! The key/value store: inserts, lookups and the reserved `version` key.

use protohackers::kvstore::Db;
use protohackers::kvstore::do_it;

#[test]
fn retrieve() {
    {
        let mut db = Db::new();

        // insert a value
        let buffer = b"foo=bar";
        assert!(do_it(buffer, &mut db).is_none());

        let buffer = b"foo";
        let result = do_it(buffer, &mut db);
        assert_eq!(result, Some(b"foo=bar".to_vec()));

        let buffer = b"version";
        let result = do_it(buffer, &mut db);
        assert_eq!(result, Some(b"version=1.0.0".to_vec()));
    }
    {
        let mut db = Db::new();

        // search for a non-existing value
        let buffer = b"aaa";
        let result = do_it(buffer, &mut db);
        assert_eq!(result, Some(b"aaa=".to_vec()));
    }
}

#[test]
fn insert() {
    {
        let mut db = Db::new();
        let buffer = b"foo=bar";
        assert!(do_it(buffer, &mut db).is_none());
        assert_eq!(db.get(b"foo"), Some(b"bar".to_vec()));
    }
    {
        let mut db = Db::new();
        let buffer = b"foo=bar=f";
        assert!(do_it(buffer, &mut db).is_none());
        assert_eq!(db.get(b"foo"), Some(b"bar=f".to_vec()));
    }
    {
        let mut db = Db::new();
        let buffer = b"foo===";
        assert!(do_it(buffer, &mut db).is_none());
        assert_eq!(db.get(b"foo"), Some(b"==".to_vec()));
    }
    {
        let mut db = Db::new();
        let buffer = b"foo=";
        assert!(do_it(buffer, &mut db).is_none());
        assert_eq!(db.get(b"foo"), Some(b"".to_vec()));
    }
    {
        let mut db = Db::new();
        let buffer = b"=bar";
        assert!(do_it(buffer, &mut db).is_none());
        assert_eq!(db.get(b""), Some(b"bar".to_vec()));
    }
    {
        let mut db = Db::new();
        let buffer = b"version=111";
        assert!(do_it(buffer, &mut db).is_none());
        assert_eq!(db.get(b"version"), None); // never store version
    }
}

#[test]
fn update() {
    let mut db = Db::new();
    let buffer = b"foo=bar";
    assert!(do_it(buffer, &mut db).is_none());
    assert_eq!(db.get(b"foo"), Some(b"bar".to_vec()));

    let buffer = b"foo=bar2";
    assert!(do_it(buffer, &mut db).is_none());
    assert_eq!(db.get(b"foo"), Some(b"bar2".to_vec()));
}
