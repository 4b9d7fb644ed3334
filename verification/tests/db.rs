use wololo::db::{Db, DbError};

#[test]
fn lookup_finds_the_device_of_a_listed_user() {
    let content = "U1 00:01:02:03:04:05\nU2 aa:bb:cc:dd:ee:ff 10.0.0.2:22\n";
    let db = Db::try_new(content).unwrap();

    let id1 = String::from("U1");
    let d1 = db.get_device_by_slack_user_id(&id1).unwrap();
    assert_eq!(d1.mac.as_bytes(), [0x00, 0x01, 0x02, 0x03, 0x04, 0x05]);
    assert!(d1.tcp_check_addr.is_none());

    let id2 = String::from("U2");
    let d2 = db.get_device_by_slack_user_id(&id2).unwrap();
    assert_eq!(d2.mac.to_string(), "aa:bb:cc:dd:ee:ff");
    assert_eq!(d2.tcp_check_addr.as_deref(), Some("10.0.0.2:22"));
}

#[test]
fn lookup_of_an_unlisted_user_finds_nothing() {
    let db = Db::try_new("U1 00:01:02:03:04:05\n").unwrap();
    let unknown = String::from("U9");
    assert!(db.get_device_by_slack_user_id(&unknown).is_none());
}

#[test]
fn empty_content_is_an_empty_database() {
    let db = Db::try_new("").unwrap();
    let id = String::from("U1");
    assert!(db.get_device_by_slack_user_id(&id).is_none());
}

#[test]
fn malformed_content_is_refused_whole() {
    assert_eq!(Db::try_new("U1\n").err(), Some(DbError::DeserializeError));
    assert_eq!(
        Db::try_new("U1 zz:01:02:03:04:05\n").err(),
        Some(DbError::DeserializeError)
    );
    assert_eq!(
        Db::try_new("U1 00:01:02:03:04:05 a b\n").err(),
        Some(DbError::DeserializeError)
    );
    assert_eq!(
        Db::try_new("U1 00:01:02:03:04:05").err(),
        Some(DbError::DeserializeError)
    );
}

#[test]
fn duplicate_users_are_refused() {
    let content = "U1 00:01:02:03:04:05\nU1 aa:bb:cc:dd:ee:ff\n";
    assert_eq!(Db::try_new(content).err(), Some(DbError::DeserializeError));
}

#[test]
fn shared_database_serves_lookups() {
    let db = Db::try_new_shared("U1 00:01:02:03:04:05\n").unwrap();
    let id = String::from("U1");
    assert!(db.get_device_by_slack_user_id(&id).is_some());
}
