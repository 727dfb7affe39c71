use snapshot_codec::cmd::{Del, Discard, Exec, Incr, Multi};

#[test]
fn del_carries_its_key() {
    let cmd = Del::new("session".to_string());
    assert_eq!(cmd.key(), "session");
}

#[test]
fn incr_carries_its_key() {
    let cmd = Incr::new("counter".to_string());
    assert_eq!(cmd.key(), "counter");
}

#[test]
fn transaction_commands_construct() {
    let _ = Multi::new();
    let _ = Exec::new();
    let _ = Discard::new();
    let _ = Multi::default();
    let _ = Exec::default();
    let _ = Discard::default();
}
