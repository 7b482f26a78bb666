use coop_executor::pinned::Test;

#[test]
fn back_reference_reaches_own_field() {
    let mut record = Test::new("test1");
    assert_eq!(record.a(), "test1");
    record.init();
    // after initialization, b reaches the same text a holds
    assert_eq!(record.a(), "test1");
    assert_eq!(record.b(), "test1");
}

#[test]
fn two_records_keep_their_own_text() {
    let mut first = Test::new("test1");
    let mut second = Test::new("test2");
    first.init();
    second.init();
    assert_eq!((first.a(), first.b()), ("test1", "test1"));
    assert_eq!((second.a(), second.b()), ("test2", "test2"));
}
