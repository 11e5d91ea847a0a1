use arbitrage::alor::{next_instruments_offset, Alor, INSTRUMENTS_LIMIT};

#[test]
fn new_session_has_no_usable_token() {
    let session = Alor::new();
    assert_eq!(session.check_token(Some(i64::MAX), 0), None);
    let session = Alor::default();
    assert_eq!(session.check_token(Some(i64::MAX), 0), None);
}

#[test]
fn issued_token_is_used_until_it_expires() {
    let mut session = Alor::new();
    assert_eq!(session.refreshed_token(Some("abc".to_string())), Some("abc".to_string()));
    assert_eq!(session.check_token(Some(1_700_000_100), 1_700_000_000), Some("abc".to_string()));
    assert_eq!(session.check_token(Some(1_700_000_000), 1_700_000_000), None);
    assert_eq!(session.check_token(Some(1_600_000_000), 1_700_000_000), None);
    assert_eq!(session.check_token(None, 1_700_000_000), None);
}

#[test]
fn refused_refresh_keeps_the_old_token() {
    let mut session = Alor::new();
    session.refreshed_token(Some("first".to_string()));
    assert_eq!(session.refreshed_token(None), None);
    assert_eq!(session.check_token(Some(10), 5), Some("first".to_string()));
    session.refreshed_token(Some("second".to_string()));
    assert_eq!(session.check_token(Some(10), 5), Some("second".to_string()));
}

#[test]
fn instrument_pages_end_with_a_short_page() {
    assert_eq!(INSTRUMENTS_LIMIT, 100);
    assert_eq!(next_instruments_offset(0, 100), Some(100));
    assert_eq!(next_instruments_offset(300, 100), Some(400));
    assert_eq!(next_instruments_offset(300, 99), None);
    assert_eq!(next_instruments_offset(0, 0), None);
}
