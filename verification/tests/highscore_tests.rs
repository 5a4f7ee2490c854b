use snek::highscore::{parse_decimal_u32, to_decimal, HighscoreError, HighscoreService, StoreRead};

#[test]
fn absent_store_reads_as_zero() {
    let mut service = HighscoreService::start();
    assert_eq!(service.get_highscore(&StoreRead::Missing), Ok(0));
}

#[test]
fn register_then_get_round_trip() {
    let mut service = HighscoreService::start();
    assert_eq!(service.get_highscore(&StoreRead::Missing), Ok(0));
    assert_eq!(service.register_score(5, &StoreRead::Missing), Ok(Some(5)));
    assert_eq!(service.get_highscore(&StoreRead::Missing), Ok(5));
    assert_eq!(service.register_score(3, &StoreRead::Missing), Ok(None));
    assert_eq!(service.get_highscore(&StoreRead::Missing), Ok(5));
}

#[test]
fn persisted_bytes_read_back_across_sessions() {
    let bytes = to_decimal(12345);
    let mut next_session = HighscoreService::start();
    assert_eq!(next_session.get_highscore(&StoreRead::Content(bytes)), Ok(12345));
}

#[test]
fn stored_content_wins_only_until_cached() {
    let mut service = HighscoreService::start();
    assert_eq!(service.get_highscore(&StoreRead::Content(b"7".to_vec())), Ok(7));
    // the cache now answers, whatever a later read would say
    assert_eq!(service.get_highscore(&StoreRead::Content(b"99".to_vec())), Ok(7));
    assert_eq!(service.get_highscore(&StoreRead::Missing), Ok(7));
}

#[test]
fn unreadable_store_is_an_io_error() {
    let mut service = HighscoreService::start();
    assert_eq!(
        service.get_highscore(&StoreRead::Unreadable),
        Err(HighscoreError::IoError)
    );
    assert_eq!(
        service.register_score(4, &StoreRead::Unreadable),
        Err(HighscoreError::IoError)
    );
}

#[test]
fn malformed_content_is_a_format_error() {
    let mut service = HighscoreService::start();
    assert_eq!(
        service.get_highscore(&StoreRead::Content(b"12a".to_vec())),
        Err(HighscoreError::FormatError)
    );
    assert_eq!(
        service.get_highscore(&StoreRead::Content(b"".to_vec())),
        Err(HighscoreError::FormatError)
    );
    assert_eq!(
        service.get_highscore(&StoreRead::Content(b"-3".to_vec())),
        Err(HighscoreError::FormatError)
    );
    assert_eq!(
        service.get_highscore(&StoreRead::Content(b"99999999999".to_vec())),
        Err(HighscoreError::FormatError)
    );
}

#[test]
fn is_new_highscore_is_strict() {
    let mut service = HighscoreService::start();
    assert_eq!(service.register_score(5, &StoreRead::Missing), Ok(Some(5)));
    assert_eq!(service.is_new_highscore(6, &StoreRead::Missing), Ok(true));
    assert_eq!(service.is_new_highscore(5, &StoreRead::Missing), Ok(false));
    assert_eq!(service.is_new_highscore(4, &StoreRead::Missing), Ok(false));
}

#[test]
fn parse_accepts_exactly_fitting_decimals() {
    assert_eq!(parse_decimal_u32(&b"0".to_vec()), Some(0));
    assert_eq!(parse_decimal_u32(&b"120".to_vec()), Some(120));
    assert_eq!(parse_decimal_u32(&b"007".to_vec()), Some(7));
    assert_eq!(parse_decimal_u32(&b"4294967295".to_vec()), Some(u32::MAX));
    assert_eq!(parse_decimal_u32(&b"4294967296".to_vec()), None);
    assert_eq!(parse_decimal_u32(&b" 1".to_vec()), None);
    assert_eq!(parse_decimal_u32(&b"+1".to_vec()), None);
}

#[test]
fn to_decimal_writes_plain_digits() {
    assert_eq!(to_decimal(0), b"0".to_vec());
    assert_eq!(to_decimal(9), b"9".to_vec());
    assert_eq!(to_decimal(120), b"120".to_vec());
    assert_eq!(to_decimal(u32::MAX), b"4294967295".to_vec());
}
