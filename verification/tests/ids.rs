use orisa::types::{Id, IdError};

#[test]
fn id_is_written_with_a_hash() {
    assert_eq!(Id::new(0).to_string(), "#0");
    assert_eq!(Id::new(42).to_string(), "#42");
    assert_eq!(Id::new(1234567890).to_string(), "#1234567890");
}

#[test]
fn id_is_read_back() {
    assert_eq!(Id::parse("#0"), Ok(Id(0)));
    assert_eq!(Id::parse("#17"), Ok(Id(17)));
    assert_eq!(Id::parse("#+17"), Ok(Id(17)));
    assert_eq!(Id::parse("#007"), Ok(Id(7)));
}

#[test]
fn id_without_hash_is_refused() {
    assert_eq!(Id::parse("17"), Err(IdError::MissingMarker));
    assert_eq!(Id::parse(""), Err(IdError::MissingMarker));
}

#[test]
fn id_without_index_is_refused() {
    assert_eq!(Id::parse("#"), Err(IdError::InvalidIndex));
    assert_eq!(Id::parse("#+"), Err(IdError::InvalidIndex));
    assert_eq!(Id::parse("#1x"), Err(IdError::InvalidIndex));
    assert_eq!(Id::parse("#-1"), Err(IdError::InvalidIndex));
    assert_eq!(Id::parse("# 1"), Err(IdError::InvalidIndex));
    assert_eq!(Id::parse("#99999999999999999999999999"), Err(IdError::InvalidIndex));
}
