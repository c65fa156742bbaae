use rethink_driver::id::RDbId;
use std::num::ParseIntError;

fn err(r: Result<RDbId, ParseIntError>) -> ParseIntError {
    match r {
        Err(e) => e,
        Ok(id) => panic!("unexpected id {}", id.to_string()),
    }
}

#[test]
fn test_rdbid() {
    let id = RDbId::from_str("1065a246-64d2-4dea-a191-506f653732ac").unwrap();
    assert_eq!(id.0, 0x1065a24664d24deaa191506f653732ac);
    assert_eq!(&id.to_string(), "1065a246-64d2-4dea-a191-506f653732ac");
}

#[test]
fn rdbid_rejects_malformed_text() {
    // the errors are those of std's integer parsing: the empty text's for a
    // text of the wrong length, a field's own otherwise
    let empty = "".parse::<u128>().unwrap_err();
    assert_eq!(err(RDbId::from_str("")), empty);
    assert_eq!(err(RDbId::from_str("1065a246-64d2-4dea-a191-506f653732a")), empty);
    assert_eq!(err(RDbId::from_str("1065a246-64d2-4dea-a191-506f653732ac0")), empty);
    assert_eq!(
        err(RDbId::from_str("1065a246-64d2-4dea-a191-506f653732ax")),
        u128::from_str_radix("506f653732ax", 16).unwrap_err()
    );
    assert_eq!(
        err(RDbId::from_str("1065a246-64d2-4dea-a191-506f653732ax")).kind(),
        &std::num::IntErrorKind::InvalidDigit
    );
    assert_eq!(err(RDbId::from_str("")).kind(), &std::num::IntErrorKind::Empty);
}

#[test]
fn rdbid_reads_like_from_str_radix() {
    // separators are not looked at, upper case digits count, a field may carry a `+`
    let a = RDbId::from_str("1065A246_64d2x4dea-a191-506f653732ac").unwrap();
    assert_eq!(a.0, 0x1065a24664d24deaa191506f653732ac);
    let b = RDbId::from_str("+065a246-64d2-4dea-a191-506f653732ac").unwrap();
    assert_eq!(b.0, 0x065a24664d24deaa191506f653732ac);
}

#[test]
fn rdbid_text_is_padded_lower_case() {
    assert_eq!(RDbId(0).to_string(), "00000000-0000-0000-0000-000000000000");
    assert_eq!(RDbId(u128::MAX).to_string(), "ffffffff-ffff-ffff-ffff-ffffffffffff");
    for v in [1u128, 0xdeadbeef, u128::MAX - 12345, 0x0123456789abcdef0123456789abcdef] {
        let id = RDbId(v);
        assert_eq!(RDbId::from_str(&id.to_string()).unwrap().0, v);
    }
}
