use bones::ids::Uuid;

#[test]
fn random_identifiers_are_version_four() {
    for _ in 0..100 {
        let id = Uuid::new_v4();
        let outside = uuid::Uuid::from_u128(id.0);
        assert_eq!(outside.get_version_num(), 4);
        assert_eq!(outside.get_variant(), uuid::Variant::RFC4122);
        assert_ne!(id, Uuid::nil());
    }
    assert_ne!(Uuid::new_v4(), Uuid::new_v4());
}

#[test]
fn identifiers_are_written_with_hyphens() {
    assert_eq!(
        Uuid(0x0123_4567_89ab_cdef_0123_4567_89ab_cdef).to_text(),
        "01234567-89ab-cdef-0123-456789abcdef"
    );
    assert_eq!(
        Uuid::nil().to_text(),
        "00000000-0000-0000-0000-000000000000"
    );
    assert_eq!(
        Uuid(u128::MAX).to_text(),
        "ffffffff-ffff-ffff-ffff-ffffffffffff"
    );
}
