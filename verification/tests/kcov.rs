use diffuzzer::fuzzing::greybox::feedback::kcov::parse_addr;

#[test]
fn kcov_test_parse_addr() {
    assert_eq!(
        18446744071583434514,
        parse_addr("0xffffffff81460712").unwrap()
    );
}

#[test]
fn test_parse_addr() {
    assert_eq!(
        18446744071583434514,
        parse_addr("0xffffffff81460712").unwrap()
    );
}
