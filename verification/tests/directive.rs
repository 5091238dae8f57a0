use rust_sm_slim::{Directive, DirectiveError};

fn ok(delay_ms: u64, response_bytes: u32) -> Result<Directive, DirectiveError> {
    Ok(Directive { delay_ms, response_bytes })
}

#[test]
fn scenario_small_numbers() {
    assert_eq!(Directive::from_bytes(b"9,13"), ok(9, 13));
}

#[test]
fn scenario_large_numbers() {
    assert_eq!(Directive::from_bytes(b"982411011,1300001"), ok(982411011, 1300001));
}

#[test]
fn scenario_zeros() {
    assert_eq!(Directive::from_bytes(b"0,0"), ok(0, 0));
}

#[test]
fn scenario_absent() {
    assert_eq!(Directive::from_value(None), Err(DirectiveError::MissingHeader));
}

#[test]
fn scenario_empty_left_group() {
    assert_eq!(Directive::from_bytes(b",877"), Err(DirectiveError::IncompleteDirective));
}

#[test]
fn scenario_empty_right_group() {
    assert_eq!(Directive::from_bytes(b"934,"), Err(DirectiveError::IncompleteDirective));
}

#[test]
fn scenario_only_comma() {
    assert_eq!(Directive::from_bytes(b","), Err(DirectiveError::IncompleteDirective));
}

#[test]
fn scenario_bad_char() {
    assert_eq!(Directive::from_bytes(b"a,99"), Err(DirectiveError::InvalidCharacter('a')));
}

#[test]
fn scenario_two_commas() {
    assert_eq!(Directive::from_bytes(b"22,99,333"), Err(DirectiveError::MultipleSeparators));
}

#[test]
fn absent_differs_from_empty() {
    assert_eq!(Directive::from_value(None), Err(DirectiveError::MissingHeader));
    assert_eq!(Directive::from_value(Some(b"")), Err(DirectiveError::IncompleteDirective));
    assert_ne!(Directive::from_value(None), Directive::from_value(Some(b"")));
}

#[test]
fn present_value_is_decoded() {
    assert_eq!(Directive::from_value(Some(b"45322,152355")), ok(45322, 152355));
    assert_eq!(
        Directive::from_value(Some(b"4 5")),
        Err(DirectiveError::InvalidCharacter(' '))
    );
}

#[test]
fn no_comma_is_incomplete() {
    assert_eq!(Directive::from_bytes(b""), Err(DirectiveError::IncompleteDirective));
    assert_eq!(Directive::from_bytes(b"7"), Err(DirectiveError::IncompleteDirective));
    assert_eq!(Directive::from_bytes(b"0123456789"), Err(DirectiveError::IncompleteDirective));
}

#[test]
fn no_comma_with_foreign_byte_reports_the_byte() {
    assert_eq!(Directive::from_bytes(b"12x4"), Err(DirectiveError::InvalidCharacter('x')));
    assert_eq!(Directive::from_bytes(b"-1"), Err(DirectiveError::InvalidCharacter('-')));
}

#[test]
fn adjacent_commas_are_multiple_separators() {
    assert_eq!(Directive::from_bytes(b",,"), Err(DirectiveError::MultipleSeparators));
    assert_eq!(Directive::from_bytes(b"1,,2"), Err(DirectiveError::MultipleSeparators));
    assert_eq!(Directive::from_bytes(b"1,2,"), Err(DirectiveError::MultipleSeparators));
}

#[test]
fn first_fault_in_scan_order_wins() {
    assert_eq!(Directive::from_bytes(b"a,,"), Err(DirectiveError::InvalidCharacter('a')));
    assert_eq!(Directive::from_bytes(b",,a"), Err(DirectiveError::MultipleSeparators));
    assert_eq!(Directive::from_bytes(b"1,b,2"), Err(DirectiveError::InvalidCharacter('b')));
    assert_eq!(Directive::from_bytes(b"xy"), Err(DirectiveError::InvalidCharacter('x')));
}

#[test]
fn bytes_next_to_the_digits_are_foreign() {
    assert_eq!(Directive::from_bytes(b"/,1"), Err(DirectiveError::InvalidCharacter('/')));
    assert_eq!(Directive::from_bytes(b":,1"), Err(DirectiveError::InvalidCharacter(':')));
    assert_eq!(Directive::from_bytes(b"+,1"), Err(DirectiveError::InvalidCharacter('+')));
    assert_eq!(Directive::from_bytes(b"-,1"), Err(DirectiveError::InvalidCharacter('-')));
}

#[test]
fn whitespace_and_signs_are_foreign() {
    assert_eq!(Directive::from_bytes(b" 9,13"), Err(DirectiveError::InvalidCharacter(' ')));
    assert_eq!(Directive::from_bytes(b"9,13\n"), Err(DirectiveError::InvalidCharacter('\n')));
    assert_eq!(Directive::from_bytes(b"+9,13"), Err(DirectiveError::InvalidCharacter('+')));
    assert_eq!(Directive::from_bytes(b"9,-13"), Err(DirectiveError::InvalidCharacter('-')));
}

#[test]
fn bytes_that_are_not_ascii_are_foreign() {
    assert_eq!(
        Directive::from_bytes(&[0xff, b',', b'1']),
        Err(DirectiveError::InvalidCharacter('\u{ff}'))
    );
    assert_eq!(
        Directive::from_bytes(&[b'1', b',', 0x80]),
        Err(DirectiveError::InvalidCharacter('\u{80}'))
    );
    assert_eq!(
        Directive::from_bytes(&[0x00]),
        Err(DirectiveError::InvalidCharacter('\0'))
    );
}

#[test]
fn leading_zeros_are_numerically_valid() {
    assert_eq!(Directive::from_bytes(b"007,0010"), ok(7, 10));
    assert_eq!(Directive::from_bytes(b"00,000"), ok(0, 0));
    assert_eq!(
        Directive::from_bytes(b"000000000000000000000000000001,0000000000000002"),
        ok(1, 2)
    );
}

#[test]
fn every_digit_is_folded_in_order() {
    assert_eq!(Directive::from_bytes(b"1234567890,987654321"), ok(1234567890, 987654321));
    assert_eq!(Directive::from_bytes(b"10,01"), ok(10, 1));
}

#[test]
fn largest_values_that_fit() {
    assert_eq!(
        Directive::from_bytes(b"18446744073709551615,4294967295"),
        ok(u64::MAX, u32::MAX)
    );
    assert_eq!(
        Directive::from_bytes(b"18446744073709551614,4294967294"),
        ok(u64::MAX - 1, u32::MAX - 1)
    );
    assert_eq!(Directive::from_bytes(b"4294967296,1"), ok(4294967296, 1));
}

#[test]
fn values_that_do_not_fit_saturate() {
    assert_eq!(
        Directive::from_bytes(b"18446744073709551616,4294967296"),
        ok(u64::MAX, u32::MAX)
    );
    assert_eq!(
        Directive::from_bytes(b"99999999999999999999999999999999,1"),
        ok(u64::MAX, 1)
    );
    assert_eq!(Directive::from_bytes(b"1,99999999999999999999"), ok(1, u32::MAX));
    assert_eq!(Directive::from_bytes(b"1,42949672950"), ok(1, u32::MAX));
}

#[test]
fn a_fault_after_saturation_is_still_reported() {
    assert_eq!(
        Directive::from_bytes(b"99999999999999999999999999999999,1x"),
        Err(DirectiveError::InvalidCharacter('x'))
    );
    assert_eq!(
        Directive::from_bytes(b"99999999999999999999999999999999"),
        Err(DirectiveError::IncompleteDirective)
    );
}

#[test]
fn parsing_twice_gives_equal_results() {
    let inputs: [&[u8]; 6] = [b"9,13", b"a,99", b",", b"22,99,333", b"", b"18446744073709551616,0"];
    for input in inputs {
        assert_eq!(Directive::from_bytes(input), Directive::from_bytes(input));
        assert_eq!(Directive::from_value(Some(input)), Directive::from_value(Some(input)));
    }
    assert_eq!(Directive::from_value(None), Directive::from_value(None));
}

#[test]
fn messages() {
    assert_eq!(
        DirectiveError::MissingHeader.message(),
        "Custom Attributes header not present"
    );
    assert_eq!(DirectiveError::MultipleSeparators.message(), "Comma already found");
    assert_eq!(
        DirectiveError::InvalidCharacter('a').message(),
        "Invalid char found: 'a'"
    );
    assert_eq!(
        DirectiveError::InvalidCharacter('\'').message(),
        "Invalid char found: '''"
    );
    assert_eq!(
        DirectiveError::InvalidCharacter('\u{e9}').message(),
        "Invalid char found: '\u{e9}'"
    );
    assert_eq!(
        DirectiveError::IncompleteDirective.message(),
        "Must specify both response size and sleep time separated by a comma"
    );
}
