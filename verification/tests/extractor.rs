use pwned_bot::extractor::extract_email;

#[test]
fn can_parse_valid_email_from_command() {
    assert_eq!(
        "example@test.com",
        extract_email(r"\pwned? example@test.com").expect("Failed to extract valid email")
    );
}

#[test]
fn extracts_from_command_text() {
    assert_eq!(
        "example@test.com",
        extract_email("/pwned? example@test.com").expect("address expected")
    );
}

#[test]
fn empty_text_has_no_address() {
    assert_eq!(
        extract_email(""),
        Err("Input contains no valid email address")
    );
}

#[test]
fn plain_text_has_no_address() {
    assert_eq!(
        extract_email("no address here"),
        Err("Input contains no valid email address")
    );
}

#[test]
fn leftmost_address_wins() {
    assert_eq!(
        "a@b.com",
        extract_email("a@b.com c@d.com").expect("address expected")
    );
}

#[test]
fn extraction_is_idempotent() {
    let text = "write to someone@example.org today";
    assert_eq!(extract_email(text), extract_email(text));
    let no_match = "nothing of note";
    assert_eq!(extract_email(no_match), extract_email(no_match));
}

#[test]
fn match_is_a_literal_substring() {
    let text = "send to alice@example.org now";
    let found = extract_email(text).expect("address expected");
    assert_eq!("alice@example.org", found);
    assert!(text.contains(&found));
}

#[test]
fn domain_needs_two_labels() {
    assert_eq!(
        extract_email("user@localhost"),
        Err("Input contains no valid email address")
    );
}

#[test]
fn upper_case_is_not_matched() {
    assert_eq!(
        extract_email("ME@X.COM"),
        Err("Input contains no valid email address")
    );
}

#[test]
fn bracketed_address_literal() {
    assert_eq!(
        "x@[127.0.0.1]",
        extract_email("ping x@[127.0.0.1] please").expect("address expected")
    );
}

#[test]
fn quoted_local_part() {
    assert_eq!(
        "\"ab\"@x.co",
        extract_email("see \"ab\"@x.co there").expect("address expected")
    );
}

#[test]
fn quoted_local_part_with_escape() {
    assert_eq!(
        "\"a\\\"b\"@x.co",
        extract_email("see \"a\\\"b\"@x.co there").expect("address expected")
    );
}

#[test]
fn largest_quad_component() {
    assert_eq!(
        "x@[1.2.3.255]",
        extract_email("x@[1.2.3.255]").expect("address expected")
    );
}

#[test]
fn trailing_dot_stays_out() {
    assert_eq!("a@b.c", extract_email("a@b.c.").expect("address expected"));
}

#[test]
fn three_digit_component_over_255_is_no_quad() {
    assert_eq!(
        extract_email("x@[256.1.1.1]"),
        Err("Input contains no valid email address")
    );
}

#[test]
fn general_literal_with_colon() {
    assert_eq!(
        "x@[1.2.3.v6:abc]",
        extract_email("x@[1.2.3.v6:abc]").expect("address expected")
    );
}
