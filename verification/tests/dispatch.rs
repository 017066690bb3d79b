use pwned_bot::dispatch::dispatch;
use pwned_bot::dispatch::lookup_reply;
use pwned_bot::dispatch::plan_message;
use pwned_bot::dispatch::success_reply;
use pwned_bot::dispatch::Plan;

#[test]
fn non_command_draws_no_reply() {
    assert_eq!(dispatch("hello there", Ok(0)), None);
}

#[test]
fn non_command_is_ignored_by_planning() {
    match plan_message("what is /pwned?") {
        Plan::Ignore => {}
        _ => panic!("expected the text to be ignored"),
    }
}

#[test]
fn command_without_address_draws_the_fixed_error() {
    assert_eq!(
        dispatch("/pwned no address here", Ok(7)),
        Some(String::from("Input contains no valid email address"))
    );
}

#[test]
fn command_with_address_plans_a_lookup() {
    match plan_message("/pwned? example@test.com") {
        Plan::Lookup(e) => assert_eq!(e, "example@test.com"),
        _ => panic!("expected a lookup plan"),
    }
}

#[test]
fn successful_lookup_is_formatted() {
    assert_eq!(
        dispatch("/pwned? example@test.com", Ok(3)),
        Some(String::from(
            "The email example@test.com has been breached 3 times!\nVisit https://haveibeenpwned.com for more information."
        ))
    );
}

#[test]
fn success_reply_contains_address_and_count() {
    let reply = success_reply("someone@example.org", 12);
    assert!(reply.contains("someone@example.org"));
    assert!(reply.contains("12"));
}

#[test]
fn zero_breaches_is_a_valid_result() {
    assert_eq!(
        lookup_reply("a@b.cd", Ok(0)),
        "The email a@b.cd has been breached 0 times!\nVisit https://haveibeenpwned.com for more information."
    );
}

#[test]
fn failed_lookup_is_surfaced_verbatim() {
    assert_eq!(
        dispatch(
            "/pwned? example@test.com",
            Err(String::from("the lookup failed"))
        ),
        Some(String::from("the lookup failed"))
    );
}

#[test]
fn dispatch_is_stateless_across_messages() {
    let first = dispatch("/pwned? example@test.com", Ok(2));
    let second = dispatch("/pwned? example@test.com", Ok(2));
    assert_eq!(first, second);
}

#[test]
fn command_prefix_is_case_sensitive() {
    assert_eq!(dispatch("/Pwned example@test.com", Ok(1)), None);
}
