use pwned_bot::digits::usize_to_dec;
use pwned_bot::lookup::breach_lookup_url;
use pwned_bot::lookup::count_breaches;

#[test]
fn url_embeds_the_address() {
    assert_eq!(
        breach_lookup_url("a@b.cd"),
        "https://haveibeenpwned.com/api/v2/breachedaccount/a@b.cd?truncateResponse=true"
    );
}

#[test]
fn empty_body_counts_zero() {
    assert_eq!(count_breaches(""), 0);
}

#[test]
fn one_object_counts_one() {
    assert_eq!(count_breaches("{}"), 1);
}

#[test]
fn each_record_object_is_counted() {
    assert_eq!(count_breaches("[{\"Name\":\"x\"},{\"Name\":\"y\"}]"), 2);
}

#[test]
fn zero_spells_zero() {
    assert_eq!(usize_to_dec(0), "0");
}

#[test]
fn multi_digit_counts_spell_out() {
    assert_eq!(usize_to_dec(42), "42");
    assert_eq!(usize_to_dec(1234567890), "1234567890");
}
