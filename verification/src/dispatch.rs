//! One message's dispatch: command recognition, address extraction, and the
//! reply text for every outcome of the breach lookup.
use crate::digits::dec_str;
use crate::digits::usize_to_dec;
use crate::extractor::extract_email;
use crate::extractor::extract_spec;
use crate::extractor::no_address_message;
use vstd::prelude::*;
use vstd::string::StrSliceExecFns;
use vstd::string::StringExecFns;

verus! {

/// The command token that activates the pipeline.
pub open spec fn command_token() -> Seq<char> {
    "/pwned"@
}

/// The message text begins with the command token.
pub open spec fn is_command(s: Seq<char>) -> bool {
    s.len() >= command_token().len() && s.subrange(0, command_token().len() as int)
        == command_token()
}

fn exec_is_command(text: &str) -> (r: bool)
    ensures
        r == is_command(text@),
{
    proof {
        reveal_strlit("/pwned");
    }
    let n = text.unicode_len();
    if n < 6 {
        return false;
    }
    let r = text.get_char(0) == '/' && text.get_char(1) == 'p' && text.get_char(2) == 'w'
        && text.get_char(3) == 'n' && text.get_char(4) == 'e' && text.get_char(5) == 'd';
    proof {
        if r {
            assert(text@.subrange(0, 6) =~= command_token());
        } else {
            if is_command(text@) {
                assert(text@.subrange(0, 6) == command_token());
                assert(forall|k: int| 0 <= k < 6 ==> text@.subrange(0, 6)[k] == text@[k]);
                assert(text@[0] == '/' && text@[1] == 'p' && text@[2] == 'w' && text@[3] == 'n'
                    && text@[4] == 'e' && text@[5] == 'd');
                assert(false);
            }
        }
    }
    r
}

/// What the dispatcher decides to do with one inbound text.
pub enum Plan {
    /// Not a command: no action, no reply.
    Ignore,
    /// Reply at once with this text (no address was found).
    Reply(String),
    /// Look this address up, then reply per the outcome.
    Lookup(String),
}

/// Decide one inbound text: ignore a non-command; answer a command without
/// an address with the fixed not-found text; hand a command with an address
/// on to the lookup.
pub fn plan_message(text: &str) -> (p: Plan)
    ensures
        !is_command(text@) ==> p is Ignore,
        is_command(text@) && extract_spec(text@) is None ==> (p matches Plan::Reply(t) && t@
            == no_address_message()),
        is_command(text@) && extract_spec(text@) is Some ==> (p matches Plan::Lookup(e) && Some(e@)
            == extract_spec(text@)),
{
    if !exec_is_command(text) {
        return Plan::Ignore;
    }
    match extract_email(text) {
        Ok(e) => Plan::Lookup(e),
        Err(m) => Plan::Reply(String::from_str(m)),
    }
}

/// The reply text for a successful lookup of `e` that counted `n` records.
pub open spec fn success_reply_spec(e: Seq<char>, n: nat) -> Seq<char> {
    "The email "@ + e + " has been breached "@ + dec_str(n)
        + " times!\nVisit https://haveibeenpwned.com for more information."@
}

/// Build the success reply for `email` and `count`.
pub fn success_reply(email: &str, count: usize) -> (r: String)
    ensures
        r@ == success_reply_spec(email@, count as nat),
{
    let mut s = String::from_str("The email ");
    s.append(email);
    s.append(" has been breached ");
    let d = usize_to_dec(count);
    s.append(d.as_str());
    s.append(" times!\nVisit https://haveibeenpwned.com for more information.");
    proof {
        assert(s@ =~= success_reply_spec(email@, count as nat));
    }
    s
}

/// A successful reply carries the looked-up address, and the decimal
/// spelling of the count, verbatim as literal pieces of the reply text.
pub proof fn lemma_success_reply_contains(e: Seq<char>, n: nat)
    ensures
        exists|i: int, j: int|
            0 <= i <= j <= success_reply_spec(e, n).len() && #[trigger] success_reply_spec(
                e,
                n,
            ).subrange(i, j) == e,
        exists|i: int, j: int|
            0 <= i <= j <= success_reply_spec(e, n).len() && #[trigger] success_reply_spec(
                e,
                n,
            ).subrange(i, j) == dec_str(n),
{
    let r = success_reply_spec(e, n);
    let a = "The email "@.len() as int;
    let b = a + e.len() + " has been breached "@.len();
    assert(r.subrange(a, a + e.len()) =~= e);
    assert(r.subrange(b, b + dec_str(n).len()) =~= dec_str(n));
}

/// The reply for a lookup outcome: the formatted success text for a count,
/// the failure's own description verbatim otherwise.
pub fn lookup_reply(email: &str, outcome: Result<usize, String>) -> (r: String)
    ensures
        outcome matches Ok(c) ==> r@ == success_reply_spec(email@, c as nat),
        outcome matches Err(d) ==> r@ == d@,
{
    match outcome {
        Ok(c) => success_reply(email, c),
        Err(d) => d,
    }
}

/// One whole dispatch, with the lookup's outcome handed in: what the
/// dispatcher replies — or does not — to one inbound text, when the breach
/// lookup on the extracted address would end in `lookup`. A non-command
/// draws no reply; a command always draws exactly one.
pub fn dispatch(text: &str, lookup: Result<usize, String>) -> (r: Option<String>)
    ensures
        !is_command(text@) ==> r is None,
        is_command(text@) ==> r is Some,
        is_command(text@) && extract_spec(text@) is None ==> (r matches Some(t) && t@
            == no_address_message()),
        is_command(text@) && extract_spec(text@) is Some ==> (lookup matches Ok(c) ==> (r
            matches Some(t) && t@ == success_reply_spec(extract_spec(text@).unwrap(), c as nat))),
        is_command(text@) && extract_spec(text@) is Some ==> (lookup matches Err(d) ==> (r
            matches Some(t) && t@ == d@)),
{
    match plan_message(text) {
        Plan::Ignore => None,
        Plan::Reply(t) => Some(t),
        Plan::Lookup(e) => Some(lookup_reply(e.as_str(), lookup)),
    }
}

} // verus!
