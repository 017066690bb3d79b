//! The compute half of the breach lookup: the query URL for an address, and
//! the record count read off a response body.
use vstd::prelude::*;
use vstd::string::StrSliceExecFns;
use vstd::string::StringExecFns;

verus! {

/// The query URL for one address: fixed prefix, the address, fixed suffix.
pub open spec fn lookup_url_spec(e: Seq<char>) -> Seq<char> {
    "https://haveibeenpwned.com/api/v2/breachedaccount/"@ + e + "?truncateResponse=true"@
}

/// Build the query URL for `email`.
pub fn breach_lookup_url(email: &str) -> (r: String)
    ensures
        r@ == lookup_url_spec(email@),
{
    let mut s = String::from_str("https://haveibeenpwned.com/api/v2/breachedaccount/");
    s.append(email);
    s.append("?truncateResponse=true");
    proof {
        assert(s@ =~= lookup_url_spec(email@));
    }
    s
}

/// The number of opening braces in `s`. A response body lists one object
/// per breach record, so its brace count stands for the record count; the
/// count is read off the raw text, not off parsed structure, and leans on
/// the response format staying one object per record.
pub open spec fn brace_count(s: Seq<char>) -> nat
    decreases s.len(),
{
    if s.len() == 0 {
        0
    } else {
        brace_count(s.drop_last()) + if s.last() == '{' {
            1nat
        } else {
            0nat
        }
    }
}

/// Count the breach records in a response body: its opening braces.
pub fn count_breaches(body: &str) -> (n: usize)
    ensures
        n as nat == brace_count(body@),
{
    let len = body.unicode_len();
    let mut i: usize = 0;
    let mut count: usize = 0;
    proof {
        assert(body@.subrange(0, 0) =~= Seq::<char>::empty());
    }
    loop
        invariant
            body@.len() == len as nat,
            i <= len,
            count <= i,
            count as nat == brace_count(body@.subrange(0, i as int)),
        ensures
            i == len,
            count as nat == brace_count(body@.subrange(0, i as int)),
        decreases len - i,
    {
        if i >= len {
            break ;
        }
        let c = body.get_char(i);
        proof {
            assert(body@.subrange(0, i as int + 1).drop_last() =~= body@.subrange(0, i as int));
            assert(body@.subrange(0, i as int + 1).last() == body@[i as int]);
        }
        if c == '{' {
            count = count + 1;
        }
        i = i + 1;
    }
    proof {
        assert(body@.subrange(0, len as int) =~= body@);
    }
    count
}

} // verus!
