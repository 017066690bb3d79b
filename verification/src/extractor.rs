//! Recognition of email addresses embedded in free-form text.
//!
//! The address grammar accepts a local part (either a dot-separated run of
//! printable ASCII atoms or a quoted string with escapes), an `@`, and a
//! domain (either at least two dot-separated labels or a bracketed address
//! literal). Matching is leftmost: the first position at which the grammar
//! matches wins, and the match at that position is the one a greedy,
//! first-alternative scan produces.
use vstd::prelude::*;
use vstd::string::StrSliceExecFns;

verus! {

/// Characters allowed in an unquoted local-part atom.
pub open spec fn is_atext(c: char) -> bool {
    ('a' <= c && c <= 'z') || ('0' <= c && c <= '9') || c == '!' || c == '#' || c == '$'
        || c == '%' || c == '&' || c == '\'' || c == '*' || c == '+' || c == '/' || c == '='
        || c == '?' || c == '^' || c == '_' || c == '`' || c == '{' || c == '|' || c == '}'
        || c == '~' || c == '-'
}

/// Lower-case letters and digits: the characters that may start or end a
/// domain label.
pub open spec fn is_alnum(c: char) -> bool {
    ('a' <= c && c <= 'z') || ('0' <= c && c <= '9')
}

/// Characters allowed bare inside a quoted local part: most control and
/// printable ASCII, excluding tab, newline, carriage return, space, the
/// quote and the backslash.
pub open spec fn is_qtext(c: char) -> bool {
    ('\u{01}' <= c && c <= '\u{08}') || c == '\u{0b}' || c == '\u{0c}'
        || ('\u{0e}' <= c && c <= '\u{1f}') || c == '\u{21}'
        || ('\u{23}' <= c && c <= '\u{5b}') || ('\u{5d}' <= c && c <= '\u{7f}')
}

/// Characters allowed after a backslash escape, in quoted local parts and in
/// bracketed-literal tails alike.
pub open spec fn is_qesc(c: char) -> bool {
    ('\u{01}' <= c && c <= '\u{09}') || c == '\u{0b}' || c == '\u{0c}'
        || ('\u{0e}' <= c && c <= '\u{7f}')
}

/// Characters allowed bare in the tail of a bracketed address literal:
/// like `is_qtext` but with the whole printable range, quote, bracket and
/// backslash included.
pub open spec fn is_dtext(c: char) -> bool {
    ('\u{01}' <= c && c <= '\u{08}') || c == '\u{0b}' || c == '\u{0c}'
        || ('\u{0e}' <= c && c <= '\u{1f}') || ('\u{21}' <= c && c <= '\u{7f}')
}

pub open spec fn is_digit(c: char) -> bool {
    '0' <= c && c <= '9'
}

/// Extend an unquoted local part once at least one atom character stands
/// before `i`: consume further atom characters, or a dot immediately
/// followed by another atom character. Returns the position just after the
/// longest such extension.
pub open spec fn dot_atom_cont(s: Seq<char>, i: int) -> int
    decreases s.len() - i,
{
    if i < s.len() && is_atext(s[i]) {
        dot_atom_cont(s, i + 1)
    } else if i + 1 < s.len() && s[i] == '.' && is_atext(s[i + 1]) {
        dot_atom_cont(s, i + 2)
    } else {
        i
    }
}

/// Scan a quoted local part from position `i` (just after the opening
/// quote). Returns the position just after the closing quote, or `None` when
/// an unescapable character or the end of the text is reached first.
pub open spec fn quoted_end(s: Seq<char>, i: int) -> Option<int>
    decreases s.len() - i,
{
    if i < s.len() {
        if s[i] == '"' {
            Some(i + 1)
        } else if s[i] == '\\' {
            if i + 1 < s.len() && is_qesc(s[i + 1]) {
                quoted_end(s, i + 2)
            } else {
                None
            }
        } else if is_qtext(s[i]) {
            quoted_end(s, i + 1)
        } else {
            None
        }
    } else {
        None
    }
}

/// The end of the local part starting at `i`: a dot-separated atom run or a
/// quoted string. `None` when neither can start at `i`.
pub open spec fn local_end(s: Seq<char>, i: int) -> Option<int> {
    if i < s.len() && is_atext(s[i]) {
        Some(dot_atom_cont(s, i + 1))
    } else if i < s.len() && s[i] == '"' {
        quoted_end(s, i + 1)
    } else {
        None
    }
}

/// Scan dot-separated host-name labels. A label is a letter-or-digit run
/// with interior hyphens, never ending in a hyphen. `i` stands inside or
/// just after the current label, `lasta` just after the last letter-or-digit
/// seen in it, and `n` counts the labels completed earlier. Returns the end
/// of the last complete label and the total number of labels.
pub open spec fn host_scan(s: Seq<char>, i: int, lasta: int, n: int) -> (int, int)
    decreases s.len() - i,
{
    if i < s.len() && (is_alnum(s[i]) || s[i] == '-') {
        host_scan(s, i + 1, if is_alnum(s[i]) { i + 1 } else { lasta }, n)
    } else if i < s.len() && s[i] == '.' && lasta == i && i + 1 < s.len() && is_alnum(s[i + 1]) {
        host_scan(s, i + 2, i + 2, n + 1)
    } else {
        (lasta, n + 1)
    }
}

/// A host-name domain at `d`: at least two dot-separated labels. Returns the
/// position just after the last label.
pub open spec fn hostname_end(s: Seq<char>, d: int) -> Option<int> {
    if d < s.len() && is_alnum(s[d]) {
        let r = host_scan(s, d + 1, d + 1, 0);
        if r.1 >= 2 {
            Some(r.0)
        } else {
            None
        }
    } else {
        None
    }
}

/// The position just after the run of digits starting at `i`.
pub open spec fn digit_run_end(s: Seq<char>, i: int) -> int
    decreases s.len() - i,
{
    if i < s.len() && is_digit(s[i]) {
        digit_run_end(s, i + 1)
    } else {
        i
    }
}

/// The digits `s[i..j]` spell a dotted-quad component: one or two digits, or
/// three digits valued at most 255 (`25x` with `x` up to 5, `2xy` with `x`
/// up to 4, or a leading 0 or 1).
pub open spec fn is_octet(s: Seq<char>, i: int, j: int) -> bool {
    if j - i == 1 || j - i == 2 {
        true
    } else if j - i == 3 {
        (s[i] == '2' && s[i + 1] == '5' && '0' <= s[i + 2] && s[i + 2] <= '5') || (s[i] == '2'
            && '0' <= s[i + 1] && s[i + 1] <= '4') || (s[i] == '0' || s[i] == '1')
    } else {
        false
    }
}

/// One dotted-quad component followed by its dot: the digit run at `i` must
/// be a whole octet with a dot right after it. Returns the position just
/// after the dot.
pub open spec fn octet_dot_end(s: Seq<char>, i: int) -> Option<int> {
    let j = digit_run_end(s, i);
    if is_octet(s, i, j) && j < s.len() && s[j] == '.' {
        Some(j + 1)
    } else {
        None
    }
}

/// Greedy scan of a bracketed-literal tail from a reachable position `i`:
/// prefer consuming a bare tail character, then an escape pair, and stop
/// only where a closing bracket follows. Returns the stop position (the
/// position of the closing bracket) of the first scan, in that preference
/// order, that reaches one.
pub open spec fn tail_scan(s: Seq<char>, i: int) -> Option<int>
    decreases s.len() - i,
{
    let via_text: Option<int> = if i < s.len() && is_dtext(s[i]) {
        tail_scan(s, i + 1)
    } else {
        None
    };
    if via_text is Some {
        via_text
    } else {
        let via_esc: Option<int> = if i + 1 < s.len() && s[i] == '\\' && is_qesc(s[i + 1]) {
            tail_scan(s, i + 2)
        } else {
            None
        };
        if via_esc is Some {
            via_esc
        } else if i < s.len() && s[i] == ']' {
            Some(i)
        } else {
            None
        }
    }
}

/// A bracketed-literal tail starting at `p`, at least one character long,
/// ending where a closing bracket follows.
pub open spec fn tail_end(s: Seq<char>, p: int) -> Option<int> {
    let via_text: Option<int> = if p < s.len() && is_dtext(s[p]) {
        tail_scan(s, p + 1)
    } else {
        None
    };
    if via_text is Some {
        via_text
    } else if p + 1 < s.len() && s[p] == '\\' && is_qesc(s[p + 1]) {
        tail_scan(s, p + 2)
    } else {
        None
    }
}

/// The position just after the run of letters, digits and hyphens at `i`.
pub open spec fn name_run_end(s: Seq<char>, i: int) -> int
    decreases s.len() - i,
{
    if i < s.len() && (is_alnum(s[i]) || s[i] == '-') {
        name_run_end(s, i + 1)
    } else {
        i
    }
}

/// A bracketed address literal at `d` (the opening bracket): three dotted
/// octets, then either a final octet against the closing bracket, or a
/// general literal (a hyphenated name ending in a letter or digit, a colon,
/// and a tail) against the closing bracket. Returns the position just after
/// the closing bracket.
pub open spec fn bracket_end(s: Seq<char>, d: int) -> Option<int> {
    match octet_dot_end(s, d + 1) {
        None => None,
        Some(p2) => match octet_dot_end(s, p2) {
            None => None,
            Some(p3) => match octet_dot_end(s, p3) {
                None => None,
                Some(p4) => {
                    let j = digit_run_end(s, p4);
                    if is_octet(s, p4, j) && j < s.len() && s[j] == ']' {
                        Some(j + 1)
                    } else {
                        let g = name_run_end(s, p4);
                        if g > p4 && is_alnum(s[g - 1]) && g < s.len() && s[g] == ':' {
                            match tail_end(s, g + 1) {
                                Some(q) => Some(q + 1),
                                None => None,
                            }
                        } else {
                            None
                        }
                    }
                },
            },
        },
    }
}

/// The end of the domain starting at `d`: a host name or a bracketed
/// literal.
pub open spec fn domain_end(s: Seq<char>, d: int) -> Option<int> {
    if d < s.len() && is_alnum(s[d]) {
        hostname_end(s, d)
    } else if d < s.len() && s[d] == '[' {
        bracket_end(s, d)
    } else {
        None
    }
}

/// The end of the address match starting at `i`, if the grammar matches
/// there: a local part, an `@`, and a domain.
pub open spec fn email_match_at(s: Seq<char>, i: int) -> Option<int> {
    match local_end(s, i) {
        None => None,
        Some(a) => if a < s.len() && s[a] == '@' {
            domain_end(s, a + 1)
        } else {
            None
        },
    }
}

/// The leftmost match at or after `i`: the first start position where the
/// grammar matches, with the end of the match there.
pub open spec fn first_match_from(s: Seq<char>, i: int) -> Option<(int, int)>
    decreases s.len() - i,
{
    if i >= s.len() {
        None
    } else {
        match email_match_at(s, i) {
            Some(j) => Some((i, j)),
            None => first_match_from(s, i + 1),
        }
    }
}

/// What extraction returns on `s`: the leftmost grammar match, verbatim.
pub open spec fn extract_spec(s: Seq<char>) -> Option<Seq<char>> {
    match first_match_from(s, 0) {
        Some(m) => Some(s.subrange(m.0, m.1)),
        None => None,
    }
}

proof fn lemma_dot_atom_cont_bounds(s: Seq<char>, i: int)
    requires
        0 <= i <= s.len(),
    ensures
        i <= dot_atom_cont(s, i) <= s.len(),
    decreases s.len() - i,
{
    if i < s.len() && is_atext(s[i]) {
        lemma_dot_atom_cont_bounds(s, i + 1);
    } else if i + 1 < s.len() && s[i] == '.' && is_atext(s[i + 1]) {
        lemma_dot_atom_cont_bounds(s, i + 2);
    }
}

proof fn lemma_quoted_end_bounds(s: Seq<char>, i: int)
    requires
        0 <= i,
    ensures
        quoted_end(s, i) matches Some(e) ==> i < e <= s.len(),
    decreases s.len() - i,
{
    if i < s.len() {
        if s[i] == '"' {
        } else if s[i] == '\\' {
            if i + 1 < s.len() && is_qesc(s[i + 1]) {
                lemma_quoted_end_bounds(s, i + 2);
            }
        } else if is_qtext(s[i]) {
            lemma_quoted_end_bounds(s, i + 1);
        }
    }
}

proof fn lemma_host_scan_bounds(s: Seq<char>, i: int, lasta: int, n: int)
    requires
        0 <= lasta <= i,
        lasta <= s.len(),
    ensures
        lasta <= host_scan(s, i, lasta, n).0 <= s.len(),
        host_scan(s, i, lasta, n).1 >= n + 1,
    decreases s.len() - i,
{
    if i < s.len() && (is_alnum(s[i]) || s[i] == '-') {
        lemma_host_scan_bounds(s, i + 1, if is_alnum(s[i]) { i + 1 } else { lasta }, n);
    } else if i < s.len() && s[i] == '.' && lasta == i && i + 1 < s.len() && is_alnum(s[i + 1]) {
        lemma_host_scan_bounds(s, i + 2, i + 2, n + 1);
    }
}

proof fn lemma_digit_run_end_bounds(s: Seq<char>, i: int)
    requires
        0 <= i <= s.len(),
    ensures
        i <= digit_run_end(s, i) <= s.len(),
    decreases s.len() - i,
{
    if i < s.len() && is_digit(s[i]) {
        lemma_digit_run_end_bounds(s, i + 1);
    }
}

proof fn lemma_name_run_end_bounds(s: Seq<char>, i: int)
    requires
        0 <= i <= s.len(),
    ensures
        i <= name_run_end(s, i) <= s.len(),
    decreases s.len() - i,
{
    if i < s.len() && (is_alnum(s[i]) || s[i] == '-') {
        lemma_name_run_end_bounds(s, i + 1);
    }
}

proof fn lemma_tail_scan_bounds(s: Seq<char>, i: int)
    requires
        0 <= i,
    ensures
        tail_scan(s, i) matches Some(q) ==> i <= q < s.len() && s[q] == ']',
    decreases s.len() - i,
{
    if i < s.len() && is_dtext(s[i]) {
        lemma_tail_scan_bounds(s, i + 1);
    }
    if i + 1 < s.len() && s[i] == '\\' && is_qesc(s[i + 1]) {
        lemma_tail_scan_bounds(s, i + 2);
    }
}

proof fn lemma_octet_dot_end_bounds(s: Seq<char>, i: int)
    requires
        0 <= i <= s.len(),
    ensures
        octet_dot_end(s, i) matches Some(p) ==> i < p <= s.len(),
{
    lemma_digit_run_end_bounds(s, i);
}

proof fn lemma_bracket_end_bounds(s: Seq<char>, d: int)
    requires
        0 <= d < s.len(),
    ensures
        bracket_end(s, d) matches Some(e) ==> d < e <= s.len(),
{
    lemma_octet_dot_end_bounds(s, d + 1);
    match octet_dot_end(s, d + 1) {
        None => {},
        Some(p2) => {
            lemma_octet_dot_end_bounds(s, p2);
            match octet_dot_end(s, p2) {
                None => {},
                Some(p3) => {
                    lemma_octet_dot_end_bounds(s, p3);
                    match octet_dot_end(s, p3) {
                        None => {},
                        Some(p4) => {
                            lemma_digit_run_end_bounds(s, p4);
                            lemma_name_run_end_bounds(s, p4);
                            let g = name_run_end(s, p4);
                            if g > p4 && is_alnum(s[g - 1]) && g < s.len() && s[g] == ':' {
                                lemma_tail_scan_bounds(s, g + 2);
                                lemma_tail_scan_bounds(s, g + 3);
                            }
                        },
                    }
                },
            }
        },
    }
}

proof fn lemma_domain_end_bounds(s: Seq<char>, d: int)
    requires
        0 <= d <= s.len(),
    ensures
        domain_end(s, d) matches Some(e) ==> d < e <= s.len(),
{
    if d < s.len() && is_alnum(s[d]) {
        lemma_host_scan_bounds(s, d + 1, d + 1, 0);
    } else if d < s.len() && s[d] == '[' {
        lemma_bracket_end_bounds(s, d);
    }
}

/// A match starting at `i` ends after `i` and within the text.
pub proof fn lemma_email_match_at_bounds(s: Seq<char>, i: int)
    requires
        0 <= i <= s.len(),
    ensures
        email_match_at(s, i) matches Some(j) ==> i < j <= s.len(),
{
    match local_end(s, i) {
        None => {},
        Some(a) => {
            if i < s.len() && is_atext(s[i]) {
                lemma_dot_atom_cont_bounds(s, i + 1);
            } else if i < s.len() && s[i] == '"' {
                lemma_quoted_end_bounds(s, i + 1);
            }
            if a < s.len() && s[a] == '@' {
                lemma_domain_end_bounds(s, a + 1);
            }
        },
    }
}

/// The leftmost match: where `first_match_from` finds a match, that match
/// holds at its start, lies within the text, and no earlier position at or
/// after `i` matches; where it finds none, no position at or after `i`
/// matches at all.
pub proof fn lemma_first_match_from(s: Seq<char>, i: int)
    requires
        0 <= i,
    ensures
        first_match_from(s, i) matches Some(m) ==> i <= m.0 < m.1 <= s.len()
            && email_match_at(s, m.0) == Some(m.1) && (forall|k: int|
            i <= k < m.0 ==> email_match_at(s, k) is None),
        first_match_from(s, i) is None ==> forall|k: int|
            i <= k < s.len() ==> email_match_at(s, k) is None,
    decreases s.len() - i,
{
    if i >= s.len() {
    } else {
        lemma_email_match_at_bounds(s, i);
        if email_match_at(s, i) is None {
            lemma_first_match_from(s, i + 1);
        }
    }
}

fn exec_is_atext(c: char) -> (r: bool)
    ensures
        r == is_atext(c),
{
    ('a' <= c && c <= 'z') || ('0' <= c && c <= '9') || c == '!' || c == '#' || c == '$'
        || c == '%' || c == '&' || c == '\'' || c == '*' || c == '+' || c == '/' || c == '='
        || c == '?' || c == '^' || c == '_' || c == '`' || c == '{' || c == '|' || c == '}'
        || c == '~' || c == '-'
}

fn exec_is_alnum(c: char) -> (r: bool)
    ensures
        r == is_alnum(c),
{
    ('a' <= c && c <= 'z') || ('0' <= c && c <= '9')
}

fn exec_is_qtext(c: char) -> (r: bool)
    ensures
        r == is_qtext(c),
{
    ('\u{01}' <= c && c <= '\u{08}') || c == '\u{0b}' || c == '\u{0c}'
        || ('\u{0e}' <= c && c <= '\u{1f}') || c == '\u{21}'
        || ('\u{23}' <= c && c <= '\u{5b}') || ('\u{5d}' <= c && c <= '\u{7f}')
}

fn exec_is_qesc(c: char) -> (r: bool)
    ensures
        r == is_qesc(c),
{
    ('\u{01}' <= c && c <= '\u{09}') || c == '\u{0b}' || c == '\u{0c}'
        || ('\u{0e}' <= c && c <= '\u{7f}')
}

fn exec_is_dtext(c: char) -> (r: bool)
    ensures
        r == is_dtext(c),
{
    ('\u{01}' <= c && c <= '\u{08}') || c == '\u{0b}' || c == '\u{0c}'
        || ('\u{0e}' <= c && c <= '\u{1f}') || ('\u{21}' <= c && c <= '\u{7f}')
}

fn exec_is_digit(c: char) -> (r: bool)
    ensures
        r == is_digit(c),
{
    '0' <= c && c <= '9'
}

/// How an executable scan position relates to a specification one.
pub open spec fn opt_pos_eq(r: Option<usize>, m: Option<int>) -> bool {
    match r {
        Some(v) => m == Some(v as int),
        None => m is None,
    }
}

fn exec_dot_atom_cont(s: &str, n: usize, i: usize) -> (r: usize)
    requires
        s@.len() == n as nat,
        i <= n,
    ensures
        r as int == dot_atom_cont(s@, i as int),
        i <= r <= n,
{
    let mut j = i;
    loop
        invariant
            s@.len() == n as nat,
            i <= j <= n,
            dot_atom_cont(s@, i as int) == dot_atom_cont(s@, j as int),
        ensures
            i <= j <= n,
            dot_atom_cont(s@, i as int) == j as int,
        decreases n - j,
    {
        if j >= n {
            break ;
        }
        let cj = s.get_char(j);
        if exec_is_atext(cj) {
            j = j + 1;
        } else if cj == '.' && n - j >= 2 && exec_is_atext(s.get_char(j + 1)) {
            j = j + 2;
        } else {
            break ;
        }
    }
    j
}

fn exec_quoted_end(s: &str, n: usize, i: usize) -> (r: Option<usize>)
    requires
        s@.len() == n as nat,
        i <= n,
    ensures
        opt_pos_eq(r, quoted_end(s@, i as int)),
{
    let mut j = i;
    loop
        invariant
            s@.len() == n as nat,
            i <= j <= n,
            quoted_end(s@, i as int) == quoted_end(s@, j as int),
        decreases n - j,
    {
        if j >= n {
            return None;
        }
        let cj = s.get_char(j);
        if cj == '"' {
            return Some(j + 1);
        } else if cj == '\\' {
            if n - j >= 2 && exec_is_qesc(s.get_char(j + 1)) {
                j = j + 2;
            } else {
                return None;
            }
        } else if exec_is_qtext(cj) {
            j = j + 1;
        } else {
            return None;
        }
    }
}

fn exec_local_end(s: &str, n: usize, i: usize) -> (r: Option<usize>)
    requires
        s@.len() == n as nat,
        i <= n,
    ensures
        opt_pos_eq(r, local_end(s@, i as int)),
{
    if i < n {
        let c = s.get_char(i);
        if exec_is_atext(c) {
            Some(exec_dot_atom_cont(s, n, i + 1))
        } else if c == '"' {
            exec_quoted_end(s, n, i + 1)
        } else {
            None
        }
    } else {
        None
    }
}

fn exec_hostname_end(s: &str, n: usize, d: usize) -> (r: Option<usize>)
    requires
        s@.len() == n as nat,
        d < n,
    ensures
        opt_pos_eq(r, hostname_end(s@, d as int)),
{
    if !exec_is_alnum(s.get_char(d)) {
        return None;
    }
    let mut j = d + 1;
    let mut lasta = d + 1;
    let mut c: usize = 0;
    loop
        invariant
            s@.len() == n as nat,
            d < n,
            lasta <= j <= n,
            c < j,
            host_scan(s@, d as int + 1, d as int + 1, 0) == host_scan(
                s@,
                j as int,
                lasta as int,
                c as int,
            ),
        ensures
            lasta <= j <= n,
            c < j,
            host_scan(s@, d as int + 1, d as int + 1, 0) == (lasta as int, c as int + 1),
        decreases n - j,
    {
        if j >= n {
            break ;
        }
        let cj = s.get_char(j);
        if exec_is_alnum(cj) || cj == '-' {
            if exec_is_alnum(cj) {
                lasta = j + 1;
            }
            j = j + 1;
        } else if cj == '.' && lasta == j && n - j >= 2 && exec_is_alnum(s.get_char(j + 1)) {
            c = c + 1;
            j = j + 2;
            lasta = j;
        } else {
            break ;
        }
    }
    if c + 1 >= 2 {
        Some(lasta)
    } else {
        None
    }
}

fn exec_digit_run_end(s: &str, n: usize, i: usize) -> (r: usize)
    requires
        s@.len() == n as nat,
        i <= n,
    ensures
        r as int == digit_run_end(s@, i as int),
        i <= r <= n,
{
    let mut j = i;
    loop
        invariant
            s@.len() == n as nat,
            i <= j <= n,
            digit_run_end(s@, i as int) == digit_run_end(s@, j as int),
        ensures
            i <= j <= n,
            digit_run_end(s@, i as int) == j as int,
        decreases n - j,
    {
        if j < n && exec_is_digit(s.get_char(j)) {
            j = j + 1;
        } else {
            break ;
        }
    }
    j
}

fn exec_name_run_end(s: &str, n: usize, i: usize) -> (r: usize)
    requires
        s@.len() == n as nat,
        i <= n,
    ensures
        r as int == name_run_end(s@, i as int),
        i <= r <= n,
{
    let mut j = i;
    loop
        invariant
            s@.len() == n as nat,
            i <= j <= n,
            name_run_end(s@, i as int) == name_run_end(s@, j as int),
        ensures
            i <= j <= n,
            name_run_end(s@, i as int) == j as int,
        decreases n - j,
    {
        if j >= n {
            break ;
        }
        let cj = s.get_char(j);
        if exec_is_alnum(cj) || cj == '-' {
            j = j + 1;
        } else {
            break ;
        }
    }
    j
}

fn exec_is_octet(s: &str, n: usize, i: usize, j: usize) -> (r: bool)
    requires
        s@.len() == n as nat,
        i <= j <= n,
    ensures
        r == is_octet(s@, i as int, j as int),
{
    if j - i == 1 || j - i == 2 {
        true
    } else if j - i == 3 {
        let c0 = s.get_char(i);
        let c1 = s.get_char(i + 1);
        let c2 = s.get_char(i + 2);
        (c0 == '2' && c1 == '5' && '0' <= c2 && c2 <= '5') || (c0 == '2' && '0' <= c1 && c1 <= '4')
            || c0 == '0' || c0 == '1'
    } else {
        false
    }
}

fn exec_octet_dot_end(s: &str, n: usize, i: usize) -> (r: Option<usize>)
    requires
        s@.len() == n as nat,
        i <= n,
    ensures
        opt_pos_eq(r, octet_dot_end(s@, i as int)),
        r matches Some(p) ==> i < p && p <= n,
{
    let j = exec_digit_run_end(s, n, i);
    if exec_is_octet(s, n, i, j) && j < n && s.get_char(j) == '.' {
        Some(j + 1)
    } else {
        None
    }
}

fn exec_tail_scan(s: &str, n: usize, p: usize) -> (r: Option<usize>)
    requires
        s@.len() == n as nat,
        p <= n,
    ensures
        opt_pos_eq(r, tail_scan(s@, p as int)),
{
    // tab[t] holds the scan result for position n - t; the table is built
    // from the end of the text back to p, so each entry can read the one or
    // two entries for the positions after it.
    let mut tab: Vec<Option<usize>> = Vec::new();
    loop
        invariant
            s@.len() == n as nat,
            p <= n,
            tab.len() <= n - p + 1,
            forall|t: int| 0 <= t < tab.len() ==> opt_pos_eq(tab[t], tail_scan(s@, n - t)),
        ensures
            tab.len() == n - p + 1,
            forall|t: int| 0 <= t < tab.len() ==> opt_pos_eq(tab[t], tail_scan(s@, n - t)),
        decreases n - p + 1 - tab.len(),
    {
        if tab.len() > n - p {
            break ;
        }
        let i = n - tab.len();
        let mut cur: Option<usize> = None;
        if i < n && exec_is_dtext(s.get_char(i)) {
            cur = tab[tab.len() - 1];
        }
        if cur.is_none() && n - i >= 2 && s.get_char(i) == '\\' && exec_is_qesc(
            s.get_char(i + 1),
        ) {
            cur = tab[tab.len() - 2];
        }
        if cur.is_none() && i < n && s.get_char(i) == ']' {
            cur = Some(i);
        }
        assert(opt_pos_eq(cur, tail_scan(s@, i as int)));
        tab.push(cur);
    }
    tab[n - p]
}

fn exec_bracket_end(s: &str, n: usize, d: usize) -> (r: Option<usize>)
    requires
        s@.len() == n as nat,
        d < n,
    ensures
        opt_pos_eq(r, bracket_end(s@, d as int)),
{
    let p2 = match exec_octet_dot_end(s, n, d + 1) {
        None => { return None },
        Some(p) => p,
    };
    let p3 = match exec_octet_dot_end(s, n, p2) {
        None => { return None },
        Some(p) => p,
    };
    let p4 = match exec_octet_dot_end(s, n, p3) {
        None => { return None },
        Some(p) => p,
    };
    let j = exec_digit_run_end(s, n, p4);
    if exec_is_octet(s, n, p4, j) && j < n && s.get_char(j) == ']' {
        return Some(j + 1);
    }
    let g = exec_name_run_end(s, n, p4);
    if g > p4 && exec_is_alnum(s.get_char(g - 1)) && g < n && s.get_char(g) == ':' {
        let via_text = if g + 1 < n && exec_is_dtext(s.get_char(g + 1)) {
            exec_tail_scan(s, n, g + 2)
        } else {
            None
        };
        let t = if via_text.is_some() {
            via_text
        } else if n - (g + 1) >= 2 && s.get_char(g + 1) == '\\' && exec_is_qesc(
            s.get_char(g + 2),
        ) {
            exec_tail_scan(s, n, g + 3)
        } else {
            None
        };
        match t {
            Some(q) => {
                proof {
                    lemma_tail_scan_bounds(s@, g as int + 2);
                    lemma_tail_scan_bounds(s@, g as int + 3);
                }
                Some(q + 1)
            },
            None => None,
        }
    } else {
        None
    }
}

fn exec_domain_end(s: &str, n: usize, d: usize) -> (r: Option<usize>)
    requires
        s@.len() == n as nat,
        d <= n,
    ensures
        opt_pos_eq(r, domain_end(s@, d as int)),
{
    if d < n {
        let c = s.get_char(d);
        if exec_is_alnum(c) {
            exec_hostname_end(s, n, d)
        } else if c == '[' {
            exec_bracket_end(s, n, d)
        } else {
            None
        }
    } else {
        None
    }
}

fn exec_match_at(s: &str, n: usize, i: usize) -> (r: Option<usize>)
    requires
        s@.len() == n as nat,
        i <= n,
    ensures
        opt_pos_eq(r, email_match_at(s@, i as int)),
{
    match exec_local_end(s, n, i) {
        None => None,
        Some(a) => {
            if a < n && s.get_char(a) == '@' {
                exec_domain_end(s, n, a + 1)
            } else {
                None
            }
        },
    }
}

/// What extraction promises of a found address: it is a literal, unchanged
/// piece of the input, the grammar matches at its start, and no grammar
/// match starts anywhere earlier; and where extraction finds nothing, no
/// position of the input starts a grammar match.
pub proof fn lemma_extract_leftmost(s: Seq<char>)
    ensures
        extract_spec(s) matches Some(m) ==> exists|i: int, j: int|
            0 <= i <= j <= s.len() && m == s.subrange(i, j) && email_match_at(s, i) == Some(j) && (
            forall|k: int| 0 <= k < i ==> email_match_at(s, k) is None),
        extract_spec(s) is None ==> forall|k: int|
            0 <= k < s.len() ==> email_match_at(s, k) is None,
{
    lemma_first_match_from(s, 0);
    match first_match_from(s, 0) {
        Some(m) => {
            assert(0 <= m.0 <= m.1 <= s.len() && s.subrange(m.0, m.1) == s.subrange(m.0, m.1)
                && email_match_at(s, m.0) == Some(m.1) && (forall|k: int|
                0 <= k < m.0 ==> email_match_at(s, k) is None));
        },
        None => {},
    }
}

/// Extraction is a pure function of the text: any two results that the
/// extraction contract admits for the same text are the same, so extracting
/// twice yields the same outcome both times.
pub proof fn lemma_extract_deterministic(
    s: Seq<char>,
    r1: Option<Seq<char>>,
    r2: Option<Seq<char>>,
)
    requires
        r1 == extract_spec(s),
        r2 == extract_spec(s),
    ensures
        r1 == r2,
{
}

/// The fixed text reported when no address can be found.
pub open spec fn no_address_message() -> Seq<char> {
    "Input contains no valid email address"@
}

/// Scan `text` for the leftmost substring that the address grammar matches
/// and return it verbatim; report the fixed not-found message otherwise.
pub fn extract_email(text: &str) -> (r: Result<String, &'static str>)
    ensures
        r is Ok <==> extract_spec(text@) is Some,
        r matches Ok(m) ==> Some(m@) == extract_spec(text@),
        r matches Err(e) ==> e@ == no_address_message(),
{
    let n = text.unicode_len();
    let mut i: usize = 0;
    loop
        invariant
            text@.len() == n as nat,
            i <= n,
            first_match_from(text@, 0) == first_match_from(text@, i as int),
        ensures
            i == n,
            first_match_from(text@, 0) == first_match_from(text@, i as int),
        decreases n - i,
    {
        if i >= n {
            break ;
        }
        match exec_match_at(text, n, i) {
            Some(j) => {
                proof {
                    lemma_email_match_at_bounds(text@, i as int);
                }
                let sub = text.substring_char(i, j);
                return Ok(sub.to_owned());
            },
            None => {
                i = i + 1;
            },
        }
    }
    Err("Input contains no valid email address")
}

} // verus!
