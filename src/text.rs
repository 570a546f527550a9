//! Small text operations: decimal rendering, truncation with an ellipsis,
//! and the directory slug of a project path.

use vstd::prelude::*;
use vstd::string::StrSliceExecFns;
use vstd::string::StringExecFns;

verus! {

pub open spec fn digit_char(d: nat) -> char {
    if d == 0 {
        '0'
    } else if d == 1 {
        '1'
    } else if d == 2 {
        '2'
    } else if d == 3 {
        '3'
    } else if d == 4 {
        '4'
    } else if d == 5 {
        '5'
    } else if d == 6 {
        '6'
    } else if d == 7 {
        '7'
    } else if d == 8 {
        '8'
    } else {
        '9'
    }
}

/// The decimal digits of `n`, most significant first, without leading zeros.
pub open spec fn decimal_of(n: nat) -> Seq<char>
    decreases n,
{
    if n < 10 {
        seq![digit_char(n)]
    } else {
        decimal_of(n / 10).push(digit_char(n % 10))
    }
}

fn digit_str(d: u64) -> (r: &'static str)
    requires
        d < 10,
    ensures
        r@ == seq![digit_char(d as nat)],
{
    proof {
        reveal_strlit("0");
        reveal_strlit("1");
        reveal_strlit("2");
        reveal_strlit("3");
        reveal_strlit("4");
        reveal_strlit("5");
        reveal_strlit("6");
        reveal_strlit("7");
        reveal_strlit("8");
        reveal_strlit("9");
    }
    if d == 0 {
        "0"
    } else if d == 1 {
        "1"
    } else if d == 2 {
        "2"
    } else if d == 3 {
        "3"
    } else if d == 4 {
        "4"
    } else if d == 5 {
        "5"
    } else if d == 6 {
        "6"
    } else if d == 7 {
        "7"
    } else if d == 8 {
        "8"
    } else {
        "9"
    }
}

/// `n` written in decimal.
pub fn decimal_text(n: u64) -> (r: String)
    ensures
        r@ == decimal_of(n as nat),
    decreases n,
{
    if n < 10 {
        String::from_str(digit_str(n))
    } else {
        let mut s = decimal_text(n / 10);
        s.append(digit_str(n % 10));
        s
    }
}

/// `s` cut to at most `max_len` characters: a longer one keeps its first
/// `max_len - 3` characters (none if `max_len < 3`) followed by `...`.
pub open spec fn truncated(s: Seq<char>, max_len: nat) -> Seq<char> {
    if s.len() <= max_len {
        s
    } else {
        let keep: nat = if max_len >= 3 { (max_len - 3) as nat } else { 0 };
        s.subrange(0, keep as int) + "..."@
    }
}

pub fn truncate(s: &str, max_len: usize) -> (r: String)
    ensures
        r@ == truncated(s@, max_len as nat),
{
    let char_count = s.unicode_len();
    if char_count <= max_len {
        String::from_str(s)
    } else {
        let keep = max_len.saturating_sub(3);
        let head = String::from_str(s.substring_char(0, keep));
        head.concat("...")
    }
}

/// A project path with every `/` replaced by `-`.
pub open spec fn slug_of(path: Seq<char>) -> Seq<char> {
    path.map_values(|c: char| if c == '/' { '-' } else { c })
}

pub fn project_slug(cwd: &str) -> (r: String)
    ensures
        r@ == slug_of(cwd@),
{
    let n = cwd.unicode_len();
    let mut out = String::new();
    let mut i: usize = 0;
    while i < n
        invariant
            n == cwd@.len(),
            i <= n,
            out@ == slug_of(cwd@.subrange(0, i as int)),
        decreases n - i,
    {
        let c = cwd.get_char(i);
        if c == '/' {
            out.append("-");
        } else {
            out.append(cwd.substring_char(i, i + 1));
        }
        proof {
            reveal_strlit("-");
        }
        assert(slug_of(cwd@.subrange(0, i as int + 1)) =~= slug_of(cwd@.subrange(0, i as int))
            + slug_of(cwd@.subrange(i as int, i as int + 1)));
        assert(out@ =~= slug_of(cwd@.subrange(0, i as int + 1)));
        i += 1;
    }
    assert(cwd@.subrange(0, n as int) =~= cwd@);
    out
}

/// A copy of an optional string.
pub fn copy_opt(o: &Option<String>) -> (r: Option<String>)
    ensures
        r == *o,
{
    match o {
        Some(s) => Some(s.clone()),
        None => None,
    }
}

/// Whether `s` holds exactly the characters of `lit`.
pub fn text_is(s: &String, lit: &str) -> (r: bool)
    ensures
        r == (s@ == lit@),
{
    let l = String::from_str(lit);
    *s == l
}

} // verus!
