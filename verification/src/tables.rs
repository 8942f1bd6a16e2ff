//! The static lookup tables the decoder and builder consult: which
//! remark-type numbers the format defines, and which space-group names
//! resolve. The tables carry a representative subset of the published
//! reference data.

use vstd::prelude::*;
use vstd::string::StrSliceExecFns;

verus! {

/// The remark-type numbers the format defines.
pub open spec fn spec_valid_remark_type_number(n: int) -> bool {
    ||| n == 0 || n == 1 || n == 2 || n == 3 || n == 4 || n == 5
    ||| n == 100 || n == 200 || n == 205 || n == 210 || n == 215 || n == 217
    ||| n == 230 || n == 240 || n == 245 || n == 247 || n == 250 || n == 265
    ||| n == 280 || n == 285 || n == 290 || n == 300 || n == 350 || n == 375
    ||| n == 400 || n == 450 || n == 465 || n == 470 || n == 475 || n == 480
    ||| n == 500 || n == 525 || n == 600 || n == 610 || n == 615 || n == 620
    ||| n == 630 || n == 650 || n == 700 || n == 800 || n == 900 || n == 999
}

/// Whether a remark-type number is one the format defines.
pub fn valid_remark_type_number(n: usize) -> (r: bool)
    ensures
        r == spec_valid_remark_type_number(n as int),
{
    match n {
        0 | 1 | 2 | 3 | 4 | 5 => true,
        100 | 200 | 205 | 210 | 215 | 217 => true,
        230 | 240 | 245 | 247 | 250 | 265 => true,
        280 | 285 | 290 | 300 | 350 | 375 => true,
        400 | 450 | 465 | 470 | 475 | 480 => true,
        500 | 525 | 600 | 610 | 615 | 620 => true,
        630 | 650 | 700 | 800 | 900 | 999 => true,
        _ => false,
    }
}

/// The text with trailing whitespace discarded.
pub open spec fn trim_trailing(s: Seq<char>) -> Seq<char>
    decreases s.len(),
{
    if s.len() == 0 {
        s
    } else if s.last() == ' ' || s.last() == '\t' {
        trim_trailing(s.drop_last())
    } else {
        s
    }
}

/// Discards trailing whitespace of the text.
pub fn trim_trailing_spaces(v: &Vec<char>) -> (r: Vec<char>)
    ensures
        r@ == trim_trailing(v@),
{
    let mut n = v.len();
    proof {
        assert(v@.subrange(0, v@.len() as int) =~= v@);
    }
    loop
        invariant_except_break
            n <= v@.len(),
            trim_trailing(v@) == trim_trailing(v@.subrange(0, n as int)),
        ensures
            n <= v@.len(),
            trim_trailing(v@) == v@.subrange(0, n as int),
        decreases n,
    {
        if n == 0 {
            proof {
                assert(trim_trailing(v@.subrange(0, 0)) =~= v@.subrange(0, 0));
            }
            break ;
        }
        let c = v[n - 1];
        proof {
            assert(v@.subrange(0, n as int).last() == c);
            assert(v@.subrange(0, n as int).drop_last() =~= v@.subrange(0, n - 1));
        }
        if !(c == ' ' || c == '\t') {
            break ;
        }
        n = n - 1;
    }
    let mut r: Vec<char> = Vec::new();
    let mut i: usize = 0;
    while i < n
        invariant
            i <= n <= v@.len(),
            r@ =~= v@.subrange(0, i as int),
        decreases n - i,
    {
        let c = v[i];
        r.push(c);
        proof {
            assert(r@ =~= v@.subrange(0, i + 1));
        }
        i = i + 1;
    }
    proof {
        assert(r@ =~= v@.subrange(0, n as int));
    }
    r
}

/// Compares the characters of `v` with the characters of `s`.
pub fn chars_eq_str(v: &Vec<char>, s: &str) -> (r: bool)
    ensures
        r == (v@ == s@),
{
    let n = s.unicode_len();
    if v.len() != n {
        return false;
    }
    let mut i: usize = 0;
    while i < n
        invariant
            0 <= i <= n,
            n == v@.len(),
            n as nat == s@.len(),
            forall|k: int| 0 <= k < i ==> v@[k] == s@[k],
        decreases n - i,
    {
        let c = v[i];
        let d = s.get_char(i);
        if c != d {
            proof {
                assert(v@[i as int] != s@[i as int]);
            }
            return false;
        }
        i = i + 1;
    }
    proof {
        assert(v@ =~= s@);
    }
    true
}

/// The space-group names the lookup resolves.
pub open spec fn spec_known_space_group(s: Seq<char>) -> bool {
    ||| s == "P 1"@
    ||| s == "P -1"@
    ||| s == "P 21"@
    ||| s == "C 2"@
    ||| s == "P 21 21 2"@
    ||| s == "P 21 21 21"@
    ||| s == "C 2 2 21"@
    ||| s == "P 41 21 2"@
    ||| s == "P 43 21 2"@
    ||| s == "I 4"@
    ||| s == "H 3"@
    ||| s == "R 3"@
    ||| s == "P 63"@
    ||| s == "I 2 3"@
}

/// Whether a space-group name, after discarding trailing whitespace,
/// resolves in the table.
pub fn resolve_space_group(name: &Vec<char>) -> (r: bool)
    ensures
        r == spec_known_space_group(trim_trailing(name@)),
{
    let t = trim_trailing_spaces(name);
    if chars_eq_str(&t, "P 1") {
        return true;
    }
    if chars_eq_str(&t, "P -1") {
        return true;
    }
    if chars_eq_str(&t, "P 21") {
        return true;
    }
    if chars_eq_str(&t, "C 2") {
        return true;
    }
    if chars_eq_str(&t, "P 21 21 2") {
        return true;
    }
    if chars_eq_str(&t, "P 21 21 21") {
        return true;
    }
    if chars_eq_str(&t, "C 2 2 21") {
        return true;
    }
    if chars_eq_str(&t, "P 41 21 2") {
        return true;
    }
    if chars_eq_str(&t, "P 43 21 2") {
        return true;
    }
    if chars_eq_str(&t, "I 4") {
        return true;
    }
    if chars_eq_str(&t, "H 3") {
        return true;
    }
    if chars_eq_str(&t, "R 3") {
        return true;
    }
    if chars_eq_str(&t, "P 63") {
        return true;
    }
    if chars_eq_str(&t, "I 2 3") {
        return true;
    }
    false
}

} // verus!
