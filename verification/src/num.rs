//! Numeric text fields of the fixed-column format.
//!
//! A field is a fixed column range of a line. Its text may contain spaces
//! anywhere (they are discarded), an optional leading sign, and for real
//! valued fields a single decimal point. Real values are kept exactly, as a
//! decimal mantissa with a count of fractional digits.

use vstd::prelude::*;

verus! {

/// Whitespace as the fixed-column format uses it.
pub open spec fn is_space_char(c: char) -> bool {
    c == ' ' || c == '\t'
}

pub open spec fn is_digit_char(c: char) -> bool {
    '0' <= c && c <= '9'
}

/// Numeric value of a decimal digit character.
pub open spec fn digit_value(c: char) -> int {
    c as u32 - '0' as u32
}

/// The field text with all whitespace discarded, in order.
pub open spec fn strip_spaces(s: Seq<char>) -> Seq<char>
    decreases s.len(),
{
    if s.len() == 0 {
        Seq::empty()
    } else if is_space_char(s.last()) {
        strip_spaces(s.drop_last())
    } else {
        strip_spaces(s.drop_last()).push(s.last())
    }
}

pub open spec fn all_digits(s: Seq<char>) -> bool {
    forall|i: int| 0 <= i < s.len() ==> is_digit_char(s[i])
}

/// Value of a digit string read in base 10, most significant digit first.
pub open spec fn digits_value(s: Seq<char>) -> int
    decreases s.len(),
{
    if s.len() == 0 {
        0
    } else {
        digits_value(s.drop_last()) * 10 + digit_value(s.last())
    }
}

pub open spec fn pow10(n: nat) -> int
    decreases n,
{
    if n == 0 {
        1
    } else {
        10 * pow10((n - 1) as nat)
    }
}

pub proof fn lemma_digits_value_nonneg(s: Seq<char>)
    requires
        all_digits(s),
    ensures
        digits_value(s) >= 0,
    decreases s.len(),
{
    if s.len() > 0 {
        lemma_digits_value_nonneg(s.drop_last());
    }
}

/// Reading more digits never decreases the value.
pub proof fn lemma_digits_value_prefix_le(s: Seq<char>, i: int)
    requires
        all_digits(s),
        0 <= i <= s.len(),
    ensures
        digits_value(s.subrange(0, i)) <= digits_value(s),
    decreases s.len() - i,
{
    if i < s.len() {
        lemma_digits_value_prefix_le(s, i + 1);
        let a = s.subrange(0, i);
        let b = s.subrange(0, i + 1);
        assert(b.drop_last() =~= a);
        lemma_digits_value_nonneg(a);
    } else {
        assert(s.subrange(0, i) =~= s);
    }
}

/// Base-10 place value of concatenated digit strings.
pub proof fn lemma_digits_value_add(a: Seq<char>, b: Seq<char>)
    ensures
        digits_value(a + b) == digits_value(a) * pow10(b.len()) + digits_value(b),
    decreases b.len(),
{
    if b.len() == 0 {
        assert(a + b =~= a);
    } else {
        lemma_digits_value_add(a, b.drop_last());
        assert((a + b).drop_last() =~= a + b.drop_last());
        assert(digits_value(a + b) == (digits_value(a) * pow10((b.len() - 1) as nat)
            + digits_value(b.drop_last())) * 10 + digit_value(b.last()));
        let p = pow10((b.len() - 1) as nat);
        assert(pow10(b.len()) == 10 * p);
        assert(digits_value(a) * p * 10 == digits_value(a) * (10 * p)) by (nonlinear_arith);
    }
}

pub proof fn lemma_pow10_pos(n: nat)
    ensures
        pow10(n) >= 1,
    decreases n,
{
    if n > 0 {
        lemma_pow10_pos((n - 1) as nat);
    }
}

/// Index of the first element satisfying `p`, or -1 when none does.
pub open spec fn find_index<A>(s: Seq<A>, p: spec_fn(A) -> bool) -> int
    decreases s.len(),
{
    if s.len() == 0 {
        -1
    } else if p(s[0]) {
        0
    } else if find_index(s.drop_first(), p) < 0 {
        -1
    } else {
        find_index(s.drop_first(), p) + 1
    }
}

pub proof fn lemma_find_index_spec<A>(s: Seq<A>, p: spec_fn(A) -> bool)
    ensures
        ({
            let r = find_index(s, p);
            &&& -1 <= r < s.len()
            &&& (r == -1 <==> forall|i: int| 0 <= i < s.len() ==> !p(s[i]))
            &&& (r >= 0 ==> r < s.len() && p(s[r]) && forall|i: int| 0 <= i < r ==> !p(s[i]))
        }),
    decreases s.len(),
{
    if s.len() > 0 && !p(s[0]) {
        let tail = s.drop_first();
        lemma_find_index_spec(tail, p);
        let r1 = find_index(tail, p);
        if r1 == -1 {
            assert forall|i: int| 0 <= i < s.len() implies !p(s[i]) by {
                if i > 0 {
                    assert(tail[i - 1] == s[i]);
                }
            }
        } else {
            assert(tail[r1] == s[r1 + 1]);
            assert forall|i: int| 0 <= i < r1 + 1 implies !p(s[i]) by {
                if i > 0 {
                    assert(tail[i - 1] == s[i]);
                }
            }
        }
    }
}

/// The elements of `s` marked true in `keep`, in order.
pub open spec fn select<A>(s: Seq<A>, keep: Seq<bool>) -> Seq<A>
    decreases s.len(),
{
    if s.len() == 0 || keep.len() == 0 {
        Seq::empty()
    } else {
        (if keep[0] {
            seq![s[0]]
        } else {
            Seq::empty()
        }) + select(s.drop_first(), keep.drop_first())
    }
}

/// Selection distributes over concatenation of matching segments.
pub proof fn lemma_select_add<A>(a: Seq<A>, b: Seq<A>, k: Seq<bool>, l: Seq<bool>)
    requires
        a.len() == k.len(),
        b.len() == l.len(),
    ensures
        select(a + b, k + l) == select(a, k) + select(b, l),
    decreases a.len(),
{
    if a.len() == 0 {
        assert(a + b =~= b);
        assert(k + l =~= l);
        assert(select(a, k) + select(b, l) =~= select(b, l));
    } else {
        lemma_select_add(a.drop_first(), b, k.drop_first(), l);
        assert((a + b).drop_first() =~= a.drop_first() + b);
        assert((k + l).drop_first() =~= k.drop_first() + l);
        assert((a + b)[0] == a[0]);
        assert((k + l)[0] == k[0]);
        if k[0] {
            assert(select(a + b, k + l) =~= seq![a[0]] + (select(a.drop_first(), k.drop_first())
                + select(b, l)));
            assert(select(a, k) + select(b, l) =~= seq![a[0]] + (select(
                a.drop_first(),
                k.drop_first(),
            ) + select(b, l)));
        } else {
            assert(select(a + b, k + l) =~= select(a.drop_first(), k.drop_first()) + select(
                b,
                l,
            ));
            assert(select(a, k) + select(b, l) =~= select(a.drop_first(), k.drop_first())
                + select(b, l));
        }
    }
}

/// A one-element selection.
pub proof fn lemma_select_one<A>(x: A, b: bool)
    ensures
        select(seq![x], seq![b]) == (if b {
            seq![x]
        } else {
            Seq::<A>::empty()
        }),
{
    assert(seq![x].drop_first() =~= Seq::<A>::empty());
    assert(seq![b].drop_first() =~= Seq::<bool>::empty());
    assert(select(seq![x].drop_first(), seq![b].drop_first()) == Seq::<A>::empty());
    assert(seq![b][0] == b);
    if b {
        assert(select(seq![x], seq![b]) =~= seq![x]);
    } else {
        assert(select(seq![x], seq![b]) =~= Seq::<A>::empty());
    }
}

/// Index of the last element satisfying `p`, or -1 if none does.
pub open spec fn find_last<A>(s: Seq<A>, p: spec_fn(A) -> bool) -> int
    decreases s.len(),
{
    if s.len() == 0 {
        -1
    } else if p(s.last()) {
        s.len() - 1
    } else {
        find_last(s.drop_last(), p)
    }
}

pub proof fn lemma_find_last_spec<A>(s: Seq<A>, p: spec_fn(A) -> bool)
    ensures
        ({
            let r = find_last(s, p);
            &&& -1 <= r < s.len()
            &&& (r == -1 <==> forall|i: int| 0 <= i < s.len() ==> !p(s[i]))
            &&& (r >= 0 ==> r < s.len() && p(s[r]) && forall|i: int| r < i < s.len() ==> !p(s[i]))
        }),
    decreases s.len(),
{
    if s.len() > 0 && !p(s.last()) {
        lemma_find_last_spec(s.drop_last(), p);
        assert(forall|i: int| 0 <= i < s.len() - 1 ==> s.drop_last()[i] == s[i]);
    }
}

/// The text with every decimal point discarded, in order.
pub open spec fn remove_dots(t: Seq<char>) -> Seq<char>
    decreases t.len(),
{
    if t.len() == 0 {
        Seq::empty()
    } else if t.last() == '.' {
        remove_dots(t.drop_last())
    } else {
        remove_dots(t.drop_last()).push(t.last())
    }
}

pub proof fn lemma_remove_dots_add(a: Seq<char>, b: Seq<char>)
    ensures
        remove_dots(a + b) == remove_dots(a) + remove_dots(b),
    decreases b.len(),
{
    if b.len() == 0 {
        assert(a + b =~= a);
        assert(remove_dots(a) + remove_dots(b) =~= remove_dots(a));
    } else {
        lemma_remove_dots_add(a, b.drop_last());
        assert((a + b).drop_last() =~= a + b.drop_last());
        if b.last() != '.' {
            assert(remove_dots(a) + remove_dots(b) =~= (remove_dots(a) + remove_dots(
                b.drop_last(),
            )).push(b.last()));
        }
    }
}

pub proof fn lemma_remove_dots_digits(t: Seq<char>)
    requires
        forall|i: int| 0 <= i < t.len() ==> is_digit_char(t[i]) || t[i] == '.',
    ensures
        all_digits(remove_dots(t)),
        remove_dots(t).len() <= t.len(),
    decreases t.len(),
{
    if t.len() > 0 {
        lemma_remove_dots_digits(t.drop_last());
    }
}

/// The sign character of a numeric field, if any, is its first character.
pub open spec fn sign_body(s: Seq<char>) -> Seq<char> {
    if s.len() > 0 && (s[0] == '+' || s[0] == '-') {
        s.drop_first()
    } else {
        s
    }
}

pub open spec fn is_neg_text(s: Seq<char>) -> bool {
    s.len() > 0 && s[0] == '-'
}

/// Well-formed body of an unsigned integer field: one or more digits.
pub open spec fn uint_body_wf(t: Seq<char>) -> bool {
    t.len() > 0 && all_digits(t)
}

/// Well-formed body of a real-valued field: digits with at most one decimal
/// point and at least one digit.
pub open spec fn dec_body_wf(t: Seq<char>) -> bool {
    &&& forall|i: int| 0 <= i < t.len() ==> is_digit_char(t[i]) || t[i] == '.'
    &&& forall|i: int, j: int| 0 <= i < j < t.len() && t[i] == '.' ==> t[j] != '.'
    &&& exists|i: int| 0 <= i < t.len() && is_digit_char(t[i])
}

/// Count of digits after the decimal point of a well-formed body.
pub open spec fn dec_frac_of(t: Seq<char>) -> int {
    let d = find_index(t, |c: char| c == '.');
    if d >= 0 {
        t.len() - 1 - d
    } else {
        0
    }
}

/// A column range of a line, whitespace discarded.
pub open spec fn field_text(line: Seq<char>, start: int, end: int) -> Seq<char> {
    strip_spaces(line.subrange(start, end))
}

/// The body of an unsigned field: an optional leading `+` is discarded.
pub open spec fn plus_body(t: Seq<char>) -> Seq<char> {
    if t.len() > 0 && t[0] == '+' {
        t.drop_first()
    } else {
        t
    }
}

/// Whether the column range holds an unsigned integer in machine range.
pub open spec fn uint_ok(line: Seq<char>, start: int, end: int) -> bool {
    let b = plus_body(field_text(line, start, end));
    uint_body_wf(b) && digits_value(b) <= usize::MAX
}

/// The unsigned integer the column range holds.
pub open spec fn uint_val(line: Seq<char>, start: int, end: int) -> int {
    digits_value(plus_body(field_text(line, start, end)))
}

/// Whether the column range holds a signed integer whose magnitude is in
/// machine range.
pub open spec fn int_ok(line: Seq<char>, start: int, end: int) -> bool {
    let b = sign_body(field_text(line, start, end));
    uint_body_wf(b) && digits_value(b) <= i64::MAX
}

/// The signed integer the column range holds.
pub open spec fn int_val(line: Seq<char>, start: int, end: int) -> int {
    let t = field_text(line, start, end);
    if is_neg_text(t) {
        -digits_value(sign_body(t))
    } else {
        digits_value(sign_body(t))
    }
}

/// Whether the column range holds a well-formed real value whose mantissa is
/// in machine range.
pub open spec fn dec_ok(line: Seq<char>, start: int, end: int) -> bool {
    let b = sign_body(field_text(line, start, end));
    dec_body_wf(b) && digits_value(remove_dots(b)) <= i64::MAX
}

/// The mantissa of the real value the column range holds.
pub open spec fn dec_mantissa(line: Seq<char>, start: int, end: int) -> int {
    let t = field_text(line, start, end);
    if is_neg_text(t) {
        -digits_value(remove_dots(sign_body(t)))
    } else {
        digits_value(remove_dots(sign_body(t)))
    }
}

/// The count of fractional digits of the real value the column range holds.
pub open spec fn dec_frac(line: Seq<char>, start: int, end: int) -> int {
    dec_frac_of(sign_body(field_text(line, start, end)))
}

/// A real value kept exactly: `mantissa / 10^frac_digits`.
#[derive(Clone, Copy, PartialEq, Eq, Structural, Debug)]
pub struct Decimal {
    pub mantissa: i64,
    pub frac_digits: usize,
}

/// Whether `d` is exactly the real value the column range holds.
pub open spec fn is_dec_of(d: Decimal, line: Seq<char>, start: int, end: int) -> bool {
    d.mantissa == dec_mantissa(line, start, end) && d.frac_digits == dec_frac(line, start, end)
}

proof fn lemma_div10_step(acc: int, d: int, max: int)
    requires
        0 <= acc,
        0 <= d <= 9,
        0 <= max,
        d <= max,
    ensures
        acc > (max - d) / 10 <==> acc * 10 + d > max,
{
    let q = (max - d) / 10;
    let r = (max - d) % 10;
    vstd::arithmetic::div_mod::lemma_fundamental_div_mod(max - d, 10);
    vstd::arithmetic::div_mod::lemma_mod_bound(max - d, 10);
    assert(acc > q ==> acc * 10 >= q * 10 + 10) by (nonlinear_arith);
    assert(acc <= q ==> acc * 10 <= q * 10) by (nonlinear_arith);
}

/// The column range of the line with whitespace discarded.
pub fn strip_field(line: &Vec<char>, start: usize, end: usize) -> (r: Vec<char>)
    requires
        start <= end,
        end <= line@.len(),
    ensures
        r@ == strip_spaces(line@.subrange(start as int, end as int)),
{
    let mut r: Vec<char> = Vec::new();
    let mut i: usize = start;
    while i < end
        invariant
            start <= i <= end,
            end <= line@.len(),
            r@ == strip_spaces(line@.subrange(start as int, i as int)),
        decreases end - i,
    {
        let c = line[i];
        proof {
            assert(line@.subrange(start as int, i + 1 as int).drop_last() =~= line@.subrange(
                start as int,
                i as int,
            ));
            assert(line@.subrange(start as int, i + 1 as int).last() == c);
        }
        if !(c == ' ' || c == '\t') {
            r.push(c);
        }
        i = i + 1;
    }
    r
}

/// Reads the digits of `t` from `off` on as a base-10 value bounded by
/// `i64::MAX`; fails when a non-digit stands there or the value is too large.
fn digits_acc_i64(t: &Vec<char>, off: usize) -> (r: Result<i64, ()>)
    requires
        off <= t@.len(),
    ensures
        ({
            let u = t@.subrange(off as int, t@.len() as int);
            match r {
                Ok(v) => all_digits(u) && 0 <= v && v == digits_value(u),
                Err(_) => !(all_digits(u) && digits_value(u) <= i64::MAX),
            }
        }),
{
    let ghost u = t@.subrange(off as int, t@.len() as int);
    let n = t.len();
    let mut acc: i64 = 0;
    let mut i: usize = off;
    while i < n
        invariant
            off <= i <= n == t@.len(),
            u == t@.subrange(off as int, t@.len() as int),
            all_digits(u.subrange(0, i - off)),
            0 <= acc,
            acc == digits_value(u.subrange(0, i - off)),
        decreases n - i,
    {
        let c = t[i];
        proof {
            assert(u.subrange(0, i + 1 - off).drop_last() =~= u.subrange(0, i - off));
            assert(u.subrange(0, i + 1 - off).last() == c);
        }
        if !(c >= '0' && c <= '9') {
            proof {
                assert(u[i - off] == c);
            }
            return Err(());
        }
        let d: i64 = (c as u32 - '0' as u32) as i64;
        if acc > (i64::MAX - d) / 10 {
            proof {
                lemma_div10_step(acc as int, d as int, i64::MAX as int);
                if all_digits(u) {
                    lemma_digits_value_prefix_le(u, i + 1 - off);
                }
            }
            return Err(());
        }
        proof {
            lemma_div10_step(acc as int, d as int, i64::MAX as int);
        }
        acc = acc * 10 + d;
        i = i + 1;
    }
    proof {
        assert(u.subrange(0, n - off) =~= u);
    }
    Ok(acc)
}

/// Reads the digits of `t` from `off` on as a base-10 value bounded by
/// `usize::MAX`; fails when a non-digit stands there or the value is too large.
fn digits_acc_usize(t: &Vec<char>, off: usize) -> (r: Result<usize, ()>)
    requires
        off <= t@.len(),
    ensures
        ({
            let u = t@.subrange(off as int, t@.len() as int);
            match r {
                Ok(v) => all_digits(u) && v == digits_value(u),
                Err(_) => !(all_digits(u) && digits_value(u) <= usize::MAX),
            }
        }),
{
    let ghost u = t@.subrange(off as int, t@.len() as int);
    let n = t.len();
    let mut acc: usize = 0;
    let mut i: usize = off;
    while i < n
        invariant
            off <= i <= n == t@.len(),
            u == t@.subrange(off as int, t@.len() as int),
            all_digits(u.subrange(0, i - off)),
            acc == digits_value(u.subrange(0, i - off)),
        decreases n - i,
    {
        let c = t[i];
        proof {
            assert(u.subrange(0, i + 1 - off).drop_last() =~= u.subrange(0, i - off));
            assert(u.subrange(0, i + 1 - off).last() == c);
        }
        if !(c >= '0' && c <= '9') {
            proof {
                assert(u[i - off] == c);
            }
            return Err(());
        }
        let d: usize = (c as u32 - '0' as u32) as usize;
        if acc > (usize::MAX - d) / 10 {
            proof {
                lemma_div10_step(acc as int, d as int, usize::MAX as int);
                if all_digits(u) {
                    lemma_digits_value_prefix_le(u, i + 1 - off);
                }
            }
            return Err(());
        }
        proof {
            lemma_div10_step(acc as int, d as int, usize::MAX as int);
        }
        acc = acc * 10 + d;
        i = i + 1;
    }
    proof {
        assert(u.subrange(0, n - off) =~= u);
    }
    Ok(acc)
}

/// Decodes an unsigned integer field: whitespace is discarded, an optional
/// leading `+` is accepted, and at least one digit must remain.
pub fn parse_usize_field(line: &Vec<char>, start: usize, end: usize) -> (r: Result<usize, ()>)
    requires
        start <= end,
        end <= line@.len(),
    ensures
        r is Ok <==> uint_ok(line@, start as int, end as int),
        r is Ok ==> r->Ok_0 == uint_val(line@, start as int, end as int),
{
    let t = strip_field(line, start, end);
    let n = t.len();
    let mut off: usize = 0;
    if n > 0 && t[0] == '+' {
        off = 1;
    }
    let ghost body = if t@.len() > 0 && t@[0] == '+' {
        t@.drop_first()
    } else {
        t@
    };
    proof {
        assert(t@.subrange(off as int, t@.len() as int) =~= body);
    }
    if n == off {
        return Err(());
    }
    match digits_acc_usize(&t, off) {
        Ok(v) => Ok(v),
        Err(_) => Err(()),
    }
}

/// Decodes a signed integer field: whitespace is discarded, an optional
/// leading `+` or `-` is accepted, and at least one digit must remain.
/// The magnitude is bounded by `i64::MAX`.
pub fn parse_i64_field(line: &Vec<char>, start: usize, end: usize) -> (r: Result<i64, ()>)
    requires
        start <= end,
        end <= line@.len(),
    ensures
        r is Ok <==> int_ok(line@, start as int, end as int),
        r is Ok ==> r->Ok_0 == int_val(line@, start as int, end as int),
{
    let t = strip_field(line, start, end);
    let n = t.len();
    let mut off: usize = 0;
    let mut neg = false;
    if n > 0 && (t[0] == '+' || t[0] == '-') {
        neg = t[0] == '-';
        off = 1;
    }
    proof {
        assert(t@.subrange(off as int, t@.len() as int) =~= sign_body(t@));
    }
    if n == off {
        return Err(());
    }
    match digits_acc_i64(&t, off) {
        Ok(v) => Ok(if neg { -v } else { v }),
        Err(_) => Err(()),
    }
}

/// Decodes a real-valued field into an exact `Decimal`: whitespace is
/// discarded, an optional sign is accepted, and the body must be digits with
/// at most one decimal point and at least one digit. The mantissa magnitude
/// is bounded by `i64::MAX`.
pub fn parse_decimal_field(line: &Vec<char>, start: usize, end: usize) -> (r: Result<Decimal, ()>)
    requires
        start <= end,
        end <= line@.len(),
    ensures
        r is Ok <==> dec_ok(line@, start as int, end as int),
        r is Ok ==> is_dec_of(r->Ok_0, line@, start as int, end as int),
{
    let t = strip_field(line, start, end);
    let n = t.len();
    let mut off: usize = 0;
    let mut neg = false;
    if n > 0 && (t[0] == '+' || t[0] == '-') {
        neg = t[0] == '-';
        off = 1;
    }
    let ghost body = sign_body(t@);
    proof {
        assert(t@.subrange(off as int, t@.len() as int) =~= body);
    }
    // First pass: shape of the body, and the position of the decimal point.
    let mut dot: Option<usize> = None;
    let mut has_digit = false;
    let mut i: usize = off;
    while i < n
        invariant
            start <= end <= line@.len(),
            t@ == strip_spaces(line@.subrange(start as int, end as int)),
            body == sign_body(t@),
            off <= i <= n == t@.len(),
            body == t@.subrange(off as int, t@.len() as int),
            forall|k: int| off <= k < i ==> is_digit_char(t@[k]) || t@[k] == '.',
            match dot {
                Option::None => forall|k: int| off <= k < i ==> t@[k] != '.',
                Option::Some(d) => off <= d < i && t@[d as int] == '.' && (forall|k: int|
                    off <= k < i && k != d ==> t@[k] != '.'),
            },
            has_digit <==> exists|k: int| off <= k < i && is_digit_char(t@[k]),
        decreases n - i,
    {
        let c = t[i];
        if c == '.' {
            match dot {
                Some(d) => {
                    proof {
                        assert(body[d - off] == '.');
                        assert(body[i - off] == '.');
                        assert(d - off < i - off);
                        assert(!dec_body_wf(body));
                    }
                    return Err(());
                },
                None => {
                    dot = Some(i);
                },
            }
        } else if c >= '0' && c <= '9' {
            has_digit = true;
        } else {
            proof {
                assert(body[i - off] == c);
                assert(!dec_body_wf(body));
            }
            return Err(());
        }
        i = i + 1;
    }
    if !has_digit {
        return Err(());
    }
    proof {
        assert(forall|k: int| 0 <= k < body.len() ==> body[k] == t@[k + off]);
        let k0 = choose|k: int| off <= k < n && is_digit_char(t@[k]);
        assert(is_digit_char(body[k0 - off]));
        assert forall|a: int, b: int|
            0 <= a < b < body.len() && body[a] == '.' implies body[b] != '.' by {
            assert(body[a] == t@[a + off]);
            assert(body[b] == t@[b + off]);
        }
        assert(dec_body_wf(body));
    }
    // Second pass: the mantissa, digits only, most significant first.
    let mut acc: i64 = 0;
    i = off;
    while i < n
        invariant
            start <= end <= line@.len(),
            t@ == strip_spaces(line@.subrange(start as int, end as int)),
            body == sign_body(t@),
            off <= i <= n == t@.len(),
            body == t@.subrange(off as int, t@.len() as int),
            dec_body_wf(body),
            0 <= acc,
            acc == digits_value(remove_dots(body.subrange(0, i - off))),
        decreases n - i,
    {
        let c = t[i];
        proof {
            assert(body.subrange(0, i + 1 - off).drop_last() =~= body.subrange(0, i - off));
            assert(body.subrange(0, i + 1 - off).last() == c);
            assert(body[i - off] == c);
        }
        if !(c == '.') {
            proof {
                let rd = remove_dots(body.subrange(0, i - off));
                assert(rd.push(c).drop_last() =~= rd);
                assert(rd.push(c).last() == c);
            }
            let d: i64 = (c as u32 - '0' as u32) as i64;
            if acc > (i64::MAX - d) / 10 {
                proof {
                    lemma_div10_step(acc as int, d as int, i64::MAX as int);
                    let pre = body.subrange(0, i + 1 - off);
                    let rest = body.subrange(i + 1 - off, body.len() as int);
                    assert(body =~= pre + rest);
                    lemma_remove_dots_add(pre, rest);
                    lemma_remove_dots_digits(rest);
                    lemma_remove_dots_digits(pre);
                    lemma_digits_value_add(remove_dots(pre), remove_dots(rest));
                    lemma_pow10_pos(remove_dots(rest).len());
                    lemma_digits_value_nonneg(remove_dots(rest));
                    lemma_digits_value_nonneg(remove_dots(pre));
                    let va = digits_value(remove_dots(pre));
                    let vb = digits_value(remove_dots(rest));
                    let p = pow10(remove_dots(rest).len());
                    assert(va == acc * 10 + d);
                    assert(va * p >= va) by (nonlinear_arith)
                        requires
                            p >= 1,
                            va >= 0,
                    ;
                    assert(digits_value(remove_dots(body)) == va * p + vb);
                    assert(digits_value(remove_dots(body)) > i64::MAX);
                }
                return Err(());
            }
            proof {
                lemma_div10_step(acc as int, d as int, i64::MAX as int);
            }
            acc = acc * 10 + d;
        }
        i = i + 1;
    }
    proof {
        assert(body.subrange(0, n - off) =~= body);
    }
    let frac: usize = match dot {
        Some(d) => {
            proof {
                lemma_find_index_spec(body, |c: char| c == '.');
                let fd = find_index(body, |c: char| c == '.');
                assert(body[d - off] == '.');
                if fd < d - off {
                    assert(body[fd] == '.');
                }
                assert(fd == d - off);
            }
            n - 1 - d
        },
        None => {
            proof {
                lemma_find_index_spec(body, |c: char| c == '.');
                let fd = find_index(body, |c: char| c == '.');
                if fd >= 0 {
                    assert(body[fd] == '.');
                }
            }
            0
        },
    };
    let m: i64 = if neg {
        -acc
    } else {
        acc
    };
    Ok(Decimal { mantissa: m, frac_digits: frac })
}

} // verus!

