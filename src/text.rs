//! Plain decimal numbers written as text.
use vstd::prelude::*;

verus! {

broadcast use vstd::string::group_string_axioms;

/// The characters of `s`, one by one.
pub fn chars_of(s: &str) -> (r: Vec<char>)
    ensures
        r@ == s@,
{
    let mut v: Vec<char> = Vec::new();
    for c in it: s.chars()
        invariant
            v@ == it.seq().take(it.index() as int),
    {
        v.push(c);
    }
    v
}


/// Units in one whole of a fixed-point amount: amounts keep eight decimal
/// places.
pub const AMOUNT_UNIT: u64 = 100_000_000;

/// Decimal places that an amount keeps.
pub const AMOUNT_PLACES: usize = 8;

pub open spec fn is_digit(c: char) -> bool {
    '0' <= c <= '9'
}

pub open spec fn all_digits(s: Seq<char>) -> bool {
    forall|i: int| 0 <= i < s.len() ==> is_digit(#[trigger] s[i])
}

pub open spec fn digit_value(c: char) -> nat {
    (c as int - '0' as int) as nat
}

/// The number that the decimal digits `s` write.
pub open spec fn digits_value(s: Seq<char>) -> nat
    decreases s.len(),
{
    if s.len() == 0 {
        0
    } else {
        digits_value(s.drop_last()) * 10 + digit_value(s.last())
    }
}

/// `s` without one leading `c`, if it starts with one.
pub open spec fn strip_sign(s: Seq<char>, c: char) -> Seq<char> {
    if s.len() > 0 && s[0] == c { s.skip(1) } else { s }
}

/// What the text of an unsigned integer says: an optional `+`, then one or
/// more decimal digits.
pub open spec fn unsigned_text_value(s: Seq<char>) -> Option<nat> {
    let body = strip_sign(s, '+');
    if body.len() > 0 && all_digits(body) { Some(digits_value(body)) } else { None }
}

/// What the text of a signed integer says: an optional `+` or `-`, then one
/// or more decimal digits.
pub open spec fn signed_text_value(s: Seq<char>) -> Option<int> {
    if s.len() > 0 && s[0] == '-' {
        let body = s.skip(1);
        if body.len() > 0 && all_digits(body) { Some(-digits_value(body)) } else { None }
    } else {
        match unsigned_text_value(s) {
            Some(v) => Some(v as int),
            None => None,
        }
    }
}

/// The first `n` fraction digits of `f`, padded with zeros.
pub open spec fn padded_fraction(f: Seq<char>, n: nat) -> Seq<char> {
    Seq::new(n, |j: int| if j < f.len() { f[j] } else { '0' })
}

/// What the text of an amount says, in units of `1 / AMOUNT_UNIT`: an
/// optional `+`, whole digits, then optionally a `.` and fraction digits, with
/// at least one digit in all; fraction digits past the eighth are dropped.
pub open spec fn amount_text_value(s: Seq<char>) -> Option<nat> {
    let body = strip_sign(s, '+');
    if body.len() > 0 && all_digits(body) {
        Some((digits_value(body) * AMOUNT_UNIT) as nat)
    } else if exists|i: int|
        0 <= i < body.len() && body[i] == '.' && all_digits(body.take(i)) && all_digits(
            body.skip(i + 1),
        ) && body.len() > 1 {
        let i = choose|i: int|
            0 <= i < body.len() && body[i] == '.' && all_digits(body.take(i)) && all_digits(
                body.skip(i + 1),
            ) && body.len() > 1;
        Some(
            (digits_value(body.take(i)) * AMOUNT_UNIT + digits_value(
                padded_fraction(body.skip(i + 1), AMOUNT_PLACES as nat),
            )) as nat,
        )
    } else {
        None
    }
}

pub open spec fn pow10(n: nat) -> nat
    decreases n,
{
    if n == 0 { 1 } else { 10 * pow10((n - 1) as nat) }
}

proof fn lemma_digits_value_bound(s: Seq<char>)
    requires
        all_digits(s),
    ensures
        digits_value(s) < pow10(s.len()),
    decreases s.len(),
{
    if s.len() > 0 {
        let init = s.drop_last();
        assert(all_digits(init)) by {
            assert forall|i: int| 0 <= i < init.len() implies is_digit(#[trigger] init[i]) by {
                assert(init[i] == s[i]);
            }
        }
        lemma_digits_value_bound(init);
        assert(is_digit(s[s.len() - 1]));
        assert(digits_value(init) * 10 + digit_value(s.last()) < 10 * pow10(init.len())) by (nonlinear_arith)
            requires digits_value(init) < pow10(init.len()), digit_value(s.last()) < 10;
    }
}

proof fn lemma_digits_value_grows(s: Seq<char>, j: int)
    requires
        0 <= j <= s.len(),
        all_digits(s),
    ensures
        digits_value(s.take(j)) <= digits_value(s),
    decreases s.len() - j,
{
    if j < s.len() {
        lemma_digits_value_grows(s, j + 1);
        assert(s.take(j + 1).drop_last() =~= s.take(j));
    } else {
        assert(s.take(j) =~= s);
    }
}

/// The number written by the digits `cs[lo..hi]`, if all of them are digits
/// and it is at most `limit`.
fn digits_in(cs: &Vec<char>, lo: usize, hi: usize, limit: u64) -> (r: Option<u64>)
    requires
        lo <= hi <= cs.len(),
    ensures
        r is Some <==> all_digits(cs@.subrange(lo as int, hi as int)) && digits_value(
            cs@.subrange(lo as int, hi as int),
        ) <= limit,
        r is Some ==> r->0 == digits_value(cs@.subrange(lo as int, hi as int)),
{
    let ghost full = cs@.subrange(lo as int, hi as int);
    let mut acc: u64 = 0;
    let mut k: usize = lo;
    while k < hi
        invariant
            lo <= k <= hi <= cs.len(),
            full == cs@.subrange(lo as int, hi as int),
            all_digits(cs@.subrange(lo as int, k as int)),
            acc == digits_value(cs@.subrange(lo as int, k as int)),
            acc <= limit,
        decreases hi - k,
    {
        let c = cs[k];
        let ghost part = cs@.subrange(lo as int, k as int);
        let ghost next = cs@.subrange(lo as int, k + 1);
        assert(next.drop_last() =~= part);
        assert(full.take(k - lo) =~= part);
        assert(full.take(k + 1 - lo) =~= next);
        if !('0' <= c && c <= '9') {
            assert(full[k - lo] == c);
            return None;
        }
        let dv = (c as u32 - '0' as u32) as u64;
        assert(digits_value(next) == acc * 10 + dv);
        if dv > limit || acc > (limit - dv) / 10 {
            proof {
                assert(acc * 10 + dv > limit) by (nonlinear_arith)
                    requires dv > limit || acc > (limit - dv) / 10, dv >= 0, acc >= 0;
                if all_digits(full) {
                    lemma_digits_value_grows(full, k + 1 - lo);
                }
            }
            return None;
        }
        assert(acc * 10 + dv <= limit) by (nonlinear_arith)
            requires dv <= limit, acc <= (limit - dv) / 10;
        acc = acc * 10 + dv;
        k = k + 1;
    }
    assert(cs@.subrange(lo as int, k as int) =~= full);
    Some(acc)
}

/// Reads an unsigned integer: an optional `+`, then decimal digits.
pub fn parse_u32(s: &str) -> (r: Option<u32>)
    ensures
        r is Some <==> unsigned_text_value(s@) is Some && unsigned_text_value(s@)->0 <= u32::MAX,
        r is Some ==> r->0 == unsigned_text_value(s@)->0,
{
    let cs = chars_of(s);
    let n = cs.len();
    let start: usize = if n > 0 && cs[0] == '+' { 1 } else { 0 };
    assert(strip_sign(s@, '+') =~= cs@.subrange(start as int, n as int));
    if start == n {
        return None;
    }
    match digits_in(&cs, start, n, u32::MAX as u64) {
        Some(v) => Some(v as u32),
        None => None,
    }
}

/// Reads a signed integer: an optional `+` or `-`, then decimal digits.
pub fn parse_i32(s: &str) -> (r: Option<i32>)
    ensures
        r is Some <==> signed_text_value(s@) is Some && i32::MIN <= signed_text_value(s@)->0
            <= i32::MAX,
        r is Some ==> r->0 == signed_text_value(s@)->0,
{
    let cs = chars_of(s);
    let n = cs.len();
    if n > 0 && cs[0] == '-' {
        assert(s@.skip(1) =~= cs@.subrange(1, n as int));
        if n == 1 {
            return None;
        }
        match digits_in(&cs, 1, n, 0x8000_0000) {
            Some(v) => Some((0 - (v as i64)) as i32),
            None => None,
        }
    } else {
        let start: usize = if n > 0 && cs[0] == '+' { 1 } else { 0 };
        assert(strip_sign(s@, '+') =~= cs@.subrange(start as int, n as int));
        if start == n {
            return None;
        }
        match digits_in(&cs, start, n, i32::MAX as u64) {
            Some(v) => Some(v as i32),
            None => None,
        }
    }
}

/// Whether `cs[lo..hi]` are all decimal digits.
fn all_digits_in(cs: &Vec<char>, lo: usize, hi: usize) -> (r: bool)
    requires
        lo <= hi <= cs.len(),
    ensures
        r == all_digits(cs@.subrange(lo as int, hi as int)),
{
    let ghost part = cs@.subrange(lo as int, hi as int);
    let mut k: usize = lo;
    while k < hi
        invariant
            lo <= k <= hi <= cs.len(),
            part == cs@.subrange(lo as int, hi as int),
            forall|j: int| lo <= j < k ==> is_digit(cs@[j]),
        decreases hi - k,
    {
        if !('0' <= cs[k] && cs[k] <= '9') {
            assert(part[k - lo] == cs@[k as int]);
            return false;
        }
        k = k + 1;
    }
    assert forall|j: int| 0 <= j < part.len() implies is_digit(#[trigger] part[j]) by {
        assert(part[j] == cs@[lo + j]);
    }
    true
}

/// Reads a decimal amount into units of `1 / AMOUNT_UNIT`.
pub fn parse_amount(s: &str) -> (r: Option<u64>)
    ensures
        r is Some <==> amount_text_value(s@) is Some && amount_text_value(s@)->0 <= u64::MAX,
        r is Some ==> r->0 == amount_text_value(s@)->0,
{
    let cs = chars_of(s);
    let n = cs.len();
    let start: usize = if n > 0 && cs[0] == '+' { 1 } else { 0 };
    let ghost body = strip_sign(s@, '+');
    assert(body =~= cs@.subrange(start as int, n as int));
    // Position of the first '.', or the end.
    let mut dot: usize = start;
    while dot < n && cs[dot] != '.'
        invariant
            start <= dot <= n == cs.len(),
            forall|j: int| start <= j < dot ==> cs@[j] != '.',
        decreases n - dot,
    {
        dot = dot + 1;
    }
    let ghost i = dot - start;
    let ghost whole_s = body.take(i);
    let ghost frac_s = body.skip(i + 1);
    assert(whole_s =~= cs@.subrange(start as int, dot as int));
    if dot == n {
        if start == n {
            return None;
        }
        assert(body =~= cs@.subrange(start as int, dot as int));
        return match digits_in(&cs, start, dot, u64::MAX / AMOUNT_UNIT) {
            Some(w) => {
                assert(w * AMOUNT_UNIT <= u64::MAX) by (nonlinear_arith)
                    requires w <= u64::MAX / AMOUNT_UNIT, AMOUNT_UNIT == 100_000_000;
                Some(w * AMOUNT_UNIT)
            },
            None => {
                proof {
                    if all_digits(body) {
                        assert(digits_value(body) * AMOUNT_UNIT > u64::MAX) by (nonlinear_arith)
                            requires digits_value(body) > u64::MAX / AMOUNT_UNIT, AMOUNT_UNIT == 100_000_000;
                    }
                }
                None
            },
        };
    }
    assert(frac_s =~= cs@.subrange(dot + 1, n as int));
    assert(!all_digits(body)) by { assert(body[i] == '.'); }
    assert forall|k: int| 0 <= k < body.len() && body[k] == '.' && all_digits(body.take(k)) && all_digits(body.skip(k + 1)) implies k == i by {
        if k < i { assert(body[k] == cs@[start + k]); }
        if k > i { assert(body.take(k)[i] == '.'); }
    }
    if n - start < 2 {
        return None;
    }
    // Fraction part: every character must be a digit; the first eight count.
    if !all_digits_in(&cs, dot + 1, n) {
        return None;
    }
    // Whole part.
    let whole = match digits_in(&cs, start, dot, u64::MAX / AMOUNT_UNIT) {
        Some(w) => w,
        None => {
            proof {
                if all_digits(whole_s) && all_digits(frac_s) {
                    let f = digits_value(padded_fraction(frac_s, AMOUNT_PLACES as nat));
                    assert(digits_value(whole_s) * AMOUNT_UNIT + f > u64::MAX) by (nonlinear_arith)
                        requires digits_value(whole_s) > u64::MAX / AMOUNT_UNIT, AMOUNT_UNIT == 100_000_000, f >= 0;
                }
            }
            return None;
        },
    };
    let mut padded: Vec<char> = Vec::new();
    let mut p: usize = 0;
    while p < AMOUNT_PLACES
        invariant
            p <= AMOUNT_PLACES,
            dot < n == cs.len(),
            padded@ =~= padded_fraction(frac_s, AMOUNT_PLACES as nat).take(p as int),
            frac_s =~= cs@.subrange(dot + 1, n as int),
        decreases AMOUNT_PLACES - p,
    {
        if p < n - dot - 1 {
            padded.push(cs[dot + 1 + p]);
        } else {
            padded.push('0');
        }
        p = p + 1;
    }
    assert(padded@ =~= padded_fraction(frac_s, AMOUNT_PLACES as nat));
    assert(padded@.subrange(0, AMOUNT_PLACES as int) =~= padded@);
    assert(all_digits(padded@));
    let frac = match digits_in(&padded, 0, AMOUNT_PLACES, u64::MAX) {
        Some(f) => f,
        None => {
            proof {
                lemma_digits_value_bound(padded@);
                assert(pow10(0) == 1);
                assert(pow10(1) == 10);
                assert(pow10(2) == 100);
                assert(pow10(3) == 1000);
                assert(pow10(4) == 10000);
                assert(pow10(5) == 100000);
                assert(pow10(6) == 1000000);
                assert(pow10(7) == 10000000);
                assert(pow10(8) == 100000000);
            }
            return None;
        },
    };
    assert(whole * AMOUNT_UNIT <= u64::MAX) by (nonlinear_arith)
        requires whole <= u64::MAX / AMOUNT_UNIT, AMOUNT_UNIT == 100_000_000;
    proof {
        assert(body[i] == '.');
        let k = choose|k: int|
            0 <= k < body.len() && body[k] == '.' && all_digits(body.take(k)) && all_digits(
                body.skip(k + 1),
            ) && body.len() > 1;
        assert(k == i);
        assert(amount_text_value(s@) == Some((whole * AMOUNT_UNIT + frac) as nat));
    }
    (whole * AMOUNT_UNIT).checked_add(frac)
}

} // verus!
