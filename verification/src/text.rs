//! Character-level helpers for the JSON wire text: decimal numerals,
//! whitespace, and literal matching.

use vstd::arithmetic::div_mod::lemma_fundamental_div_mod;
use vstd::prelude::*;
use vstd::string::*;

verus! {

/// ASCII decimal digit.
pub open spec fn is_digit(c: char) -> bool {
    48 <= c as u32 && c as u32 <= 57
}

/// JSON insignificant whitespace: space, tab, line feed, carriage return.
pub open spec fn is_ws(c: char) -> bool {
    c as u32 == 32 || c as u32 == 9 || c as u32 == 10 || c as u32 == 13
}

/// Numeric value of a digit character.
pub open spec fn digit_val(c: char) -> int {
    c as u32 - 48
}

/// The digit character for a value below ten.
pub open spec fn digit_char(d: int) -> char {
    if d == 0 {
        '0'
    } else if d == 1 {
        '1'
    } else if d == 2 {
        '2'
    } else if d == 3 {
        '3'
    } else if d == 4 {
        '4'
    } else if d == 5 {
        '5'
    } else if d == 6 {
        '6'
    } else if d == 7 {
        '7'
    } else if d == 8 {
        '8'
    } else {
        '9'
    }
}

/// Decimal numeral of a non-negative integer, most significant digit first.
pub open spec fn dec_rep(n: nat) -> Seq<char>
    decreases n,
{
    if n < 10 {
        seq![digit_char(n as int)]
    } else {
        dec_rep(n / 10).push(digit_char((n % 10) as int))
    }
}

/// Decimal numeral of an integer, with a leading minus sign when negative.
pub open spec fn int_rep(n: int) -> Seq<char> {
    if n < 0 {
        seq!['-'] + dec_rep((-n) as nat)
    } else {
        dec_rep(n as nat)
    }
}

/// Value of a digit string read as a decimal numeral.
pub open spec fn val_of(s: Seq<char>) -> int
    decreases s.len(),
{
    if s.len() == 0 {
        0
    } else {
        val_of(s.drop_last()) * 10 + digit_val(s.last())
    }
}

/// Index of the first non-digit character at or after `i`.
pub open spec fn digits_end(s: Seq<char>, i: int) -> int
    decreases s.len() - i,
{
    if 0 <= i < s.len() && is_digit(s[i]) {
        digits_end(s, i + 1)
    } else {
        i
    }
}

/// `lit` occurs in `s` exactly at position `i`.
pub open spec fn lit_at(s: Seq<char>, i: int, lit: Seq<char>) -> bool {
    0 <= i && i + lit.len() <= s.len() && s.subrange(i, i + lit.len()) == lit
}

pub proof fn lemma_digit_char_val(d: int)
    requires
        0 <= d <= 9,
    ensures
        is_digit(digit_char(d)),
        digit_val(digit_char(d)) == d,
{
}

pub proof fn lemma_digits_end_bounds(s: Seq<char>, i: int)
    requires
        0 <= i <= s.len(),
    ensures
        i <= digits_end(s, i) <= s.len(),
        forall|k: int| i <= k < digits_end(s, i) ==> is_digit(s[k]),
        digits_end(s, i) < s.len() ==> !is_digit(s[digits_end(s, i)]),
    decreases s.len() - i,
{
    if i < s.len() && is_digit(s[i]) {
        lemma_digits_end_bounds(s, i + 1);
    }
}

/// A run of digits bounded by a non-digit (or the end) is exactly the
/// digit region found by `digits_end`.
pub proof fn lemma_digits_end_of_region(s: Seq<char>, i: int, j: int)
    requires
        0 <= i <= j <= s.len(),
        forall|k: int| i <= k < j ==> is_digit(s[k]),
        j == s.len() || !is_digit(s[j]),
    ensures
        digits_end(s, i) == j,
    decreases j - i,
{
    if i < j {
        lemma_digits_end_of_region(s, i + 1, j);
    }
}

pub proof fn lemma_val_of_snoc(s: Seq<char>, c: char)
    ensures
        val_of(s.push(c)) == val_of(s) * 10 + digit_val(c),
{
    assert(s.push(c).drop_last() =~= s);
    assert(s.push(c).last() == c);
}

pub proof fn lemma_val_of_nonneg(s: Seq<char>)
    requires
        forall|k: int| 0 <= k < s.len() ==> is_digit(s[k]),
    ensures
        val_of(s) >= 0,
    decreases s.len(),
{
    if s.len() > 0 {
        lemma_val_of_nonneg(s.drop_last());
    }
}

/// Reading more digits of a digit run never shrinks the value.
pub proof fn lemma_val_of_mono(s: Seq<char>, i: int, j: int, k: int)
    requires
        0 <= i <= j <= k <= s.len(),
        forall|m: int| i <= m < k ==> is_digit(s[m]),
    ensures
        val_of(s.subrange(i, k)) >= val_of(s.subrange(i, j)),
        val_of(s.subrange(i, k)) >= 0,
    decreases k - j,
{
    lemma_val_of_nonneg(s.subrange(i, j));
    if j == k {
        assert(s.subrange(i, k) =~= s.subrange(i, j));
    } else {
        lemma_val_of_mono(s, i, j, k - 1);
        assert(s.subrange(i, k) =~= s.subrange(i, k - 1).push(s[k - 1]));
        lemma_val_of_snoc(s.subrange(i, k - 1), s[k - 1]);
        lemma_val_of_nonneg(s.subrange(i, k - 1));
    }
}

/// The decimal numeral of `n` is a non-empty digit string whose value is `n`.
pub proof fn lemma_dec_rep(n: nat)
    ensures
        dec_rep(n).len() >= 1,
        forall|k: int| 0 <= k < dec_rep(n).len() ==> is_digit(dec_rep(n)[k]),
        val_of(dec_rep(n)) == n,
        is_digit(dec_rep(n)[0]),
    decreases n,
{
    if n < 10 {
        lemma_digit_char_val(n as int);
        assert(dec_rep(n).drop_last() =~= Seq::<char>::empty());
        assert(val_of(Seq::<char>::empty()) == 0);
        assert(dec_rep(n).last() == digit_char(n as int));
        assert(val_of(dec_rep(n)) == val_of(dec_rep(n).drop_last()) * 10 + digit_val(
            dec_rep(n).last(),
        ));
    } else {
        lemma_dec_rep(n / 10);
        lemma_digit_char_val((n % 10) as int);
        lemma_val_of_snoc(dec_rep(n / 10), digit_char((n % 10) as int));
        lemma_fundamental_div_mod(n as int, 10);
        assert forall|k: int| 0 <= k < dec_rep(n).len() implies is_digit(dec_rep(n)[k]) by {
            if k < dec_rep(n / 10).len() {
                assert(dec_rep(n)[k] == dec_rep(n / 10)[k]);
            }
        }
    }
}

/// Where the numeral of `n` stands at `i` and no digit follows it, the digit
/// run at `i` is exactly that numeral and reads back as `n`.
pub proof fn lemma_num_at(s: Seq<char>, i: int, n: nat)
    requires
        lit_at(s, i, dec_rep(n)),
        i + dec_rep(n).len() == s.len() || !is_digit(s[i + dec_rep(n).len()]),
    ensures
        digits_end(s, i) == i + dec_rep(n).len(),
        val_of(s.subrange(i, i + dec_rep(n).len())) == n,
{
    lemma_dec_rep(n);
    let e = i + dec_rep(n).len();
    assert(s.subrange(i, e) == dec_rep(n));
    assert forall|k: int| i <= k < e implies is_digit(s[k]) by {
        assert(s[k] == s.subrange(i, e)[k - i]);
    }
    lemma_digits_end_of_region(s, i, e);
}

/// Where the signed numeral of `m` stands at `i` and no digit follows it,
/// signed parsing at `i` reads exactly that numeral back.
pub proof fn lemma_int_at(s: Seq<char>, i: int, m: int)
    requires
        i32::MIN <= m <= i32::MAX,
        lit_at(s, i, int_rep(m)),
        i + int_rep(m).len() == s.len() || !is_digit(s[i + int_rep(m).len()]),
    ensures
        spec_parse_i32(s, i) == Some((m, i + int_rep(m).len())),
{
    if m < 0 {
        let mag = (-m) as nat;
        lemma_dec_rep(mag);
        assert(s.subrange(i, i + int_rep(m).len())[0] == s[i]);
        assert(s[i] == '-');
        assert(lit_at(s, i + 1, dec_rep(mag))) by {
            assert(s.subrange(i + 1, i + 1 + dec_rep(mag).len()) =~= dec_rep(mag)) by {
                assert(forall|k: int|
                    0 <= k < dec_rep(mag).len() ==> #[trigger] s.subrange(
                        i + 1,
                        i + 1 + dec_rep(mag).len(),
                    )[k] == s.subrange(i, i + int_rep(m).len())[k + 1]);
            }
        }
        lemma_num_at(s, i + 1, mag);
    } else {
        let mag = m as nat;
        lemma_dec_rep(mag);
        assert(s.subrange(i, i + int_rep(m).len())[0] == s[i]);
        assert(is_digit(s[i]));
        assert(s[i] != '-') by {
            assert(48 <= s[i] as u32);
        }
        lemma_num_at(s, i, mag);
    }
}

/// Whether `b` reports that a character is a digit.
pub fn exec_is_digit(c: char) -> (b: bool)
    ensures
        b == is_digit(c),
{
    let u: u32 = c as u32;
    48 <= u && u <= 57
}

/// Whether `b` reports that a character is JSON whitespace.
pub fn exec_is_ws(c: char) -> (b: bool)
    ensures
        b == is_ws(c),
{
    let u: u32 = c as u32;
    u == 32 || u == 9 || u == 10 || u == 13
}

/// Position of the first non-whitespace character at or after `i`.
pub fn skip_ws(s: &str, i: usize) -> (j: usize)
    requires
        i <= s@.len(),
    ensures
        i <= j <= s@.len(),
        forall|k: int| i <= k < j ==> is_ws(s@[k]),
        j < s@.len() ==> !is_ws(s@[j as int]),
{
    let n: usize = s.unicode_len();
    let mut j: usize = i;
    loop
        invariant
            i <= j <= n,
            n == s@.len(),
            forall|k: int| i <= k < j ==> is_ws(s@[k]),
        ensures
            i <= j <= n,
            forall|k: int| i <= k < j ==> is_ws(s@[k]),
            j == n || !is_ws(s@[j as int]),
        decreases n - j,
    {
        if j >= n {
            break ;
        }
        let c = s.get_char(j);
        if !exec_is_ws(c) {
            break ;
        }
        j = j + 1;
    }
    j
}

/// Match the literal `lit` at position `i` of `s`; on success the returned
/// position stands just past it.
pub fn expect_lit(s: &str, i: usize, lit: &str) -> (r: Option<usize>)
    requires
        i <= s@.len(),
    ensures
        r is Some <==> lit_at(s@, i as int, lit@),
        r matches Some(j) ==> j == i + lit@.len() && j <= s@.len(),
{
    let n: usize = s.unicode_len();
    let m: usize = lit.unicode_len();
    if n - i < m {
        assert(!lit_at(s@, i as int, lit@));
        return None;
    }
    let mut k: usize = 0;
    loop
        invariant
            0 <= k <= m,
            i <= s@.len(),
            m == lit@.len(),
            n == s@.len(),
            i + m <= n,
            forall|t: int| 0 <= t < k ==> s@[i + t] == lit@[t],
        ensures
            forall|t: int| 0 <= t < m ==> s@[i + t] == lit@[t],
        decreases m - k,
    {
        if k >= m {
            break ;
        }
        let a = s.get_char(i + k);
        let b = lit.get_char(k);
        if a != b {
            assert(!lit_at(s@, i as int, lit@)) by {
                if s@.subrange(i as int, i + lit@.len()) == lit@ {
                    assert(s@.subrange(i as int, i + lit@.len())[k as int] == lit@[k as int]);
                }
            }
            return None;
        }
        k = k + 1;
    }
    assert(s@.subrange(i as int, i + lit@.len()) =~= lit@);
    Some(i + m)
}

/// Parse a run of decimal digits at `i` as a `u32`. Fails when no digit
/// stands at `i` or the numeral's value exceeds `u32::MAX`.
pub fn parse_u32(s: &str, i: usize) -> (r: Option<(u32, usize)>)
    requires
        i <= s@.len(),
    ensures
        r matches Some(p) ==> i < p.1 <= s@.len() && p.1 == digits_end(s@, i as int) && p.0
            == val_of(s@.subrange(i as int, p.1 as int)),
        r is None ==> digits_end(s@, i as int) == i || val_of(
            s@.subrange(i as int, digits_end(s@, i as int)),
        ) > u32::MAX,
{
    proof {
        lemma_digits_end_bounds(s@, i as int);
    }
    let ghost e = digits_end(s@, i as int);
    let n: usize = s.unicode_len();
    let mut j: usize = i;
    let mut val: u64 = 0;
    loop
        invariant
            i <= j <= n,
            n == s@.len(),
            i <= e <= n,
            e == digits_end(s@, i as int),
            forall|k: int| i <= k < e ==> is_digit(s@[k]),
            e < s@.len() ==> !is_digit(s@[e]),
            j <= e,
            forall|k: int| i <= k < j ==> is_digit(s@[k]),
            val == val_of(s@.subrange(i as int, j as int)),
            val <= u32::MAX,
        ensures
            i <= j <= n,
            j == digits_end(s@, i as int),
            val == val_of(s@.subrange(i as int, j as int)),
            val <= u32::MAX,
        decreases n - j,
    {
        if j >= n {
            proof {
                lemma_digits_end_of_region(s@, i as int, j as int);
            }
            break ;
        }
        let c = s.get_char(j);
        if !exec_is_digit(c) {
            proof {
                lemma_digits_end_of_region(s@, i as int, j as int);
            }
            break ;
        }
        assert(j < e);
        let d: u32 = (c as u32) - 48;
        let nv: u64 = val * 10 + (d as u64);
        proof {
            lemma_val_of_snoc(s@.subrange(i as int, j as int), s@[j as int]);
            assert(s@.subrange(i as int, j + 1) =~= s@.subrange(i as int, j as int).push(
                s@[j as int],
            ));
        }
        if nv > 0xFFFF_FFFF {
            proof {
                lemma_val_of_mono(s@, i as int, j + 1, e);
            }
            return None;
        }
        val = nv;
        j = j + 1;
    }
    if j == i {
        return None;
    }
    Some((val as u32, j))
}

/// What parsing a signed numeral at `i` gives: the digit run after an
/// optional minus sign, read as a decimal value within `i32` range.
pub open spec fn spec_parse_i32(s: Seq<char>, i: int) -> Option<(int, int)> {
    let neg = 0 <= i < s.len() && s[i] == '-';
    let start = if neg {
        i + 1
    } else {
        i
    };
    let e = digits_end(s, start);
    let v = val_of(s.subrange(start, e));
    if e == start {
        None
    } else if neg {
        if -v < i32::MIN {
            None
        } else {
            Some((-v, e))
        }
    } else {
        if v > i32::MAX {
            None
        } else {
            Some((v, e))
        }
    }
}

/// Parse an optionally `-`-signed run of decimal digits at `i` as an `i32`.
pub fn parse_i32(s: &str, i: usize) -> (r: Option<(i32, usize)>)
    requires
        i <= s@.len(),
    ensures
        r matches Some(p) ==> i < p.1 <= s@.len() && spec_parse_i32(s@, i as int) == Some(
            (p.0 as int, p.1 as int),
        ),
        r is None ==> spec_parse_i32(s@, i as int) is None,
{
    let n: usize = s.unicode_len();
    let neg: bool = i < n && s.get_char(i) == '-';
    let start: usize = if neg {
        i + 1
    } else {
        i
    };
    match parse_u32(s, start) {
        None => None,
        Some((v, j)) => {
            if neg {
                if v > 0x8000_0000u32 {
                    return None;
                }
                let m: i64 = -(v as i64);
                Some((m as i32, j))
            } else {
                if v > 0x7FFF_FFFFu32 {
                    return None;
                }
                Some((v as i32, j))
            }
        },
    }
}

/// The digit string of a value below ten.
fn digit_str(d: u32) -> (r: &'static str)
    requires
        d <= 9,
    ensures
        r@ =~= seq![digit_char(d as int)],
{
    proof {
        reveal_strlit("0");
        reveal_strlit("1");
        reveal_strlit("2");
        reveal_strlit("3");
        reveal_strlit("4");
        reveal_strlit("5");
        reveal_strlit("6");
        reveal_strlit("7");
        reveal_strlit("8");
        reveal_strlit("9");
    }
    if d == 0 {
        "0"
    } else if d == 1 {
        "1"
    } else if d == 2 {
        "2"
    } else if d == 3 {
        "3"
    } else if d == 4 {
        "4"
    } else if d == 5 {
        "5"
    } else if d == 6 {
        "6"
    } else if d == 7 {
        "7"
    } else if d == 8 {
        "8"
    } else {
        "9"
    }
}

/// Decimal numeral of `n` as a string.
pub fn u32_string(n: u32) -> (r: String)
    ensures
        r@ == dec_rep(n as nat),
    decreases n,
{
    if n < 10 {
        let s = String::from_str(digit_str(n));
        assert(s@ =~= dec_rep(n as nat));
        s
    } else {
        let high = u32_string(n / 10);
        let r = high.concat(digit_str(n % 10));
        assert(r@ =~= dec_rep(n as nat));
        r
    }
}

/// Decimal numeral of `n` as a string, signed.
pub fn i32_string(n: i32) -> (r: String)
    ensures
        r@ == int_rep(n as int),
{
    if n < 0 {
        let mag: i64 = -(n as i64);
        let m: u32 = mag as u32;
        assert(m as nat == (-(n as int)) as nat);
        let mut r = String::from_str("-");
        proof {
            reveal_strlit("-");
        }
        let digits = u32_string(m);
        r.append(digits.as_str());
        assert(r@ =~= int_rep(n as int));
        r
    } else {
        let r = u32_string(n as u32);
        r
    }
}

/// Whether two string slices hold the same characters.
pub fn str_eq(a: &str, b: &str) -> (r: bool)
    ensures
        r == (a@ == b@),
{
    let n: usize = a.unicode_len();
    let m: usize = b.unicode_len();
    if n != m {
        return false;
    }
    let mut k: usize = 0;
    loop
        invariant
            0 <= k <= n,
            n == a@.len(),
            n == b@.len(),
            forall|t: int| 0 <= t < k ==> a@[t] == b@[t],
        ensures
            forall|t: int| 0 <= t < n ==> a@[t] == b@[t],
        decreases n - k,
    {
        if k >= n {
            break ;
        }
        if a.get_char(k) != b.get_char(k) {
            assert(a@ != b@);
            return false;
        }
        k = k + 1;
    }
    assert(a@ =~= b@);
    true
}

} // verus!
