//! JSON encoders and decoders for the wire entities.
//!
//! Encoding is canonical: compact JSON with a fixed key order. Decoding of
//! the read entities accepts general JSON for the documented shape —
//! insignificant whitespace, any member order, unknown members skipped —
//! while the two untagged write unions (`Brightness`, `SetRange`) decode
//! from their canonical shapes, resolved in the documented order: bare
//! integer first, object with a duration, object without one.

use vstd::prelude::*;
use vstd::string::*;

use crate::error::Error;
use crate::models::{
    Authorization,
    Brightness,
    Effects,
    GlobalOrientation,
    Layout,
    On,
    PanelInfo,
    PanelLayout,
    Position,
    Range,
    SetRange,
    shape_of_code,
};
use crate::models::State;
use crate::text::{
    dec_rep,
    digits_end,
    exec_is_ws,
    expect_lit,
    int_rep,
    is_digit,
    lemma_dec_rep,
    lemma_num_at,
    lit_at,
    parse_i32,
    parse_u32,
    skip_ws,
    str_eq,
    u32_string,
    i32_string,
    val_of,
};

verus! {

// ===== canonical encodings, at the specification level =====

pub open spec fn spec_enc_bool(b: bool) -> Seq<char> {
    if b {
        "true"@
    } else {
        "false"@
    }
}

pub open spec fn spec_enc_on(o: On) -> Seq<char> {
    "{\"value\":"@ + spec_enc_bool(o.value) + "}"@
}

pub open spec fn spec_enc_range(r: Range) -> Seq<char> {
    "{\"min\":"@ + dec_rep(r.min as nat) + ",\"max\":"@ + dec_rep(r.max as nat) + ",\"value\":"@
        + dec_rep(r.value as nat) + "}"@
}

pub open spec fn spec_enc_brightness(b: Brightness) -> Seq<char> {
    match b {
        Brightness::Increment(i) => int_rep(i as int),
        Brightness::Assign { value } => "{\"value\":"@ + dec_rep(value as nat) + "}"@,
        Brightness::AssignWithDuration { value, duration } => "{\"value\":"@ + dec_rep(
            value as nat,
        ) + ",\"duration\":"@ + dec_rep(duration as nat) + "}"@,
    }
}

pub open spec fn spec_enc_set_range(v: SetRange) -> Seq<char> {
    match v {
        SetRange::Increment(i) => int_rep(i as int),
        SetRange::Assign { value } => "{\"value\":"@ + dec_rep(value as nat) + "}"@,
    }
}

// ===== canonical encodings, executable =====

/// Encode a power flag as its wire object.
pub fn encode_on(o: On) -> (r: String)
    ensures
        r@ == spec_enc_on(o),
{
    let mut out = String::from_str("{\"value\":");
    if o.value {
        out.append("true");
    } else {
        out.append("false");
    }
    out.append("}");
    assert(out@ =~= spec_enc_on(o));
    out
}

/// Encode a bounded property as its wire object.
pub fn encode_range(r: Range) -> (res: String)
    ensures
        res@ == spec_enc_range(r),
{
    let mut out = String::from_str("{\"min\":");
    let smin = u32_string(r.min);
    out.append(smin.as_str());
    out.append(",\"max\":");
    let smax = u32_string(r.max);
    out.append(smax.as_str());
    out.append(",\"value\":");
    let sval = u32_string(r.value);
    out.append(sval.as_str());
    out.append("}");
    assert(out@ =~= spec_enc_range(r));
    out
}

/// Encode a brightness write as exactly one of its three wire shapes.
pub fn encode_brightness(b: Brightness) -> (res: String)
    ensures
        res@ == spec_enc_brightness(b),
{
    match b {
        Brightness::Increment(i) => {
            let out = i32_string(i);
            out
        },
        Brightness::Assign { value } => {
            let mut out = String::from_str("{\"value\":");
            let sv = u32_string(value);
            out.append(sv.as_str());
            out.append("}");
            assert(out@ =~= spec_enc_brightness(b));
            out
        },
        Brightness::AssignWithDuration { value, duration } => {
            let mut out = String::from_str("{\"value\":");
            let sv = u32_string(value);
            out.append(sv.as_str());
            out.append(",\"duration\":");
            let sd = u32_string(duration);
            out.append(sd.as_str());
            out.append("}");
            assert(out@ =~= spec_enc_brightness(b));
            out
        },
    }
}

/// Encode a hue/sat/ct write as exactly one of its two wire shapes.
pub fn encode_set_range(v: SetRange) -> (res: String)
    ensures
        res@ == spec_enc_set_range(v),
{
    match v {
        SetRange::Increment(i) => {
            let out = i32_string(i);
            out
        },
        SetRange::Assign { value } => {
            let mut out = String::from_str("{\"value\":");
            let sv = u32_string(value);
            out.append(sv.as_str());
            out.append("}");
            assert(out@ =~= spec_enc_set_range(v));
            out
        },
    }
}

// ===== canonical (strict) decoders, at the specification level =====

/// What strict decoding of a power-flag body gives: exactly the two
/// canonical bodies decode.
pub open spec fn spec_strict_on(s: Seq<char>) -> Option<On> {
    if s == spec_enc_on(On { value: true }) {
        Some(On { value: true })
    } else if s == spec_enc_on(On { value: false }) {
        Some(On { value: false })
    } else {
        None
    }
}

/// Strict reading of a canonical `{"min":M,"max":X,"value":V}` object at
/// position `i`, with in-range numerals.
pub open spec fn spec_strict_range_at(s: Seq<char>, i: int) -> Option<(Range, int)> {
    if !lit_at(s, i, "{\"min\":"@) {
        None
    } else {
        let i1 = i + "{\"min\":"@.len();
        let e1 = digits_end(s, i1);
        let vmin = val_of(s.subrange(i1, e1));
        if e1 == i1 || vmin > u32::MAX || !lit_at(s, e1, ",\"max\":"@) {
            None
        } else {
            let i2 = e1 + ",\"max\":"@.len();
            let e2 = digits_end(s, i2);
            let vmax = val_of(s.subrange(i2, e2));
            if e2 == i2 || vmax > u32::MAX || !lit_at(s, e2, ",\"value\":"@) {
                None
            } else {
                let i3 = e2 + ",\"value\":"@.len();
                let e3 = digits_end(s, i3);
                let vval = val_of(s.subrange(i3, e3));
                if e3 == i3 || vval > u32::MAX || !lit_at(s, e3, "}"@) {
                    None
                } else {
                    Some((Range { max: vmax as u32, min: vmin as u32, value: vval as u32 }, e3 + 1))
                }
            }
        }
    }
}

/// What strict decoding of a whole bounded-property body gives.
pub open spec fn spec_strict_range(s: Seq<char>) -> Option<Range> {
    match spec_strict_range_at(s, 0) {
        Some((r, j)) => if j == s.len() {
            Some(r)
        } else {
            None
        },
        None => None,
    }
}

/// A whole body read as one signed decimal integer.
pub open spec fn spec_whole_int(s: Seq<char>) -> Option<int> {
    if s.len() > 0 && s[0] == '-' {
        let e = digits_end(s, 1);
        if e == 1 || e != s.len() {
            None
        } else {
            Some(-val_of(s.subrange(1, e)))
        }
    } else {
        let e = digits_end(s, 0);
        if e == 0 || e != s.len() {
            None
        } else {
            Some(val_of(s.subrange(0, e)))
        }
    }
}

/// What decoding a brightness write gives, shapes resolved in the
/// documented order: bare integer, object with duration, object without.
pub open spec fn spec_dec_brightness(s: Seq<char>) -> Option<Brightness> {
    match spec_whole_int(s) {
        Some(m) => if i32::MIN <= m <= i32::MAX {
            Some(Brightness::Increment(m as i32))
        } else {
            None
        },
        None => {
            if !lit_at(s, 0, "{\"value\":"@) {
                None
            } else {
                let i1 = "{\"value\":"@.len() as int;
                let e1 = digits_end(s, i1);
                let v = val_of(s.subrange(i1, e1));
                if e1 == i1 || v > u32::MAX {
                    None
                } else if lit_at(s, e1, ",\"duration\":"@) {
                    let i2 = e1 + ",\"duration\":"@.len();
                    let e2 = digits_end(s, i2);
                    let d = val_of(s.subrange(i2, e2));
                    if e2 == i2 || d > u32::MAX || !(s.len() == e2 + 1 && lit_at(s, e2, "}"@)) {
                        None
                    } else {
                        Some(
                            Brightness::AssignWithDuration {
                                value: v as u32,
                                duration: d as u32,
                            },
                        )
                    }
                } else if s.len() == e1 + 1 && lit_at(s, e1, "}"@) {
                    Some(Brightness::Assign { value: v as u32 })
                } else {
                    None
                }
            }
        },
    }
}

/// What decoding a hue/sat/ct write gives: bare integer first, object
/// without a duration second.
pub open spec fn spec_dec_set_range(s: Seq<char>) -> Option<SetRange> {
    match spec_whole_int(s) {
        Some(m) => if i32::MIN <= m <= i32::MAX {
            Some(SetRange::Increment(m as i32))
        } else {
            None
        },
        None => {
            if !lit_at(s, 0, "{\"value\":"@) {
                None
            } else {
                let i1 = "{\"value\":"@.len() as int;
                let e1 = digits_end(s, i1);
                let v = val_of(s.subrange(i1, e1));
                if e1 == i1 || v > u32::MAX || !(s.len() == e1 + 1 && lit_at(s, e1, "}"@)) {
                    None
                } else {
                    Some(SetRange::Assign { value: v as u32 })
                }
            }
        },
    }
}

// ===== canonical (strict) decoders, executable =====

/// Strict decoder for the power-flag body.
fn strict_on(s: &str) -> (r: Option<On>)
    ensures
        r == spec_strict_on(s@),
{
    proof {
        reveal_strlit("{\"value\":true}");
        reveal_strlit("{\"value\":false}");
        reveal_strlit("{\"value\":");
        reveal_strlit("true");
        reveal_strlit("false");
        reveal_strlit("}");
        assert("{\"value\":true}"@ =~= spec_enc_on(On { value: true }));
        assert("{\"value\":false}"@ =~= spec_enc_on(On { value: false }));
    }
    if str_eq(s, "{\"value\":true}") {
        Some(On { value: true })
    } else if str_eq(s, "{\"value\":false}") {
        Some(On { value: false })
    } else {
        None
    }
}

/// Strict reader for a canonical bounded-property object at `i`.
fn strict_range_at(s: &str, i: usize) -> (r: Option<(Range, usize)>)
    requires
        i <= s@.len(),
    ensures
        match r {
            Some(p) => spec_strict_range_at(s@, i as int) == Some((p.0, p.1 as int)) && i < p.1
                <= s@.len(),
            None => spec_strict_range_at(s@, i as int) is None,
        },
{
    proof {
        reveal_strlit("}");
    }
    match expect_lit(s, i, "{\"min\":") {
        None => None,
        Some(i1) => match parse_u32(s, i1) {
            None => None,
            Some((vmin, e1)) => match expect_lit(s, e1, ",\"max\":") {
                None => None,
                Some(i2) => match parse_u32(s, i2) {
                    None => None,
                    Some((vmax, e2)) => match expect_lit(s, e2, ",\"value\":") {
                        None => None,
                        Some(i3) => match parse_u32(s, i3) {
                            None => None,
                            Some((vval, e3)) => match expect_lit(s, e3, "}") {
                                None => None,
                                Some(e4) => Some((Range { max: vmax, min: vmin, value: vval }, e4)),
                            },
                        },
                    },
                },
            },
        },
    }
}

/// Strict decoder for the bounded-property body.
fn strict_range(s: &str) -> (r: Option<Range>)
    ensures
        r == spec_strict_range(s@),
{
    match strict_range_at(s, 0) {
        None => None,
        Some((rg, j)) => {
            if j == s.unicode_len() {
                Some(rg)
            } else {
                None
            }
        },
    }
}

/// The whole body as one signed integer within `i32` range.
fn whole_int(s: &str) -> (r: Option<i32>)
    ensures
        r matches Some(m) ==> spec_whole_int(s@) == Some(m as int),
        r is None ==> (match spec_whole_int(s@) {
            Some(m) => !(i32::MIN <= m <= i32::MAX),
            None => true,
        }),
{
    let n: usize = s.unicode_len();
    let neg: bool = n > 0 && s.get_char(0) == '-';
    let start: usize = if neg {
        1
    } else {
        0
    };
    match parse_u32(s, start) {
        None => {
            proof {
                if neg {
                    crate::text::lemma_digits_end_bounds(s@, 1);
                    if digits_end(s@, 1) == s@.len() && digits_end(s@, 1) != 1 {
                        crate::text::lemma_val_of_mono(s@, 1, 1, s@.len() as int);
                    }
                } else {
                    crate::text::lemma_digits_end_bounds(s@, 0);
                    if digits_end(s@, 0) == s@.len() && digits_end(s@, 0) != 0 {
                        crate::text::lemma_val_of_mono(s@, 0, 0, s@.len() as int);
                    }
                }
            }
            None
        },
        Some((v, j)) => {
            if j != n {
                return None;
            }
            if neg {
                if v > 0x8000_0000u32 {
                    return None;
                }
                let m: i64 = -(v as i64);
                let r: i32 = m as i32;
                Some(r)
            } else {
                if v > 0x7FFF_FFFFu32 {
                    return None;
                }
                Some(v as i32)
            }
        },
    }
}

/// Decode a brightness write body. Exactly the canonical shapes decode, in
/// the documented order; everything else is a decode error.
pub fn decode_brightness(s: &str) -> (r: Result<Brightness, Error>)
    ensures
        r == (match spec_dec_brightness(s@) {
            Some(b) => Result::<Brightness, Error>::Ok(b),
            None => Result::<Brightness, Error>::Err(Error::Decode),
        }),
{
    match whole_int(s) {
        Some(m) => Ok(Brightness::Increment(m)),
        None => {
            proof {
                reveal_strlit("{\"value\":");
                reveal_strlit("}");
            }
            match expect_lit(s, 0, "{\"value\":") {
                None => Err(Error::Decode),
                Some(i1) => {
                    proof {
                        lemma_braced_whole_int_is_none(s@);
                    }
                    match parse_u32(s, i1) {
                        None => Err(Error::Decode),
                        Some((v, e1)) => match expect_lit(s, e1, ",\"duration\":") {
                            Some(i2) => match parse_u32(s, i2) {
                                None => Err(Error::Decode),
                                Some((d, e2)) => match expect_lit(s, e2, "}") {
                                    None => Err(Error::Decode),
                                    Some(e3) => {
                                        if e3 == s.unicode_len() {
                                            Ok(
                                                Brightness::AssignWithDuration {
                                                    value: v,
                                                    duration: d,
                                                },
                                            )
                                        } else {
                                            Err(Error::Decode)
                                        }
                                    },
                                },
                            },
                            None => match expect_lit(s, e1, "}") {
                                None => Err(Error::Decode),
                                Some(e2) => {
                                    if e2 == s.unicode_len() {
                                        Ok(Brightness::Assign { value: v })
                                    } else {
                                        Err(Error::Decode)
                                    }
                                },
                            },
                        },
                    }
                },
            }
        },
    }
}

/// Decode a hue/sat/ct write body. Exactly the canonical shapes decode, in
/// the documented order; everything else is a decode error.
pub fn decode_set_range(s: &str) -> (r: Result<SetRange, Error>)
    ensures
        r == (match spec_dec_set_range(s@) {
            Some(v) => Result::<SetRange, Error>::Ok(v),
            None => Result::<SetRange, Error>::Err(Error::Decode),
        }),
{
    match whole_int(s) {
        Some(m) => Ok(SetRange::Increment(m)),
        None => {
            proof {
                reveal_strlit("{\"value\":");
                reveal_strlit("}");
            }
            match expect_lit(s, 0, "{\"value\":") {
                None => Err(Error::Decode),
                Some(i1) => {
                    proof {
                        lemma_braced_whole_int_is_none(s@);
                    }
                    match parse_u32(s, i1) {
                        None => Err(Error::Decode),
                        Some((v, e1)) => match expect_lit(s, e1, "}") {
                            None => Err(Error::Decode),
                            Some(e2) => {
                                if e2 == s.unicode_len() {
                                    Ok(SetRange::Assign { value: v })
                                } else {
                                    Err(Error::Decode)
                                }
                            },
                        },
                    }
                },
            }
        },
    }
}

// ===== strict reading of strings and the token body =====

/// Index of the first quote or backslash at or after `i`.
pub open spec fn text_end(s: Seq<char>, i: int) -> int
    decreases s.len() - i,
{
    if 0 <= i < s.len() && s[i] != '"' && s[i] != '\\' {
        text_end(s, i + 1)
    } else {
        i
    }
}

pub proof fn lemma_text_end_bounds(s: Seq<char>, i: int)
    requires
        0 <= i <= s.len(),
    ensures
        i <= text_end(s, i) <= s.len(),
        forall|k: int| i <= k < text_end(s, i) ==> s[k] != '"' && s[k] != '\\',
    decreases s.len() - i,
{
    if i < s.len() && s[i] != '"' && s[i] != '\\' {
        lemma_text_end_bounds(s, i + 1);
    }
}

/// A run free of quotes and backslashes, ending at one or at the end, is
/// exactly the run found by `text_end`.
pub proof fn lemma_text_end_of_region(s: Seq<char>, i: int, j: int)
    requires
        0 <= i <= j <= s.len(),
        forall|k: int| i <= k < j ==> s[k] != '"' && s[k] != '\\',
        j == s.len() || s[j] == '"' || s[j] == '\\',
    ensures
        text_end(s, i) == j,
    decreases j - i,
{
    if i < j {
        lemma_text_end_of_region(s, i + 1, j);
    }
}

/// Strict reading of a JSON string at `i`: an escape-free run between two
/// quotes. Bodies with escapes fall to the tolerant parser.
pub open spec fn spec_str_at(s: Seq<char>, i: int) -> Option<(Seq<char>, int)> {
    if 0 <= i < s.len() && s[i] == '"' {
        let e = text_end(s, i + 1);
        if e < s.len() && s[e] == '"' {
            Some((s.subrange(i + 1, e), e + 1))
        } else {
            None
        }
    } else {
        None
    }
}

/// Strict reader for an escape-free JSON string at `i`.
fn strict_str_at(s: &str, i: usize) -> (r: Option<(String, usize)>)
    requires
        i <= s@.len(),
    ensures
        match r {
            Some(p) => spec_str_at(s@, i as int) matches Some(q) && q.0 == p.0@ && q.1 == p.1
                as int && i < p.1 <= s@.len(),
            None => spec_str_at(s@, i as int) is None,
        },
{
    let n: usize = s.unicode_len();
    if !(i < n && s.get_char(i) == '"') {
        return None;
    }
    let mut k: usize = i + 1;
    loop
        invariant
            i + 1 <= k <= n,
            n == s@.len(),
            forall|j: int| i + 1 <= j < k ==> s@[j] != '"' && s@[j] != '\\',
        ensures
            i + 1 <= k <= n,
            k == text_end(s@, i as int + 1),
        decreases n - k,
    {
        if k >= n {
            proof {
                lemma_text_end_of_region(s@, i as int + 1, k as int);
            }
            break ;
        }
        let c = s.get_char(k);
        if c == '"' || c == '\\' {
            proof {
                lemma_text_end_of_region(s@, i as int + 1, k as int);
            }
            break ;
        }
        k = k + 1;
    }
    if k < n && s.get_char(k) == '"' {
        let inner = s.substring_char(i + 1, k);
        Some((inner.to_owned(), k + 1))
    } else {
        None
    }
}

/// The encoding of a plain string, standing at `i`, reads back as that
/// string.
proof fn lemma_str_at(s: Seq<char>, i: int, t: Seq<char>)
    requires
        plain_str(t),
        lit_at(s, i, json_str_rep(t)),
    ensures
        spec_str_at(s, i) == Some((t, i + t.len() + 2)),
{
    lemma_json_str_rep_plain(t);
    let rep = json_str_rep(t);
    assert(forall|k: int| 0 <= k < rep.len() ==> #[trigger] s.subrange(i, i + rep.len())[k] == s[
        i + k
    ]);
    assert(s[i] == '"');
    assert(s[i + t.len() + 1] == '"');
    assert forall|k: int| i + 1 <= k < i + 1 + t.len() implies #[trigger] s[k] == t[k - i - 1] by {
        assert(s.subrange(i, i + rep.len() as int)[k - i] == s[k]);
        assert(rep[k - i] == t[k - i - 1]);
    }
    lemma_text_end_of_region(s, i + 1, i + 1 + t.len());
    assert(s.subrange(i + 1, i + 1 + t.len()) =~= t);
}

/// The canonical token body: one `auth_token` string member.
pub open spec fn spec_auth_body(t: Seq<char>) -> Seq<char> {
    "{\"auth_token\":"@ + json_str_rep(t) + "}"@
}

/// Strict reading of a whole canonical token body.
pub open spec fn spec_strict_auth(s: Seq<char>) -> Option<Seq<char>> {
    if !lit_at(s, 0, "{\"auth_token\":"@) {
        None
    } else {
        match spec_str_at(s, "{\"auth_token\":"@.len() as int) {
            None => None,
            Some((t, j)) => {
                if s.len() == j + 1 && lit_at(s, j, "}"@) {
                    Some(t)
                } else {
                    None
                }
            },
        }
    }
}

/// Strict decoder for the canonical token body.
fn strict_auth(s: &str) -> (r: Option<Authorization>)
    ensures
        match r {
            Some(a) => spec_strict_auth(s@) matches Some(t) && a.auth_token@ == t,
            None => spec_strict_auth(s@) is None,
        },
{
    proof {
        reveal_strlit("}");
    }
    match expect_lit(s, 0, "{\"auth_token\":") {
        None => None,
        Some(i1) => match strict_str_at(s, i1) {
            None => None,
            Some((t, j)) => match expect_lit(s, j, "}") {
                None => None,
                Some(j2) => {
                    if j2 == s.unicode_len() {
                        Some(Authorization { auth_token: t })
                    } else {
                        None
                    }
                },
            },
        },
    }
}

/// The canonical encoding of a plain token reads back as that token.
proof fn lemma_auth_round_trip(t: Seq<char>)
    requires
        plain_str(t),
    ensures
        spec_strict_auth(spec_auth_body(t)) == Some(t),
{
    reveal_strlit("{\"auth_token\":");
    reveal_strlit("}");
    lemma_json_str_rep_plain(t);
    let s = spec_auth_body(t);
    let rep = json_str_rep(t);
    let j = 14 + t.len() + 2;
    assert(s.len() == j + 1);
    assert(s.subrange(0, 14) =~= "{\"auth_token\":"@);
    assert(s.subrange(14, 14 + rep.len() as int) =~= rep);
    assert(s.subrange(j as int, j as int + 1) =~= "}"@);
    assert(lit_at(s, 0, "{\"auth_token\":"@));
    assert(lit_at(s, 14, rep));
    lemma_str_at(s, 14, t);
    assert(lit_at(s, j as int, "}"@));
}

// ===== strict reading of string arrays and the effects body =====

/// The members of a canonical JSON string array, comma-separated.
pub open spec fn spec_list_items(l: Seq<Seq<char>>) -> Seq<char>
    decreases l.len(),
{
    if l.len() == 0 {
        Seq::empty()
    } else if l.len() == 1 {
        json_str_rep(l[0])
    } else {
        json_str_rep(l[0]) + seq![','] + spec_list_items(l.drop_first())
    }
}

/// The canonical encoding of a JSON string array.
pub open spec fn spec_enc_str_list(l: Seq<Seq<char>>) -> Seq<char> {
    seq!['['] + spec_list_items(l) + seq![']']
}

/// Every member is free of characters that need escaping.
pub open spec fn plain_str_list(l: Seq<Seq<char>>) -> bool {
    forall|k: int| 0 <= k < l.len() ==> plain_str(l[k])
}

/// Strict reading of one or more comma-separated strings at `i`; `fuel`
/// bounds the recursion and any value at least the member count serves.
pub open spec fn spec_strict_items(s: Seq<char>, i: int, fuel: nat) -> Option<
    (Seq<Seq<char>>, int),
>
    decreases fuel,
{
    if fuel == 0 {
        None
    } else {
        match spec_str_at(s, i) {
            None => None,
            Some((t, j)) => {
                if 0 <= j < s.len() && s[j] == ',' {
                    match spec_strict_items(s, j + 1, (fuel - 1) as nat) {
                        None => None,
                        Some((rest, k)) => Some((seq![t] + rest, k)),
                    }
                } else {
                    Some((seq![t], j))
                }
            },
        }
    }
}

/// Strict reading of a canonical string array at `i`.
pub open spec fn spec_strict_str_list_at(s: Seq<char>, i: int, fuel: nat) -> Option<
    (Seq<Seq<char>>, int),
> {
    if 0 <= i && i + 1 < s.len() && s[i] == '[' && s[i + 1] == ']' {
        Some((Seq::empty(), i + 2))
    } else if 0 <= i < s.len() && s[i] == '[' {
        match spec_strict_items(s, i + 1, fuel) {
            None => None,
            Some((l, j)) => {
                if j < s.len() && s[j] == ']' {
                    Some((l, j + 1))
                } else {
                    None
                }
            },
        }
    } else {
        None
    }
}

/// Strict reader for one or more comma-separated strings at `i`.
fn strict_items(s: &str, i: usize, fuel: usize) -> (r: Option<(Vec<String>, usize)>)
    requires
        i <= s@.len(),
    ensures
        match r {
            Some(p) => spec_strict_items(s@, i as int, fuel as nat) == Some(
                (p.0.deep_view(), p.1 as int),
            ) && i < p.1 <= s@.len(),
            None => spec_strict_items(s@, i as int, fuel as nat) is None,
        },
    decreases fuel,
{
    if fuel == 0 {
        return None;
    }
    match strict_str_at(s, i) {
        None => None,
        Some((t, j)) => {
            let n: usize = s.unicode_len();
            if j < n && s.get_char(j) == ',' {
                match strict_items(s, j + 1, fuel - 1) {
                    None => None,
                    Some((rest, k)) => {
                        let ghost rest_dv = rest.deep_view();
                        let mut out: Vec<String> = Vec::new();
                        out.push(t);
                        let mut rest_v = rest;
                        out.append(&mut rest_v);
                        proof {
                            assert(out.deep_view() =~= seq![out@[0]@] + rest_dv) by {
                                assert(forall|q: int|
                                    0 <= q < rest_dv.len() ==> #[trigger] rest_dv[q] == out@[q
                                        + 1]@);
                            }
                        }
                        Some((out, k))
                    },
                }
            } else {
                let mut out: Vec<String> = Vec::new();
                out.push(t);
                proof {
                    assert(out.deep_view() =~= seq![out@[0]@]);
                }
                Some((out, j))
            }
        },
    }
}

/// Strict reader for a canonical string array at `i`.
fn strict_str_list_at(s: &str, i: usize, fuel: usize) -> (r: Option<(Vec<String>, usize)>)
    requires
        i <= s@.len(),
    ensures
        match r {
            Some(p) => spec_strict_str_list_at(s@, i as int, fuel as nat) == Some(
                (p.0.deep_view(), p.1 as int),
            ) && i < p.1 <= s@.len(),
            None => spec_strict_str_list_at(s@, i as int, fuel as nat) is None,
        },
{
    let n: usize = s.unicode_len();
    if !(i < n && s.get_char(i) == '[') {
        return None;
    }
    if i + 1 < n && s.get_char(i + 1) == ']' {
        let out: Vec<String> = Vec::new();
        proof {
            assert(out.deep_view() =~= Seq::<Seq<char>>::empty());
        }
        return Some((out, i + 2));
    }
    match strict_items(s, i + 1, fuel) {
        None => None,
        Some((l, j)) => {
            if j < n && s.get_char(j) == ']' {
                Some((l, j + 1))
            } else {
                None
            }
        },
    }
}

/// The members of a canonical array take at least one character each.
proof fn lemma_items_len(l: Seq<Seq<char>>)
    ensures
        spec_list_items(l).len() >= l.len(),
    decreases l.len(),
{
    if l.len() > 1 {
        lemma_items_len(l.drop_first());
    }
}

/// Canonical comma-separated members, standing at `i` and bounded by a
/// closing bracket, read back exactly.
proof fn lemma_items_at(s: Seq<char>, i: int, l: Seq<Seq<char>>, fuel: nat)
    requires
        l.len() >= 1,
        plain_str_list(l),
        lit_at(s, i, spec_list_items(l)),
        i + spec_list_items(l).len() < s.len(),
        s[i + spec_list_items(l).len()] == ']',
        fuel >= l.len(),
    ensures
        spec_strict_items(s, i, fuel) == Some((l, i + spec_list_items(l).len())),
    decreases l.len(),
{
    let items = spec_list_items(l);
    assert(forall|k: int| 0 <= k < items.len() ==> #[trigger] s.subrange(i, i + items.len())[k]
        == s[i + k]);
    let rep0 = json_str_rep(l[0]);
    lemma_json_str_rep_plain(l[0]);
    assert(lit_at(s, i, rep0)) by {
        assert(s.subrange(i, i + rep0.len() as int) =~= rep0) by {
            assert(forall|k: int|
                0 <= k < rep0.len() ==> #[trigger] s.subrange(i, i + rep0.len() as int)[k] == s[i
                    + k]);
        }
    }
    lemma_str_at(s, i, l[0]);
    let j = i + rep0.len();
    if l.len() == 1 {
        assert(s[j] == ']');
        assert(seq![l[0]] =~= l);
    } else {
        let rest = l.drop_first();
        assert(items =~= rep0 + seq![','] + spec_list_items(rest));
        assert(s[j] == ',') by {
            assert(items[j - i] == ',');
        }
        assert(plain_str_list(rest)) by {
            assert(forall|k: int| 0 <= k < rest.len() ==> rest[k] == l[k + 1]);
        }
        assert(lit_at(s, j + 1, spec_list_items(rest))) by {
            assert(s.subrange(j + 1, j + 1 + spec_list_items(rest).len() as int)
                =~= spec_list_items(rest)) by {
                assert(forall|k: int|
                    0 <= k < spec_list_items(rest).len() ==> #[trigger] s.subrange(
                        j + 1,
                        j + 1 + spec_list_items(rest).len() as int,
                    )[k] == s[j + 1 + k] && items[j + 1 + k - i] == spec_list_items(rest)[k]);
            }
        }
        lemma_items_at(s, j + 1, rest, (fuel - 1) as nat);
        assert(seq![l[0]] + rest =~= l);
    }
}

/// A canonical string array, standing at `i`, reads back exactly.
proof fn lemma_str_list_at(s: Seq<char>, i: int, l: Seq<Seq<char>>, fuel: nat)
    requires
        plain_str_list(l),
        lit_at(s, i, spec_enc_str_list(l)),
        fuel >= l.len(),
    ensures
        spec_strict_str_list_at(s, i, fuel) == Some((l, i + spec_enc_str_list(l).len())),
{
    let enc = spec_enc_str_list(l);
    let items = spec_list_items(l);
    assert(forall|k: int| 0 <= k < enc.len() ==> #[trigger] s.subrange(i, i + enc.len())[k] == s[i
        + k]);
    assert(s[i] == '[') by {
        assert(s.subrange(i, i + enc.len())[0] == s[i]);
        assert(enc[0] == '[');
    }
    assert(s[i + enc.len() - 1] == ']') by {
        assert(s.subrange(i, i + enc.len())[enc.len() - 1] == s[i + enc.len() - 1]);
        assert(enc[enc.len() - 1] == ']');
    }
    if l.len() == 0 {
        assert(enc =~= seq!['[', ']']);
        assert(s[i + 1] == ']');
        assert(Seq::<Seq<char>>::empty() =~= l);
    } else {
        lemma_json_str_rep_plain(l[0]);
        assert(s[i + 1] == '"') by {
            assert(s.subrange(i, i + enc.len())[1] == s[i + 1]);
            assert(enc[1] == items[0]);
            assert(items[0] == json_str_rep(l[0])[0]);
        }
        assert(lit_at(s, i + 1, items)) by {
            assert(s.subrange(i + 1, i + 1 + items.len() as int) =~= items) by {
                assert forall|k: int|
                    0 <= k < items.len() implies s.subrange(i + 1, i + 1 + items.len() as int)[k]
                    == items[k] by {
                    assert(s.subrange(i, i + enc.len())[k + 1] == s[i + 1 + k]);
                    assert(enc[k + 1] == items[k]);
                }
            }
        }
        lemma_items_at(s, i + 1, l, fuel);
    }
}

// ===== strict reading of the effects and state bodies =====

/// The canonical effects body.
pub open spec fn spec_enc_effects(list: Seq<Seq<char>>, select: Seq<char>) -> Seq<char> {
    "{\"effectsList\":"@ + spec_enc_str_list(list) + ",\"select\":"@ + json_str_rep(select)
        + "}"@
}

/// Strict reading of a canonical effects object at `i`.
pub open spec fn spec_strict_effects_at(s: Seq<char>, i: int, fuel: nat) -> Option<
    ((Seq<Seq<char>>, Seq<char>), int),
> {
    if !lit_at(s, i, "{\"effectsList\":"@) {
        None
    } else {
        match spec_strict_str_list_at(s, i + "{\"effectsList\":"@.len(), fuel) {
            None => None,
            Some((l, j)) => {
                if !lit_at(s, j, ",\"select\":"@) {
                    None
                } else {
                    match spec_str_at(s, j + ",\"select\":"@.len()) {
                        None => None,
                        Some((t, j2)) => {
                            if lit_at(s, j2, "}"@) {
                                Some(((l, t), j2 + 1))
                            } else {
                                None
                            }
                        },
                    }
                }
            },
        }
    }
}

/// Strict reading of a whole canonical effects body.
pub open spec fn spec_strict_effects(s: Seq<char>, fuel: nat) -> Option<
    (Seq<Seq<char>>, Seq<char>),
> {
    match spec_strict_effects_at(s, 0, fuel) {
        Some((p, j)) => if j == s.len() {
            Some(p)
        } else {
            None
        },
        None => None,
    }
}

/// Strict reader for a canonical effects object at `i`.
fn strict_effects_at(s: &str, i: usize, fuel: usize) -> (r: Option<(Effects, usize)>)
    requires
        i <= s@.len(),
    ensures
        match r {
            Some(p) => spec_strict_effects_at(s@, i as int, fuel as nat) matches Some(q)
                && p.0.effects_list.deep_view() == q.0.0 && p.0.select@ == q.0.1 && q.1 == p.1
                as int && p.1 <= s@.len(),
            None => spec_strict_effects_at(s@, i as int, fuel as nat) is None,
        },
{
    proof {
        reveal_strlit("}");
    }
    match expect_lit(s, i, "{\"effectsList\":") {
        None => None,
        Some(i1) => match strict_str_list_at(s, i1, fuel) {
            None => None,
            Some((l, j)) => match expect_lit(s, j, ",\"select\":") {
                None => None,
                Some(i2) => match strict_str_at(s, i2) {
                    None => None,
                    Some((t, j2)) => match expect_lit(s, j2, "}") {
                        None => None,
                        Some(j3) => Some((Effects { effects_list: l, select: t }, j3)),
                    },
                },
            },
        },
    }
}

/// Strict decoder for the canonical effects body.
fn strict_effects(s: &str) -> (r: Option<Effects>)
    ensures
        match r {
            Some(e) => spec_strict_effects(s@, s@.len()) matches Some(p)
                && e.effects_list.deep_view() == p.0 && e.select@ == p.1,
            None => spec_strict_effects(s@, s@.len()) is None,
        },
{
    let n: usize = s.unicode_len();
    match strict_effects_at(s, 0, n) {
        None => None,
        Some((e, j)) => {
            if j == n {
                Some(e)
            } else {
                None
            }
        },
    }
}

/// The canonical encoding of an effects catalog of plain strings,
/// standing at `i`, reads back exactly.
proof fn lemma_effects_at(s: Seq<char>, i: int, list: Seq<Seq<char>>, select: Seq<char>, fuel: nat)
    requires
        plain_str_list(list),
        plain_str(select),
        fuel >= list.len(),
        lit_at(s, i, spec_enc_effects(list, select)),
    ensures
        spec_strict_effects_at(s, i, fuel) == Some(
            ((list, select), i + spec_enc_effects(list, select).len()),
        ),
{
    reveal_strlit("{\"effectsList\":");
    reveal_strlit(",\"select\":");
    reveal_strlit("}");
    lemma_json_str_rep_plain(select);
    let enc = spec_enc_effects(list, select);
    let encl = spec_enc_str_list(list);
    let rep = json_str_rep(select);
    let j: int = i + 15 + encl.len() as int;
    let j2: int = j + 10 + rep.len() as int;
    assert(forall|k: int| 0 <= k < enc.len() ==> #[trigger] s.subrange(i, i + enc.len())[k] == s[
        i + k
    ]);
    assert(enc.len() == j2 + 1 - i);
    assert(s.subrange(i, i + 15) =~= "{\"effectsList\":"@) by {
        assert(forall|k: int| 0 <= k < 15 ==> #[trigger] s.subrange(i, i + 15)[k] == enc[k]);
    }
    assert(s.subrange(i + 15, j) =~= encl) by {
        assert(forall|k: int|
            0 <= k < encl.len() ==> #[trigger] s.subrange(i + 15, j)[k] == enc[k + 15]);
    }
    assert(s.subrange(j, j + 10) =~= ",\"select\":"@) by {
        assert(forall|k: int|
            0 <= k < 10 ==> #[trigger] s.subrange(j, j + 10)[k] == enc[k + (j - i)]);
    }
    assert(s.subrange(j + 10, j2) =~= rep) by {
        assert(forall|k: int|
            0 <= k < rep.len() ==> #[trigger] s.subrange(j + 10, j2)[k] == enc[k + (j + 10 - i)]);
    }
    assert(s.subrange(j2, j2 + 1) =~= "}"@) by {
        assert(s.subrange(j2, j2 + 1)[0] == enc[j2 - i]);
    }
    assert(lit_at(s, i, "{\"effectsList\":"@));
    assert(lit_at(s, i + 15, encl));
    lemma_str_list_at(s, i + 15, list, fuel);
    assert(lit_at(s, j, ",\"select\":"@));
    assert(lit_at(s, j + 10, rep));
    lemma_str_at(s, j + 10, select);
    assert(lit_at(s, j2, "}"@));
}

/// Strict reading of a canonical power-flag object at `i`.
pub open spec fn spec_strict_on_at(s: Seq<char>, i: int) -> Option<(On, int)> {
    if lit_at(s, i, spec_enc_on(On { value: true })) {
        Some((On { value: true }, i + spec_enc_on(On { value: true }).len()))
    } else if lit_at(s, i, spec_enc_on(On { value: false })) {
        Some((On { value: false }, i + spec_enc_on(On { value: false }).len()))
    } else {
        None
    }
}

/// Strict reader for a canonical power-flag object at `i`.
fn strict_on_at(s: &str, i: usize) -> (r: Option<(On, usize)>)
    requires
        i <= s@.len(),
    ensures
        match r {
            Some(p) => spec_strict_on_at(s@, i as int) == Some((p.0, p.1 as int)) && p.1
                <= s@.len(),
            None => spec_strict_on_at(s@, i as int) is None,
        },
{
    proof {
        reveal_strlit("{\"value\":true}");
        reveal_strlit("{\"value\":false}");
        reveal_strlit("{\"value\":");
        reveal_strlit("true");
        reveal_strlit("false");
        reveal_strlit("}");
        assert("{\"value\":true}"@ =~= spec_enc_on(On { value: true }));
        assert("{\"value\":false}"@ =~= spec_enc_on(On { value: false }));
    }
    match expect_lit(s, i, "{\"value\":true}") {
        Some(j) => Some((On { value: true }, j)),
        None => match expect_lit(s, i, "{\"value\":false}") {
            Some(j) => Some((On { value: false }, j)),
            None => None,
        },
    }
}

/// The canonical encoding of a power flag, standing at `i`, reads back as
/// that flag.
proof fn lemma_on_at(s: Seq<char>, i: int, o: On)
    requires
        lit_at(s, i, spec_enc_on(o)),
    ensures
        spec_strict_on_at(s, i) == Some((o, i + spec_enc_on(o).len())),
{
    reveal_strlit("{\"value\":");
    reveal_strlit("true");
    reveal_strlit("false");
    reveal_strlit("}");
    if !o.value {
        assert(spec_enc_on(On { value: false }).len() == 15);
        assert(spec_enc_on(On { value: true }).len() == 14);
        assert(spec_enc_on(o)[9] == 'f') by {
            assert(spec_enc_on(o)[9] == spec_enc_bool(false)[0]);
        }
        assert(!lit_at(s, i, spec_enc_on(On { value: true }))) by {
            if lit_at(s, i, spec_enc_on(On { value: true })) {
                assert(s.subrange(i, i + 14)[9] == s[i + 9]);
                assert(s.subrange(i, i + 15)[9] == s[i + 9]);
                assert(spec_enc_on(On { value: true })[9] == 't') by {
                    assert(spec_enc_on(On { value: true })[9] == spec_enc_bool(true)[0]);
                }
            }
        }
    }
}

/// The canonical state body.
pub open spec fn spec_enc_state(st: State) -> Seq<char> {
    "{\"colorMode\":"@ + json_str_rep(st.color_mode@) + ",\"brightness\":"@ + spec_enc_range(
        st.brightness,
    ) + ",\"ct\":"@ + spec_enc_range(st.ct) + ",\"hue\":"@ + spec_enc_range(st.hue)
        + ",\"sat\":"@ + spec_enc_range(st.sat) + ",\"on\":"@ + spec_enc_on(st.on) + "}"@
}

/// Strict reading of a canonical state object at `i`.
pub open spec fn spec_strict_state_at(s: Seq<char>, i: int) -> Option<
    ((Seq<char>, Range, Range, Range, Range, On), int),
> {
    if !lit_at(s, i, "{\"colorMode\":"@) {
        None
    } else {
        match spec_str_at(s, i + "{\"colorMode\":"@.len()) {
            None => None,
            Some((cm, p1)) => {
                if !lit_at(s, p1, ",\"brightness\":"@) {
                    None
                } else {
                    match spec_strict_range_at(s, p1 + 14) {
                        None => None,
                        Some((b, p2)) => {
                            if !lit_at(s, p2, ",\"ct\":"@) {
                                None
                            } else {
                                match spec_strict_range_at(s, p2 + 6) {
                                    None => None,
                                    Some((c, p3)) => {
                                        if !lit_at(s, p3, ",\"hue\":"@) {
                                            None
                                        } else {
                                            match spec_strict_range_at(s, p3 + 7) {
                                                None => None,
                                                Some((h, p4)) => {
                                                    if !lit_at(s, p4, ",\"sat\":"@) {
                                                        None
                                                    } else {
                                                        match spec_strict_range_at(s, p4 + 7) {
                                                            None => None,
                                                            Some((sa, p5)) => {
                                                                if !lit_at(s, p5, ",\"on\":"@) {
                                                                    None
                                                                } else {
                                                                    match spec_strict_on_at(
                                                                        s,
                                                                        p5 + 6,
                                                                    ) {
                                                                        None => None,
                                                                        Some((o, p6)) => {
                                                                            if lit_at(
                                                                                s,
                                                                                p6,
                                                                                "}"@,
                                                                            ) {
                                                                                Some(
                                                                                    (
                                                                                        (
                                                                                            cm,
                                                                                            b,
                                                                                            c,
                                                                                            h,
                                                                                            sa,
                                                                                            o,
                                                                                        ),
                                                                                        p6 + 1,
                                                                                    ),
                                                                                )
                                                                            } else {
                                                                                None
                                                                            }
                                                                        },
                                                                    }
                                                                }
                                                            },
                                                        }
                                                    }
                                                },
                                            }
                                        }
                                    },
                                }
                            }
                        },
                    }
                }
            },
        }
    }
}

/// Strict reading of a whole canonical state body.
pub open spec fn spec_strict_state(s: Seq<char>) -> Option<
    (Seq<char>, Range, Range, Range, Range, On),
> {
    match spec_strict_state_at(s, 0) {
        Some((p, j)) => if j == s.len() {
            Some(p)
        } else {
            None
        },
        None => None,
    }
}

/// Strict reader for a canonical state object at `i`.
fn strict_state_at(s: &str, i: usize) -> (r: Option<(State, usize)>)
    requires
        i <= s@.len(),
    ensures
        match r {
            Some(p) => spec_strict_state_at(s@, i as int) matches Some(q) && p.0.color_mode@
                == q.0.0 && p.0.brightness == q.0.1 && p.0.ct == q.0.2 && p.0.hue == q.0.3
                && p.0.sat == q.0.4 && p.0.on == q.0.5 && q.1 == p.1 as int && p.1 <= s@.len(),
            None => spec_strict_state_at(s@, i as int) is None,
        },
{
    proof {
        reveal_strlit("}");
        reveal_strlit(",\"brightness\":");
        reveal_strlit(",\"ct\":");
        reveal_strlit(",\"hue\":");
        reveal_strlit(",\"sat\":");
        reveal_strlit(",\"on\":");
    }
    match expect_lit(s, i, "{\"colorMode\":") {
        None => None,
        Some(i1) => match strict_str_at(s, i1) {
            None => None,
            Some((cm, p1)) => match expect_lit(s, p1, ",\"brightness\":") {
                None => None,
                Some(q1) => match strict_range_at(s, q1) {
                    None => None,
                    Some((b, p2)) => match expect_lit(s, p2, ",\"ct\":") {
                        None => None,
                        Some(q2) => match strict_range_at(s, q2) {
                            None => None,
                            Some((c, p3)) => match expect_lit(s, p3, ",\"hue\":") {
                                None => None,
                                Some(q3) => match strict_range_at(s, q3) {
                                    None => None,
                                    Some((h, p4)) => match expect_lit(s, p4, ",\"sat\":") {
                                        None => None,
                                        Some(q4) => match strict_range_at(s, q4) {
                                            None => None,
                                            Some((sa, p5)) => match expect_lit(s, p5, ",\"on\":") {
                                                None => None,
                                                Some(q5) => match strict_on_at(s, q5) {
                                                    None => None,
                                                    Some((o, p6)) => match expect_lit(s, p6, "}") {
                                                        None => None,
                                                        Some(p7) => Some(
                                                            (
                                                                State {
                                                                    color_mode: cm,
                                                                    brightness: b,
                                                                    ct: c,
                                                                    hue: h,
                                                                    sat: sa,
                                                                    on: o,
                                                                },
                                                                p7,
                                                            ),
                                                        ),
                                                    },
                                                },
                                            },
                                        },
                                    },
                                },
                            },
                        },
                    },
                },
            },
        },
    }
}

/// Strict decoder for the canonical state body.
fn strict_state(s: &str) -> (r: Option<State>)
    ensures
        match r {
            Some(v) => spec_strict_state(s@) matches Some(p) && v.color_mode@ == p.0
                && v.brightness == p.1 && v.ct == p.2 && v.hue == p.3 && v.sat == p.4 && v.on
                == p.5,
            None => spec_strict_state(s@) is None,
        },
{
    let n: usize = s.unicode_len();
    match strict_state_at(s, 0) {
        None => None,
        Some((v, j)) => {
            if j == n {
                Some(v)
            } else {
                None
            }
        },
    }
}

/// The canonical encoding of a state with a plain color mode, standing at
/// `i`, reads back exactly.
#[verifier::rlimit(100)]
#[verifier::spinoff_prover]
proof fn lemma_state_at(s: Seq<char>, i: int, st: State)
    requires
        plain_str(st.color_mode@),
        lit_at(s, i, spec_enc_state(st)),
    ensures
        spec_strict_state_at(s, i) matches Some(p) && p.0.0 == st.color_mode@ && p.0.1
            == st.brightness && p.0.2 == st.ct && p.0.3 == st.hue && p.0.4 == st.sat && p.0.5
            == st.on && p.1 == i + spec_enc_state(st).len(),
{
    reveal_strlit("{\"colorMode\":");
    reveal_strlit(",\"brightness\":");
    reveal_strlit(",\"ct\":");
    reveal_strlit(",\"hue\":");
    reveal_strlit(",\"sat\":");
    reveal_strlit(",\"on\":");
    reveal_strlit("}");
    lemma_json_str_rep_plain(st.color_mode@);
    let enc = spec_enc_state(st);
    let rep = json_str_rep(st.color_mode@);
    let eb = spec_enc_range(st.brightness);
    let ec = spec_enc_range(st.ct);
    let eh = spec_enc_range(st.hue);
    let es = spec_enc_range(st.sat);
    let eo = spec_enc_on(st.on);
    let p1: int = i + 13 + rep.len() as int;
    let q1: int = p1 + 14;
    let p2: int = q1 + eb.len() as int;
    let q2: int = p2 + 6;
    let p3: int = q2 + ec.len() as int;
    let q3: int = p3 + 7;
    let p4: int = q3 + eh.len() as int;
    let q4: int = p4 + 7;
    let p5: int = q4 + es.len() as int;
    let q5: int = p5 + 6;
    let p6: int = q5 + eo.len() as int;
    assert(forall|k: int| 0 <= k < enc.len() ==> #[trigger] s.subrange(i, i + enc.len())[k] == s[
        i + k
    ]);
    assert(enc.len() == p6 + 1 - i);
    assert(s.subrange(i, i + 13) =~= "{\"colorMode\":"@) by {
        assert(forall|k: int| 0 <= k < 13 ==> #[trigger] s.subrange(i, i + 13)[k] == enc[k]);
    }
    assert(s.subrange(i + 13, p1) =~= rep) by {
        assert(forall|k: int|
            0 <= k < rep.len() ==> #[trigger] s.subrange(i + 13, p1)[k] == enc[k + 13]);
    }
    assert(s.subrange(p1, q1) =~= ",\"brightness\":"@) by {
        assert(forall|k: int|
            0 <= k < 14 ==> #[trigger] s.subrange(p1, q1)[k] == enc[k + (p1 - i)]);
    }
    assert(s.subrange(q1, p2) =~= eb) by {
        assert(forall|k: int|
            0 <= k < eb.len() ==> #[trigger] s.subrange(q1, p2)[k] == enc[k + (q1 - i)]);
    }
    assert(s.subrange(p2, q2) =~= ",\"ct\":"@) by {
        assert(forall|k: int|
            0 <= k < 6 ==> #[trigger] s.subrange(p2, q2)[k] == enc[k + (p2 - i)]);
    }
    assert(s.subrange(q2, p3) =~= ec) by {
        assert(forall|k: int|
            0 <= k < ec.len() ==> #[trigger] s.subrange(q2, p3)[k] == enc[k + (q2 - i)]);
    }
    assert(s.subrange(p3, q3) =~= ",\"hue\":"@) by {
        assert(forall|k: int|
            0 <= k < 7 ==> #[trigger] s.subrange(p3, q3)[k] == enc[k + (p3 - i)]);
    }
    assert(s.subrange(q3, p4) =~= eh) by {
        assert(forall|k: int|
            0 <= k < eh.len() ==> #[trigger] s.subrange(q3, p4)[k] == enc[k + (q3 - i)]);
    }
    assert(s.subrange(p4, q4) =~= ",\"sat\":"@) by {
        assert(forall|k: int|
            0 <= k < 7 ==> #[trigger] s.subrange(p4, q4)[k] == enc[k + (p4 - i)]);
    }
    assert(s.subrange(q4, p5) =~= es) by {
        assert(forall|k: int|
            0 <= k < es.len() ==> #[trigger] s.subrange(q4, p5)[k] == enc[k + (q4 - i)]);
    }
    assert(s.subrange(p5, q5) =~= ",\"on\":"@) by {
        assert(forall|k: int|
            0 <= k < 6 ==> #[trigger] s.subrange(p5, q5)[k] == enc[k + (p5 - i)]);
    }
    assert(s.subrange(q5, p6) =~= eo) by {
        assert(forall|k: int|
            0 <= k < eo.len() ==> #[trigger] s.subrange(q5, p6)[k] == enc[k + (q5 - i)]);
    }
    assert(s.subrange(p6, p6 + 1) =~= "}"@) by {
        assert(s.subrange(p6, p6 + 1)[0] == enc[p6 - i]);
    }
    assert(lit_at(s, i, "{\"colorMode\":"@));
    assert(lit_at(s, i + 13, rep));
    lemma_str_at(s, i + 13, st.color_mode@);
    assert(lit_at(s, p1, ",\"brightness\":"@));
    assert(lit_at(s, q1, eb));
    lemma_range_at(s, q1, st.brightness);
    assert(lit_at(s, p2, ",\"ct\":"@));
    assert(lit_at(s, q2, ec));
    lemma_range_at(s, q2, st.ct);
    assert(lit_at(s, p3, ",\"hue\":"@));
    assert(lit_at(s, q3, eh));
    lemma_range_at(s, q3, st.hue);
    assert(lit_at(s, p4, ",\"sat\":"@));
    assert(lit_at(s, q4, es));
    lemma_range_at(s, q4, st.sat);
    assert(lit_at(s, p5, ",\"on\":"@));
    assert(lit_at(s, q5, eo));
    lemma_on_at(s, q5, st.on);
    assert(lit_at(s, p6, "}"@));
}

// ===== strict reading of the panel-geometry and snapshot bodies =====

/// The canonical encoding of one panel position.
pub open spec fn spec_enc_position(p: Position) -> Seq<char> {
    "{\"panelId\":"@ + dec_rep(p.panel_id as nat) + ",\"o\":"@ + int_rep(p.o as int)
        + ",\"x\":"@ + int_rep(p.x as int) + ",\"y\":"@ + int_rep(p.y as int)
        + ",\"shapeType\":"@ + dec_rep(crate::models::shape_code(p.shape_type) as nat) + "}"@
}

/// Strict reading of a canonical position object at `i`. A shape code
/// outside the closed enumeration reads as nothing.
pub open spec fn spec_strict_position_at(s: Seq<char>, i: int) -> Option<(Position, int)> {
    if !lit_at(s, i, "{\"panelId\":"@) {
        None
    } else {
        let i1 = i + 11;
        let e1 = digits_end(s, i1);
        let pid = val_of(s.subrange(i1, e1));
        if e1 == i1 || pid > u32::MAX || !lit_at(s, e1, ",\"o\":"@) {
            None
        } else {
            match crate::text::spec_parse_i32(s, e1 + 5) {
                None => None,
                Some((o, e2)) => {
                    if !lit_at(s, e2, ",\"x\":"@) {
                        None
                    } else {
                        match crate::text::spec_parse_i32(s, e2 + 5) {
                            None => None,
                            Some((x, e3)) => {
                                if !lit_at(s, e3, ",\"y\":"@) {
                                    None
                                } else {
                                    match crate::text::spec_parse_i32(s, e3 + 5) {
                                        None => None,
                                        Some((y, e4)) => {
                                            if !lit_at(s, e4, ",\"shapeType\":"@) {
                                                None
                                            } else {
                                                let i5 = e4 + 13;
                                                let e5 = digits_end(s, i5);
                                                let code = val_of(s.subrange(i5, e5));
                                                if e5 == i5 || code > u32::MAX {
                                                    None
                                                } else {
                                                    match crate::models::spec_shape_of_code(code) {
                                                        None => None,
                                                        Some(st) => {
                                                            if lit_at(s, e5, "}"@) {
                                                                Some(
                                                                    (
                                                                        Position {
                                                                            panel_id: pid as u32,
                                                                            o: o as i32,
                                                                            x: x as i32,
                                                                            y: y as i32,
                                                                            shape_type: st,
                                                                        },
                                                                        e5 + 1,
                                                                    ),
                                                                )
                                                            } else {
                                                                None
                                                            }
                                                        },
                                                    }
                                                }
                                            }
                                        },
                                    }
                                }
                            },
                        }
                    }
                },
            }
        }
    }
}

/// Strict reader for a canonical position object at `i`.
#[verifier::rlimit(100)]
#[verifier::spinoff_prover]
fn strict_position_at(s: &str, i: usize) -> (r: Option<(Position, usize)>)
    requires
        i <= s@.len(),
    ensures
        match r {
            Some(p) => spec_strict_position_at(s@, i as int) == Some((p.0, p.1 as int)) && i < p.1
                <= s@.len(),
            None => spec_strict_position_at(s@, i as int) is None,
        },
{
    proof {
        reveal_strlit("{\"panelId\":");
        reveal_strlit(",\"o\":");
        reveal_strlit(",\"x\":");
        reveal_strlit(",\"y\":");
        reveal_strlit(",\"shapeType\":");
        reveal_strlit("}");
    }
    match expect_lit(s, i, "{\"panelId\":") {
        None => None,
        Some(i1) => match parse_u32(s, i1) {
            None => None,
            Some((pid, e1)) => match expect_lit(s, e1, ",\"o\":") {
                None => None,
                Some(q1) => match parse_i32(s, q1) {
                    None => None,
                    Some((o, e2)) => match expect_lit(s, e2, ",\"x\":") {
                        None => None,
                        Some(q2) => match parse_i32(s, q2) {
                            None => None,
                            Some((x, e3)) => match expect_lit(s, e3, ",\"y\":") {
                                None => None,
                                Some(q3) => match parse_i32(s, q3) {
                                    None => None,
                                    Some((y, e4)) => match expect_lit(s, e4, ",\"shapeType\":") {
                                        None => None,
                                        Some(q4) => match parse_u32(s, q4) {
                                            None => None,
                                            Some((code, e5)) => match shape_of_code(code) {
                                                None => None,
                                                Some(st) => match expect_lit(s, e5, "}") {
                                                    None => None,
                                                    Some(e6) => Some(
                                                        (
                                                            Position {
                                                                panel_id: pid,
                                                                o: o,
                                                                x: x,
                                                                y: y,
                                                                shape_type: st,
                                                            },
                                                            e6,
                                                        ),
                                                    ),
                                                },
                                            },
                                        },
                                    },
                                },
                            },
                        },
                    },
                },
            },
        },
    }
}

/// The canonical encoding of a position, standing at `i`, reads back as
/// that position.
#[verifier::rlimit(100)]
#[verifier::spinoff_prover]
proof fn lemma_position_at(s: Seq<char>, i: int, p: Position)
    requires
        lit_at(s, i, spec_enc_position(p)),
    ensures
        spec_strict_position_at(s, i) == Some((p, i + spec_enc_position(p).len())),
{
    reveal_strlit("{\"panelId\":");
    reveal_strlit(",\"o\":");
    reveal_strlit(",\"x\":");
    reveal_strlit(",\"y\":");
    reveal_strlit(",\"shapeType\":");
    reveal_strlit("}");
    let enc = spec_enc_position(p);
    let d1 = dec_rep(p.panel_id as nat);
    let r2 = int_rep(p.o as int);
    let r3 = int_rep(p.x as int);
    let r4 = int_rep(p.y as int);
    let d5 = dec_rep(crate::models::shape_code(p.shape_type) as nat);
    lemma_dec_rep(p.panel_id as nat);
    lemma_dec_rep(crate::models::shape_code(p.shape_type) as nat);
    let i1 = i + 11;
    let e1 = i1 + d1.len() as int;
    let q1 = e1 + 5;
    let e2 = q1 + r2.len() as int;
    let q2 = e2 + 5;
    let e3 = q2 + r3.len() as int;
    let q3 = e3 + 5;
    let e4 = q3 + r4.len() as int;
    let q4 = e4 + 13;
    let e5 = q4 + d5.len() as int;
    assert(forall|k: int| 0 <= k < enc.len() ==> #[trigger] s.subrange(i, i + enc.len())[k] == s[
        i + k
    ]);
    assert(enc.len() == e5 + 1 - i);
    assert(s.subrange(i, i1) =~= "{\"panelId\":"@) by {
        assert(forall|k: int| 0 <= k < 11 ==> #[trigger] s.subrange(i, i1)[k] == enc[k]);
    }
    assert(s.subrange(i1, e1) =~= d1) by {
        assert(forall|k: int|
            0 <= k < d1.len() ==> #[trigger] s.subrange(i1, e1)[k] == enc[k + 11]);
    }
    assert(s.subrange(e1, q1) =~= ",\"o\":"@) by {
        assert(forall|k: int|
            0 <= k < 5 ==> #[trigger] s.subrange(e1, q1)[k] == enc[k + (e1 - i)]);
    }
    assert(s.subrange(q1, e2) =~= r2) by {
        assert(forall|k: int|
            0 <= k < r2.len() ==> #[trigger] s.subrange(q1, e2)[k] == enc[k + (q1 - i)]);
    }
    assert(s.subrange(e2, q2) =~= ",\"x\":"@) by {
        assert(forall|k: int|
            0 <= k < 5 ==> #[trigger] s.subrange(e2, q2)[k] == enc[k + (e2 - i)]);
    }
    assert(s.subrange(q2, e3) =~= r3) by {
        assert(forall|k: int|
            0 <= k < r3.len() ==> #[trigger] s.subrange(q2, e3)[k] == enc[k + (q2 - i)]);
    }
    assert(s.subrange(e3, q3) =~= ",\"y\":"@) by {
        assert(forall|k: int|
            0 <= k < 5 ==> #[trigger] s.subrange(e3, q3)[k] == enc[k + (e3 - i)]);
    }
    assert(s.subrange(q3, e4) =~= r4) by {
        assert(forall|k: int|
            0 <= k < r4.len() ==> #[trigger] s.subrange(q3, e4)[k] == enc[k + (q3 - i)]);
    }
    assert(s.subrange(e4, q4) =~= ",\"shapeType\":"@) by {
        assert(forall|k: int|
            0 <= k < 13 ==> #[trigger] s.subrange(e4, q4)[k] == enc[k + (e4 - i)]);
    }
    assert(s.subrange(q4, e5) =~= d5) by {
        assert(forall|k: int|
            0 <= k < d5.len() ==> #[trigger] s.subrange(q4, e5)[k] == enc[k + (q4 - i)]);
    }
    assert(s.subrange(e5, e5 + 1) =~= "}"@) by {
        assert(s.subrange(e5, e5 + 1)[0] == enc[e5 - i]);
    }
    assert(lit_at(s, i, "{\"panelId\":"@));
    assert(s[e1] == ',') by {
        assert(s.subrange(e1, q1)[0] == s[e1]);
    }
    assert(!is_digit(s[e1]));
    lemma_num_at(s, i1, p.panel_id as nat);
    assert(lit_at(s, e1, ",\"o\":"@));
    assert(s[e2] == ',') by {
        assert(s.subrange(e2, q2)[0] == s[e2]);
    }
    assert(!is_digit(s[e2]));
    assert(lit_at(s, q1, r2));
    crate::text::lemma_int_at(s, q1, p.o as int);
    assert(lit_at(s, e2, ",\"x\":"@));
    assert(s[e3] == ',') by {
        assert(s.subrange(e3, q3)[0] == s[e3]);
    }
    assert(!is_digit(s[e3]));
    assert(lit_at(s, q2, r3));
    crate::text::lemma_int_at(s, q2, p.x as int);
    assert(lit_at(s, e3, ",\"y\":"@));
    assert(s[e4] == ',') by {
        assert(s.subrange(e4, q4)[0] == s[e4]);
    }
    assert(!is_digit(s[e4]));
    assert(lit_at(s, q3, r4));
    crate::text::lemma_int_at(s, q3, p.y as int);
    assert(lit_at(s, e4, ",\"shapeType\":"@));
    assert(s[e5] == '}') by {
        assert(s.subrange(e5, e5 + 1)[0] == s[e5]);
    }
    assert(!is_digit(s[e5]));
    lemma_num_at(s, q4, crate::models::shape_code(p.shape_type) as nat);
    crate::models::lemma_shape_code_round_trip(p.shape_type);
    assert(lit_at(s, e5, "}"@));
}

/// The members of a canonical position array, comma-separated.
pub open spec fn spec_pos_items(l: Seq<Position>) -> Seq<char>
    decreases l.len(),
{
    if l.len() == 0 {
        Seq::empty()
    } else if l.len() == 1 {
        spec_enc_position(l[0])
    } else {
        spec_enc_position(l[0]) + seq![','] + spec_pos_items(l.drop_first())
    }
}

/// The canonical encoding of a position array.
pub open spec fn spec_enc_pos_list(l: Seq<Position>) -> Seq<char> {
    seq!['['] + spec_pos_items(l) + seq![']']
}

/// Strict reading of comma-separated positions at `i`.
pub open spec fn spec_strict_pos_items(s: Seq<char>, i: int, fuel: nat) -> Option<
    (Seq<Position>, int),
>
    decreases fuel,
{
    if fuel == 0 {
        None
    } else {
        match spec_strict_position_at(s, i) {
            None => None,
            Some((p, j)) => {
                if 0 <= j < s.len() && s[j] == ',' {
                    match spec_strict_pos_items(s, j + 1, (fuel - 1) as nat) {
                        None => None,
                        Some((rest, k)) => Some((seq![p] + rest, k)),
                    }
                } else {
                    Some((seq![p], j))
                }
            },
        }
    }
}

/// Strict reading of a canonical position array at `i`.
pub open spec fn spec_strict_pos_list_at(s: Seq<char>, i: int, fuel: nat) -> Option<
    (Seq<Position>, int),
> {
    if 0 <= i && i + 1 < s.len() && s[i] == '[' && s[i + 1] == ']' {
        Some((Seq::empty(), i + 2))
    } else if 0 <= i < s.len() && s[i] == '[' {
        match spec_strict_pos_items(s, i + 1, fuel) {
            None => None,
            Some((l, j)) => {
                if j < s.len() && s[j] == ']' {
                    Some((l, j + 1))
                } else {
                    None
                }
            },
        }
    } else {
        None
    }
}

/// Strict reader for comma-separated positions at `i`.
fn strict_pos_items(s: &str, i: usize, fuel: usize) -> (r: Option<(Vec<Position>, usize)>)
    requires
        i <= s@.len(),
    ensures
        match r {
            Some(p) => spec_strict_pos_items(s@, i as int, fuel as nat) == Some((p.0@, p.1 as int))
                && i < p.1 <= s@.len(),
            None => spec_strict_pos_items(s@, i as int, fuel as nat) is None,
        },
    decreases fuel,
{
    if fuel == 0 {
        return None;
    }
    match strict_position_at(s, i) {
        None => None,
        Some((p, j)) => {
            let n: usize = s.unicode_len();
            if j < n && s.get_char(j) == ',' {
                match strict_pos_items(s, j + 1, fuel - 1) {
                    None => None,
                    Some((rest, k)) => {
                        let ghost rest_view = rest@;
                        let mut out: Vec<Position> = Vec::new();
                        out.push(p);
                        let mut rest_v = rest;
                        out.append(&mut rest_v);
                        proof {
                            assert(out@ =~= seq![p] + rest_view);
                        }
                        Some((out, k))
                    },
                }
            } else {
                let mut out: Vec<Position> = Vec::new();
                out.push(p);
                proof {
                    assert(out@ =~= seq![p]);
                }
                Some((out, j))
            }
        },
    }
}

/// Strict reader for a canonical position array at `i`.
fn strict_pos_list_at(s: &str, i: usize, fuel: usize) -> (r: Option<(Vec<Position>, usize)>)
    requires
        i <= s@.len(),
    ensures
        match r {
            Some(p) => spec_strict_pos_list_at(s@, i as int, fuel as nat) == Some(
                (p.0@, p.1 as int),
            ) && i < p.1 <= s@.len(),
            None => spec_strict_pos_list_at(s@, i as int, fuel as nat) is None,
        },
{
    let n: usize = s.unicode_len();
    if !(i < n && s.get_char(i) == '[') {
        return None;
    }
    if i + 1 < n && s.get_char(i + 1) == ']' {
        let out: Vec<Position> = Vec::new();
        proof {
            assert(out@ =~= Seq::<Position>::empty());
        }
        return Some((out, i + 2));
    }
    match strict_pos_items(s, i + 1, fuel) {
        None => None,
        Some((l, j)) => {
            if j < n && s.get_char(j) == ']' {
                Some((l, j + 1))
            } else {
                None
            }
        },
    }
}

/// The members of a canonical position array take at least one character
/// each.
proof fn lemma_pos_items_len(l: Seq<Position>)
    ensures
        spec_pos_items(l).len() >= l.len(),
    decreases l.len(),
{
    if l.len() == 1 {
        reveal_strlit("{\"panelId\":");
        lemma_dec_rep(l[0].panel_id as nat);
    } else if l.len() > 1 {
        reveal_strlit("{\"panelId\":");
        lemma_dec_rep(l[0].panel_id as nat);
        lemma_pos_items_len(l.drop_first());
    }
}

/// Canonical comma-separated positions, standing at `i` and bounded by a
/// closing bracket, read back exactly.
proof fn lemma_pos_items_at(s: Seq<char>, i: int, l: Seq<Position>, fuel: nat)
    requires
        l.len() >= 1,
        lit_at(s, i, spec_pos_items(l)),
        i + spec_pos_items(l).len() < s.len(),
        s[i + spec_pos_items(l).len()] == ']',
        fuel >= l.len(),
    ensures
        spec_strict_pos_items(s, i, fuel) == Some((l, i + spec_pos_items(l).len())),
    decreases l.len(),
{
    let items = spec_pos_items(l);
    assert(forall|k: int| 0 <= k < items.len() ==> #[trigger] s.subrange(i, i + items.len())[k]
        == s[i + k]);
    let rep0 = spec_enc_position(l[0]);
    assert(lit_at(s, i, rep0)) by {
        assert(s.subrange(i, i + rep0.len() as int) =~= rep0) by {
            assert(forall|k: int|
                0 <= k < rep0.len() ==> #[trigger] s.subrange(i, i + rep0.len() as int)[k] == s[i
                    + k]);
        }
    }
    lemma_position_at(s, i, l[0]);
    let j = i + rep0.len();
    if l.len() == 1 {
        assert(s[j] == ']');
        assert(seq![l[0]] =~= l);
    } else {
        let rest = l.drop_first();
        assert(items =~= rep0 + seq![','] + spec_pos_items(rest));
        assert(s[j] == ',') by {
            assert(items[j - i] == ',');
        }
        assert(lit_at(s, j + 1, spec_pos_items(rest))) by {
            assert(s.subrange(j + 1, j + 1 + spec_pos_items(rest).len() as int)
                =~= spec_pos_items(rest)) by {
                assert(forall|k: int|
                    0 <= k < spec_pos_items(rest).len() ==> #[trigger] s.subrange(
                        j + 1,
                        j + 1 + spec_pos_items(rest).len() as int,
                    )[k] == s[j + 1 + k] && items[j + 1 + k - i] == spec_pos_items(rest)[k]);
            }
        }
        lemma_pos_items_at(s, j + 1, rest, (fuel - 1) as nat);
        assert(seq![l[0]] + rest =~= l);
    }
}

/// A canonical position array, standing at `i`, reads back exactly.
proof fn lemma_pos_list_at(s: Seq<char>, i: int, l: Seq<Position>, fuel: nat)
    requires
        lit_at(s, i, spec_enc_pos_list(l)),
        fuel >= l.len(),
    ensures
        spec_strict_pos_list_at(s, i, fuel) == Some((l, i + spec_enc_pos_list(l).len())),
{
    let enc = spec_enc_pos_list(l);
    let items = spec_pos_items(l);
    assert(forall|k: int| 0 <= k < enc.len() ==> #[trigger] s.subrange(i, i + enc.len())[k] == s[i
        + k]);
    assert(s[i] == '[') by {
        assert(s.subrange(i, i + enc.len())[0] == s[i]);
        assert(enc[0] == '[');
    }
    assert(s[i + enc.len() - 1] == ']') by {
        assert(s.subrange(i, i + enc.len())[enc.len() - 1] == s[i + enc.len() - 1]);
        assert(enc[enc.len() - 1] == ']');
    }
    if l.len() == 0 {
        assert(enc =~= seq!['[', ']']);
        assert(s[i + 1] == ']');
        assert(Seq::<Position>::empty() =~= l);
    } else {
        reveal_strlit("{\"panelId\":");
        assert(s[i + 1] == '{') by {
            assert(s.subrange(i, i + enc.len())[1] == s[i + 1]);
            assert(enc[1] == items[0]);
            assert(items[0] == spec_enc_position(l[0])[0]);
        }
        assert(lit_at(s, i + 1, items)) by {
            assert(s.subrange(i + 1, i + 1 + items.len() as int) =~= items) by {
                assert forall|k: int|
                    0 <= k < items.len() implies s.subrange(i + 1, i + 1 + items.len() as int)[k]
                    == items[k] by {
                    assert(s.subrange(i, i + enc.len())[k + 1] == s[i + 1 + k]);
                    assert(enc[k + 1] == items[k]);
                }
            }
        }
        lemma_pos_items_at(s, i + 1, l, fuel);
    }
}

/// The canonical layout object.
pub open spec fn spec_enc_layout(num: u32, side: u32, pos: Seq<Position>) -> Seq<char> {
    "{\"numPanels\":"@ + dec_rep(num as nat) + ",\"sideLength\":"@ + dec_rep(side as nat)
        + ",\"positionData\":"@ + spec_enc_pos_list(pos) + "}"@
}

/// Strict reading of a canonical layout object at `i`.
pub open spec fn spec_strict_layout_at(s: Seq<char>, i: int, fuel: nat) -> Option<
    ((u32, u32, Seq<Position>), int),
> {
    if !lit_at(s, i, "{\"numPanels\":"@) {
        None
    } else {
        let i1 = i + "{\"numPanels\":"@.len();
        let e1 = digits_end(s, i1);
        let num = val_of(s.subrange(i1, e1));
        if e1 == i1 || num > u32::MAX || !lit_at(s, e1, ",\"sideLength\":"@) {
            None
        } else {
            let i2 = e1 + ",\"sideLength\":"@.len();
            let e2 = digits_end(s, i2);
            let side = val_of(s.subrange(i2, e2));
            if e2 == i2 || side > u32::MAX || !lit_at(s, e2, ",\"positionData\":"@) {
                None
            } else {
                match spec_strict_pos_list_at(s, e2 + ",\"positionData\":"@.len(), fuel) {
                    None => None,
                    Some((pos, j)) => {
                        if lit_at(s, j, "}"@) {
                            Some(((num as u32, side as u32, pos), j + 1))
                        } else {
                            None
                        }
                    },
                }
            }
        }
    }
}

/// Strict reader for a canonical layout object at `i`.
fn strict_layout_at(s: &str, i: usize, fuel: usize) -> (r: Option<(Layout, usize)>)
    requires
        i <= s@.len(),
    ensures
        match r {
            Some(p) => spec_strict_layout_at(s@, i as int, fuel as nat) matches Some(q)
                && p.0.num_panels == q.0.0 && p.0.side_length == q.0.1 && p.0.position_data@
                == q.0.2 && q.1 == p.1 as int && p.1 <= s@.len(),
            None => spec_strict_layout_at(s@, i as int, fuel as nat) is None,
        },
{
    proof {
        reveal_strlit("}");
    }
    match expect_lit(s, i, "{\"numPanels\":") {
        None => None,
        Some(i1) => match parse_u32(s, i1) {
            None => None,
            Some((num, e1)) => match expect_lit(s, e1, ",\"sideLength\":") {
                None => None,
                Some(i2) => match parse_u32(s, i2) {
                    None => None,
                    Some((side, e2)) => match expect_lit(s, e2, ",\"positionData\":") {
                        None => None,
                        Some(i3) => match strict_pos_list_at(s, i3, fuel) {
                            None => None,
                            Some((pos, j)) => match expect_lit(s, j, "}") {
                                None => None,
                                Some(j2) => Some(
                                    (
                                        Layout {
                                            num_panels: num,
                                            side_length: side,
                                            position_data: pos,
                                        },
                                        j2,
                                    ),
                                ),
                            },
                        },
                    },
                },
            },
        },
    }
}

/// The canonical encoding of a layout, standing at `i`, reads back
/// exactly.
#[verifier::rlimit(100)]
#[verifier::spinoff_prover]
proof fn lemma_layout_at(s: Seq<char>, i: int, num: u32, side: u32, pos: Seq<Position>, fuel: nat)
    requires
        lit_at(s, i, spec_enc_layout(num, side, pos)),
        fuel >= pos.len(),
    ensures
        spec_strict_layout_at(s, i, fuel) == Some(
            ((num, side, pos), i + spec_enc_layout(num, side, pos).len()),
        ),
{
    reveal_strlit("{\"numPanels\":");
    reveal_strlit(",\"sideLength\":");
    reveal_strlit(",\"positionData\":");
    reveal_strlit("}");
    let enc = spec_enc_layout(num, side, pos);
    let d1 = dec_rep(num as nat);
    let d2 = dec_rep(side as nat);
    let encp = spec_enc_pos_list(pos);
    lemma_dec_rep(num as nat);
    lemma_dec_rep(side as nat);
    let i1 = i + 13;
    let e1 = i1 + d1.len() as int;
    let i2 = e1 + 14;
    let e2 = i2 + d2.len() as int;
    let i3 = e2 + 16;
    let j = i3 + encp.len() as int;
    assert(forall|k: int| 0 <= k < enc.len() ==> #[trigger] s.subrange(i, i + enc.len())[k] == s[
        i + k
    ]);
    assert(enc.len() == j + 1 - i);
    assert(s.subrange(i, i1) =~= "{\"numPanels\":"@) by {
        assert(forall|k: int| 0 <= k < 13 ==> #[trigger] s.subrange(i, i1)[k] == enc[k]);
    }
    assert(s.subrange(i1, e1) =~= d1) by {
        assert(forall|k: int|
            0 <= k < d1.len() ==> #[trigger] s.subrange(i1, e1)[k] == enc[k + 13]);
    }
    assert(s.subrange(e1, i2) =~= ",\"sideLength\":"@) by {
        assert(forall|k: int|
            0 <= k < 14 ==> #[trigger] s.subrange(e1, i2)[k] == enc[k + (e1 - i)]);
    }
    assert(s.subrange(i2, e2) =~= d2) by {
        assert(forall|k: int|
            0 <= k < d2.len() ==> #[trigger] s.subrange(i2, e2)[k] == enc[k + (i2 - i)]);
    }
    assert(s.subrange(e2, i3) =~= ",\"positionData\":"@) by {
        assert(forall|k: int|
            0 <= k < 16 ==> #[trigger] s.subrange(e2, i3)[k] == enc[k + (e2 - i)]);
    }
    assert(s.subrange(i3, j) =~= encp) by {
        assert(forall|k: int|
            0 <= k < encp.len() ==> #[trigger] s.subrange(i3, j)[k] == enc[k + (i3 - i)]);
    }
    assert(s.subrange(j, j + 1) =~= "}"@) by {
        assert(s.subrange(j, j + 1)[0] == enc[j - i]);
    }
    assert(lit_at(s, i, "{\"numPanels\":"@));
    assert(s[e1] == ',') by {
        assert(s.subrange(e1, i2)[0] == s[e1]);
    }
    assert(!is_digit(s[e1]));
    lemma_num_at(s, i1, num as nat);
    assert(lit_at(s, e1, ",\"sideLength\":"@));
    assert(s[e2] == ',') by {
        assert(s.subrange(e2, i3)[0] == s[e2]);
    }
    assert(!is_digit(s[e2]));
    lemma_num_at(s, i2, side as nat);
    assert(lit_at(s, e2, ",\"positionData\":"@));
    assert(lit_at(s, i3, encp));
    lemma_pos_list_at(s, i3, pos, fuel);
    assert(lit_at(s, j, "}"@));
}

/// The canonical panel-layout object.
pub open spec fn spec_enc_panel_layout(
    go: GlobalOrientation,
    num: u32,
    side: u32,
    pos: Seq<Position>,
) -> Seq<char> {
    "{\"globalOrientation\":"@ + spec_enc_range(
        Range { max: go.max, min: go.min, value: go.value },
    ) + ",\"layout\":"@ + spec_enc_layout(num, side, pos) + "}"@
}

/// Strict reading of a canonical panel-layout object at `i`.
pub open spec fn spec_strict_panel_layout_at(s: Seq<char>, i: int, fuel: nat) -> Option<
    ((Range, (u32, u32, Seq<Position>)), int),
> {
    if !lit_at(s, i, "{\"globalOrientation\":"@) {
        None
    } else {
        match spec_strict_range_at(s, i + "{\"globalOrientation\":"@.len()) {
            None => None,
            Some((go, j)) => {
                if !lit_at(s, j, ",\"layout\":"@) {
                    None
                } else {
                    match spec_strict_layout_at(s, j + ",\"layout\":"@.len(), fuel) {
                        None => None,
                        Some((lay, j2)) => {
                            if lit_at(s, j2, "}"@) {
                                Some(((go, lay), j2 + 1))
                            } else {
                                None
                            }
                        },
                    }
                }
            },
        }
    }
}

/// Strict reader for a canonical panel-layout object at `i`.
fn strict_panel_layout_at(s: &str, i: usize, fuel: usize) -> (r: Option<(PanelLayout, usize)>)
    requires
        i <= s@.len(),
    ensures
        match r {
            Some(p) => spec_strict_panel_layout_at(s@, i as int, fuel as nat) matches Some(q)
                && p.0.global_orientation.max == q.0.0.max && p.0.global_orientation.min
                == q.0.0.min && p.0.global_orientation.value == q.0.0.value
                && p.0.layout.num_panels == q.0.1.0 && p.0.layout.side_length == q.0.1.1
                && p.0.layout.position_data@ == q.0.1.2 && q.1 == p.1 as int && p.1 <= s@.len(),
            None => spec_strict_panel_layout_at(s@, i as int, fuel as nat) is None,
        },
{
    proof {
        reveal_strlit("}");
    }
    match expect_lit(s, i, "{\"globalOrientation\":") {
        None => None,
        Some(i1) => match strict_range_at(s, i1) {
            None => None,
            Some((go, j)) => match expect_lit(s, j, ",\"layout\":") {
                None => None,
                Some(i2) => match strict_layout_at(s, i2, fuel) {
                    None => None,
                    Some((lay, j2)) => match expect_lit(s, j2, "}") {
                        None => None,
                        Some(j3) => Some(
                            (
                                PanelLayout {
                                    global_orientation: GlobalOrientation {
                                        max: go.max,
                                        min: go.min,
                                        value: go.value,
                                    },
                                    layout: lay,
                                },
                                j3,
                            ),
                        ),
                    },
                },
            },
        },
    }
}

/// The canonical encoding of a panel layout, standing at `i`, reads back
/// exactly.
#[verifier::rlimit(100)]
#[verifier::spinoff_prover]
proof fn lemma_panel_layout_at(
    s: Seq<char>,
    i: int,
    go: GlobalOrientation,
    num: u32,
    side: u32,
    pos: Seq<Position>,
    fuel: nat,
)
    requires
        lit_at(s, i, spec_enc_panel_layout(go, num, side, pos)),
        fuel >= pos.len(),
    ensures
        spec_strict_panel_layout_at(s, i, fuel) matches Some(q) && q.0.0 == (Range {
            max: go.max,
            min: go.min,
            value: go.value,
        }) && q.0.1 == (num, side, pos) && q.1 == i + spec_enc_panel_layout(
            go,
            num,
            side,
            pos,
        ).len(),
{
    reveal_strlit("{\"globalOrientation\":");
    reveal_strlit(",\"layout\":");
    reveal_strlit("}");
    let enc = spec_enc_panel_layout(go, num, side, pos);
    let rg = Range { max: go.max, min: go.min, value: go.value };
    let er = spec_enc_range(rg);
    let el = spec_enc_layout(num, side, pos);
    let j: int = i + 21 + er.len() as int;
    let j2: int = j + 10 + el.len() as int;
    assert(forall|k: int| 0 <= k < enc.len() ==> #[trigger] s.subrange(i, i + enc.len())[k] == s[
        i + k
    ]);
    assert(enc.len() == j2 + 1 - i);
    assert(s.subrange(i, i + 21) =~= "{\"globalOrientation\":"@) by {
        assert(forall|k: int| 0 <= k < 21 ==> #[trigger] s.subrange(i, i + 21)[k] == enc[k]);
    }
    assert(s.subrange(i + 21, j) =~= er) by {
        assert(forall|k: int|
            0 <= k < er.len() ==> #[trigger] s.subrange(i + 21, j)[k] == enc[k + 21]);
    }
    assert(s.subrange(j, j + 10) =~= ",\"layout\":"@) by {
        assert(forall|k: int|
            0 <= k < 10 ==> #[trigger] s.subrange(j, j + 10)[k] == enc[k + (j - i)]);
    }
    assert(s.subrange(j + 10, j2) =~= el) by {
        assert(forall|k: int|
            0 <= k < el.len() ==> #[trigger] s.subrange(j + 10, j2)[k] == enc[k + (j + 10 - i)]);
    }
    assert(s.subrange(j2, j2 + 1) =~= "}"@) by {
        assert(s.subrange(j2, j2 + 1)[0] == enc[j2 - i]);
    }
    assert(lit_at(s, i, "{\"globalOrientation\":"@));
    assert(lit_at(s, i + 21, er));
    lemma_range_at(s, i + 21, rg);
    assert(lit_at(s, j, ",\"layout\":"@));
    assert(lit_at(s, j + 10, el));
    lemma_layout_at(s, j + 10, num, side, pos, fuel);
    assert(lit_at(s, j2, "}"@));
}

/// Every string member of a snapshot is free of characters that need
/// escaping.
pub open spec fn plain_info(p: PanelInfo) -> bool {
    plain_str(p.name@) && plain_str(p.manufacturer@) && plain_str(p.model@) && plain_str(
        p.firmware_version@,
    ) && plain_str(p.serial_number@) && plain_str(p.state.color_mode@) && plain_str_list(
        p.effects.effects_list.deep_view(),
    ) && plain_str(p.effects.select@)
}

/// Two snapshots agree on every field, views compared.
pub open spec fn panel_info_like(v: PanelInfo, p: PanelInfo) -> bool {
    v.name@ == p.name@ && v.manufacturer@ == p.manufacturer@ && v.model@ == p.model@
        && v.firmware_version@ == p.firmware_version@ && v.serial_number@ == p.serial_number@
        && v.state.color_mode@ == p.state.color_mode@ && v.state.brightness == p.state.brightness
        && v.state.ct == p.state.ct && v.state.hue == p.state.hue && v.state.sat == p.state.sat
        && v.state.on == p.state.on && v.effects.effects_list.deep_view()
        == p.effects.effects_list.deep_view() && v.effects.select@ == p.effects.select@
        && v.panel_layout.global_orientation == p.panel_layout.global_orientation
        && v.panel_layout.layout.num_panels == p.panel_layout.layout.num_panels
        && v.panel_layout.layout.side_length == p.panel_layout.layout.side_length
        && v.panel_layout.layout.position_data@ == p.panel_layout.layout.position_data@
}

/// The canonical snapshot body of `p`, wire member names included.
pub open spec fn spec_enc_panel_info(p: PanelInfo) -> Seq<char> {
    "{\"name\":"@ + json_str_rep(p.name@) + ",\"manufacturer\":"@ + json_str_rep(
        p.manufacturer@,
    ) + ",\"model\":"@ + json_str_rep(p.model@) + ",\"firmwareVersion\":"@ + json_str_rep(
        p.firmware_version@,
    ) + ",\"serialNo\":"@ + json_str_rep(p.serial_number@) + ",\"state\":"@ + spec_enc_state(
        p.state,
    ) + ",\"effects\":"@ + spec_enc_effects(
        p.effects.effects_list.deep_view(),
        p.effects.select@,
    ) + ",\"panelLayout\":"@ + spec_enc_panel_layout(
        p.panel_layout.global_orientation,
        p.panel_layout.layout.num_panels,
        p.panel_layout.layout.side_length,
        p.panel_layout.layout.position_data@,
    ) + "}"@
}

/// Strict reading of a whole canonical snapshot body.
pub open spec fn spec_strict_panel_info(s: Seq<char>, fuel: nat) -> Option<
    (
        Seq<char>,
        Seq<char>,
        Seq<char>,
        Seq<char>,
        Seq<char>,
        (Seq<char>, Range, Range, Range, Range, On),
        (Seq<Seq<char>>, Seq<char>),
        (Range, (u32, u32, Seq<Position>)),
    ),
> {
    if !lit_at(s, 0, "{\"name\":"@) {
        None
    } else {
        match spec_str_at(s, "{\"name\":"@.len() as int) {
            None => None,
            Some((nm, a1)) => {
                if !lit_at(s, a1, ",\"manufacturer\":"@) {
                    None
                } else {
                    match spec_str_at(s, a1 + ",\"manufacturer\":"@.len()) {
                        None => None,
                        Some((mf, a2)) => {
                            if !lit_at(s, a2, ",\"model\":"@) {
                                None
                            } else {
                                match spec_str_at(s, a2 + ",\"model\":"@.len()) {
                                    None => None,
                                    Some((md, a3)) => {
                                        if !lit_at(s, a3, ",\"firmwareVersion\":"@) {
                                            None
                                        } else {
                                            match spec_str_at(
                                                s,
                                                a3 + ",\"firmwareVersion\":"@.len(),
                                            ) {
                                                None => None,
                                                Some((fw, a4)) => {
                                                    if !lit_at(s, a4, ",\"serialNo\":"@) {
                                                        None
                                                    } else {
                                                        match spec_str_at(
                                                            s,
                                                            a4 + ",\"serialNo\":"@.len(),
                                                        ) {
                                                            None => None,
                                                            Some((sn, a5)) => {
                                                                if !lit_at(
                                                                    s,
                                                                    a5,
                                                                    ",\"state\":"@,
                                                                ) {
                                                                    None
                                                                } else {
                                                                    match spec_strict_state_at(
                                                                        s,
                                                                        a5 + ",\"state\":"@.len(),
                                                                    ) {
                                                                        None => None,
                                                                        Some((st, a6)) => {
                                                                            spec_strict_panel_info_tail(
                                                                                s,
                                                                                fuel,
                                                                                nm,
                                                                                mf,
                                                                                md,
                                                                                fw,
                                                                                sn,
                                                                                st,
                                                                                a6,
                                                                            )
                                                                        },
                                                                    }
                                                                }
                                                            },
                                                        }
                                                    }
                                                },
                                            }
                                        }
                                    },
                                }
                            }
                        },
                    }
                }
            },
        }
    }
}

/// The effects and panel-layout tail of the snapshot chain.
pub open spec fn spec_strict_panel_info_tail(
    s: Seq<char>,
    fuel: nat,
    nm: Seq<char>,
    mf: Seq<char>,
    md: Seq<char>,
    fw: Seq<char>,
    sn: Seq<char>,
    st: (Seq<char>, Range, Range, Range, Range, On),
    a6: int,
) -> Option<
    (
        Seq<char>,
        Seq<char>,
        Seq<char>,
        Seq<char>,
        Seq<char>,
        (Seq<char>, Range, Range, Range, Range, On),
        (Seq<Seq<char>>, Seq<char>),
        (Range, (u32, u32, Seq<Position>)),
    ),
> {
    if !lit_at(s, a6, ",\"effects\":"@) {
        None
    } else {
        match spec_strict_effects_at(s, a6 + ",\"effects\":"@.len(), fuel) {
            None => None,
            Some((ef, a7)) => {
                if !lit_at(s, a7, ",\"panelLayout\":"@) {
                    None
                } else {
                    match spec_strict_panel_layout_at(
                        s,
                        a7 + ",\"panelLayout\":"@.len(),
                        fuel,
                    ) {
                        None => None,
                        Some((pl, a8)) => {
                            if s.len() == a8 + 1 && lit_at(s, a8, "}"@) {
                                Some((nm, mf, md, fw, sn, st, ef, pl))
                            } else {
                                None
                            }
                        },
                    }
                }
            },
        }
    }
}

/// Strict decoder for the canonical snapshot body.
fn strict_panel_info(s: &str) -> (r: Option<PanelInfo>)
    ensures
        match r {
            Some(v) => spec_strict_panel_info(s@, s@.len()) matches Some(q) && v.name@ == q.0
                && v.manufacturer@ == q.1 && v.model@ == q.2 && v.firmware_version@ == q.3
                && v.serial_number@ == q.4 && v.state.color_mode@ == q.5.0 && v.state.brightness
                == q.5.1 && v.state.ct == q.5.2 && v.state.hue == q.5.3 && v.state.sat == q.5.4
                && v.state.on == q.5.5 && v.effects.effects_list.deep_view() == q.6.0
                && v.effects.select@ == q.6.1 && v.panel_layout.global_orientation.max
                == q.7.0.max && v.panel_layout.global_orientation.min == q.7.0.min
                && v.panel_layout.global_orientation.value == q.7.0.value
                && v.panel_layout.layout.num_panels == q.7.1.0
                && v.panel_layout.layout.side_length == q.7.1.1
                && v.panel_layout.layout.position_data@ == q.7.1.2,
            None => spec_strict_panel_info(s@, s@.len()) is None,
        },
{
    proof {
        reveal_strlit("}");
    }
    let n: usize = s.unicode_len();
    match expect_lit(s, 0, "{\"name\":") {
        None => None,
        Some(i1) => match strict_str_at(s, i1) {
            None => None,
            Some((nm, a1)) => match expect_lit(s, a1, ",\"manufacturer\":") {
                None => None,
                Some(i2) => match strict_str_at(s, i2) {
                    None => None,
                    Some((mf, a2)) => match expect_lit(s, a2, ",\"model\":") {
                        None => None,
                        Some(i3) => match strict_str_at(s, i3) {
                            None => None,
                            Some((md, a3)) => match expect_lit(s, a3, ",\"firmwareVersion\":") {
                                None => None,
                                Some(i4) => match strict_str_at(s, i4) {
                                    None => None,
                                    Some((fw, a4)) => match expect_lit(s, a4, ",\"serialNo\":") {
                                        None => None,
                                        Some(i5) => match strict_str_at(s, i5) {
                                            None => None,
                                            Some((sn, a5)) => match expect_lit(
                                                s,
                                                a5,
                                                ",\"state\":",
                                            ) {
                                                None => None,
                                                Some(i6) => match strict_state_at(s, i6) {
                                                    None => None,
                                                    Some((st, a6)) => match expect_lit(
                                                        s,
                                                        a6,
                                                        ",\"effects\":",
                                                    ) {
                                                        None => None,
                                                        Some(i7) => match strict_effects_at(
                                                            s,
                                                            i7,
                                                            n,
                                                        ) {
                                                            None => None,
                                                            Some((ef, a7)) => match expect_lit(
                                                                s,
                                                                a7,
                                                                ",\"panelLayout\":",
                                                            ) {
                                                                None => None,
                                                                Some(i8) => match strict_panel_layout_at(
                                                                    s,
                                                                    i8,
                                                                    n,
                                                                ) {
                                                                    None => None,
                                                                    Some((pl, a8)) => match expect_lit(
                                                                        s,
                                                                        a8,
                                                                        "}",
                                                                    ) {
                                                                        None => None,
                                                                        Some(a9) => {
                                                                            if a9 == n {
                                                                                Some(
                                                                                    PanelInfo {
                                                                                        name: nm,
                                                                                        manufacturer: mf,
                                                                                        model: md,
                                                                                        firmware_version: fw,
                                                                                        serial_number: sn,
                                                                                        state: st,
                                                                                        effects: ef,
                                                                                        panel_layout: pl,
                                                                                    },
                                                                                )
                                                                            } else {
                                                                                None
                                                                            }
                                                                        },
                                                                    },
                                                                },
                                                            },
                                                        },
                                                    },
                                                },
                                            },
                                        },
                                    },
                                },
                            },
                        },
                    },
                },
            },
        },
    }
}

/// Placement of the five leading string members inside a canonical
/// snapshot body.
#[verifier::rlimit(100)]
#[verifier::spinoff_prover]
proof fn lemma_panel_info_strings(p: PanelInfo)
    ensures
        ({
            let s = spec_enc_panel_info(p);
            let rn = json_str_rep(p.name@);
            let rm = json_str_rep(p.manufacturer@);
            let rmo = json_str_rep(p.model@);
            let rf = json_str_rep(p.firmware_version@);
            let rs = json_str_rep(p.serial_number@);
            let a1 = 8 + rn.len() as int;
            let b1 = a1 + 16;
            let a2 = b1 + rm.len() as int;
            let b2 = a2 + 9;
            let a3 = b2 + rmo.len() as int;
            let b3 = a3 + 19;
            let a4 = b3 + rf.len() as int;
            let b4 = a4 + 12;
            let a5 = b4 + rs.len() as int;
            &&& lit_at(s, 0, "{\"name\":"@)
            &&& lit_at(s, 8, rn)
            &&& lit_at(s, a1, ",\"manufacturer\":"@)
            &&& lit_at(s, b1, rm)
            &&& lit_at(s, a2, ",\"model\":"@)
            &&& lit_at(s, b2, rmo)
            &&& lit_at(s, a3, ",\"firmwareVersion\":"@)
            &&& lit_at(s, b3, rf)
            &&& lit_at(s, a4, ",\"serialNo\":"@)
            &&& lit_at(s, b4, rs)
            &&& lit_at(s, a5, ",\"state\":"@)
        }),
{
    reveal_strlit("{\"name\":");
    reveal_strlit(",\"manufacturer\":");
    reveal_strlit(",\"model\":");
    reveal_strlit(",\"firmwareVersion\":");
    reveal_strlit(",\"serialNo\":");
    reveal_strlit(",\"state\":");
    let s = spec_enc_panel_info(p);
    let rn = json_str_rep(p.name@);
    let rm = json_str_rep(p.manufacturer@);
    let rmo = json_str_rep(p.model@);
    let rf = json_str_rep(p.firmware_version@);
    let rs = json_str_rep(p.serial_number@);
    let a1: int = 8 + rn.len() as int;
    let b1: int = a1 + 16;
    let a2: int = b1 + rm.len() as int;
    let b2: int = a2 + 9;
    let a3: int = b2 + rmo.len() as int;
    let b3: int = a3 + 19;
    let a4: int = b3 + rf.len() as int;
    let b4: int = a4 + 12;
    let a5: int = b4 + rs.len() as int;
    assert(s.subrange(0, 8) =~= "{\"name\":"@);
    assert(s.subrange(8, a1) =~= rn);
    assert(s.subrange(a1, b1) =~= ",\"manufacturer\":"@);
    assert(s.subrange(b1, a2) =~= rm);
    assert(s.subrange(a2, b2) =~= ",\"model\":"@);
    assert(s.subrange(b2, a3) =~= rmo);
    assert(s.subrange(a3, b3) =~= ",\"firmwareVersion\":"@);
    assert(s.subrange(b3, a4) =~= rf);
    assert(s.subrange(a4, b4) =~= ",\"serialNo\":"@);
    assert(s.subrange(b4, a5) =~= rs);
    assert(s.subrange(a5, a5 + 9) =~= ",\"state\":"@);
}

/// Placement of the state, effects and panel-layout members inside a
/// canonical snapshot body.
#[verifier::rlimit(100)]
#[verifier::spinoff_prover]
proof fn lemma_panel_info_tail_placement(p: PanelInfo)
    ensures
        ({
            let s = spec_enc_panel_info(p);
            let es = spec_enc_state(p.state);
            let ee = spec_enc_effects(p.effects.effects_list.deep_view(), p.effects.select@);
            let ep = spec_enc_panel_layout(
                p.panel_layout.global_orientation,
                p.panel_layout.layout.num_panels,
                p.panel_layout.layout.side_length,
                p.panel_layout.layout.position_data@,
            );
            let b5 = 8 + json_str_rep(p.name@).len() as int + 16 + json_str_rep(
                p.manufacturer@,
            ).len() as int + 9 + json_str_rep(p.model@).len() as int + 19 + json_str_rep(
                p.firmware_version@,
            ).len() as int + 12 + json_str_rep(p.serial_number@).len() as int + 9;
            let a6 = b5 + es.len() as int;
            let b6 = a6 + 11;
            let a7 = b6 + ee.len() as int;
            let b7 = a7 + 15;
            let a8 = b7 + ep.len() as int;
            &&& lit_at(s, b5, es)
            &&& lit_at(s, a6, ",\"effects\":"@)
            &&& lit_at(s, b6, ee)
            &&& lit_at(s, a7, ",\"panelLayout\":"@)
            &&& lit_at(s, b7, ep)
            &&& lit_at(s, a8, "}"@)
            &&& s.len() == a8 + 1
        }),
{
    reveal_strlit("{\"name\":");
    reveal_strlit(",\"manufacturer\":");
    reveal_strlit(",\"model\":");
    reveal_strlit(",\"firmwareVersion\":");
    reveal_strlit(",\"serialNo\":");
    reveal_strlit(",\"state\":");
    reveal_strlit(",\"effects\":");
    reveal_strlit(",\"panelLayout\":");
    reveal_strlit("}");
    let s = spec_enc_panel_info(p);
    let es = spec_enc_state(p.state);
    let ee = spec_enc_effects(p.effects.effects_list.deep_view(), p.effects.select@);
    let ep = spec_enc_panel_layout(
        p.panel_layout.global_orientation,
        p.panel_layout.layout.num_panels,
        p.panel_layout.layout.side_length,
        p.panel_layout.layout.position_data@,
    );
    let b5: int = 8 + json_str_rep(p.name@).len() as int + 16 + json_str_rep(
        p.manufacturer@,
    ).len() as int + 9 + json_str_rep(p.model@).len() as int + 19 + json_str_rep(
        p.firmware_version@,
    ).len() as int + 12 + json_str_rep(p.serial_number@).len() as int + 9;
    let a6: int = b5 + es.len() as int;
    let b6: int = a6 + 11;
    let a7: int = b6 + ee.len() as int;
    let b7: int = a7 + 15;
    let a8: int = b7 + ep.len() as int;
    assert(s.len() == a8 + 1);
    assert(s.subrange(b5, a6) =~= es);
    assert(s.subrange(a6, b6) =~= ",\"effects\":"@);
    assert(s.subrange(b6, a7) =~= ee);
    assert(s.subrange(a7, b7) =~= ",\"panelLayout\":"@);
    assert(s.subrange(b7, a8) =~= ep);
    assert(s.subrange(a8, a8 + 1) =~= "}"@);
}

/// The effects and panel-layout tail of a canonical snapshot body reads
/// back exactly.
#[verifier::rlimit(100)]
#[verifier::spinoff_prover]
proof fn lemma_panel_info_tail(p: PanelInfo, fuel: nat)
    requires
        plain_info(p),
        fuel >= p.effects.effects_list.deep_view().len(),
        fuel >= p.panel_layout.layout.position_data@.len(),
    ensures
        ({
            let s = spec_enc_panel_info(p);
            let b5 = 8 + json_str_rep(p.name@).len() as int + 16 + json_str_rep(
                p.manufacturer@,
            ).len() as int + 9 + json_str_rep(p.model@).len() as int + 19 + json_str_rep(
                p.firmware_version@,
            ).len() as int + 12 + json_str_rep(p.serial_number@).len() as int + 9;
            let a6 = b5 + spec_enc_state(p.state).len() as int;
            spec_strict_panel_info_tail(
                s,
                fuel,
                p.name@,
                p.manufacturer@,
                p.model@,
                p.firmware_version@,
                p.serial_number@,
                (
                    p.state.color_mode@,
                    p.state.brightness,
                    p.state.ct,
                    p.state.hue,
                    p.state.sat,
                    p.state.on,
                ),
                a6,
            ) matches Some(q) && q.0 == p.name@ && q.1 == p.manufacturer@ && q.2 == p.model@
                && q.3 == p.firmware_version@ && q.4 == p.serial_number@ && q.5.0
                == p.state.color_mode@ && q.5.1 == p.state.brightness && q.5.2 == p.state.ct
                && q.5.3 == p.state.hue && q.5.4 == p.state.sat && q.5.5 == p.state.on && q.6.0
                == p.effects.effects_list.deep_view() && q.6.1 == p.effects.select@ && q.7.0
                == (Range {
                max: p.panel_layout.global_orientation.max,
                min: p.panel_layout.global_orientation.min,
                value: p.panel_layout.global_orientation.value,
            }) && q.7.1 == (
                p.panel_layout.layout.num_panels,
                p.panel_layout.layout.side_length,
                p.panel_layout.layout.position_data@,
            )
        }),
{
    reveal_strlit(",\"effects\":");
    reveal_strlit(",\"panelLayout\":");
    reveal_strlit("}");
    lemma_panel_info_tail_placement(p);
    let s = spec_enc_panel_info(p);
    let ee = spec_enc_effects(p.effects.effects_list.deep_view(), p.effects.select@);
    let b5: int = 8 + json_str_rep(p.name@).len() as int + 16 + json_str_rep(
        p.manufacturer@,
    ).len() as int + 9 + json_str_rep(p.model@).len() as int + 19 + json_str_rep(
        p.firmware_version@,
    ).len() as int + 12 + json_str_rep(p.serial_number@).len() as int + 9;
    let a6: int = b5 + spec_enc_state(p.state).len() as int;
    let b6: int = a6 + 11;
    let a7: int = b6 + ee.len() as int;
    let b7: int = a7 + 15;
    lemma_effects_at(s, b6, p.effects.effects_list.deep_view(), p.effects.select@, fuel);
    lemma_panel_layout_at(
        s,
        b7,
        p.panel_layout.global_orientation,
        p.panel_layout.layout.num_panels,
        p.panel_layout.layout.side_length,
        p.panel_layout.layout.position_data@,
        fuel,
    );
}

/// The placement and values of the string and state members of a
/// canonical snapshot body.
#[verifier::rlimit(100)]
#[verifier::spinoff_prover]
proof fn lemma_panel_info_members(p: PanelInfo)
    requires
        plain_info(p),
    ensures
        ({
            let s = spec_enc_panel_info(p);
            let rn = json_str_rep(p.name@);
            let rm = json_str_rep(p.manufacturer@);
            let rmo = json_str_rep(p.model@);
            let rf = json_str_rep(p.firmware_version@);
            let rs = json_str_rep(p.serial_number@);
            let a1 = 8 + rn.len() as int;
            let b1 = a1 + 16;
            let a2 = b1 + rm.len() as int;
            let b2 = a2 + 9;
            let a3 = b2 + rmo.len() as int;
            let b3 = a3 + 19;
            let a4 = b3 + rf.len() as int;
            let b4 = a4 + 12;
            let a5 = b4 + rs.len() as int;
            let b5 = a5 + 9;
            let a6 = b5 + spec_enc_state(p.state).len() as int;
            &&& "{\"name\":"@.len() == 8
            &&& ",\"manufacturer\":"@.len() == 16
            &&& ",\"model\":"@.len() == 9
            &&& ",\"firmwareVersion\":"@.len() == 19
            &&& ",\"serialNo\":"@.len() == 12
            &&& ",\"state\":"@.len() == 9
            &&& lit_at(s, 0, "{\"name\":"@)
            &&& spec_str_at(s, 8) == Some((p.name@, a1))
            &&& lit_at(s, a1, ",\"manufacturer\":"@)
            &&& spec_str_at(s, b1) == Some((p.manufacturer@, a2))
            &&& lit_at(s, a2, ",\"model\":"@)
            &&& spec_str_at(s, b2) == Some((p.model@, a3))
            &&& lit_at(s, a3, ",\"firmwareVersion\":"@)
            &&& spec_str_at(s, b3) == Some((p.firmware_version@, a4))
            &&& lit_at(s, a4, ",\"serialNo\":"@)
            &&& spec_str_at(s, b4) == Some((p.serial_number@, a5))
            &&& lit_at(s, a5, ",\"state\":"@)
        }),
{
    reveal_strlit("{\"name\":");
    reveal_strlit(",\"manufacturer\":");
    reveal_strlit(",\"model\":");
    reveal_strlit(",\"firmwareVersion\":");
    reveal_strlit(",\"serialNo\":");
    reveal_strlit(",\"state\":");
    lemma_json_str_rep_plain(p.name@);
    lemma_json_str_rep_plain(p.manufacturer@);
    lemma_json_str_rep_plain(p.model@);
    lemma_json_str_rep_plain(p.firmware_version@);
    lemma_json_str_rep_plain(p.serial_number@);
    lemma_panel_info_strings(p);
    let s = spec_enc_panel_info(p);
    let rn = json_str_rep(p.name@);
    let rm = json_str_rep(p.manufacturer@);
    let rmo = json_str_rep(p.model@);
    let rf = json_str_rep(p.firmware_version@);
    let rs = json_str_rep(p.serial_number@);
    let a1: int = 8 + rn.len() as int;
    let b1: int = a1 + 16;
    let a2: int = b1 + rm.len() as int;
    let b2: int = a2 + 9;
    let a3: int = b2 + rmo.len() as int;
    let b3: int = a3 + 19;
    let a4: int = b3 + rf.len() as int;
    let b4: int = a4 + 12;
    let a5: int = b4 + rs.len() as int;
    let b5: int = a5 + 9;
    lemma_str_at(s, 8, p.name@);
    lemma_str_at(s, b1, p.manufacturer@);
    lemma_str_at(s, b2, p.model@);
    lemma_str_at(s, b3, p.firmware_version@);
    lemma_str_at(s, b4, p.serial_number@);
}

/// The placement and value of the state member of a canonical snapshot
/// body.
#[verifier::rlimit(100)]
#[verifier::spinoff_prover]
proof fn lemma_panel_info_state_member(p: PanelInfo)
    requires
        plain_info(p),
    ensures
        ({
            let s = spec_enc_panel_info(p);
            let b5 = 8 + json_str_rep(p.name@).len() as int + 16 + json_str_rep(
                p.manufacturer@,
            ).len() as int + 9 + json_str_rep(p.model@).len() as int + 19 + json_str_rep(
                p.firmware_version@,
            ).len() as int + 12 + json_str_rep(p.serial_number@).len() as int + 9;
            let a6 = b5 + spec_enc_state(p.state).len() as int;
            spec_strict_state_at(s, b5) == Some(
                (
                    (
                        p.state.color_mode@,
                        p.state.brightness,
                        p.state.ct,
                        p.state.hue,
                        p.state.sat,
                        p.state.on,
                    ),
                    a6,
                ),
            )
        }),
{
    lemma_panel_info_tail_placement(p);
    let s = spec_enc_panel_info(p);
    let b5: int = 8 + json_str_rep(p.name@).len() as int + 16 + json_str_rep(
        p.manufacturer@,
    ).len() as int + 9 + json_str_rep(p.model@).len() as int + 19 + json_str_rep(
        p.firmware_version@,
    ).len() as int + 12 + json_str_rep(p.serial_number@).len() as int + 9;
    lemma_state_at(s, b5, p.state);
}

/// The string and state prefix of a canonical snapshot body reads back
/// exactly, reducing the whole chain to its tail.
#[verifier::rlimit(100)]
#[verifier::spinoff_prover]
proof fn lemma_panel_info_prefix(p: PanelInfo, fuel: nat)
    requires
        plain_info(p),
    ensures
        ({
            let s = spec_enc_panel_info(p);
            let b5 = 8 + json_str_rep(p.name@).len() as int + 16 + json_str_rep(
                p.manufacturer@,
            ).len() as int + 9 + json_str_rep(p.model@).len() as int + 19 + json_str_rep(
                p.firmware_version@,
            ).len() as int + 12 + json_str_rep(p.serial_number@).len() as int + 9;
            let a6 = b5 + spec_enc_state(p.state).len() as int;
            spec_strict_panel_info(s, fuel) == spec_strict_panel_info_tail(
                s,
                fuel,
                p.name@,
                p.manufacturer@,
                p.model@,
                p.firmware_version@,
                p.serial_number@,
                (
                    p.state.color_mode@,
                    p.state.brightness,
                    p.state.ct,
                    p.state.hue,
                    p.state.sat,
                    p.state.on,
                ),
                a6,
            )
        }),
{
    lemma_panel_info_members(p);
    lemma_panel_info_state_member(p);
}

/// The canonical encoding of a snapshot with plain string members reads
/// back field by field.
#[verifier::rlimit(100)]
#[verifier::spinoff_prover]
proof fn lemma_panel_info_round_trip(p: PanelInfo, fuel: nat)
    requires
        plain_info(p),
        fuel >= p.effects.effects_list.deep_view().len(),
        fuel >= p.panel_layout.layout.position_data@.len(),
    ensures
        spec_strict_panel_info(spec_enc_panel_info(p), fuel) matches Some(q) && q.0 == p.name@
            && q.1 == p.manufacturer@ && q.2 == p.model@ && q.3 == p.firmware_version@ && q.4
            == p.serial_number@ && q.5.0 == p.state.color_mode@ && q.5.1 == p.state.brightness
            && q.5.2 == p.state.ct && q.5.3 == p.state.hue && q.5.4 == p.state.sat && q.5.5
            == p.state.on && q.6.0 == p.effects.effects_list.deep_view() && q.6.1
            == p.effects.select@ && q.7.0 == (Range {
            max: p.panel_layout.global_orientation.max,
            min: p.panel_layout.global_orientation.min,
            value: p.panel_layout.global_orientation.value,
        }) && q.7.1 == (
            p.panel_layout.layout.num_panels,
            p.panel_layout.layout.side_length,
            p.panel_layout.layout.position_data@,
        ),
{
    lemma_panel_info_prefix(p, fuel);
    lemma_panel_info_tail(p, fuel);
}

// ===== round-trip laws =====

/// Law: decoding the canonical encoding of a power flag gives it back.
pub proof fn lemma_on_round_trip(o: On)
    ensures
        spec_strict_on(spec_enc_on(o)) == Some(o),
{
    reveal_strlit("{\"value\":");
    reveal_strlit("true");
    reveal_strlit("false");
    reveal_strlit("}");
    if o.value {
        assert(spec_enc_on(o) == spec_enc_on(On { value: true }));
    } else {
        assert(spec_enc_on(o).len() == 15);
        assert(spec_enc_on(On { value: true }).len() == 14);
        assert(spec_enc_on(o) == spec_enc_on(On { value: false }));
    }
}

/// The canonical encoding of a bounded property, standing at `i`, reads
/// back as that property.
proof fn lemma_range_at(s: Seq<char>, i: int, r: Range)
    requires
        lit_at(s, i, spec_enc_range(r)),
    ensures
        spec_strict_range_at(s, i) == Some((r, i + spec_enc_range(r).len())),
{
    reveal_strlit("{\"min\":");
    reveal_strlit(",\"max\":");
    reveal_strlit(",\"value\":");
    reveal_strlit("}");
    let enc = spec_enc_range(r);
    let d1 = dec_rep(r.min as nat);
    let d2 = dec_rep(r.max as nat);
    let d3 = dec_rep(r.value as nat);
    lemma_dec_rep(r.min as nat);
    lemma_dec_rep(r.max as nat);
    lemma_dec_rep(r.value as nat);
    let i1 = i + 7;
    let e1 = i1 + d1.len();
    let i2 = e1 + 7;
    let e2 = i2 + d2.len();
    let i3 = e2 + 9;
    let e3 = i3 + d3.len();
    assert(forall|k: int| 0 <= k < enc.len() ==> #[trigger] s.subrange(i, i + enc.len())[k] == s[
        i + k
    ]);
    assert(s.subrange(i, i1) =~= "{\"min\":"@) by {
        assert(forall|k: int| 0 <= k < 7 ==> #[trigger] s.subrange(i, i1)[k] == enc[k]);
    }
    assert(s.subrange(i1, e1) =~= d1) by {
        assert(forall|k: int| 0 <= k < d1.len() ==> #[trigger] s.subrange(i1, e1)[k] == enc[k + 7]);
    }
    assert(s.subrange(e1, i2) =~= ",\"max\":"@) by {
        assert(forall|k: int|
            0 <= k < 7 ==> #[trigger] s.subrange(e1, i2)[k] == enc[k + (e1 - i)]);
    }
    assert(s.subrange(i2, e2) =~= d2) by {
        assert(forall|k: int|
            0 <= k < d2.len() ==> #[trigger] s.subrange(i2, e2)[k] == enc[k + (i2 - i)]);
    }
    assert(s.subrange(e2, i3) =~= ",\"value\":"@) by {
        assert(forall|k: int|
            0 <= k < 9 ==> #[trigger] s.subrange(e2, i3)[k] == enc[k + (e2 - i)]);
    }
    assert(s.subrange(i3, e3) =~= d3) by {
        assert(forall|k: int|
            0 <= k < d3.len() ==> #[trigger] s.subrange(i3, e3)[k] == enc[k + (i3 - i)]);
    }
    assert(s.subrange(e3, e3 + 1) =~= "}"@) by {
        assert(s.subrange(e3, e3 + 1)[0] == enc[e3 - i]);
    }
    assert(lit_at(s, i, "{\"min\":"@));
    assert(s[e1] == ',') by {
        assert(s.subrange(e1, i2)[0] == s[e1]);
    }
    assert(!is_digit(s[e1]));
    lemma_num_at(s, i1, r.min as nat);
    assert(lit_at(s, e1, ",\"max\":"@));
    assert(s[e2] == ',') by {
        assert(s.subrange(e2, i3)[0] == s[e2]);
    }
    assert(!is_digit(s[e2]));
    lemma_num_at(s, i2, r.max as nat);
    assert(lit_at(s, e2, ",\"value\":"@));
    assert(s[e3] == '}') by {
        assert(s.subrange(e3, e3 + 1)[0] == s[e3]);
    }
    assert(!is_digit(s[e3]));
    lemma_num_at(s, i3, r.value as nat);
    assert(lit_at(s, e3, "}"@));
}

/// Law: decoding the canonical encoding of a bounded property gives it
/// back, for every combination of its fields.
pub proof fn lemma_range_round_trip(r: Range)
    ensures
        spec_strict_range(spec_enc_range(r)) == Some(r),
{
    let s = spec_enc_range(r);
    assert(lit_at(s, 0, s)) by {
        assert(s.subrange(0, s.len() as int) =~= s);
    }
    lemma_range_at(s, 0, r);
}


/// Law: each brightness write decodes, under the documented resolution
/// order, back to the value it was encoded from.
pub proof fn lemma_brightness_round_trip(b: Brightness)
    ensures
        spec_dec_brightness(spec_enc_brightness(b)) == Some(b),
{
    reveal_strlit("{\"value\":");
    reveal_strlit(",\"duration\":");
    reveal_strlit("}");
    let s = spec_enc_brightness(b);
    match b {
        Brightness::Increment(i) => {
            lemma_whole_int_of_int_rep(i as int);
        },
        Brightness::Assign { value } => {
            let d1 = dec_rep(value as nat);
            lemma_dec_rep(value as nat);
            let i1 = 9int;
            let e1 = i1 + d1.len();
            assert(s.len() == e1 + 1);
            assert(s.subrange(0, 9) =~= "{\"value\":"@);
            assert(s.subrange(i1, e1) =~= d1);
            assert(s.subrange(e1, e1 + 1) =~= "}"@);
            assert(lit_at(s, 0, "{\"value\":"@));
            assert(s[e1] == '}') by {
                assert(s.subrange(e1, e1 + 1)[0] == s[e1]);
            }
            assert(!is_digit(s[e1]));
            lemma_num_at(s, i1, value as nat);
            assert(lit_at(s, e1, "}"@));
            lemma_object_not_whole_int(s);
            assert(!lit_at(s, e1, ",\"duration\":"@)) by {
                if lit_at(s, e1, ",\"duration\":"@) {
                    assert(s.subrange(e1, e1 + 12)[0] == s[e1]);
                }
            }
        },
        Brightness::AssignWithDuration { value, duration } => {
            let d1 = dec_rep(value as nat);
            let d2 = dec_rep(duration as nat);
            lemma_dec_rep(value as nat);
            lemma_dec_rep(duration as nat);
            let i1 = 9int;
            let e1 = i1 + d1.len();
            let i2 = e1 + 12;
            let e2 = i2 + d2.len();
            assert(s.len() == e2 + 1);
            assert(s.subrange(0, 9) =~= "{\"value\":"@);
            assert(s.subrange(i1, e1) =~= d1);
            assert(s.subrange(e1, i2) =~= ",\"duration\":"@);
            assert(s.subrange(i2, e2) =~= d2);
            assert(s.subrange(e2, e2 + 1) =~= "}"@);
            assert(lit_at(s, 0, "{\"value\":"@));
            assert(s[e1] == ',') by {
                assert(s.subrange(e1, i2)[0] == s[e1]);
            }
            assert(!is_digit(s[e1]));
            lemma_num_at(s, i1, value as nat);
            assert(lit_at(s, e1, ",\"duration\":"@));
            assert(s[e2] == '}') by {
                assert(s.subrange(e2, e2 + 1)[0] == s[e2]);
            }
            assert(!is_digit(s[e2]));
            lemma_num_at(s, i2, duration as nat);
            assert(lit_at(s, e2, "}"@));
            lemma_object_not_whole_int(s);
        },
    }
}

/// Law: each hue/sat/ct write decodes back to the value it was encoded
/// from.
pub proof fn lemma_set_range_round_trip(v: SetRange)
    ensures
        spec_dec_set_range(spec_enc_set_range(v)) == Some(v),
{
    reveal_strlit("{\"value\":");
    reveal_strlit("}");
    let s = spec_enc_set_range(v);
    match v {
        SetRange::Increment(i) => {
            lemma_whole_int_of_int_rep(i as int);
        },
        SetRange::Assign { value } => {
            let d1 = dec_rep(value as nat);
            lemma_dec_rep(value as nat);
            let i1 = 9int;
            let e1 = i1 + d1.len();
            assert(s.len() == e1 + 1);
            assert(s.subrange(0, 9) =~= "{\"value\":"@);
            assert(s.subrange(i1, e1) =~= d1);
            assert(s.subrange(e1, e1 + 1) =~= "}"@);
            assert(lit_at(s, 0, "{\"value\":"@));
            assert(s[e1] == '}') by {
                assert(s.subrange(e1, e1 + 1)[0] == s[e1]);
            }
            assert(!is_digit(s[e1]));
            lemma_num_at(s, i1, value as nat);
            assert(lit_at(s, e1, "}"@));
            lemma_object_not_whole_int(s);
        },
    }
}

/// A body that opens with the brace of the value object is not a bare
/// integer.
proof fn lemma_braced_whole_int_is_none(s: Seq<char>)
    requires
        lit_at(s, 0, "{\"value\":"@),
    ensures
        spec_whole_int(s) is None,
{
    reveal_strlit("{\"value\":");
    assert(s.subrange(0, "{\"value\":"@.len() as int)[0] == s[0]);
    assert(s[0] == '{');
    if !(s.len() > 0 && s[0] == '-') {
        if digits_end(s, 0) != 0 && digits_end(s, 0) == s.len() {
            crate::text::lemma_digits_end_bounds(s, 0);
            assert(is_digit(s[0]));
        }
    }
}

/// A body that opens with a brace is not a bare integer.
proof fn lemma_object_not_whole_int(s: Seq<char>)
    requires
        s.len() > 0,
        s[0] == '{',
    ensures
        spec_whole_int(s) is None,
{
    assert(!is_digit('{'));
    assert('{' != '-');
}

/// The numeral of an in-range integer reads back as that integer.
proof fn lemma_whole_int_of_int_rep(m: int)
    requires
        i32::MIN <= m <= i32::MAX,
    ensures
        spec_whole_int(int_rep(m)) == Some(m),
{
    let s = int_rep(m);
    if m < 0 {
        let mag = (-m) as nat;
        lemma_dec_rep(mag);
        assert(s[0] == '-');
        assert(s.subrange(1, s.len() as int) =~= dec_rep(mag));
        assert(lit_at(s, 1, dec_rep(mag)));
        lemma_num_at(s, 1, mag);
        assert(!is_digit('-'));
    } else {
        let mag = m as nat;
        lemma_dec_rep(mag);
        assert(s =~= dec_rep(mag));
        assert(s.subrange(0, s.len() as int) =~= dec_rep(mag));
        assert(lit_at(s, 0, dec_rep(mag)));
        lemma_num_at(s, 0, mag);
        assert(!(s[0] == '-')) by {
            assert(is_digit(s[0]));
        }
    }
}


// ===== string escaping for encoding =====

/// Hexadecimal digit character for a value below sixteen.
pub open spec fn hex_char(d: int) -> char {
    if d < 10 {
        crate::text::digit_char(d)
    } else if d == 10 {
        'a'
    } else if d == 11 {
        'b'
    } else if d == 12 {
        'c'
    } else if d == 13 {
        'd'
    } else if d == 14 {
        'e'
    } else {
        'f'
    }
}

/// How one character appears inside an encoded JSON string.
pub open spec fn esc_char(c: char) -> Seq<char> {
    if c == '"' {
        seq!['\\', '"']
    } else if c == '\\' {
        seq!['\\', '\\']
    } else if c as u32 == 10 {
        seq!['\\', 'n']
    } else if c as u32 == 9 {
        seq!['\\', 't']
    } else if c as u32 == 13 {
        seq!['\\', 'r']
    } else if c as u32 == 8 {
        seq!['\\', 'b']
    } else if c as u32 == 12 {
        seq!['\\', 'f']
    } else if (c as u32) < 32 {
        seq!['\\', 'u', '0', '0', hex_char(((c as u32) / 16) as int), hex_char(((c as u32) % 16) as int)]
    } else {
        seq![c]
    }
}

/// How a character sequence appears inside an encoded JSON string.
pub open spec fn esc_str(t: Seq<char>) -> Seq<char>
    decreases t.len(),
{
    if t.len() == 0 {
        Seq::empty()
    } else {
        esc_str(t.drop_last()) + esc_char(t.last())
    }
}

/// The full encoded JSON string of `t`, quotes included.
pub open spec fn json_str_rep(t: Seq<char>) -> Seq<char> {
    seq!['"'] + esc_str(t) + seq!['"']
}

/// The hexadecimal digit string of a value below sixteen.
fn hex_str(d: u32) -> (r: &'static str)
    requires
        d <= 15,
    ensures
        r@ =~= seq![hex_char(d as int)],
{
    proof {
        reveal_strlit("0");
        reveal_strlit("1");
        reveal_strlit("2");
        reveal_strlit("3");
        reveal_strlit("4");
        reveal_strlit("5");
        reveal_strlit("6");
        reveal_strlit("7");
        reveal_strlit("8");
        reveal_strlit("9");
        reveal_strlit("a");
        reveal_strlit("b");
        reveal_strlit("c");
        reveal_strlit("d");
        reveal_strlit("e");
        reveal_strlit("f");
    }
    if d == 0 {
        "0"
    } else if d == 1 {
        "1"
    } else if d == 2 {
        "2"
    } else if d == 3 {
        "3"
    } else if d == 4 {
        "4"
    } else if d == 5 {
        "5"
    } else if d == 6 {
        "6"
    } else if d == 7 {
        "7"
    } else if d == 8 {
        "8"
    } else if d == 9 {
        "9"
    } else if d == 10 {
        "a"
    } else if d == 11 {
        "b"
    } else if d == 12 {
        "c"
    } else if d == 13 {
        "d"
    } else if d == 14 {
        "e"
    } else {
        "f"
    }
}

/// Encode `t` as a JSON string literal, quotes and escapes included.
pub fn encode_json_string(t: &str) -> (r: String)
    ensures
        r@ == json_str_rep(t@),
{
    let n: usize = t.unicode_len();
    let mut out = String::from_str("\"");
    proof {
        reveal_strlit("\"");
        assert(t@.subrange(0, 0) =~= Seq::<char>::empty());
        assert(out@ =~= seq!['"'] + esc_str(t@.subrange(0, 0)));
    }
    let mut k: usize = 0;
    while k < n
        invariant
            k <= n,
            n == t@.len(),
            out@ == seq!['"'] + esc_str(t@.subrange(0, k as int)),
        decreases n - k,
    {
        let c = t.get_char(k);
        let u: u32 = c as u32;
        if c == '"' {
            out.append("\\\"");
        } else if c == '\\' {
            out.append("\\\\");
        } else if u == 10 {
            out.append("\\n");
        } else if u == 9 {
            out.append("\\t");
        } else if u == 13 {
            out.append("\\r");
        } else if u == 8 {
            out.append("\\b");
        } else if u == 12 {
            out.append("\\f");
        } else if u < 32 {
            out.append("\\u00");
            let hs = hex_str(u / 16);
            out.append(hs);
            let ls = hex_str(u % 16);
            out.append(ls);
        } else {
            let piece = t.substring_char(k, k + 1);
            out.append(piece);
        }
        proof {
            reveal_strlit("\\\"");
            reveal_strlit("\\\\");
            reveal_strlit("\\n");
            reveal_strlit("\\t");
            reveal_strlit("\\r");
            reveal_strlit("\\b");
            reveal_strlit("\\f");
            reveal_strlit("\\u00");
            assert(t@.subrange(0, k + 1).drop_last() =~= t@.subrange(0, k as int));
            assert(t@.subrange(0, k + 1).last() == t@[k as int]);
            assert(out@ =~= seq!['"'] + esc_str(t@.subrange(0, k + 1)));
        }
        k = k + 1;
    }
    out.append("\"");
    proof {
        assert(t@.subrange(0, n as int) =~= t@);
        assert(out@ =~= json_str_rep(t@));
    }
    out
}

// ===== tolerant parsing of device responses =====
//
// The parsers below accept the documented shapes with insignificant
// whitespace, members in any order, and unknown members skipped. String
// escapes cover the single-character forms; `\uXXXX` escapes are refused
// as a decode error.

/// The hexadecimal value of a digit character, either case.
fn hex_val(c: char) -> (r: Option<u32>)
    ensures
        r matches Some(v) ==> v < 16,
{
    let u: u32 = c as u32;
    if 48 <= u && u <= 57 {
        Some(u - 48)
    } else if 97 <= u && u <= 102 {
        Some(u - 87)
    } else if 65 <= u && u <= 70 {
        Some(u - 55)
    } else {
        None
    }
}

/// The control character below 32 that a `\u00XX` escape names, as a
/// one-character string.
fn control_str(v: u32) -> &'static str
    requires
        v < 32,
{
    if v == 0 {
        "\u{0}"
    } else if v == 1 {
        "\u{1}"
    } else if v == 2 {
        "\u{2}"
    } else if v == 3 {
        "\u{3}"
    } else if v == 4 {
        "\u{4}"
    } else if v == 5 {
        "\u{5}"
    } else if v == 6 {
        "\u{6}"
    } else if v == 7 {
        "\u{7}"
    } else if v == 8 {
        "\u{8}"
    } else if v == 9 {
        "\u{9}"
    } else if v == 10 {
        "\u{a}"
    } else if v == 11 {
        "\u{b}"
    } else if v == 12 {
        "\u{c}"
    } else if v == 13 {
        "\u{d}"
    } else if v == 14 {
        "\u{e}"
    } else if v == 15 {
        "\u{f}"
    } else if v == 16 {
        "\u{10}"
    } else if v == 17 {
        "\u{11}"
    } else if v == 18 {
        "\u{12}"
    } else if v == 19 {
        "\u{13}"
    } else if v == 20 {
        "\u{14}"
    } else if v == 21 {
        "\u{15}"
    } else if v == 22 {
        "\u{16}"
    } else if v == 23 {
        "\u{17}"
    } else if v == 24 {
        "\u{18}"
    } else if v == 25 {
        "\u{19}"
    } else if v == 26 {
        "\u{1a}"
    } else if v == 27 {
        "\u{1b}"
    } else if v == 28 {
        "\u{1c}"
    } else if v == 29 {
        "\u{1d}"
    } else if v == 30 {
        "\u{1e}"
    } else {
        "\u{1f}"
    }
}

/// Parse a JSON string literal at `i`, unescaping its content.
pub fn parse_string_at(s: &str, i: usize) -> (r: Option<(String, usize)>)
    requires
        i <= s@.len(),
    ensures
        r matches Some(p) ==> i < p.1 <= s@.len(),
{
    let n: usize = s.unicode_len();
    if !(i < n && s.get_char(i) == '"') {
        return None;
    }
    let mut pos: usize = i + 1;
    let mut out = String::new();
    loop
        invariant
            i < pos <= n,
            n == s@.len(),
        decreases n - pos,
    {
        if pos >= n {
            return None;
        }
        let c = s.get_char(pos);
        if c == '"' {
            return Some((out, pos + 1));
        }
        if c == '\\' {
            if pos + 1 >= n {
                return None;
            }
            let e = s.get_char(pos + 1);
            if e == '"' {
                out.append("\"");
            } else if e == '\\' {
                out.append("\\");
            } else if e == '/' {
                out.append("/");
            } else if e == 'n' {
                out.append("\n");
            } else if e == 't' {
                out.append("\t");
            } else if e == 'r' {
                out.append("\r");
            } else if e == 'b' {
                out.append("\u{0008}");
            } else if e == 'f' {
                out.append("\u{000C}");
            } else if e == 'u' {
                if n - pos < 6 {
                    return None;
                }
                if !(s.get_char(pos + 2) == '0' && s.get_char(pos + 3) == '0') {
                    return None;
                }
                let hi = hex_val(s.get_char(pos + 4));
                let lo = hex_val(s.get_char(pos + 5));
                match (hi, lo) {
                    (Some(h), Some(l)) => {
                        let v: u32 = h * 16 + l;
                        if v >= 32 {
                            return None;
                        }
                        out.append(control_str(v));
                        pos = pos + 6;
                    },
                    _ => {
                        return None;
                    },
                }
            } else {
                return None;
            }
            if !(e == 'u') {
                pos = pos + 2;
            }
        } else {
            let piece = s.substring_char(pos, pos + 1);
            out.append(piece);
            pos = pos + 1;
        }
    }
}

/// Skip one JSON value of any shape at `i`, balancing brackets and
/// respecting strings; used to pass over unknown members.
pub fn skip_value_at(s: &str, i: usize) -> (r: Option<usize>)
    requires
        i <= s@.len(),
    ensures
        r matches Some(j) ==> i < j <= s@.len(),
{
    let n: usize = s.unicode_len();
    if i >= n {
        return None;
    }
    let c0 = s.get_char(i);
    if c0 == '"' {
        match parse_string_at(s, i) {
            None => None,
            Some((_content, j)) => Some(j),
        }
    } else if c0 == '{' || c0 == '[' {
        let mut depth: usize = 0;
        let mut pos: usize = i;
        loop
            invariant
                i <= pos <= n,
                n == s@.len(),
            decreases n - pos,
        {
            if pos >= n {
                return None;
            }
            let c = s.get_char(pos);
            if c == '"' {
                match parse_string_at(s, pos) {
                    None => {
                        return None;
                    },
                    Some((_content, q)) => {
                        pos = q;
                    },
                }
            } else if c == '{' || c == '[' {
                if depth == usize::MAX {
                    return None;
                }
                depth = depth + 1;
                pos = pos + 1;
            } else if c == '}' || c == ']' {
                if depth == 0 {
                    return None;
                }
                if depth == 1 {
                    return Some(pos + 1);
                }
                depth = depth - 1;
                pos = pos + 1;
            } else {
                pos = pos + 1;
            }
        }
    } else {
        let mut pos: usize = i;
        loop
            invariant
                i <= pos <= n,
                n == s@.len(),
            decreases n - pos,
        {
            if pos >= n {
                if pos > i {
                    return Some(pos);
                }
                return None;
            }
            let c = s.get_char(pos);
            if c == ',' || c == '}' || c == ']' || exec_is_ws(c) {
                if pos > i {
                    return Some(pos);
                }
                return None;
            }
            pos = pos + 1;
        }
    }
}

/// Parse the power-flag object at `i`: a `value` boolean member.
pub fn parse_on_at(s: &str, i: usize) -> (r: Option<(On, usize)>)
    requires
        i <= s@.len(),
    ensures
        r matches Some(p) ==> i < p.1 <= s@.len(),
{
    proof {
        reveal_strlit("true");
        reveal_strlit("false");
    }
    let n: usize = s.unicode_len();
    if !(i < n && s.get_char(i) == '{') {
        return None;
    }
    let mut pos: usize = skip_ws(s, i + 1);
    let mut val: Option<bool> = None;
    loop
        invariant
            i < pos <= n,
            n == s@.len(),
        decreases n - pos,
    {
        match parse_string_at(s, pos) {
            None => {
                return None;
            },
            Some((key, p1)) => {
                let p2 = skip_ws(s, p1);
                if !(p2 < n && s.get_char(p2) == ':') {
                    return None;
                }
                let p3 = skip_ws(s, p2 + 1);
                let p4: usize = if str_eq(key.as_str(), "value") {
                    match expect_lit(s, p3, "true") {
                        Some(q) => {
                            val = Some(true);
                            q
                        },
                        None => match expect_lit(s, p3, "false") {
                            Some(q) => {
                                val = Some(false);
                                q
                            },
                            None => {
                                return None;
                            },
                        },
                    }
                } else {
                    match skip_value_at(s, p3) {
                        Some(q) => q,
                        None => {
                            return None;
                        },
                    }
                };
                let p5 = skip_ws(s, p4);
                if p5 < n && s.get_char(p5) == ',' {
                    pos = skip_ws(s, p5 + 1);
                } else if p5 < n && s.get_char(p5) == '}' {
                    match val {
                        Some(b) => {
                            return Some((On { value: b }, p5 + 1));
                        },
                        None => {
                            return None;
                        },
                    }
                } else {
                    return None;
                }
            },
        }
    }
}

/// Parse a range-shaped object at `i`: `min`, `max` and `value` members.
pub fn parse_range_obj_at(s: &str, i: usize) -> (r: Option<(Range, usize)>)
    requires
        i <= s@.len(),
    ensures
        r matches Some(p) ==> i < p.1 <= s@.len(),
{
    let n: usize = s.unicode_len();
    if !(i < n && s.get_char(i) == '{') {
        return None;
    }
    let mut pos: usize = skip_ws(s, i + 1);
    let mut vmin: Option<u32> = None;
    let mut vmax: Option<u32> = None;
    let mut vval: Option<u32> = None;
    loop
        invariant
            i < pos <= n,
            n == s@.len(),
        decreases n - pos,
    {
        match parse_string_at(s, pos) {
            None => {
                return None;
            },
            Some((key, p1)) => {
                let p2 = skip_ws(s, p1);
                if !(p2 < n && s.get_char(p2) == ':') {
                    return None;
                }
                let p3 = skip_ws(s, p2 + 1);
                let p4: usize = if str_eq(key.as_str(), "min") {
                    match parse_u32(s, p3) {
                        Some((v, q)) => {
                            vmin = Some(v);
                            q
                        },
                        None => {
                            return None;
                        },
                    }
                } else if str_eq(key.as_str(), "max") {
                    match parse_u32(s, p3) {
                        Some((v, q)) => {
                            vmax = Some(v);
                            q
                        },
                        None => {
                            return None;
                        },
                    }
                } else if str_eq(key.as_str(), "value") {
                    match parse_u32(s, p3) {
                        Some((v, q)) => {
                            vval = Some(v);
                            q
                        },
                        None => {
                            return None;
                        },
                    }
                } else {
                    match skip_value_at(s, p3) {
                        Some(q) => q,
                        None => {
                            return None;
                        },
                    }
                };
                let p5 = skip_ws(s, p4);
                if p5 < n && s.get_char(p5) == ',' {
                    pos = skip_ws(s, p5 + 1);
                } else if p5 < n && s.get_char(p5) == '}' {
                    match (vmin, vmax, vval) {
                        (Some(a), Some(b), Some(c)) => {
                            return Some((Range { max: b, min: a, value: c }, p5 + 1));
                        },
                        _ => {
                            return None;
                        },
                    }
                } else {
                    return None;
                }
            },
        }
    }
}


/// Parse the authorization object at `i`: an `auth_token` string member.
pub fn parse_auth_at(s: &str, i: usize) -> (r: Option<(Authorization, usize)>)
    requires
        i <= s@.len(),
    ensures
        r matches Some(p) ==> i < p.1 <= s@.len(),
{
    let n: usize = s.unicode_len();
    if !(i < n && s.get_char(i) == '{') {
        return None;
    }
    let mut pos: usize = skip_ws(s, i + 1);
    let mut token: Option<String> = None;
    loop
        invariant
            i < pos <= n,
            n == s@.len(),
        decreases n - pos,
    {
        match parse_string_at(s, pos) {
            None => {
                return None;
            },
            Some((key, p1)) => {
                let p2 = skip_ws(s, p1);
                if !(p2 < n && s.get_char(p2) == ':') {
                    return None;
                }
                let p3 = skip_ws(s, p2 + 1);
                let p4: usize = if str_eq(key.as_str(), "auth_token") {
                    match parse_string_at(s, p3) {
                        Some((v, q)) => {
                            token = Some(v);
                            q
                        },
                        None => {
                            return None;
                        },
                    }
                } else {
                    match skip_value_at(s, p3) {
                        Some(q) => q,
                        None => {
                            return None;
                        },
                    }
                };
                let p5 = skip_ws(s, p4);
                if p5 < n && s.get_char(p5) == ',' {
                    pos = skip_ws(s, p5 + 1);
                } else if p5 < n && s.get_char(p5) == '}' {
                    match token {
                        Some(t) => {
                            return Some((Authorization { auth_token: t }, p5 + 1));
                        },
                        None => {
                            return None;
                        },
                    }
                } else {
                    return None;
                }
            },
        }
    }
}

/// Parse a JSON array of strings at `i`.
pub fn parse_string_array_at(s: &str, i: usize) -> (r: Option<(Vec<String>, usize)>)
    requires
        i <= s@.len(),
    ensures
        r matches Some(p) ==> i < p.1 <= s@.len(),
{
    let n: usize = s.unicode_len();
    if !(i < n && s.get_char(i) == '[') {
        return None;
    }
    let mut pos: usize = skip_ws(s, i + 1);
    let mut items: Vec<String> = Vec::new();
    if pos < n && s.get_char(pos) == ']' {
        return Some((items, pos + 1));
    }
    loop
        invariant
            i < pos <= n,
            n == s@.len(),
        decreases n - pos,
    {
        match parse_string_at(s, pos) {
            None => {
                return None;
            },
            Some((item, p1)) => {
                items.push(item);
                let p2 = skip_ws(s, p1);
                if p2 < n && s.get_char(p2) == ',' {
                    pos = skip_ws(s, p2 + 1);
                } else if p2 < n && s.get_char(p2) == ']' {
                    return Some((items, p2 + 1));
                } else {
                    return None;
                }
            },
        }
    }
}

/// Parse the effects object at `i`: `effectsList` and `select` members.
pub fn parse_effects_at(s: &str, i: usize) -> (r: Option<(Effects, usize)>)
    requires
        i <= s@.len(),
    ensures
        r matches Some(p) ==> i < p.1 <= s@.len(),
{
    let n: usize = s.unicode_len();
    if !(i < n && s.get_char(i) == '{') {
        return None;
    }
    let mut pos: usize = skip_ws(s, i + 1);
    let mut list: Option<Vec<String>> = None;
    let mut select: Option<String> = None;
    loop
        invariant
            i < pos <= n,
            n == s@.len(),
        decreases n - pos,
    {
        match parse_string_at(s, pos) {
            None => {
                return None;
            },
            Some((key, p1)) => {
                let p2 = skip_ws(s, p1);
                if !(p2 < n && s.get_char(p2) == ':') {
                    return None;
                }
                let p3 = skip_ws(s, p2 + 1);
                let p4: usize = if str_eq(key.as_str(), "effectsList") {
                    match parse_string_array_at(s, p3) {
                        Some((v, q)) => {
                            list = Some(v);
                            q
                        },
                        None => {
                            return None;
                        },
                    }
                } else if str_eq(key.as_str(), "select") {
                    match parse_string_at(s, p3) {
                        Some((v, q)) => {
                            select = Some(v);
                            q
                        },
                        None => {
                            return None;
                        },
                    }
                } else {
                    match skip_value_at(s, p3) {
                        Some(q) => q,
                        None => {
                            return None;
                        },
                    }
                };
                let p5 = skip_ws(s, p4);
                if p5 < n && s.get_char(p5) == ',' {
                    pos = skip_ws(s, p5 + 1);
                } else if p5 < n && s.get_char(p5) == '}' {
                    match (list, select) {
                        (Some(l), Some(sel)) => {
                            return Some((Effects { effects_list: l, select: sel }, p5 + 1));
                        },
                        _ => {
                            return None;
                        },
                    }
                } else {
                    return None;
                }
            },
        }
    }
}

/// Parse one panel position object at `i`. An unknown `shapeType` code is
/// a decode failure, never a default shape.
pub fn parse_position_at(s: &str, i: usize) -> (r: Option<(Position, usize)>)
    requires
        i <= s@.len(),
    ensures
        r matches Some(p) ==> i < p.1 <= s@.len(),
{
    let n: usize = s.unicode_len();
    if !(i < n && s.get_char(i) == '{') {
        return None;
    }
    let mut pos: usize = skip_ws(s, i + 1);
    let mut panel_id: Option<u32> = None;
    let mut vo: Option<i32> = None;
    let mut vx: Option<i32> = None;
    let mut vy: Option<i32> = None;
    let mut shape: Option<crate::models::ShapeType> = None;
    loop
        invariant
            i < pos <= n,
            n == s@.len(),
        decreases n - pos,
    {
        match parse_string_at(s, pos) {
            None => {
                return None;
            },
            Some((key, p1)) => {
                let p2 = skip_ws(s, p1);
                if !(p2 < n && s.get_char(p2) == ':') {
                    return None;
                }
                let p3 = skip_ws(s, p2 + 1);
                let p4: usize = if str_eq(key.as_str(), "panelId") {
                    match parse_u32(s, p3) {
                        Some((v, q)) => {
                            panel_id = Some(v);
                            q
                        },
                        None => {
                            return None;
                        },
                    }
                } else if str_eq(key.as_str(), "o") {
                    match parse_i32(s, p3) {
                        Some((v, q)) => {
                            vo = Some(v);
                            q
                        },
                        None => {
                            return None;
                        },
                    }
                } else if str_eq(key.as_str(), "x") {
                    match parse_i32(s, p3) {
                        Some((v, q)) => {
                            vx = Some(v);
                            q
                        },
                        None => {
                            return None;
                        },
                    }
                } else if str_eq(key.as_str(), "y") {
                    match parse_i32(s, p3) {
                        Some((v, q)) => {
                            vy = Some(v);
                            q
                        },
                        None => {
                            return None;
                        },
                    }
                } else if str_eq(key.as_str(), "shapeType") {
                    match parse_u32(s, p3) {
                        Some((v, q)) => {
                            match shape_of_code(v) {
                                Some(st) => {
                                    shape = Some(st);
                                    q
                                },
                                None => {
                                    return None;
                                },
                            }
                        },
                        None => {
                            return None;
                        },
                    }
                } else {
                    match skip_value_at(s, p3) {
                        Some(q) => q,
                        None => {
                            return None;
                        },
                    }
                };
                let p5 = skip_ws(s, p4);
                if p5 < n && s.get_char(p5) == ',' {
                    pos = skip_ws(s, p5 + 1);
                } else if p5 < n && s.get_char(p5) == '}' {
                    match (panel_id, vo, vx, vy, shape) {
                        (Some(a), Some(b), Some(c), Some(d), Some(e)) => {
                            return Some(
                                (
                                    Position { panel_id: a, o: b, x: c, y: d, shape_type: e },
                                    p5 + 1,
                                ),
                            );
                        },
                        _ => {
                            return None;
                        },
                    }
                } else {
                    return None;
                }
            },
        }
    }
}

/// Parse a JSON array of panel positions at `i`.
pub fn parse_position_array_at(s: &str, i: usize) -> (r: Option<(Vec<Position>, usize)>)
    requires
        i <= s@.len(),
    ensures
        r matches Some(p) ==> i < p.1 <= s@.len(),
{
    let n: usize = s.unicode_len();
    if !(i < n && s.get_char(i) == '[') {
        return None;
    }
    let mut pos: usize = skip_ws(s, i + 1);
    let mut items: Vec<Position> = Vec::new();
    if pos < n && s.get_char(pos) == ']' {
        return Some((items, pos + 1));
    }
    loop
        invariant
            i < pos <= n,
            n == s@.len(),
        decreases n - pos,
    {
        match parse_position_at(s, pos) {
            None => {
                return None;
            },
            Some((item, p1)) => {
                items.push(item);
                let p2 = skip_ws(s, p1);
                if p2 < n && s.get_char(p2) == ',' {
                    pos = skip_ws(s, p2 + 1);
                } else if p2 < n && s.get_char(p2) == ']' {
                    return Some((items, p2 + 1));
                } else {
                    return None;
                }
            },
        }
    }
}

/// Parse the layout object at `i`: `numPanels`, `sideLength` and
/// `positionData` members.
pub fn parse_layout_at(s: &str, i: usize) -> (r: Option<(Layout, usize)>)
    requires
        i <= s@.len(),
    ensures
        r matches Some(p) ==> i < p.1 <= s@.len(),
{
    let n: usize = s.unicode_len();
    if !(i < n && s.get_char(i) == '{') {
        return None;
    }
    let mut pos: usize = skip_ws(s, i + 1);
    let mut num_panels: Option<u32> = None;
    let mut side_length: Option<u32> = None;
    let mut positions: Option<Vec<Position>> = None;
    loop
        invariant
            i < pos <= n,
            n == s@.len(),
        decreases n - pos,
    {
        match parse_string_at(s, pos) {
            None => {
                return None;
            },
            Some((key, p1)) => {
                let p2 = skip_ws(s, p1);
                if !(p2 < n && s.get_char(p2) == ':') {
                    return None;
                }
                let p3 = skip_ws(s, p2 + 1);
                let p4: usize = if str_eq(key.as_str(), "numPanels") {
                    match parse_u32(s, p3) {
                        Some((v, q)) => {
                            num_panels = Some(v);
                            q
                        },
                        None => {
                            return None;
                        },
                    }
                } else if str_eq(key.as_str(), "sideLength") {
                    match parse_u32(s, p3) {
                        Some((v, q)) => {
                            side_length = Some(v);
                            q
                        },
                        None => {
                            return None;
                        },
                    }
                } else if str_eq(key.as_str(), "positionData") {
                    match parse_position_array_at(s, p3) {
                        Some((v, q)) => {
                            positions = Some(v);
                            q
                        },
                        None => {
                            return None;
                        },
                    }
                } else {
                    match skip_value_at(s, p3) {
                        Some(q) => q,
                        None => {
                            return None;
                        },
                    }
                };
                let p5 = skip_ws(s, p4);
                if p5 < n && s.get_char(p5) == ',' {
                    pos = skip_ws(s, p5 + 1);
                } else if p5 < n && s.get_char(p5) == '}' {
                    match (num_panels, side_length, positions) {
                        (Some(a), Some(b), Some(c)) => {
                            return Some(
                                (
                                    Layout { num_panels: a, side_length: b, position_data: c },
                                    p5 + 1,
                                ),
                            );
                        },
                        _ => {
                            return None;
                        },
                    }
                } else {
                    return None;
                }
            },
        }
    }
}

/// Parse the panel-layout object at `i`: `globalOrientation` and `layout`
/// members.
pub fn parse_panel_layout_at(s: &str, i: usize) -> (r: Option<(PanelLayout, usize)>)
    requires
        i <= s@.len(),
    ensures
        r matches Some(p) ==> i < p.1 <= s@.len(),
{
    let n: usize = s.unicode_len();
    if !(i < n && s.get_char(i) == '{') {
        return None;
    }
    let mut pos: usize = skip_ws(s, i + 1);
    let mut go: Option<GlobalOrientation> = None;
    let mut lay: Option<Layout> = None;
    loop
        invariant
            i < pos <= n,
            n == s@.len(),
        decreases n - pos,
    {
        match parse_string_at(s, pos) {
            None => {
                return None;
            },
            Some((key, p1)) => {
                let p2 = skip_ws(s, p1);
                if !(p2 < n && s.get_char(p2) == ':') {
                    return None;
                }
                let p3 = skip_ws(s, p2 + 1);
                let p4: usize = if str_eq(key.as_str(), "globalOrientation") {
                    match parse_range_obj_at(s, p3) {
                        Some((v, q)) => {
                            go = Some(
                                GlobalOrientation { max: v.max, min: v.min, value: v.value },
                            );
                            q
                        },
                        None => {
                            return None;
                        },
                    }
                } else if str_eq(key.as_str(), "layout") {
                    match parse_layout_at(s, p3) {
                        Some((v, q)) => {
                            lay = Some(v);
                            q
                        },
                        None => {
                            return None;
                        },
                    }
                } else {
                    match skip_value_at(s, p3) {
                        Some(q) => q,
                        None => {
                            return None;
                        },
                    }
                };
                let p5 = skip_ws(s, p4);
                if p5 < n && s.get_char(p5) == ',' {
                    pos = skip_ws(s, p5 + 1);
                } else if p5 < n && s.get_char(p5) == '}' {
                    match (go, lay) {
                        (Some(a), Some(b)) => {
                            return Some(
                                (PanelLayout { global_orientation: a, layout: b }, p5 + 1),
                            );
                        },
                        _ => {
                            return None;
                        },
                    }
                } else {
                    return None;
                }
            },
        }
    }
}

/// Parse the light-state object at `i`: `colorMode`, the four bounded
/// properties and the power flag.
pub fn parse_state_at(s: &str, i: usize) -> (r: Option<(State, usize)>)
    requires
        i <= s@.len(),
    ensures
        r matches Some(p) ==> i < p.1 <= s@.len(),
{
    let n: usize = s.unicode_len();
    if !(i < n && s.get_char(i) == '{') {
        return None;
    }
    let mut pos: usize = skip_ws(s, i + 1);
    let mut color_mode: Option<String> = None;
    let mut brightness: Option<Range> = None;
    let mut ct: Option<Range> = None;
    let mut hue: Option<Range> = None;
    let mut sat: Option<Range> = None;
    let mut on: Option<On> = None;
    loop
        invariant
            i < pos <= n,
            n == s@.len(),
        decreases n - pos,
    {
        match parse_string_at(s, pos) {
            None => {
                return None;
            },
            Some((key, p1)) => {
                let p2 = skip_ws(s, p1);
                if !(p2 < n && s.get_char(p2) == ':') {
                    return None;
                }
                let p3 = skip_ws(s, p2 + 1);
                let p4: usize = if str_eq(key.as_str(), "colorMode") {
                    match parse_string_at(s, p3) {
                        Some((v, q)) => {
                            color_mode = Some(v);
                            q
                        },
                        None => {
                            return None;
                        },
                    }
                } else if str_eq(key.as_str(), "brightness") {
                    match parse_range_obj_at(s, p3) {
                        Some((v, q)) => {
                            brightness = Some(v);
                            q
                        },
                        None => {
                            return None;
                        },
                    }
                } else if str_eq(key.as_str(), "ct") {
                    match parse_range_obj_at(s, p3) {
                        Some((v, q)) => {
                            ct = Some(v);
                            q
                        },
                        None => {
                            return None;
                        },
                    }
                } else if str_eq(key.as_str(), "hue") {
                    match parse_range_obj_at(s, p3) {
                        Some((v, q)) => {
                            hue = Some(v);
                            q
                        },
                        None => {
                            return None;
                        },
                    }
                } else if str_eq(key.as_str(), "sat") {
                    match parse_range_obj_at(s, p3) {
                        Some((v, q)) => {
                            sat = Some(v);
                            q
                        },
                        None => {
                            return None;
                        },
                    }
                } else if str_eq(key.as_str(), "on") {
                    match parse_on_at(s, p3) {
                        Some((v, q)) => {
                            on = Some(v);
                            q
                        },
                        None => {
                            return None;
                        },
                    }
                } else {
                    match skip_value_at(s, p3) {
                        Some(q) => q,
                        None => {
                            return None;
                        },
                    }
                };
                let p5 = skip_ws(s, p4);
                if p5 < n && s.get_char(p5) == ',' {
                    pos = skip_ws(s, p5 + 1);
                } else if p5 < n && s.get_char(p5) == '}' {
                    match (color_mode, brightness, ct, hue, sat, on) {
                        (Some(a), Some(b), Some(c), Some(d), Some(e), Some(f)) => {
                            return Some(
                                (
                                    State {
                                        color_mode: a,
                                        brightness: b,
                                        ct: c,
                                        hue: d,
                                        sat: e,
                                        on: f,
                                    },
                                    p5 + 1,
                                ),
                            );
                        },
                        _ => {
                            return None;
                        },
                    }
                } else {
                    return None;
                }
            },
        }
    }
}

/// Parse the full device snapshot object at `i`.
pub fn parse_panel_info_at(s: &str, i: usize) -> (r: Option<(PanelInfo, usize)>)
    requires
        i <= s@.len(),
    ensures
        r matches Some(p) ==> i < p.1 <= s@.len(),
{
    let n: usize = s.unicode_len();
    if !(i < n && s.get_char(i) == '{') {
        return None;
    }
    let mut pos: usize = skip_ws(s, i + 1);
    let mut name: Option<String> = None;
    let mut manufacturer: Option<String> = None;
    let mut model: Option<String> = None;
    let mut firmware: Option<String> = None;
    let mut serial: Option<String> = None;
    let mut state: Option<State> = None;
    let mut effects: Option<Effects> = None;
    let mut layout: Option<PanelLayout> = None;
    loop
        invariant
            i < pos <= n,
            n == s@.len(),
        decreases n - pos,
    {
        match parse_string_at(s, pos) {
            None => {
                return None;
            },
            Some((key, p1)) => {
                let p2 = skip_ws(s, p1);
                if !(p2 < n && s.get_char(p2) == ':') {
                    return None;
                }
                let p3 = skip_ws(s, p2 + 1);
                let p4: usize = if str_eq(key.as_str(), "name") {
                    match parse_string_at(s, p3) {
                        Some((v, q)) => {
                            name = Some(v);
                            q
                        },
                        None => {
                            return None;
                        },
                    }
                } else if str_eq(key.as_str(), "manufacturer") {
                    match parse_string_at(s, p3) {
                        Some((v, q)) => {
                            manufacturer = Some(v);
                            q
                        },
                        None => {
                            return None;
                        },
                    }
                } else if str_eq(key.as_str(), "model") {
                    match parse_string_at(s, p3) {
                        Some((v, q)) => {
                            model = Some(v);
                            q
                        },
                        None => {
                            return None;
                        },
                    }
                } else if str_eq(key.as_str(), "firmwareVersion") {
                    match parse_string_at(s, p3) {
                        Some((v, q)) => {
                            firmware = Some(v);
                            q
                        },
                        None => {
                            return None;
                        },
                    }
                } else if str_eq(key.as_str(), "serialNo") {
                    match parse_string_at(s, p3) {
                        Some((v, q)) => {
                            serial = Some(v);
                            q
                        },
                        None => {
                            return None;
                        },
                    }
                } else if str_eq(key.as_str(), "state") {
                    match parse_state_at(s, p3) {
                        Some((v, q)) => {
                            state = Some(v);
                            q
                        },
                        None => {
                            return None;
                        },
                    }
                } else if str_eq(key.as_str(), "effects") {
                    match parse_effects_at(s, p3) {
                        Some((v, q)) => {
                            effects = Some(v);
                            q
                        },
                        None => {
                            return None;
                        },
                    }
                } else if str_eq(key.as_str(), "panelLayout") {
                    match parse_panel_layout_at(s, p3) {
                        Some((v, q)) => {
                            layout = Some(v);
                            q
                        },
                        None => {
                            return None;
                        },
                    }
                } else {
                    match skip_value_at(s, p3) {
                        Some(q) => q,
                        None => {
                            return None;
                        },
                    }
                };
                let p5 = skip_ws(s, p4);
                if p5 < n && s.get_char(p5) == ',' {
                    pos = skip_ws(s, p5 + 1);
                } else if p5 < n && s.get_char(p5) == '}' {
                    match (name, manufacturer, model, firmware, serial, state, effects, layout) {
                        (
                            Some(a),
                            Some(b),
                            Some(c),
                            Some(d),
                            Some(e),
                            Some(f),
                            Some(g),
                            Some(h),
                        ) => {
                            return Some(
                                (
                                    PanelInfo {
                                        name: a,
                                        manufacturer: b,
                                        model: c,
                                        firmware_version: d,
                                        serial_number: e,
                                        state: f,
                                        effects: g,
                                        panel_layout: h,
                                    },
                                    p5 + 1,
                                ),
                            );
                        },
                        _ => {
                            return None;
                        },
                    }
                } else {
                    return None;
                }
            },
        }
    }
}

// ===== whole-body decoders =====

/// Decode a power-flag body. The canonical encoding of every flag decodes
/// back to that flag; any other accepted body is the documented shape with
/// whitespace or extra members.
pub fn decode_on(s: &str) -> (r: Result<On, Error>)
    ensures
        forall|o: On| s@ == spec_enc_on(o) ==> r == Ok::<On, Error>(o),
        r matches Err(e) ==> e == Error::Decode,
{
    let st = strict_on(s);
    proof {
        assert forall|o: On| s@ == spec_enc_on(o) implies st == Some(o) by {
            lemma_on_round_trip(o);
        }
    }
    match st {
        Some(o) => Ok(o),
        None => {
            let i = skip_ws(s, 0);
            match parse_on_at(s, i) {
                None => Err(Error::Decode),
                Some((o, j)) => {
                    let k = skip_ws(s, j);
                    if k == s.unicode_len() {
                        Ok(o)
                    } else {
                        Err(Error::Decode)
                    }
                },
            }
        },
    }
}

/// Decode a bounded-property body. The canonical encoding of every value
/// combination decodes back to it.
pub fn decode_range(s: &str) -> (r: Result<Range, Error>)
    ensures
        forall|rg: Range| s@ == spec_enc_range(rg) ==> r == Ok::<Range, Error>(rg),
        r matches Err(e) ==> e == Error::Decode,
{
    let st = strict_range(s);
    proof {
        assert forall|rg: Range| s@ == spec_enc_range(rg) implies st == Some(rg) by {
            lemma_range_round_trip(rg);
        }
    }
    match st {
        Some(rg) => Ok(rg),
        None => {
            let i = skip_ws(s, 0);
            match parse_range_obj_at(s, i) {
                None => Err(Error::Decode),
                Some((rg, j)) => {
                    let k = skip_ws(s, j);
                    if k == s.unicode_len() {
                        Ok(rg)
                    } else {
                        Err(Error::Decode)
                    }
                },
            }
        },
    }
}

/// Decode an authorization body. The canonical encoding of every
/// escape-free token decodes back to that token.
pub fn decode_authorization(s: &str) -> (r: Result<Authorization, Error>)
    ensures
        forall|t: Seq<char>|
            plain_str(t) && s@ == spec_auth_body(t) ==> (r matches Ok(a) && a.auth_token@ == t),
        r matches Err(e) ==> e == Error::Decode,
{
    let st = strict_auth(s);
    proof {
        assert forall|t: Seq<char>|
            plain_str(t) && s@ == spec_auth_body(t) implies (st matches Some(a) && a.auth_token@
            == t) by {
            lemma_auth_round_trip(t);
        }
    }
    match st {
        Some(a) => {
            return Ok(a);
        },
        None => {},
    }
    let i = skip_ws(s, 0);
    match parse_auth_at(s, i) {
        None => Err(Error::Decode),
        Some((a, j)) => {
            let k = skip_ws(s, j);
            if k == s.unicode_len() {
                Ok(a)
            } else {
                Err(Error::Decode)
            }
        },
    }
}

/// Decode a light-state body. The canonical encoding of every state with
/// an escape-free color mode decodes back to it, field by field.
pub fn decode_state(s: &str) -> (r: Result<State, Error>)
    ensures
        forall|st: State|
            plain_str(st.color_mode@) && s@ == spec_enc_state(st) ==> (r matches Ok(v)
                && v.color_mode@ == st.color_mode@ && v.brightness == st.brightness && v.ct
                == st.ct && v.hue == st.hue && v.sat == st.sat && v.on == st.on),
        r matches Err(e) ==> e == Error::Decode,
{
    let pre = strict_state(s);
    proof {
        assert forall|st: State|
            plain_str(st.color_mode@) && s@ == spec_enc_state(st) implies (pre matches Some(v)
            && v.color_mode@ == st.color_mode@ && v.brightness == st.brightness && v.ct == st.ct
            && v.hue == st.hue && v.sat == st.sat && v.on == st.on) by {
            assert(lit_at(s@, 0, spec_enc_state(st))) by {
                assert(s@.subrange(0, s@.len() as int) =~= s@);
            }
            lemma_state_at(s@, 0, st);
        }
    }
    match pre {
        Some(v) => {
            return Ok(v);
        },
        None => {},
    }
    let i = skip_ws(s, 0);
    match parse_state_at(s, i) {
        None => Err(Error::Decode),
        Some((v, j)) => {
            let k = skip_ws(s, j);
            if k == s.unicode_len() {
                Ok(v)
            } else {
                Err(Error::Decode)
            }
        },
    }
}

/// Decode a full device snapshot body. The canonical encoding of every
/// snapshot with plain string members decodes back to it, field by
/// field, the snapshot returned unmodified.
pub fn decode_panel_info(s: &str) -> (r: Result<PanelInfo, Error>)
    ensures
        forall|p: PanelInfo|
            plain_info(p) && s@ == spec_enc_panel_info(p) ==> (r matches Ok(v)
                && panel_info_like(v, p)),
        r matches Err(e) ==> e == Error::Decode,
{
    let pre = strict_panel_info(s);
    proof {
        assert forall|p: PanelInfo|
            plain_info(p) && s@ == spec_enc_panel_info(p) implies (pre matches Some(v)
            && panel_info_like(v, p)) by {
            lemma_items_len(p.effects.effects_list.deep_view());
            lemma_pos_items_len(p.panel_layout.layout.position_data@);
            lemma_panel_info_round_trip(p, s@.len());
        }
    }
    match pre {
        Some(v) => {
            return Ok(v);
        },
        None => {},
    }
    let i = skip_ws(s, 0);
    match parse_panel_info_at(s, i) {
        None => Err(Error::Decode),
        Some((v, j)) => {
            let k = skip_ws(s, j);
            if k == s.unicode_len() {
                Ok(v)
            } else {
                Err(Error::Decode)
            }
        },
    }
}

/// Decode an effects-catalog body. The canonical encoding of every
/// catalog of escape-free names decodes back to it, order and duplicates
/// kept.
pub fn decode_effects(s: &str) -> (r: Result<Effects, Error>)
    ensures
        forall|l: Seq<Seq<char>>, t: Seq<char>|
            plain_str_list(l) && plain_str(t) && s@ == spec_enc_effects(l, t) ==> (r matches Ok(e)
                && e.effects_list.deep_view() == l && e.select@ == t),
        r matches Err(e) ==> e == Error::Decode,
{
    let st = strict_effects(s);
    proof {
        assert forall|l: Seq<Seq<char>>, t: Seq<char>|
            plain_str_list(l) && plain_str(t) && s@ == spec_enc_effects(l, t) implies (st
            matches Some(e) && e.effects_list.deep_view() == l && e.select@ == t) by {
            lemma_items_len(l);
            assert(lit_at(s@, 0, spec_enc_effects(l, t))) by {
                assert(s@.subrange(0, s@.len() as int) =~= s@);
            }
            lemma_effects_at(s@, 0, l, t, s@.len());
        }
    }
    match st {
        Some(e) => {
            return Ok(e);
        },
        None => {},
    }
    let i = skip_ws(s, 0);
    match parse_effects_at(s, i) {
        None => Err(Error::Decode),
        Some((v, j)) => {
            let k = skip_ws(s, j);
            if k == s.unicode_len() {
                Ok(v)
            } else {
                Err(Error::Decode)
            }
        },
    }
}

/// A sequence with no character that JSON requires escaping.
pub open spec fn plain_str(t: Seq<char>) -> bool {
    forall|k: int| 0 <= k < t.len() ==> t[k] != '"' && t[k] != '\\' && (t[k] as u32) >= 32
}

/// Escaping leaves a plain sequence unchanged.
pub proof fn lemma_esc_str_plain(t: Seq<char>)
    requires
        plain_str(t),
    ensures
        esc_str(t) == t,
    decreases t.len(),
{
    if t.len() == 0 {
        assert(esc_str(t) =~= t);
    } else {
        assert(plain_str(t.drop_last())) by {
            assert(forall|k: int| 0 <= k < t.len() - 1 ==> t.drop_last()[k] == t[k]);
        }
        lemma_esc_str_plain(t.drop_last());
        assert(esc_char(t.last()) =~= seq![t.last()]);
        assert(esc_str(t) =~= t);
    }
}

/// Shape of the encoding of a plain string: the characters themselves
/// between two quotes.
proof fn lemma_json_str_rep_plain(t: Seq<char>)
    requires
        plain_str(t),
    ensures
        json_str_rep(t).len() == t.len() + 2,
        json_str_rep(t)[0] == '"',
        json_str_rep(t)[t.len() as int + 1] == '"',
        forall|j: int| 1 <= j <= t.len() ==> json_str_rep(t)[j] == t[j - 1],
{
    lemma_esc_str_plain(t);
}

/// Strict decoder for a body that is the encoding of a plain string.
fn strict_string(s: &str) -> (r: Option<String>)
    ensures
        forall|t: Seq<char>|
            plain_str(t) && s@ == json_str_rep(t) ==> (r matches Some(v) && v@ == t),
{
    let n: usize = s.unicode_len();
    if n < 2 || s.get_char(0) != '"' {
        proof {
            assert forall|t: Seq<char>| plain_str(t) && s@ == json_str_rep(t) implies false by {
                lemma_json_str_rep_plain(t);
            }
        }
        return None;
    }
    let mut k: usize = 1;
    loop
        invariant
            1 <= k <= n,
            n == s@.len(),
            2 <= n,
            s@[0] == '"',
            forall|j: int| 1 <= j < k ==> s@[j] != '"' && s@[j] != '\\',
        decreases n - k,
    {
        if k >= n {
            proof {
                assert forall|t: Seq<char>| plain_str(t) && s@ == json_str_rep(t) implies false by {
                    lemma_json_str_rep_plain(t);
                    assert(s@[t.len() as int + 1] == '"');
                }
            }
            return None;
        }
        let c = s.get_char(k);
        if c == '\\' {
            // an escape: this body is not the plain shape; the tolerant
            // parser handles it
            proof {
                assert forall|t: Seq<char>| plain_str(t) && s@ == json_str_rep(t) implies false by {
                    lemma_json_str_rep_plain(t);
                    if k as int <= t.len() {
                        assert(s@[k as int] == t[k as int - 1]);
                    } else {
                        assert(s@[k as int] == '"');
                    }
                }
            }
            return None;
        }
        if c == '"' {
            if k == n - 1 {
                let inner = s.substring_char(1, k);
                let v = inner.to_owned();
                proof {
                    assert forall|t: Seq<char>|
                        plain_str(t) && s@ == json_str_rep(t) implies v@ == t by {
                        lemma_json_str_rep_plain(t);
                        assert(t.len() == n - 2);
                        assert(v@ =~= t);
                    }
                }
                return Some(v);
            }
            proof {
                assert forall|t: Seq<char>| plain_str(t) && s@ == json_str_rep(t) implies false by {
                    lemma_json_str_rep_plain(t);
                    assert(t.len() == s@.len() - 2);
                    assert(s@[k as int] == t[k as int - 1]);
                }
            }
            return None;
        }
        k = k + 1;
    }
}

/// Decode a body that is one JSON string. The encoding of every string
/// without escapes decodes back to that string.
pub fn decode_string(s: &str) -> (r: Result<String, Error>)
    ensures
        forall|t: Seq<char>|
            plain_str(t) && s@ == json_str_rep(t) ==> (r matches Ok(v) && v@ == t),
        r matches Err(e) ==> e == Error::Decode,
{
    match strict_string(s) {
        Some(v) => {
            return Ok(v);
        },
        None => {},
    }
    let i = skip_ws(s, 0);
    match parse_string_at(s, i) {
        None => Err(Error::Decode),
        Some((v, j)) => {
            let k = skip_ws(s, j);
            if k == s.unicode_len() {
                Ok(v)
            } else {
                Err(Error::Decode)
            }
        },
    }
}

/// Decode a body that is one JSON array of strings. The canonical
/// encoding of every array of escape-free strings decodes back to it:
/// same members, same order, duplicates kept.
pub fn decode_string_list(s: &str) -> (r: Result<Vec<String>, Error>)
    ensures
        forall|l: Seq<Seq<char>>|
            plain_str_list(l) && s@ == spec_enc_str_list(l) ==> (r matches Ok(v) && v.deep_view()
                == l),
        r matches Err(e) ==> e == Error::Decode,
{
    let n: usize = s.unicode_len();
    let st = strict_str_list_at(s, 0, n);
    proof {
        assert forall|l: Seq<Seq<char>>|
            plain_str_list(l) && s@ == spec_enc_str_list(l) implies (st matches Some(p)
            && p.0.deep_view() == l && p.1 == s@.len()) by {
            lemma_items_len(l);
            assert(lit_at(s@, 0, spec_enc_str_list(l))) by {
                assert(s@.subrange(0, s@.len() as int) =~= s@);
            }
            lemma_str_list_at(s@, 0, l, n as nat);
        }
    }
    match st {
        Some((v, j)) => {
            if j == n {
                return Ok(v);
            }
        },
        None => {},
    }
    let i = skip_ws(s, 0);
    match parse_string_array_at(s, i) {
        None => Err(Error::Decode),
        Some((v, j)) => {
            let k = skip_ws(s, j);
            if k == s.unicode_len() {
                Ok(v)
            } else {
                Err(Error::Decode)
            }
        },
    }
}

} // verus!
