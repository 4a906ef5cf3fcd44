//! The preferences file format, read side.
//!
//! The spec functions here define one deterministic parse of the document
//! grammar: a parenthesised record of the four settings fields in declaration
//! order, with free whitespace between tokens and an optional trailing comma.
//! The executable parser returns exactly what the spec parse returns, and a
//! malformed document is rejected, never silently defaulted.

use vstd::prelude::*;

use crate::encode::char_digit;
use crate::encode::is_digit_char;
use crate::encode::is_ws_char;
use crate::encode::push_char;
use crate::settings::Limit;
use crate::settings::SettingsModel;
use crate::settings::UserSettings;

verus! {

/// The error a malformed preferences document raises. Initialization treats
/// it as fatal: a corrupt file must not be masked by silent defaults.
#[derive(Clone, Copy, Debug, PartialEq, Eq)]
pub struct ParseError;

// --- spec-level scanning ---

/// First position at or after `i` that does not hold whitespace.
pub open spec fn skip_ws(t: Seq<char>, i: int) -> int
    decreases t.len() - i
        when 0 <= i <= t.len()
{
    if i < t.len() && is_ws_char(t[i]) {
        skip_ws(t, i + 1)
    } else {
        i
    }
}

pub proof fn lemma_skip_ws_bounds(t: Seq<char>, i: int)
    requires
        0 <= i <= t.len(),
    ensures
        i <= skip_ws(t, i) <= t.len(),
    decreases t.len() - i,
{
    if i < t.len() && is_ws_char(t[i]) {
        lemma_skip_ws_bounds(t, i + 1);
    }
}

/// The literal `lit` stands at position `i` of `t`.
pub open spec fn lit_at(t: Seq<char>, i: int, lit: Seq<char>) -> bool {
    0 <= i && i + lit.len() <= t.len() && t.subrange(i, i + lit.len()) == lit
}

/// First position at or after `i` that does not hold a decimal digit.
pub open spec fn scan_digits(t: Seq<char>, i: int) -> int
    decreases t.len() - i
        when 0 <= i <= t.len()
{
    if i < t.len() && is_digit_char(t[i]) {
        scan_digits(t, i + 1)
    } else {
        i
    }
}

pub proof fn lemma_scan_digits_bounds(t: Seq<char>, i: int)
    requires
        0 <= i <= t.len(),
    ensures
        i <= scan_digits(t, i) <= t.len(),
    decreases t.len() - i,
{
    if i < t.len() && is_digit_char(t[i]) {
        lemma_scan_digits_bounds(t, i + 1);
    }
}

/// Value of the digit run `t[i..j)`, read as a decimal number.
pub open spec fn digits_val(t: Seq<char>, i: int, j: int) -> int
    decreases j - i
        when i <= j
{
    if i < j {
        digits_val(t, i, j - 1) * 10 + char_digit(t[j - 1])
    } else {
        0
    }
}

pub proof fn lemma_digits_val_nonneg(t: Seq<char>, i: int, j: int)
    requires
        i <= j,
    ensures
        digits_val(t, i, j) >= 0,
    decreases j - i,
{
    if i < j {
        lemma_digits_val_nonneg(t, i, j - 1);
        assert(digits_val(t, i, j - 1) * 10 >= 0) by (nonlinear_arith)
            requires
                digits_val(t, i, j - 1) >= 0,
        ;
    }
}

/// A longer digit run never has a smaller value.
pub proof fn lemma_digits_val_mono(t: Seq<char>, i: int, k: int, j: int)
    requires
        i <= k <= j,
    ensures
        digits_val(t, i, j) >= digits_val(t, i, k),
    decreases j - k,
{
    if k < j {
        lemma_digits_val_mono(t, i, k, j - 1);
        lemma_digits_val_nonneg(t, i, j - 1);
        assert(digits_val(t, i, j - 1) * 10 >= digits_val(t, i, j - 1)) by (nonlinear_arith)
            requires
                digits_val(t, i, j - 1) >= 0,
        ;
    }
}

// --- spec-level value parsers ---

/// A decimal number that fits in `u32`; the whole digit run is consumed.
pub open spec fn parse_u32(t: Seq<char>, i: int) -> Option<(u32, int)> {
    if 0 <= i && i < t.len() && is_digit_char(t[i]) {
        let j = scan_digits(t, i);
        let v = digits_val(t, i, j);
        if v <= u32::MAX {
            Some((v as u32, j))
        } else {
            None
        }
    } else {
        None
    }
}

/// Body of a quoted string, from just after the opening quote up to and
/// including the closing quote. Backslash escapes a quote or a backslash.
pub open spec fn scan_string_body(t: Seq<char>, i: int) -> Option<(Seq<char>, int)>
    decreases t.len() - i
        when 0 <= i <= t.len()
{
    if i >= t.len() {
        None
    } else if t[i] == '"' {
        Some((Seq::empty(), i + 1))
    } else if t[i] == '\\' {
        if i + 1 < t.len() && (t[i + 1] == '"' || t[i + 1] == '\\') {
            match scan_string_body(t, i + 2) {
                Some((s, j)) => Some((seq![t[i + 1]] + s, j)),
                None => None,
            }
        } else {
            None
        }
    } else {
        match scan_string_body(t, i + 1) {
            Some((s, j)) => Some((seq![t[i]] + s, j)),
            None => None,
        }
    }
}

pub proof fn lemma_scan_string_body_bounds(t: Seq<char>, i: int)
    requires
        0 <= i <= t.len(),
    ensures
        scan_string_body(t, i) matches Some((s, j)) ==> i < j <= t.len(),
    decreases t.len() - i,
{
    if i < t.len() {
        if t[i] == '"' {
        } else if t[i] == '\\' {
            if i + 1 < t.len() && (t[i + 1] == '"' || t[i + 1] == '\\') {
                lemma_scan_string_body_bounds(t, i + 2);
            }
        } else {
            lemma_scan_string_body_bounds(t, i + 1);
        }
    }
}

/// A double-quoted string starting at `i`.
pub open spec fn parse_string(t: Seq<char>, i: int) -> Option<(Seq<char>, int)> {
    if 0 <= i && i < t.len() && t[i] == '"' {
        scan_string_body(t, i + 1)
    } else {
        None
    }
}

pub proof fn lemma_parse_string_bounds(t: Seq<char>, i: int)
    requires
        0 <= i <= t.len(),
    ensures
        parse_string(t, i) matches Some((s, j)) ==> i < j <= t.len(),
{
    if i < t.len() && t[i] == '"' {
        lemma_scan_string_body_bounds(t, i + 1);
    }
}

/// Items of a list after the opening bracket, whitespace already skipped:
/// quoted strings separated by commas, an optional trailing comma, then the
/// closing bracket.
pub open spec fn parse_items(t: Seq<char>, i: int) -> Option<(Seq<Seq<char>>, int)>
    decreases t.len() - i
        when 0 <= i <= t.len()
        via parse_items_decreases
{
    if i < t.len() && t[i] == ']' {
        Some((Seq::empty(), i + 1))
    } else {
        match parse_string(t, i) {
            None => None,
            Some((s, j)) => {
                let k = skip_ws(t, j);
                if k < t.len() && t[k] == ',' {
                    let m = skip_ws(t, k + 1);
                    match parse_items(t, m) {
                        Some((rest, e)) => Some((seq![s] + rest, e)),
                        None => None,
                    }
                } else if k < t.len() && t[k] == ']' {
                    Some((seq![s], k + 1))
                } else {
                    None
                }
            },
        }
    }
}

#[via_fn]
proof fn parse_items_decreases(t: Seq<char>, i: int) {
    if 0 <= i <= t.len() && !(i < t.len() && t[i] == ']') {
        match parse_string(t, i) {
            Some((s, j)) => {
                lemma_parse_string_bounds(t, i);
                lemma_skip_ws_bounds(t, j);
                let k = skip_ws(t, j);
                if k < t.len() && t[k] == ',' {
                    lemma_skip_ws_bounds(t, k + 1);
                }
            },
            None => {},
        }
    }
}

/// A whole string list starting at `i`.
pub open spec fn parse_list(t: Seq<char>, i: int) -> Option<(Seq<Seq<char>>, int)> {
    if 0 <= i && i < t.len() && t[i] == '[' {
        parse_items(t, skip_ws(t, i + 1))
    } else {
        None
    }
}

pub open spec fn parse_bool(t: Seq<char>, i: int) -> Option<(bool, int)> {
    if lit_at(t, i, "true"@) {
        Some((true, i + "true"@.len()))
    } else if lit_at(t, i, "false"@) {
        Some((false, i + "false"@.len()))
    } else {
        None
    }
}

/// The tagged crawl-limit variant: `Infinite`, or `Finite` followed by a
/// parenthesised decimal count.
pub open spec fn parse_limit(t: Seq<char>, i: int) -> Option<(Limit, int)> {
    if lit_at(t, i, "Infinite"@) {
        Some((Limit::Infinite, i + "Infinite"@.len()))
    } else if lit_at(t, i, "Finite"@) {
        let a = skip_ws(t, i + "Finite"@.len());
        if a < t.len() && t[a] == '(' {
            let b = skip_ws(t, a + 1);
            match parse_u32(t, b) {
                Some((n, c)) => {
                    let d = skip_ws(t, c);
                    if d < t.len() && t[d] == ')' {
                        Some((Limit::Finite(n), d + 1))
                    } else {
                        None
                    }
                },
                None => None,
            }
        } else {
            None
        }
    } else {
        None
    }
}

// --- spec-level record structure ---

/// A field key with its colon: whitespace, the key, whitespace, `:`, then
/// whitespace; returns the position of the value.
pub open spec fn parse_key(t: Seq<char>, i: int, key: Seq<char>) -> Option<int> {
    let a = skip_ws(t, i);
    if lit_at(t, a, key) {
        let b = skip_ws(t, a + key.len());
        if b < t.len() && t[b] == ':' {
            Some(skip_ws(t, b + 1))
        } else {
            None
        }
    } else {
        None
    }
}

/// A comma after a field value.
pub open spec fn parse_comma(t: Seq<char>, i: int) -> Option<int> {
    let a = skip_ws(t, i);
    if a < t.len() && t[a] == ',' {
        Some(a + 1)
    } else {
        None
    }
}

/// End of the record: an optional trailing comma, the closing parenthesis,
/// and nothing but whitespace to the end of the document.
pub open spec fn parse_end(t: Seq<char>, i: int) -> bool {
    let a = skip_ws(t, i);
    if a < t.len() && t[a] == ',' {
        let b = skip_ws(t, a + 1);
        b < t.len() && t[b] == ')' && skip_ws(t, b + 1) == t.len()
    } else {
        a < t.len() && t[a] == ')' && skip_ws(t, a + 1) == t.len()
    }
}

/// The document from the comma after the crawl limit onwards.
pub open spec fn parse_tail_wizard(t: Seq<char>, i: int, limit: Limit) -> Option<SettingsModel> {
    match parse_comma(t, i) {
        Some(q) => match parse_key(t, q, "run_wizard"@) {
            Some(v) => match parse_bool(t, v) {
                Some((w, p)) => parse_tail_allow(t, p, limit, w),
                None => None,
            },
            None => None,
        },
        None => None,
    }
}

/// The document from the comma after the wizard flag onwards.
pub open spec fn parse_tail_allow(t: Seq<char>, i: int, limit: Limit, wizard: bool) -> Option<
    SettingsModel,
> {
    match parse_comma(t, i) {
        Some(q) => match parse_key(t, q, "allow_list"@) {
            Some(v) => match parse_list(t, v) {
                Some((allow, p)) => parse_tail_block(t, p, limit, wizard, allow),
                None => None,
            },
            None => None,
        },
        None => None,
    }
}

/// The document from the comma after the allow list onwards.
pub open spec fn parse_tail_block(
    t: Seq<char>,
    i: int,
    limit: Limit,
    wizard: bool,
    allow: Seq<Seq<char>>,
) -> Option<SettingsModel> {
    match parse_comma(t, i) {
        Some(q) => match parse_key(t, q, "block_list"@) {
            Some(v) => match parse_list(t, v) {
                Some((block, p)) => {
                    if parse_end(t, p) {
                        Some(
                            SettingsModel {
                                domain_crawl_limit: limit,
                                run_wizard: wizard,
                                allow_list: allow,
                                block_list: block,
                            },
                        )
                    } else {
                        None
                    }
                },
                None => None,
            },
            None => None,
        },
        None => None,
    }
}

/// One deterministic parse of a whole preferences document.
pub open spec fn parse_settings_text(t: Seq<char>) -> Option<SettingsModel> {
    let i0 = skip_ws(t, 0);
    if i0 < t.len() && t[i0] == '(' {
        match parse_key(t, i0 + 1, "domain_crawl_limit"@) {
            Some(v) => match parse_limit(t, v) {
                Some((limit, p)) => parse_tail_wizard(t, p, limit),
                None => None,
            },
            None => None,
        }
    } else {
        None
    }
}

// --- the executable parser ---

fn is_ws_x(c: char) -> (r: bool)
    ensures
        r == is_ws_char(c),
{
    c == ' ' || c == '\n' || c == '\t' || c == '\r'
}

fn is_digit_x(c: char) -> (r: bool)
    ensures
        r == is_digit_char(c),
{
    c == '0' || c == '1' || c == '2' || c == '3' || c == '4' || c == '5' || c == '6' || c == '7'
        || c == '8' || c == '9'
}

fn char_to_digit(c: char) -> (d: u32)
    ensures
        d == char_digit(c),
        d < 10,
{
    if c == '1' {
        1
    } else if c == '2' {
        2
    } else if c == '3' {
        3
    } else if c == '4' {
        4
    } else if c == '5' {
        5
    } else if c == '6' {
        6
    } else if c == '7' {
        7
    } else if c == '8' {
        8
    } else if c == '9' {
        9
    } else {
        0
    }
}

fn skip_ws_x(t: &str, i: usize) -> (r: usize)
    requires
        i <= t@.len(),
    ensures
        i <= r <= t@.len(),
        r as int == skip_ws(t@, i as int),
    decreases t@.len() - i,
{
    if i < t.unicode_len() && is_ws_x(t.get_char(i)) {
        skip_ws_x(t, i + 1)
    } else {
        i
    }
}

fn scan_digits_x(t: &str, i: usize) -> (r: usize)
    requires
        i <= t@.len(),
    ensures
        i <= r <= t@.len(),
        r as int == scan_digits(t@, i as int),
    decreases t@.len() - i,
{
    if i < t.unicode_len() && is_digit_x(t.get_char(i)) {
        scan_digits_x(t, i + 1)
    } else {
        i
    }
}

fn match_lit(t: &str, i: usize, lit: &str) -> (r: bool)
    requires
        i <= t@.len(),
    ensures
        r == lit_at(t@, i as int, lit@),
{
    let n = lit.unicode_len();
    let len = t.unicode_len();
    if len - i < n {
        proof {
            assert(!lit_at(t@, i as int, lit@));
        }
        return false;
    }
    let mut j: usize = 0;
    while j < n
        invariant
            i + n <= t@.len(),
            t@.len() <= usize::MAX,
            j <= n,
            n == lit@.len(),
            forall|k: int| 0 <= k < j ==> t@[i + k] == lit@[k],
        decreases n - j,
    {
        if t.get_char(i + j) != lit.get_char(j) {
            proof {
                assert(t@.subrange(i as int, i + n as int) != lit@) by {
                    assert(t@.subrange(i as int, i + n as int)[j as int] != lit@[j as int]);
                }
            }
            return false;
        }
        j += 1;
    }
    proof {
        assert(t@.subrange(i as int, i + lit@.len() as int) =~= lit@);
    }
    true
}

fn parse_u32_x(t: &str, i: usize) -> (r: Option<(u32, usize)>)
    requires
        i <= t@.len(),
    ensures
        r matches Some((v, j)) ==> parse_u32(t@, i as int) == Some((v, j as int)) && i < j
            <= t@.len(),
        r is None ==> parse_u32(t@, i as int) is None,
{
    let len = t.unicode_len();
    if !(i < len && is_digit_x(t.get_char(i))) {
        return None;
    }
    let j = scan_digits_x(t, i);
    let mut acc: u64 = 0;
    let mut k = i;
    while k < j
        invariant
            i <= k <= j,
            j <= t@.len(),
            j as int == scan_digits(t@, i as int),
            acc <= u32::MAX as u64,
            acc as int == digits_val(t@, i as int, k as int),
        decreases j - k,
    {
        let c = t.get_char(k);
        let d = char_to_digit(c);
        acc = acc * 10 + d as u64;
        proof {
            assert(acc as int == digits_val(t@, i as int, k as int + 1));
        }
        if acc > u32::MAX as u64 {
            proof {
                lemma_digits_val_mono(t@, i as int, k as int + 1, j as int);
                assert(parse_u32(t@, i as int) is None);
            }
            return None;
        }
        k += 1;
    }
    proof {
        assert((i as int) < (j as int)) by {
            assert(scan_digits(t@, i as int) == scan_digits(t@, i as int + 1));
            lemma_scan_digits_bounds(t@, i as int + 1);
        }
        assert(parse_u32(t@, i as int) == Some((acc as u32, j as int)));
    }
    Some((acc as u32, j))
}

fn scan_string_body_x(t: &str, i: usize) -> (r: Option<(String, usize)>)
    requires
        i <= t@.len(),
    ensures
        r matches Some((s, j)) ==> scan_string_body(t@, i as int) == Some((s@, j as int)) && i < j
            <= t@.len(),
        r is None ==> scan_string_body(t@, i as int) is None,
    decreases t@.len() - i,
{
    let len = t.unicode_len();
    if i >= len {
        return None;
    }
    let c = t.get_char(i);
    if c == '"' {
        let s = String::new();
        Some((s, i + 1))
    } else if c == '\\' {
        if i + 1 < len {
            let c2 = t.get_char(i + 1);
            if c2 == '"' || c2 == '\\' {
                match scan_string_body_x(t, i + 2) {
                    Some((rest, j)) => {
                        let mut s = String::new();
                        push_char(&mut s, c2);
                        s.append(rest.as_str());
                        proof {
                            assert(s@ =~= seq![t@[i as int + 1]] + rest@);
                        }
                        Some((s, j))
                    },
                    None => None,
                }
            } else {
                None
            }
        } else {
            None
        }
    } else {
        match scan_string_body_x(t, i + 1) {
            Some((rest, j)) => {
                let mut s = String::new();
                push_char(&mut s, c);
                s.append(rest.as_str());
                proof {
                    assert(s@ =~= seq![t@[i as int]] + rest@);
                }
                Some((s, j))
            },
            None => None,
        }
    }
}

fn parse_string_x(t: &str, i: usize) -> (r: Option<(String, usize)>)
    requires
        i <= t@.len(),
    ensures
        r matches Some((s, j)) ==> parse_string(t@, i as int) == Some((s@, j as int)) && i < j
            <= t@.len(),
        r is None ==> parse_string(t@, i as int) is None,
{
    if i < t.unicode_len() && t.get_char(i) == '"' {
        scan_string_body_x(t, i + 1)
    } else {
        None
    }
}

fn parse_items_x(t: &str, i: usize) -> (r: Option<(Vec<String>, usize)>)
    requires
        i <= t@.len(),
    ensures
        r matches Some((v, e)) ==> parse_items(t@, i as int) == Some((v.deep_view(), e as int))
            && i < e <= t@.len(),
        r is None ==> parse_items(t@, i as int) is None,
    decreases t@.len() - i,
{
    let len = t.unicode_len();
    if i < len && t.get_char(i) == ']' {
        let v: Vec<String> = Vec::new();
        proof {
            assert(v.deep_view() =~= Seq::<Seq<char>>::empty());
        }
        return Some((v, i + 1));
    }
    match parse_string_x(t, i) {
        None => None,
        Some((s, j)) => {
            let k = skip_ws_x(t, j);
            if k < len && t.get_char(k) == ',' {
                let m = skip_ws_x(t, k + 1);
                match parse_items_x(t, m) {
                    Some((rest, e)) => {
                        let ghost rest_dv = rest.deep_view();
                        let ghost s_view = s@;
                        let mut v = rest;
                        v.insert(0, s);
                        proof {
                            assert(v.deep_view() =~= seq![s_view] + rest_dv);
                        }
                        Some((v, e))
                    },
                    None => None,
                }
            } else if k < len && t.get_char(k) == ']' {
                let ghost s_view = s@;
                let mut v: Vec<String> = Vec::new();
                v.push(s);
                proof {
                    assert(v.deep_view() =~= seq![s_view]);
                }
                Some((v, k + 1))
            } else {
                None
            }
        },
    }
}

fn parse_list_x(t: &str, i: usize) -> (r: Option<(Vec<String>, usize)>)
    requires
        i <= t@.len(),
    ensures
        r matches Some((v, e)) ==> parse_list(t@, i as int) == Some((v.deep_view(), e as int)) && e
            <= t@.len(),
        r is None ==> parse_list(t@, i as int) is None,
{
    if i < t.unicode_len() && t.get_char(i) == '[' {
        let j = skip_ws_x(t, i + 1);
        parse_items_x(t, j)
    } else {
        None
    }
}

fn parse_bool_x(t: &str, i: usize) -> (r: Option<(bool, usize)>)
    requires
        i <= t@.len(),
    ensures
        r matches Some((b, j)) ==> parse_bool(t@, i as int) == Some((b, j as int)) && j
            <= t@.len(),
        r is None ==> parse_bool(t@, i as int) is None,
{
    // pins the view's length within usize for the position sums below
    let len = t.unicode_len();
    if match_lit(t, i, "true") {
        Some((true, i + "true".unicode_len()))
    } else if match_lit(t, i, "false") {
        Some((false, i + "false".unicode_len()))
    } else {
        None
    }
}

fn parse_limit_x(t: &str, i: usize) -> (r: Option<(Limit, usize)>)
    requires
        i <= t@.len(),
    ensures
        r matches Some((l, j)) ==> parse_limit(t@, i as int) == Some((l, j as int)) && j
            <= t@.len(),
        r is None ==> parse_limit(t@, i as int) is None,
{
    let len = t.unicode_len();
    if match_lit(t, i, "Infinite") {
        Some((Limit::Infinite, i + "Infinite".unicode_len()))
    } else if match_lit(t, i, "Finite") {
        let a = skip_ws_x(t, i + "Finite".unicode_len());
        if a < len && t.get_char(a) == '(' {
            let b = skip_ws_x(t, a + 1);
            match parse_u32_x(t, b) {
                Some((n, c)) => {
                    let d = skip_ws_x(t, c);
                    if d < len && t.get_char(d) == ')' {
                        Some((Limit::Finite(n), d + 1))
                    } else {
                        None
                    }
                },
                None => None,
            }
        } else {
            None
        }
    } else {
        None
    }
}

fn parse_key_x(t: &str, i: usize, key: &str) -> (r: Option<usize>)
    requires
        i <= t@.len(),
    ensures
        r matches Some(v) ==> parse_key(t@, i as int, key@) == Some(v as int) && v <= t@.len(),
        r is None ==> parse_key(t@, i as int, key@) is None,
{
    let len = t.unicode_len();
    let a = skip_ws_x(t, i);
    if match_lit(t, a, key) {
        let b = skip_ws_x(t, a + key.unicode_len());
        if b < len && t.get_char(b) == ':' {
            Some(skip_ws_x(t, b + 1))
        } else {
            None
        }
    } else {
        None
    }
}

fn parse_comma_x(t: &str, i: usize) -> (r: Option<usize>)
    requires
        i <= t@.len(),
    ensures
        r matches Some(v) ==> parse_comma(t@, i as int) == Some(v as int) && v <= t@.len(),
        r is None ==> parse_comma(t@, i as int) is None,
{
    let a = skip_ws_x(t, i);
    if a < t.unicode_len() && t.get_char(a) == ',' {
        Some(a + 1)
    } else {
        None
    }
}

fn parse_end_x(t: &str, i: usize) -> (r: bool)
    requires
        i <= t@.len(),
    ensures
        r == parse_end(t@, i as int),
{
    let len = t.unicode_len();
    let a = skip_ws_x(t, i);
    if a < len && t.get_char(a) == ',' {
        let b = skip_ws_x(t, a + 1);
        b < len && t.get_char(b) == ')' && skip_ws_x(t, b + 1) == len
    } else {
        a < len && t.get_char(a) == ')' && skip_ws_x(t, a + 1) == len
    }
}

/// Deserializes a preferences document. Returns the settings it encodes, or
/// an error on any malformed text — exactly when the spec-level parse
/// rejects it.
pub fn parse_settings(t: &str) -> (r: Result<UserSettings, ParseError>)
    ensures
        match parse_settings_text(t@) {
            Some(m) => r matches Ok(s) && s@ == m,
            None => r is Err,
        },
{
    let len = t.unicode_len();
    let i0 = skip_ws_x(t, 0);
    if !(i0 < len && t.get_char(i0) == '(') {
        return Err(ParseError);
    }
    let v1 = match parse_key_x(t, i0 + 1, "domain_crawl_limit") {
        Some(v) => v,
        None => return Err(ParseError),
    };
    let (limit, p1) = match parse_limit_x(t, v1) {
        Some(x) => x,
        None => return Err(ParseError),
    };
    let q1 = match parse_comma_x(t, p1) {
        Some(q) => q,
        None => return Err(ParseError),
    };
    let v2 = match parse_key_x(t, q1, "run_wizard") {
        Some(v) => v,
        None => return Err(ParseError),
    };
    let (wizard, p2) = match parse_bool_x(t, v2) {
        Some(x) => x,
        None => return Err(ParseError),
    };
    let q2 = match parse_comma_x(t, p2) {
        Some(q) => q,
        None => return Err(ParseError),
    };
    let v3 = match parse_key_x(t, q2, "allow_list") {
        Some(v) => v,
        None => return Err(ParseError),
    };
    let (allow, p3) = match parse_list_x(t, v3) {
        Some(x) => x,
        None => return Err(ParseError),
    };
    let q3 = match parse_comma_x(t, p3) {
        Some(q) => q,
        None => return Err(ParseError),
    };
    let v4 = match parse_key_x(t, q3, "block_list") {
        Some(v) => v,
        None => return Err(ParseError),
    };
    let (block, p4) = match parse_list_x(t, v4) {
        Some(x) => x,
        None => return Err(ParseError),
    };
    if !parse_end_x(t, p4) {
        return Err(ParseError);
    }
    let s = UserSettings {
        domain_crawl_limit: limit,
        run_wizard: wizard,
        allow_list: allow,
        block_list: block,
    };
    Ok(s)
}

} // verus!
