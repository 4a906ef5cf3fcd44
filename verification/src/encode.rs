//! The preferences file format, write side.
//!
//! The settings record persists as a human-editable RON-style text document:
//! a parenthesised record of four fields, with a tagged crawl-limit variant,
//! a boolean, and two string lists. The spec functions here define the exact
//! character sequence the writer produces; the decoder in [`crate::decode`]
//! accepts that sequence (and more liberal whitespace) back.

use vstd::prelude::*;

use crate::settings::Limit;
use crate::settings::SettingsModel;
use crate::settings::UserSettings;

verus! {

// --- character classes and digits ---

/// Whitespace the decoder skips between tokens.
pub open spec fn is_ws_char(c: char) -> bool {
    c == ' ' || c == '\n' || c == '\t' || c == '\r'
}

pub open spec fn is_digit_char(c: char) -> bool {
    c == '0' || c == '1' || c == '2' || c == '3' || c == '4' || c == '5' || c == '6' || c == '7'
        || c == '8' || c == '9'
}

/// The decimal digit character for a value below ten.
pub open spec fn digit_char(d: int) -> char {
    if d == 0 {
        '0'
    } else if d == 1 {
        '1'
    } else if d == 2 {
        '2'
    } else if d == 3 {
        '3'
    } else if d == 4 {
        '4'
    } else if d == 5 {
        '5'
    } else if d == 6 {
        '6'
    } else if d == 7 {
        '7'
    } else if d == 8 {
        '8'
    } else {
        '9'
    }
}

/// The value of a decimal digit character; zero on anything else.
pub open spec fn char_digit(c: char) -> int {
    if c == '1' {
        1
    } else if c == '2' {
        2
    } else if c == '3' {
        3
    } else if c == '4' {
        4
    } else if c == '5' {
        5
    } else if c == '6' {
        6
    } else if c == '7' {
        7
    } else if c == '8' {
        8
    } else if c == '9' {
        9
    } else {
        0
    }
}

/// Decimal digits of `n`, most significant first, without leading zeros.
pub open spec fn dec_digits(n: nat) -> Seq<char>
    decreases n,
{
    if n < 10 {
        seq![digit_char(n as int)]
    } else {
        dec_digits(n / 10) + seq![digit_char((n % 10) as int)]
    }
}

// --- layout pieces ---

/// Line break before a record field: newline plus one indentation step.
pub open spec fn field_break() -> Seq<char> {
    seq!['\n', ' ', ' ', ' ', ' ']
}

/// Line break before a list item: newline plus two indentation steps.
pub open spec fn item_break() -> Seq<char> {
    seq!['\n', ' ', ' ', ' ', ' ', ' ', ' ', ' ', ' ']
}

// --- value encodings ---

/// A string character as it appears between the quotes: quote and backslash
/// are escaped with a backslash, everything else stands as itself.
pub open spec fn esc_char(c: char) -> Seq<char> {
    if c == '"' || c == '\\' {
        seq!['\\', c]
    } else {
        seq![c]
    }
}

/// The escaped body of a quoted string.
pub open spec fn esc_seq(s: Seq<char>) -> Seq<char>
    decreases s.len(),
{
    if s.len() == 0 {
        Seq::empty()
    } else {
        esc_char(s[0]) + esc_seq(s.drop_first())
    }
}

/// A double-quoted, escaped string.
pub open spec fn enc_string(s: Seq<char>) -> Seq<char> {
    seq!['"'] + (esc_seq(s) + seq!['"'])
}

pub open spec fn enc_bool(b: bool) -> Seq<char> {
    if b {
        "true"@
    } else {
        "false"@
    }
}

/// The tagged crawl-limit variant: `Infinite`, or `Finite(n)` in decimal.
pub open spec fn enc_limit(l: Limit) -> Seq<char> {
    match l {
        Limit::Infinite => "Infinite"@,
        Limit::Finite(n) => "Finite("@ + (dec_digits(n as nat) + seq![')']),
    }
}

/// The tail of a non-empty list, from the first remaining item up to and
/// including the closing bracket. Every item ends with a comma; the last
/// line break steps back out to field depth.
pub open spec fn enc_items_rest(items: Seq<Seq<char>>) -> Seq<char>
    decreases items.len(),
{
    if items.len() == 0 {
        seq![']']
    } else {
        enc_string(items[0]) + (seq![','] + ((if items.len() == 1 {
            field_break()
        } else {
            item_break()
        }) + enc_items_rest(items.drop_first())))
    }
}

/// A string list: `[]` when empty, otherwise one quoted item per line.
pub open spec fn enc_list(items: Seq<Seq<char>>) -> Seq<char> {
    if items.len() == 0 {
        seq!['[', ']']
    } else {
        seq!['['] + (item_break() + enc_items_rest(items))
    }
}

/// One record field on its own line: indentation, key, colon, value, comma.
pub open spec fn enc_field(key: Seq<char>, value: Seq<char>) -> Seq<char> {
    field_break() + (key + (": "@ + (value + seq![','])))
}

/// The whole preferences document for a settings record.
pub open spec fn enc_settings(m: SettingsModel) -> Seq<char> {
    seq!['('] + (enc_field("domain_crawl_limit"@, enc_limit(m.domain_crawl_limit)) + (enc_field(
        "run_wizard"@,
        enc_bool(m.run_wizard),
    ) + (enc_field("allow_list"@, enc_list(m.allow_list)) + (enc_field(
        "block_list"@,
        enc_list(m.block_list),
    ) + seq!['\n', ')']))))
}

// --- the writer ---

/// Relies on `String::push`: appends exactly the one character `c` to `s`.
#[verifier::external_body]
pub(crate) fn push_char(s: &mut String, c: char)
    ensures
        final(s)@ == old(s)@ + seq![c],
{
    s.push(c);
}

fn digit_to_char(d: u32) -> (c: char)
    requires
        d < 10,
    ensures
        c == digit_char(d as int),
{
    if d == 0 {
        '0'
    } else if d == 1 {
        '1'
    } else if d == 2 {
        '2'
    } else if d == 3 {
        '3'
    } else if d == 4 {
        '4'
    } else if d == 5 {
        '5'
    } else if d == 6 {
        '6'
    } else if d == 7 {
        '7'
    } else if d == 8 {
        '8'
    } else {
        '9'
    }
}

/// Writes `n` in decimal.
pub fn write_u32(n: u32) -> (out: String)
    ensures
        out@ == dec_digits(n as nat),
    decreases n,
{
    if n < 10 {
        let mut out = String::new();
        push_char(&mut out, digit_to_char(n));
        proof {
            assert(out@ =~= dec_digits(n as nat));
        }
        out
    } else {
        let mut out = write_u32(n / 10);
        push_char(&mut out, digit_to_char(n % 10));
        proof {
            assert(n as nat / 10 == (n / 10) as nat);
            assert(out@ =~= dec_digits(n as nat));
        }
        out
    }
}

fn write_string_rest(s: &str, i: usize) -> (out: String)
    requires
        i <= s@.len(),
    ensures
        out@ == esc_seq(s@.subrange(i as int, s@.len() as int)) + seq!['"'],
    decreases s@.len() - i,
{
    if i == s.unicode_len() {
        let mut out = String::new();
        push_char(&mut out, '"');
        proof {
            assert(s@.subrange(i as int, s@.len() as int) =~= Seq::<char>::empty());
            assert(out@ =~= esc_seq(s@.subrange(i as int, s@.len() as int)) + seq!['"']);
        }
        out
    } else {
        let c = s.get_char(i);
        let rest = write_string_rest(s, i + 1);
        let mut out = String::new();
        if c == '"' || c == '\\' {
            push_char(&mut out, '\\');
            push_char(&mut out, c);
        } else {
            push_char(&mut out, c);
        }
        out.append(rest.as_str());
        proof {
            let t = s@.subrange(i as int, s@.len() as int);
            assert(t.drop_first() =~= s@.subrange(i as int + 1, s@.len() as int));
            assert(out@ =~= esc_seq(t) + seq!['"']);
        }
        out
    }
}

/// Writes one quoted, escaped string.
pub fn write_string(s: &str) -> (out: String)
    ensures
        out@ == enc_string(s@),
{
    let mut out = String::new();
    push_char(&mut out, '"');
    let rest = write_string_rest(s, 0);
    out.append(rest.as_str());
    proof {
        assert(s@.subrange(0, s@.len() as int) =~= s@);
        assert(out@ =~= enc_string(s@));
    }
    out
}

/// Writes the crawl-limit variant.
pub fn write_limit(l: &Limit) -> (out: String)
    ensures
        out@ == enc_limit(*l),
{
    match l {
        Limit::Infinite => String::from_str("Infinite"),
        Limit::Finite(n) => {
            let mut out = String::from_str("Finite(");
            let digits = write_u32(*n);
            out.append(digits.as_str());
            push_char(&mut out, ')');
            proof {
                assert(out@ =~= enc_limit(*l));
            }
            out
        },
    }
}

fn write_items_rest(items: &Vec<String>, i: usize) -> (out: String)
    requires
        i <= items@.len(),
    ensures
        out@ == enc_items_rest(items.deep_view().subrange(i as int, items@.len() as int)),
    decreases items@.len() - i,
{
    if i == items.len() {
        let mut out = String::new();
        push_char(&mut out, ']');
        proof {
            assert(items.deep_view().subrange(i as int, items@.len() as int) =~= Seq::<
                Seq<char>,
            >::empty());
            assert(out@ =~= seq![']']);
        }
        out
    } else {
        let mut out = write_string(items[i].as_str());
        push_char(&mut out, ',');
        if i + 1 == items.len() {
            out.append("\n    ");
        } else {
            out.append("\n        ");
        }
        let rest = write_items_rest(items, i + 1);
        out.append(rest.as_str());
        proof {
            reveal_strlit("\n    ");
            reveal_strlit("\n        ");
            assert("\n    "@ =~= field_break());
            assert("\n        "@ =~= item_break());
            let t = items.deep_view().subrange(i as int, items@.len() as int);
            assert(t[0] == items@[i as int]@);
            assert(t.drop_first() =~= items.deep_view().subrange(
                i as int + 1,
                items@.len() as int,
            ));
            assert(out@ =~= enc_items_rest(t));
        }
        out
    }
}

/// Writes one string list.
pub fn write_list(items: &Vec<String>) -> (out: String)
    ensures
        out@ == enc_list(items.deep_view()),
{
    if items.len() == 0 {
        let out = String::from_str("[]");
        proof {
            reveal_strlit("[]");
            assert(items.deep_view().len() == 0);
            assert(out@ =~= enc_list(items.deep_view()));
        }
        out
    } else {
        let mut out = String::from_str("[\n        ");
        let rest = write_items_rest(items, 0);
        out.append(rest.as_str());
        proof {
            reveal_strlit("[\n        ");
            assert(items.deep_view().subrange(0, items@.len() as int) =~= items.deep_view());
            assert(out@ =~= enc_list(items.deep_view()));
        }
        out
    }
}

/// Serializes a settings record as the pretty preferences document.
pub fn encode_settings(s: &UserSettings) -> (out: String)
    ensures
        out@ == enc_settings(s@),
{
    let mut out = String::from_str("(\n    domain_crawl_limit: ");
    let limit = write_limit(&s.domain_crawl_limit);
    out.append(limit.as_str());
    out.append(",\n    run_wizard: ");
    if s.run_wizard {
        out.append("true");
    } else {
        out.append("false");
    }
    out.append(",\n    allow_list: ");
    let allow = write_list(&s.allow_list);
    out.append(allow.as_str());
    out.append(",\n    block_list: ");
    let block = write_list(&s.block_list);
    out.append(block.as_str());
    out.append(",\n)");
    proof {
        reveal_strlit("(\n    domain_crawl_limit: ");
        reveal_strlit(",\n    run_wizard: ");
        reveal_strlit(",\n    allow_list: ");
        reveal_strlit(",\n    block_list: ");
        reveal_strlit(",\n)");
        reveal_strlit("domain_crawl_limit");
        reveal_strlit("run_wizard");
        reveal_strlit("allow_list");
        reveal_strlit("block_list");
        reveal_strlit(": ");
        assert(out@ =~= enc_settings(s@));
    }
    out
}

} // verus!
