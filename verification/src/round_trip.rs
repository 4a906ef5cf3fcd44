//! Round-trip laws of the preferences format: a document written by the
//! encoder always parses back to the record it was written from.

use vstd::prelude::*;

use crate::decode::digits_val;
use crate::decode::lit_at;
use crate::decode::parse_bool;
use crate::decode::parse_comma;
use crate::decode::parse_end;
use crate::decode::parse_items;
use crate::decode::parse_key;
use crate::decode::parse_limit;
use crate::decode::parse_list;
use crate::decode::parse_settings_text;
use crate::decode::parse_string;
use crate::decode::parse_u32;
use crate::decode::scan_digits;
use crate::decode::scan_string_body;
use crate::decode::skip_ws;
use crate::encode::char_digit;
use crate::encode::dec_digits;
use crate::encode::digit_char;
use crate::encode::enc_bool;
use crate::encode::enc_field;
use crate::encode::enc_items_rest;
use crate::encode::enc_limit;
use crate::encode::enc_list;
use crate::encode::enc_settings;
use crate::encode::enc_string;
use crate::encode::esc_char;
use crate::encode::esc_seq;
use crate::encode::field_break;
use crate::encode::is_digit_char;
use crate::encode::is_ws_char;
use crate::encode::item_break;
use crate::settings::Limit;
use crate::settings::SettingsModel;

verus! {

/// Splits one subrange fact about a concatenation into facts about its parts.
proof fn lemma_cat_at(t: Seq<char>, i: int, a: Seq<char>, b: Seq<char>)
    requires
        0 <= i,
        i + a.len() + b.len() <= t.len(),
        t.subrange(i, i + a.len() + b.len()) == a + b,
    ensures
        t.subrange(i, i + a.len()) == a,
        t.subrange(i + a.len(), i + a.len() + b.len()) == b,
{
    assert forall|k: int| 0 <= k < a.len() implies t.subrange(i, i + a.len())[k] == a[k] by {
        assert(t.subrange(i, i + a.len() + b.len())[k] == (a + b)[k]);
    }
    assert(t.subrange(i, i + a.len()) =~= a);
    assert forall|k: int| 0 <= k < b.len() implies t.subrange(
        i + a.len(),
        i + a.len() + b.len(),
    )[k] == b[k] by {
        assert(t.subrange(i + a.len(), i + a.len() + b.len())[k] == t[i + a.len() + k]);
        assert(t.subrange(i, i + a.len() + b.len())[a.len() + k] == t[i + a.len() + k]);
        assert((a + b)[a.len() + k] == b[k]);
    }
    assert(t.subrange(i + a.len(), i + a.len() + b.len()) =~= b);
}

/// Skipping whitespace over a run of whitespace characters lands exactly on
/// the first character after the run.
proof fn lemma_skip_ws_over(t: Seq<char>, i: int, run: Seq<char>)
    requires
        0 <= i,
        i + run.len() <= t.len(),
        t.subrange(i, i + run.len()) == run,
        forall|k: int| 0 <= k < run.len() ==> is_ws_char(#[trigger] run[k]),
        i + run.len() == t.len() || !is_ws_char(t[i + run.len()]),
    ensures
        skip_ws(t, i) == i + run.len(),
    decreases run.len(),
{
    if run.len() == 0 {
    } else {
        assert(t[i] == t.subrange(i, i + run.len())[0]);
        assert(is_ws_char(t[i]));
        assert forall|k: int| 0 <= k < run.drop_first().len() implies t.subrange(
            i + 1,
            i + run.len(),
        )[k] == run.drop_first()[k] by {
            assert(t.subrange(i, i + run.len())[k + 1] == run[k + 1]);
        }
        assert(t.subrange(i + 1, i + run.len()) =~= run.drop_first());
        lemma_skip_ws_over(t, i + 1, run.drop_first());
    }
}

// --- decimal numbers ---

proof fn lemma_dec_digits_digits(n: nat)
    ensures
        dec_digits(n).len() >= 1,
        forall|k: int| 0 <= k < dec_digits(n).len() ==> is_digit_char(#[trigger] dec_digits(n)[k]),
    decreases n,
{
    if n < 10 {
        assert(is_digit_char(digit_char(n as int)));
    } else {
        lemma_dec_digits_digits(n / 10);
        assert forall|k: int| 0 <= k < dec_digits(n).len() implies is_digit_char(
            #[trigger] dec_digits(n)[k],
        ) by {
            if k < dec_digits(n / 10).len() {
                assert(dec_digits(n)[k] == dec_digits(n / 10)[k]);
            } else {
                assert(dec_digits(n)[k] == digit_char((n % 10) as int));
            }
        }
    }
}

proof fn lemma_digits_val_of_dec(t: Seq<char>, i: int, n: nat)
    requires
        0 <= i,
        i + dec_digits(n).len() <= t.len(),
        t.subrange(i, i + dec_digits(n).len()) == dec_digits(n),
    ensures
        digits_val(t, i, i + dec_digits(n).len()) == n,
    decreases n,
{
    let d = dec_digits(n);
    let j: int = i + d.len();
    if n < 10 {
        assert(t[i] == t.subrange(i, j)[0]);
        assert(t[i] == digit_char(n as int));
        assert(digits_val(t, i, j) == digits_val(t, i, i) * 10 + char_digit(t[i]));
        assert(char_digit(digit_char(n as int)) == n);
    } else {
        lemma_dec_digits_digits(n / 10);
        lemma_cat_at(t, i, dec_digits(n / 10), seq![digit_char((n % 10) as int)]);
        lemma_digits_val_of_dec(t, i, n / 10);
        assert(t[j - 1] == t.subrange(j - 1, j)[0]);
        assert(t[j - 1] == digit_char((n % 10) as int));
        assert(char_digit(digit_char((n % 10) as int)) == n % 10);
        assert(digits_val(t, i, j) == (n / 10) * 10 + (n % 10));
        assert((n / 10) * 10 + (n % 10) == n) by (nonlinear_arith);
    }
}

proof fn lemma_scan_digits_run(t: Seq<char>, i: int, j: int)
    requires
        0 <= i <= j <= t.len(),
        forall|k: int| i <= k < j ==> is_digit_char(#[trigger] t[k]),
        j == t.len() || !is_digit_char(t[j]),
    ensures
        scan_digits(t, i) == j,
    decreases j - i,
{
    if i < j {
        lemma_scan_digits_run(t, i + 1, j);
    }
}

/// Parsing the decimal digits of `n`, with no digit following them, yields
/// exactly `n`.
proof fn lemma_parse_u32_at(t: Seq<char>, i: int, n: u32)
    requires
        0 <= i,
        i + dec_digits(n as nat).len() <= t.len(),
        t.subrange(i, i + dec_digits(n as nat).len()) == dec_digits(n as nat),
        i + dec_digits(n as nat).len() == t.len() || !is_digit_char(
            t[i + dec_digits(n as nat).len()],
        ),
    ensures
        parse_u32(t, i) == Some((n, i + dec_digits(n as nat).len())),
{
    let d = dec_digits(n as nat);
    let j: int = i + d.len();
    lemma_dec_digits_digits(n as nat);
    assert forall|k: int| i <= k < j implies is_digit_char(#[trigger] t[k]) by {
        assert(t[k] == t.subrange(i, j)[k - i]);
    }
    lemma_scan_digits_run(t, i, j);
    lemma_digits_val_of_dec(t, i, n as nat);
}

// --- strings ---

proof fn lemma_scan_body_at(t: Seq<char>, i: int, s: Seq<char>)
    requires
        0 <= i,
        i + esc_seq(s).len() + 1 <= t.len(),
        t.subrange(i, i + esc_seq(s).len() + 1) == esc_seq(s) + seq!['"'],
    ensures
        scan_string_body(t, i) == Some((s, i + esc_seq(s).len() + 1)),
    decreases s.len(),
{
    if s.len() == 0 {
        assert(t[i] == t.subrange(i, i + 1)[0]);
        assert(t[i] == '"');
        assert(Seq::<char>::empty() =~= s);
    } else {
        let e0 = esc_char(s[0]);
        let rest = s.drop_first();
        assert(esc_seq(s) + seq!['"'] =~= e0 + (esc_seq(rest) + seq!['"']));
        lemma_cat_at(t, i, e0, esc_seq(rest) + seq!['"']);
        let m: int = i + e0.len();
        if s[0] == '"' || s[0] == '\\' {
            assert(t[i] == t.subrange(i, m)[0]);
            assert(t[i + 1] == t.subrange(i, m)[1]);
            assert(t[i] == '\\' && t[i + 1] == s[0]);
            lemma_scan_body_at(t, m, rest);
            assert(seq![t[i + 1]] + rest =~= s);
        } else {
            assert(t[i] == t.subrange(i, m)[0]);
            assert(t[i] == s[0]);
            lemma_scan_body_at(t, m, rest);
            assert(seq![t[i]] + rest =~= s);
        }
    }
}

/// Parsing an encoded string yields the original character sequence.
proof fn lemma_parse_string_at(t: Seq<char>, i: int, s: Seq<char>)
    requires
        0 <= i,
        i + enc_string(s).len() <= t.len(),
        t.subrange(i, i + enc_string(s).len()) == enc_string(s),
    ensures
        parse_string(t, i) == Some((s, i + enc_string(s).len())),
{
    lemma_cat_at(t, i, seq!['"'], esc_seq(s) + seq!['"']);
    assert(t[i] == t.subrange(i, i + 1)[0]);
    assert(t[i] == '"');
    lemma_scan_body_at(t, i + 1, s);
}

// --- lists ---

proof fn lemma_parse_items_at(t: Seq<char>, i: int, items: Seq<Seq<char>>)
    requires
        0 <= i,
        i + enc_items_rest(items).len() <= t.len(),
        t.subrange(i, i + enc_items_rest(items).len()) == enc_items_rest(items),
    ensures
        parse_items(t, i) == Some((items, i + enc_items_rest(items).len())),
    decreases items.len(),
{
    if items.len() == 0 {
        assert(t[i] == t.subrange(i, i + 1)[0]);
        assert(t[i] == ']');
        assert(Seq::<Seq<char>>::empty() =~= items);
    } else {
        let s0 = items[0];
        let rest = items.drop_first();
        let brk = if items.len() == 1 {
            field_break()
        } else {
            item_break()
        };
        lemma_cat_at(t, i, enc_string(s0), seq![','] + (brk + enc_items_rest(rest)));
        let j: int = i + enc_string(s0).len();
        lemma_cat_at(t, j, seq![','], brk + enc_items_rest(rest));
        lemma_cat_at(t, j + 1, brk, enc_items_rest(rest));
        let m: int = j + 1 + brk.len();
        lemma_parse_string_at(t, i, s0);
        assert(t[i] == t.subrange(i, j)[0]);
        assert(t[i] == '"');
        assert(t[j] == t.subrange(j, j + 1)[0]);
        assert(t[j] == ',');
        assert(skip_ws(t, j) == j);
        // the break is whitespace, and the tail after it starts with a quote
        // or the closing bracket, never whitespace
        assert(t[m] == t.subrange(m, i + enc_items_rest(items).len())[0]);
        if rest.len() == 0 {
            assert(t[m] == ']');
        } else {
            assert(enc_items_rest(rest)[0] == (enc_string(rest[0]) + (seq![','] + ((if rest.len()
                == 1 {
                field_break()
            } else {
                item_break()
            }) + enc_items_rest(rest.drop_first()))))[0]);
            assert(t[m] == '"');
        }
        lemma_skip_ws_over(t, j + 1, brk);
        lemma_parse_items_at(t, m, rest);
        assert(seq![s0] + rest =~= items);
    }
}

/// Parsing an encoded string list yields the original items.
proof fn lemma_parse_list_at(t: Seq<char>, i: int, items: Seq<Seq<char>>)
    requires
        0 <= i,
        i + enc_list(items).len() <= t.len(),
        t.subrange(i, i + enc_list(items).len()) == enc_list(items),
    ensures
        parse_list(t, i) == Some((items, i + enc_list(items).len())),
{
    if items.len() == 0 {
        assert(t[i] == t.subrange(i, i + 2)[0]);
        assert(t[i + 1] == t.subrange(i, i + 2)[1]);
        assert(t[i] == '[' && t[i + 1] == ']');
        assert(skip_ws(t, i + 1) == i + 1);
        assert(Seq::<Seq<char>>::empty() =~= items);
    } else {
        lemma_cat_at(t, i, seq!['['], item_break() + enc_items_rest(items));
        lemma_cat_at(t, i + 1, item_break(), enc_items_rest(items));
        let m: int = i + 1 + item_break().len();
        assert(t[i] == t.subrange(i, i + 1)[0]);
        assert(t[i] == '[');
        assert(t[m] == t.subrange(m, i + enc_list(items).len())[0]);
        assert(enc_items_rest(items)[0] == (enc_string(items[0]) + (seq![','] + ((if items.len()
            == 1 {
            field_break()
        } else {
            item_break()
        }) + enc_items_rest(items.drop_first()))))[0]);
        assert(t[m] == '"');
        lemma_skip_ws_over(t, i + 1, item_break());
        lemma_parse_items_at(t, m, items);
    }
}

// --- scalars ---

/// Parsing an encoded boolean yields the original value.
proof fn lemma_parse_bool_at(t: Seq<char>, i: int, b: bool)
    requires
        0 <= i,
        i + enc_bool(b).len() <= t.len(),
        t.subrange(i, i + enc_bool(b).len()) == enc_bool(b),
    ensures
        parse_bool(t, i) == Some((b, i + enc_bool(b).len())),
{
    reveal_strlit("true");
    reveal_strlit("false");
    if b {
        assert(lit_at(t, i, "true"@));
    } else {
        assert(t[i] == t.subrange(i, i + 5)[0]);
        assert(t[i] == 'f');
        if lit_at(t, i, "true"@) {
            assert(t[i] == t.subrange(i, i + 4)[0]);
            assert(false);
        }
        assert(lit_at(t, i, "false"@));
    }
}

/// Parsing an encoded crawl limit yields the original variant.
proof fn lemma_parse_limit_at(t: Seq<char>, i: int, l: Limit)
    requires
        0 <= i,
        i + enc_limit(l).len() <= t.len(),
        t.subrange(i, i + enc_limit(l).len()) == enc_limit(l),
    ensures
        parse_limit(t, i) == Some((l, i + enc_limit(l).len())),
{
    reveal_strlit("Infinite");
    reveal_strlit("Finite(");
    reveal_strlit("Finite");
    match l {
        Limit::Infinite => {
            assert(lit_at(t, i, "Infinite"@));
        },
        Limit::Finite(n) => {
            let d = dec_digits(n as nat);
            assert("Finite("@ =~= "Finite"@ + seq!['(']);
            assert(enc_limit(l) =~= "Finite"@ + (seq!['('] + (d + seq![')'])));
            lemma_cat_at(t, i, "Finite"@, seq!['('] + (d + seq![')']));
            lemma_cat_at(t, i + 6, seq!['('], d + seq![')']);
            lemma_cat_at(t, i + 7, d, seq![')']);
            assert(t[i] == t.subrange(i, i + 6)[0]);
            assert(t[i] == 'F');
            if lit_at(t, i, "Infinite"@) {
                assert(t[i] == t.subrange(i, i + 8)[0]);
                assert(false);
            }
            assert(lit_at(t, i, "Finite"@));
            assert(t[i + 6] == t.subrange(i + 6, i + 7)[0]);
            assert(t[i + 6] == '(');
            assert(skip_ws(t, i + 6) == i + 6);
            lemma_dec_digits_digits(n as nat);
            assert(t[i + 7] == t.subrange(i + 7, i + 7 + d.len())[0]);
            assert(is_digit_char(t[i + 7]));
            assert(!is_ws_char(t[i + 7]));
            assert(skip_ws(t, i + 7) == i + 7);
            let c: int = i + 7 + d.len();
            assert(t[c] == t.subrange(c, c + 1)[0]);
            assert(t[c] == ')');
            lemma_parse_u32_at(t, i + 7, n);
            assert(skip_ws(t, c) == c);
        },
    }
}

/// The `Limit` variant round trip: every crawl-limit value, encoded and then
/// parsed, comes back as itself, consuming the whole encoding.
pub proof fn lemma_limit_round_trip(l: Limit)
    ensures
        parse_limit(enc_limit(l), 0) == Some((l, enc_limit(l).len() as int)),
{
    let t = enc_limit(l);
    assert(t.subrange(0, t.len() as int) =~= t);
    lemma_parse_limit_at(t, 0, l);
}

// --- the whole record ---

/// A field as the encoder lays it out: its key parses, its value spans the
/// text up to the final comma.
proof fn lemma_field_shape(t: Seq<char>, i: int, key: Seq<char>, value: Seq<char>)
    requires
        0 <= i,
        i + enc_field(key, value).len() <= t.len(),
        t.subrange(i, i + enc_field(key, value).len()) == enc_field(key, value),
        key.len() >= 1,
        !is_ws_char(key[0]),
        value.len() >= 1,
        !is_ws_char(value[0]),
    ensures
        parse_key(t, i, key) == Some(i + 5 + key.len() + 2),
        t.subrange(i + 5 + key.len() + 2, i + enc_field(key, value).len() - 1) == value,
        t[i + enc_field(key, value).len() - 1] == ',',
{
    reveal_strlit(": ");
    lemma_cat_at(t, i, field_break(), key + (": "@ + (value + seq![','])));
    let a: int = i + 5;
    lemma_cat_at(t, a, key, ": "@ + (value + seq![',']));
    let b: int = a + key.len();
    lemma_cat_at(t, b, ": "@, value + seq![',']);
    let v: int = b + 2;
    lemma_cat_at(t, v, value, seq![',']);
    assert(t[a] == t.subrange(a, a + key.len())[0]);
    assert(!is_ws_char(t[a]));
    lemma_skip_ws_over(t, i, field_break());
    assert(lit_at(t, a, key));
    assert(t[b] == t.subrange(b, b + 2)[0]);
    assert(t[b + 1] == t.subrange(b, b + 2)[1]);
    assert(t[b] == ':' && t[b + 1] == ' ');
    assert(skip_ws(t, b) == b);
    assert(t[v] == t.subrange(v, v + value.len())[0]);
    assert(!is_ws_char(t[v]));
    assert(t.subrange(b + 1, b + 2) =~= seq![' ']);
    lemma_skip_ws_over(t, b + 1, seq![' ']);
    assert(t[v + value.len()] == t.subrange(v, i + enc_field(key, value).len())[value.len() as int]);
}

/// The crawl-limit field as laid out at position `i`: its key, value and
/// trailing comma all parse, and the comma hands over to the next position.
proof fn lemma_field_limit(t: Seq<char>, i: int, l: Limit)
    requires
        0 <= i,
        i + enc_field("domain_crawl_limit"@, enc_limit(l)).len() <= t.len(),
        t.subrange(i, i + enc_field("domain_crawl_limit"@, enc_limit(l)).len()) == enc_field(
            "domain_crawl_limit"@,
            enc_limit(l),
        ),
    ensures
        parse_key(t, i, "domain_crawl_limit"@) == Some(i + 25),
        parse_limit(t, i + 25) == Some(
            (l, i + enc_field("domain_crawl_limit"@, enc_limit(l)).len() - 1),
        ),
        parse_comma(t, i + enc_field("domain_crawl_limit"@, enc_limit(l)).len() - 1) == Some(
            i + enc_field("domain_crawl_limit"@, enc_limit(l)).len(),
        ),
{
    reveal_strlit("domain_crawl_limit");
    reveal_strlit("Infinite");
    reveal_strlit("Finite(");
    let key = "domain_crawl_limit"@;
    let value = enc_limit(l);
    assert(key[0] == 'd');
    assert(value.len() >= 1 && !is_ws_char(value[0])) by {
        match l {
            Limit::Infinite => {
                assert(value[0] == 'I');
            },
            Limit::Finite(n) => {
                assert(value[0] == ("Finite("@ + (dec_digits(n as nat) + seq![')']))[0]);
                assert(value[0] == 'F');
            },
        }
    }
    lemma_field_shape(t, i, key, value);
    lemma_parse_limit_at(t, i + 25, l);
    let e: int = i + enc_field(key, value).len() - 1;
    assert(skip_ws(t, e) == e);
}

/// The wizard field as laid out at position `i`.
proof fn lemma_field_bool(t: Seq<char>, i: int, b: bool)
    requires
        0 <= i,
        i + enc_field("run_wizard"@, enc_bool(b)).len() <= t.len(),
        t.subrange(i, i + enc_field("run_wizard"@, enc_bool(b)).len()) == enc_field(
            "run_wizard"@,
            enc_bool(b),
        ),
    ensures
        parse_key(t, i, "run_wizard"@) == Some(i + 17),
        parse_bool(t, i + 17) == Some((b, i + enc_field("run_wizard"@, enc_bool(b)).len() - 1)),
        parse_comma(t, i + enc_field("run_wizard"@, enc_bool(b)).len() - 1) == Some(
            i + enc_field("run_wizard"@, enc_bool(b)).len(),
        ),
{
    reveal_strlit("run_wizard");
    reveal_strlit("true");
    reveal_strlit("false");
    let key = "run_wizard"@;
    let value = enc_bool(b);
    assert(key[0] == 'r');
    assert(value.len() >= 1 && !is_ws_char(value[0])) by {
        if b {
            assert(value[0] == 't');
        } else {
            assert(value[0] == 'f');
        }
    }
    lemma_field_shape(t, i, key, value);
    lemma_parse_bool_at(t, i + 17, b);
    let e: int = i + enc_field(key, value).len() - 1;
    assert(skip_ws(t, e) == e);
}

/// A string-list field as laid out at position `i`.
proof fn lemma_field_list(t: Seq<char>, i: int, key: Seq<char>, items: Seq<Seq<char>>)
    requires
        0 <= i,
        key.len() >= 1,
        !is_ws_char(key[0]),
        i + enc_field(key, enc_list(items)).len() <= t.len(),
        t.subrange(i, i + enc_field(key, enc_list(items)).len()) == enc_field(
            key,
            enc_list(items),
        ),
    ensures
        parse_key(t, i, key) == Some(i + 5 + key.len() + 2),
        parse_list(t, i + 5 + key.len() + 2) == Some(
            (items, i + enc_field(key, enc_list(items)).len() - 1),
        ),
        parse_comma(t, i + enc_field(key, enc_list(items)).len() - 1) == Some(
            i + enc_field(key, enc_list(items)).len(),
        ),
{
    let value = enc_list(items);
    assert(value.len() >= 1 && !is_ws_char(value[0])) by {
        assert(value[0] == '[');
    }
    lemma_field_shape(t, i, key, value);
    lemma_parse_list_at(t, i + 5 + key.len() + 2, items);
    let e: int = i + enc_field(key, value).len() - 1;
    assert(skip_ws(t, e) == e);
}

/// Assembles the per-token parse results into the whole-document parse.
proof fn lemma_assemble(t: Seq<char>, m: SettingsModel, p2: int, p3: int, p4: int, p5: int)
    requires
        0 < t.len(),
        skip_ws(t, 0) == 0,
        t[0] == '(',
        parse_key(t, 1, "domain_crawl_limit"@) == Some(26int),
        parse_limit(t, 26) == Some((m.domain_crawl_limit, p2 - 1)),
        parse_comma(t, p2 - 1) == Some(p2),
        parse_key(t, p2, "run_wizard"@) == Some(p2 + 17),
        parse_bool(t, p2 + 17) == Some((m.run_wizard, p3 - 1)),
        parse_comma(t, p3 - 1) == Some(p3),
        parse_key(t, p3, "allow_list"@) == Some(p3 + 17),
        parse_list(t, p3 + 17) == Some((m.allow_list, p4 - 1)),
        parse_comma(t, p4 - 1) == Some(p4),
        parse_key(t, p4, "block_list"@) == Some(p4 + 17),
        parse_list(t, p4 + 17) == Some((m.block_list, p5 - 1)),
        parse_end(t, p5 - 1),
    ensures
        parse_settings_text(t) == Some(m),
{
    assert(SettingsModel {
        domain_crawl_limit: m.domain_crawl_limit,
        run_wizard: m.run_wizard,
        allow_list: m.allow_list,
        block_list: m.block_list,
    } == m);
}

/// The full write-then-read round trip: the document the encoder produces
/// for any settings record parses back to exactly that record.
#[verifier::rlimit(100)]
#[verifier::spinoff_prover]
pub proof fn lemma_settings_round_trip(m: SettingsModel)
    ensures
        parse_settings_text(enc_settings(m)) == Some(m),
{
    reveal_strlit("domain_crawl_limit");
    reveal_strlit("run_wizard");
    reveal_strlit("allow_list");
    reveal_strlit("block_list");
    let t = enc_settings(m);
    let k1 = "domain_crawl_limit"@;
    let k2 = "run_wizard"@;
    let k3 = "allow_list"@;
    let k4 = "block_list"@;
    let f1 = enc_field(k1, enc_limit(m.domain_crawl_limit));
    let f2 = enc_field(k2, enc_bool(m.run_wizard));
    let f3 = enc_field(k3, enc_list(m.allow_list));
    let f4 = enc_field(k4, enc_list(m.block_list));
    let tail = seq!['\n', ')'];
    assert(t.subrange(0, t.len() as int) =~= t);
    lemma_cat_at(t, 0, seq!['('], f1 + (f2 + (f3 + (f4 + tail))));
    lemma_cat_at(t, 1, f1, f2 + (f3 + (f4 + tail)));
    let p2: int = 1 + f1.len() as int;
    lemma_cat_at(t, p2, f2, f3 + (f4 + tail));
    let p3: int = p2 + f2.len();
    lemma_cat_at(t, p3, f3, f4 + tail);
    let p4: int = p3 + f3.len();
    lemma_cat_at(t, p4, f4, tail);
    let p5: int = p4 + f4.len();

    // the opening parenthesis
    assert(t[0] == t.subrange(0, 1)[0]);
    assert(t[0] == '(');
    assert(skip_ws(t, 0) == 0);

    // the four fields, each ending in the comma that hands over to the next
    lemma_field_limit(t, 1, m.domain_crawl_limit);
    lemma_field_bool(t, p2, m.run_wizard);
    assert(k3[0] == 'a');
    lemma_field_list(t, p3, k3, m.allow_list);
    assert(k4[0] == 'b');
    lemma_field_list(t, p4, k4, m.block_list);

    // the closing parenthesis after the trailing comma
    assert(t[p5] == t.subrange(p5, p5 + 2)[0]);
    assert(t[p5 + 1] == t.subrange(p5, p5 + 2)[1]);
    assert(t[p5] == '\n' && t[p5 + 1] == ')');
    assert(t.subrange(p5, p5 + 1) =~= seq!['\n']);
    lemma_skip_ws_over(t, p5, seq!['\n']);
    assert(skip_ws(t, p5 + 2) == p5 + 2);
    assert(parse_end(t, p5 - 1));

    assert(k1.len() == 18 && k2.len() == 10 && k3.len() == 10 && k4.len() == 10);
    lemma_assemble(t, m, p2, p3, p4, p5);
}

} // verus!
