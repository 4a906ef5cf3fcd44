use carto_config::decode::parse_settings;
use carto_config::encode::encode_settings;
use carto_config::encode::write_limit;
use carto_config::encode::write_string;
use carto_config::encode::write_u32;
use carto_config::Limit;
use carto_config::UserSettings;

fn settings(
    limit: Limit,
    run_wizard: bool,
    allow: &[&str],
    block: &[&str],
) -> UserSettings {
    UserSettings {
        domain_crawl_limit: limit,
        run_wizard,
        allow_list: allow.iter().map(|s| s.to_string()).collect(),
        block_list: block.iter().map(|s| s.to_string()).collect(),
    }
}

#[test]
fn default_document_exact() {
    let doc = encode_settings(&UserSettings::default());
    assert_eq!(
        doc,
        "(\n    domain_crawl_limit: Finite(100),\n    run_wizard: false,\n    allow_list: [],\n    block_list: [],\n)"
    );
}

#[test]
fn document_with_lists_exact() {
    let s = settings(
        Limit::Infinite,
        true,
        &["example.com", "wiki.org"],
        &["spam.net"],
    );
    let doc = encode_settings(&s);
    let expected = "(\n    domain_crawl_limit: Infinite,\n    run_wizard: true,\n    allow_list: [\n        \"example.com\",\n        \"wiki.org\",\n    ],\n    block_list: [\n        \"spam.net\",\n    ],\n)";
    assert_eq!(doc, expected);
}

#[test]
fn limit_variants_round_trip() {
    for limit in [
        Limit::Infinite,
        Limit::Finite(0),
        Limit::Finite(1),
        Limit::Finite(4294967295),
    ] {
        let s = settings(limit, false, &[], &[]);
        let doc = encode_settings(&s);
        let back = parse_settings(&doc).expect("round trip must parse");
        assert_eq!(back.domain_crawl_limit, limit);
    }
}

#[test]
fn limit_texts_exact() {
    assert_eq!(write_limit(&Limit::Infinite), "Infinite");
    assert_eq!(write_limit(&Limit::Finite(0)), "Finite(0)");
    assert_eq!(write_limit(&Limit::Finite(100)), "Finite(100)");
    assert_eq!(write_limit(&Limit::Finite(4294967295)), "Finite(4294967295)");
    assert_eq!(write_u32(907), "907");
}

#[test]
fn string_escapes() {
    assert_eq!(write_string("a\"b\\c"), "\"a\\\"b\\\\c\"");
    let s = settings(Limit::Finite(3), false, &["a\"b\\c", "plain"], &[]);
    let doc = encode_settings(&s);
    let back = parse_settings(&doc).expect("escaped strings must round trip");
    assert_eq!(back.allow_list, vec!["a\"b\\c".to_string(), "plain".to_string()]);
}

#[test]
fn full_record_round_trip() {
    let s = settings(
        Limit::Finite(42),
        true,
        &["example.com"],
        &["spam.net", "ads.example"],
    );
    let doc = encode_settings(&s);
    let back = parse_settings(&doc).expect("document must parse");
    assert_eq!(back, s);
}

#[test]
fn compact_whitespace_accepted() {
    let doc = "(domain_crawl_limit: Finite(7), run_wizard: true, allow_list: [\"x\"], block_list: [])";
    let s = parse_settings(doc).expect("compact document must parse");
    assert_eq!(s.domain_crawl_limit, Limit::Finite(7));
    assert!(s.run_wizard);
    assert_eq!(s.allow_list, vec!["x".to_string()]);
    assert!(s.block_list.is_empty());
}

#[test]
fn generous_whitespace_accepted() {
    let doc = "  (\n\n  domain_crawl_limit :\tInfinite ,\n run_wizard: false,\n allow_list: [ \"a\" , \"b\" ],\n block_list: [ ] , )\n";
    let s = parse_settings(doc).expect("spread-out document must parse");
    assert_eq!(s.domain_crawl_limit, Limit::Infinite);
    assert_eq!(s.allow_list, vec!["a".to_string(), "b".to_string()]);
    assert!(s.block_list.is_empty());
}

#[test]
fn malformed_documents_rejected() {
    let cases = [
        "",
        "garbage",
        "()",
        "(domain_crawl_limit: Finite(100)",
        "(domain_crawl_limit: Finite(100), run_wizard: false, allow_list: [], block_list: [] extra)",
        // counts above the finite-limit range are rejected, not wrapped
        "(domain_crawl_limit: Finite(4294967296), run_wizard: false, allow_list: [], block_list: [])",
        // unknown or reordered keys are not this format
        "(run_wizard: false, domain_crawl_limit: Finite(1), allow_list: [], block_list: [])",
        "(domain_crawl_limit: Finite(1), run_wizard: maybe, allow_list: [], block_list: [])",
        // unterminated string
        "(domain_crawl_limit: Finite(1), run_wizard: false, allow_list: [\"a], block_list: [])",
        // missing comma between fields
        "(domain_crawl_limit: Finite(1) run_wizard: false, allow_list: [], block_list: [])",
    ];
    for doc in cases {
        assert!(parse_settings(doc).is_err(), "must reject: {doc:?}");
    }
}

#[test]
fn trailing_comma_optional() {
    let with = "(domain_crawl_limit: Infinite, run_wizard: false, allow_list: [], block_list: [],)";
    let without = "(domain_crawl_limit: Infinite, run_wizard: false, allow_list: [], block_list: [])";
    assert_eq!(parse_settings(with).unwrap(), parse_settings(without).unwrap());
}
