use netscope::filter::complete::{suggest, suggest_at, word_at};

#[test]
fn finds_the_word_under_the_caret() {
    assert_eq!(word_at("tcp.po", 6), (0, "tcp.po"));
    assert_eq!(word_at("ip && tcp.po", 12), (6, "tcp.po"));
    assert_eq!(word_at("ip && tcp.po", 2), (0, "ip"));
    assert_eq!(word_at("tcp.port == 443", 15), (12, "443"));
    assert_eq!(word_at("", 0), (0, ""));
    assert_eq!(word_at("(tcp", 4), (1, "tcp"));
}

#[test]
fn suggests_fields_by_prefix() {
    let s = suggest("tcp.opt", 10);
    assert!(!s.is_empty());
    assert!(
        s.iter().all(|d| d.abbrev.contains("tcp.opt")),
        "{:?}",
        s.iter().map(|d| d.abbrev).collect::<Vec<_>>()
    );
    assert!(suggest("", 10).is_empty());
    assert!(suggest("zzzz", 10).is_empty());
}

#[test]
fn an_exact_field_name_needs_no_suggestions() {
    let (start, end, s) = suggest_at("tcp.srcport", 11, 10);
    assert_eq!((start, end), (0, 11));
    assert!(s.is_empty());
    let (start, end, s) = suggest_at("ip && tcp.srcpo", 15, 10);
    assert_eq!((start, end), (6, 15));
    assert!(s.iter().any(|d| d.abbrev == "tcp.srcport"));
}
