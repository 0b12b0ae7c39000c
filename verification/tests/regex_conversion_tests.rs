use logcheck_fluent_bit_filter::regex_conversion::{
    ensure_anchors, modern_to_posix, posix_to_modern, posix_to_rust, regex_conversions,
    regex_escape, remove_anchors,
};

#[test]
fn test_modern_to_posix() {
    assert_eq!(modern_to_posix(r"\d"), "[[:digit:]]");
    assert_eq!(modern_to_posix(r"\d\d\d"), "[[:digit:]][[:digit:]][[:digit:]]");
    assert_eq!(modern_to_posix(r"\w+"), "[[:alnum:]_]+");
    assert_eq!(modern_to_posix(r"\s"), "[[:space:]]");
    assert_eq!(modern_to_posix(r"\D"), "[^[:digit:]]");
    assert_eq!(modern_to_posix(r"\W"), "[^[:alnum:]_]");
    assert_eq!(modern_to_posix(r"\S"), "[^[:space:]]");
}

#[test]
fn test_posix_to_modern() {
    assert_eq!(posix_to_modern("[[:digit:]]"), r"\d");
    assert_eq!(posix_to_modern("[[:digit:]][[:digit:]][[:digit:]]"), r"\d\d\d");
    assert_eq!(posix_to_modern("[[:alnum:]_]+"), r"\w+");
    assert_eq!(posix_to_modern("[[:space:]]"), r"\s");
    assert_eq!(posix_to_modern("[^[:digit:]]"), r"\D");
}

#[test]
fn test_posix_to_rust() {
    assert_eq!(posix_to_rust("[[:digit:]]"), r"\d");
    assert_eq!(posix_to_rust("[[:alpha:]]"), "a-zA-Z");
    assert_eq!(posix_to_rust("[[:alnum:]]"), "a-zA-Z0-9");
    assert_eq!(posix_to_rust("[[:space:]]"), r"\s");
}

#[test]
fn test_roundtrip() {
    let modern = r"\d+\s\w+";
    let posix = modern_to_posix(modern);
    assert_eq!(posix, "[[:digit:]]+[[:space:]][[:alnum:]_]+");
    let back_to_modern = posix_to_modern(&posix);
    assert_eq!(back_to_modern, modern);
}

#[test]
fn test_remove_anchors() {
    assert_eq!(remove_anchors("^test$"), "test");
    assert_eq!(remove_anchors("^test"), "test");
    assert_eq!(remove_anchors("test$"), "test");
    assert_eq!(remove_anchors("test"), "test");
}

#[test]
fn test_ensure_anchors() {
    assert_eq!(ensure_anchors("test"), "^test$");
    assert_eq!(ensure_anchors("^test"), "^test$");
    assert_eq!(ensure_anchors("test$"), "^test$");
    assert_eq!(ensure_anchors("^test$"), "^test$");
}

#[test]
fn test_complex_pattern() {
    let grex_output = r"^pam_unix\(sudo:session\): session \w+ for user \w+$";
    let posix = modern_to_posix(grex_output);
    assert_eq!(
        posix,
        "^pam_unix\\(sudo:session\\): session [[:alnum:]_]+ for user [[:alnum:]_]+$"
    );
}

#[test]
fn doc_examples_convert_both_ways() {
    assert_eq!(modern_to_posix(r"test\d\d\d"), "test[[:digit:]][[:digit:]][[:digit:]]");
    assert_eq!(posix_to_modern("test[[:digit:]][[:digit:]][[:digit:]]"), r"test\d\d\d");
    assert_eq!(posix_to_modern("[[:alnum:]_]+"), r"\w+");
}

#[test]
fn plain_text_is_left_alone() {
    assert_eq!(modern_to_posix("session opened for user"), "session opened for user");
    assert_eq!(posix_to_modern("session opened for user"), "session opened for user");
}

#[test]
fn posix_only_classes_become_bracket_contents() {
    assert_eq!(posix_to_modern("[[:xdigit:]]"), "0-9a-fA-F");
    assert_eq!(posix_to_modern("[[:blank:]]"), " \\t");
    assert_eq!(posix_to_rust("a { b } c"), "a \\{ b \\} c");
}

#[test]
fn anchors_added_once_and_removed_again() {
    for s in ["", "^", "$", "x", "^x$", "x$$", "^^x"] {
        let once = ensure_anchors(s);
        assert!(once.starts_with('^') && once.ends_with('$'));
        assert_eq!(ensure_anchors(&once), once);
        assert_eq!(remove_anchors(&once), remove_anchors(s));
    }
}

#[test]
fn conversion_table_lists_the_shorthands() {
    let table = regex_conversions();
    assert_eq!(table.len(), 6);
    assert_eq!(table[0].modern, r"\d");
    assert_eq!(table[0].posix, "[[:digit:]]");
    assert_eq!(table[5].modern, r"\W");
    assert_eq!(table[5].posix, "[^[:alnum:]_]");
}

#[test]
fn round_trip_without_brackets() {
    for s in [r"x\d\W\\s", r"\S+ \w+:\D", r"plain", r"\\", r"\"] {
        assert_eq!(posix_to_modern(&modern_to_posix(s)), s);
    }
    // A pattern that already holds a POSIX class does not come back unchanged.
    assert_eq!(posix_to_modern(&modern_to_posix("[[:digit:]]")), r"\d");
}

#[test]
fn escaping_meta_characters() {
    let text = "a.b*c(d)[e]{f}^$|?+\\#&-~ é";
    assert_eq!(regex_escape(text), regex::escape(text));
    assert_eq!(regex_escape("1.5 (x)"), "1\\.5 \\(x\\)");
    assert_eq!(regex_escape("plain"), "plain");
}
