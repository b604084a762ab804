use uts46_query::{
    error_kinds_of, finish_ascii_label, finish_unicode_label, label_bounds, mentions_word,
    octets_exceed, to_ascii, to_unicode, ErrorKind, InputToAscii, InputToUnicode, LabelError,
    ProcessingConfig, QueryMiddleware, QueryMiddlewareError,
};

fn strict() -> ProcessingConfig {
    ProcessingConfig::default()
}

fn lenient() -> ProcessingConfig {
    ProcessingConfig {
        transitional_processing: false,
        use_std3_ascii_rules: false,
        verify_dns_length: false,
    }
}

fn kinds_at(errors: &[LabelError], index: Option<usize>) -> Vec<ErrorKind> {
    errors.iter().filter(|e| e.label_index == index).map(|e| e.kind).collect()
}

#[test]
fn default_profile_is_strict_and_non_transitional() {
    let c = ProcessingConfig::default();
    assert!(!c.transitional_processing);
    assert!(c.use_std3_ascii_rules);
    assert!(c.verify_dns_length);
}

#[test]
fn umlaut_label_becomes_ace() {
    assert_eq!(to_ascii("bücher.example", strict()).unwrap(), "xn--bcher-kva.example");
}

#[test]
fn ace_label_decodes_to_unicode() {
    let (s, errors) = to_unicode("xn--bcher-kva.example", strict());
    assert_eq!(s, "bücher.example");
    assert!(errors.errors.is_empty());
}

#[test]
fn leading_hyphen_is_rejected_under_std3() {
    let e = to_ascii("-abc.example", strict()).unwrap_err();
    assert_eq!(
        e.errors,
        vec![LabelError { kind: ErrorKind::DisallowedLabelStructure, label_index: Some(0) }]
    );
}

#[test]
fn trailing_hyphen_is_rejected_under_std3() {
    let e = to_ascii("example.abc-", strict()).unwrap_err();
    assert_eq!(
        e.errors,
        vec![LabelError { kind: ErrorKind::DisallowedLabelStructure, label_index: Some(1) }]
    );
}

#[test]
fn hyphen_at_edge_passes_without_std3() {
    assert_eq!(to_ascii("-abc.example", lenient()).unwrap(), "-abc.example");
}

#[test]
fn hebrew_and_latin_in_one_label_break_the_bidi_rule() {
    let e = to_ascii("\u{05D0}a.example", strict()).unwrap_err();
    assert!(kinds_at(&e.errors, Some(0)).contains(&ErrorKind::BidiViolation));
    assert!(kinds_at(&e.errors, Some(1)).is_empty());
}

#[test]
fn empty_input_gives_empty_output() {
    assert_eq!(to_ascii("", strict()).unwrap(), "");
    let (s, errors) = to_unicode("", strict());
    assert_eq!(s, "");
    assert!(errors.errors.is_empty());
}

#[test]
fn to_ascii_is_idempotent_on_examples() {
    for x in ["Bücher.Example", "xn--bcher-kva.example", "example.com", "faß.de", "日本語。jp"] {
        let once = to_ascii(x, strict()).unwrap();
        let twice = to_ascii(&once, strict()).unwrap();
        assert_eq!(once, twice);
    }
}

#[test]
fn unicode_of_ascii_gives_normalized_form() {
    let ace = to_ascii("BÜCHER.Example", strict()).unwrap();
    let (s, errors) = to_unicode(&ace, strict());
    assert_eq!(s, "bücher.example");
    assert!(errors.errors.is_empty());
    let (direct, _) = to_unicode("BÜCHER.Example", strict());
    assert_eq!(s, direct);
}

#[test]
fn every_separator_splits_and_rejoins_with_full_stop() {
    let (s, errors) = to_unicode("a\u{3002}b\u{FF0E}c\u{FF61}d.e", lenient());
    assert_eq!(s, "a.b.c.d.e");
    assert!(errors.errors.is_empty());
    assert_eq!(to_ascii("a\u{3002}b", strict()).unwrap(), "a.b");
}

#[test]
fn label_bounds_follow_separators() {
    assert_eq!(label_bounds("a.bc.d"), vec![(0, 1), (2, 4), (5, 6)]);
    assert_eq!(label_bounds(""), vec![]);
    assert_eq!(label_bounds("."), vec![(0, 0), (1, 1)]);
    assert_eq!(label_bounds("ab\u{3002}"), vec![(0, 2), (3, 3)]);
}

#[test]
fn label_of_63_octets_passes() {
    let label = "a".repeat(63);
    assert_eq!(to_ascii(&format!("{}.com", label), strict()).unwrap(), format!("{}.com", label));
}

#[test]
fn label_of_64_octets_fails_on_length() {
    let label = "a".repeat(64);
    let e = to_ascii(&format!("{}.com", label), strict()).unwrap_err();
    assert_eq!(
        e.errors,
        vec![LabelError { kind: ErrorKind::LengthLimitExceeded, label_index: Some(0) }]
    );
    assert!(to_ascii(&format!("{}.com", label), lenient()).is_ok());
}

#[test]
fn domain_over_253_octets_fails_on_length() {
    let label = "a".repeat(63);
    let long = format!("{0}.{0}.{0}.{0}", label);
    assert_eq!(long.len(), 255);
    let e = to_ascii(&long, strict()).unwrap_err();
    assert_eq!(
        e.errors,
        vec![LabelError { kind: ErrorKind::LengthLimitExceeded, label_index: None }]
    );
    let fits = format!("{0}.{0}.{0}.{1}", label, "a".repeat(61));
    assert_eq!(fits.len(), 253);
    assert!(to_ascii(&fits, strict()).is_ok());
}

#[test]
fn empty_label_is_rejected_with_dns_length() {
    let e = to_ascii("a..b", strict()).unwrap_err();
    assert_eq!(
        e.errors,
        vec![LabelError { kind: ErrorKind::DisallowedLabelStructure, label_index: Some(1) }]
    );
    assert_eq!(to_ascii("a..b", lenient()).unwrap(), "a..b");
}

#[test]
fn trailing_root_label_is_allowed() {
    assert_eq!(to_ascii("example.com.", strict()).unwrap(), "example.com.");
    assert!(to_ascii(".", strict()).is_err());
}

#[test]
fn std3_disallowed_symbol_is_an_invalid_code_point() {
    let e = to_ascii("a_b.example", strict()).unwrap_err();
    assert_eq!(kinds_at(&e.errors, Some(0)), vec![ErrorKind::InvalidCodePoint]);
    assert_eq!(to_ascii("a_b.example", lenient()).unwrap(), "a_b.example");
}

#[test]
fn broken_punycode_is_reported() {
    let e = to_ascii("xn--0.example", strict()).unwrap_err();
    assert!(kinds_at(&e.errors, Some(0)).contains(&ErrorKind::PunycodeDecodeFailure));
}

#[test]
fn every_faulty_label_is_reported() {
    let e = to_ascii("-a.ok.b-", strict()).unwrap_err();
    assert_eq!(
        e.errors,
        vec![
            LabelError { kind: ErrorKind::DisallowedLabelStructure, label_index: Some(0) },
            LabelError { kind: ErrorKind::DisallowedLabelStructure, label_index: Some(2) },
        ]
    );
}

#[test]
fn unicode_keeps_faulty_labels() {
    let (s, errors) = to_unicode("-Abc.example", strict());
    assert_eq!(s, "-abc.example");
    assert_eq!(
        errors.errors,
        vec![LabelError { kind: ErrorKind::DisallowedLabelStructure, label_index: Some(0) }]
    );
}

#[test]
fn transitional_processing_maps_sharp_s() {
    let transitional = ProcessingConfig { transitional_processing: true, ..strict() };
    assert_eq!(to_ascii("faß.de", transitional).unwrap(), "fass.de");
    assert_eq!(to_ascii("faß.de", strict()).unwrap(), "xn--fa-hia.de");
}

#[test]
fn error_text_is_classified() {
    assert_eq!(error_kinds_of("Errors { check_bidi }"), vec![ErrorKind::BidiViolation]);
    assert_eq!(
        error_kinds_of("Errors { punycode, disallowed_character }"),
        vec![ErrorKind::InvalidCodePoint, ErrorKind::PunycodeDecodeFailure]
    );
    assert_eq!(
        error_kinds_of("Errors { check_hyphens, too_long_for_dns }"),
        vec![ErrorKind::DisallowedLabelStructure, ErrorKind::LengthLimitExceeded]
    );
    assert_eq!(error_kinds_of("Errors { nfc }"), vec![ErrorKind::InvalidCodePoint]);
    assert_eq!(error_kinds_of("Errors { }"), vec![ErrorKind::InvalidCodePoint]);
}

#[test]
fn words_are_found_anywhere() {
    assert!(mentions_word("abc", "abc"));
    assert!(mentions_word("xxabcxx", "abc"));
    assert!(mentions_word("abc", ""));
    assert!(!mentions_word("ab", "abc"));
    assert!(!mentions_word("abxc", "abc"));
}

#[test]
fn octets_count_utf8_width() {
    assert!(!octets_exceed("abc", 3));
    assert!(octets_exceed("abcd", 3));
    assert!(octets_exceed("ü", 1));
    assert!(!octets_exceed("ü", 2));
    assert!(octets_exceed("日", 2));
    assert!(!octets_exceed("", 0));
}

#[test]
fn ascii_label_is_finished_from_a_given_result() {
    let (s, kinds) = finish_ascii_label(strict(), "bücher", false, Ok("xn--bcher-kva".to_string()));
    assert_eq!(s, "xn--bcher-kva");
    assert!(kinds.is_empty());
    let (s, kinds) =
        finish_ascii_label(strict(), "-x", false, Err("Errors { check_bidi }".to_string()));
    assert_eq!(s, "");
    assert_eq!(kinds, vec![ErrorKind::DisallowedLabelStructure, ErrorKind::BidiViolation]);
    let (_, kinds) = finish_ascii_label(strict(), "a", false, Ok("a".repeat(64)));
    assert_eq!(kinds, vec![ErrorKind::LengthLimitExceeded]);
    let (_, kinds) = finish_ascii_label(strict(), "", true, Ok(String::new()));
    assert!(kinds.is_empty());
    let (_, kinds) = finish_ascii_label(strict(), "", false, Ok(String::new()));
    assert_eq!(kinds, vec![ErrorKind::DisallowedLabelStructure]);
}

#[test]
fn unicode_label_is_finished_from_a_given_result() {
    let (s, kinds) =
        finish_unicode_label(strict(), "xn--0", ("xn--0".to_string(), Some("Errors { punycode }".to_string())));
    assert_eq!(s, "xn--0");
    assert_eq!(kinds, vec![ErrorKind::PunycodeDecodeFailure]);
    let (s, kinds) = finish_unicode_label(lenient(), "abc-", ("abc-".to_string(), None));
    assert_eq!(s, "abc-");
    assert!(kinds.is_empty());
}

#[test]
fn middleware_answers_queries_with_its_configuration() {
    let m = QueryMiddleware::new(7u32, strict());
    assert_eq!(*m.inner(), 7);
    let r = m.resolve_to_ascii(InputToAscii { value: "bücher.example".to_string() });
    assert_eq!(r.unwrap(), "xn--bcher-kva.example");
    let (s, errors) =
        m.resolve_to_unicode(InputToUnicode { value: "xn--bcher-kva.example".to_string() });
    assert_eq!(s, "bücher.example");
    assert!(errors.errors.is_empty());
    assert!(m.resolve_to_ascii(InputToAscii { value: "-abc.example".to_string() }).is_err());
}

#[test]
fn middleware_error_wraps_inner_error() {
    match QueryMiddlewareError::from("boom") {
        QueryMiddlewareError::MiddlewareError(e) => assert_eq!(e, "boom"),
    }
}
