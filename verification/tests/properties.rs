use nameparse::{extract_nicknames, is_initial, is_prefix, is_suffix, is_title, PersonName};

#[test]
fn blank_inputs_yield_none() {
    assert!(PersonName::parse("").is_none());
    assert!(PersonName::parse("   ").is_none());
    assert!(PersonName::parse(",").is_none());
    assert!(PersonName::parse("  , ,,  ").is_none());
    assert!(PersonName::parse("\t \n,").is_none());
}

#[test]
fn extraction_is_idempotent_on_its_output() {
    let (name, nicks) = extract_nicknames("John (Jack) Kennedy (JFK)");
    assert_eq!(name, "John Kennedy ");
    assert_eq!(nicks, vec!["Jack", "JFK"]);

    let (again, none) = extract_nicknames(name.as_str());
    assert_eq!(again, name);
    assert!(none.is_empty());
}

#[test]
fn unmatched_parenthesis_left_alone() {
    let (name, nicks) = extract_nicknames("John (Jack Kennedy");
    assert_eq!(name, "John (Jack Kennedy");
    assert!(nicks.is_empty());
}

#[test]
fn sequential_parentheticals_scan_left_to_right() {
    let (name, nicks) = extract_nicknames("a (b (c) d) e");
    assert_eq!(name, "a d) e");
    assert_eq!(nicks, vec!["b (c"]);
}

#[test]
fn unicode_whitespace_blank_yields_none() {
    assert!(PersonName::parse("\u{a0}").is_none());
    assert!(PersonName::parse(" \u{a0},\u{2003} ,\u{3000}").is_none());
    assert!(PersonName::parse("\u{2028}\u{85}").is_none());
}

#[test]
fn tabs_delimit_tokens() {
    let p = PersonName::parse("john\tsmith").unwrap();
    assert_eq!(p.first, "john");
    assert_eq!(p.last, "smith");

    let p2 = PersonName::parse("x \ta").unwrap();
    assert_eq!(p2.first, "x");
    assert_eq!(p2.last, "a");
}

#[test]
fn nbsp_delimits_and_compounds_join_with_spaces() {
    let p = PersonName::parse("Guido\u{a0}van\u{a0}Rossum").unwrap();
    assert_eq!(p.first, "Guido");
    assert_eq!(p.last, "van Rossum");
}

#[test]
fn segments_trim_unicode_whitespace() {
    let p = PersonName::parse("smith ,\u{a0}john").unwrap();
    assert_eq!(p.first, "john");
    assert_eq!(p.last, "smith");
}

#[test]
fn classification_is_case_insensitive() {
    assert!(is_title("mr"));
    assert!(is_title("Mr."));
    assert!(is_title("MR"));
    assert!(is_prefix("van"));
    assert!(is_prefix("Van"));
    assert!(is_prefix("VON."));
    assert!(is_suffix("jr"));
    assert!(is_suffix("JR."));
    assert!(is_suffix("Esquire"));
}

#[test]
fn suffix_check_strips_embedded_periods() {
    assert!(is_suffix("Ph.D."));
    assert!(is_suffix("phd"));
    assert!(is_suffix("P.h.D"));
    assert!(!is_suffix("Ph-D"));
}

#[test]
fn initials_are_one_letter_with_optional_period() {
    assert!(is_initial("j"));
    assert!(is_initial("J."));
    assert!(!is_initial("jj"));
    assert!(!is_initial("5"));
    assert!(!is_initial("."));
    assert!(!is_initial(""));
}

#[test]
fn non_words_never_classify() {
    assert!(!is_title("smith"));
    assert!(!is_prefix("rossum"));
    assert!(!is_suffix("x"));
    assert!(!is_title(""));
    assert!(!is_prefix(""));
    assert!(!is_suffix(""));
}

#[test]
fn round_trip_ordering_with_middle_name() {
    let p1 = PersonName::parse("jane q doe").unwrap();
    let p2 = PersonName::parse("doe, jane q").unwrap();
    assert_eq!(p1.first, "jane");
    assert_eq!(p1.middle, "q");
    assert_eq!(p1.last, "doe");
    assert_eq!(p1, p2);
}

#[test]
fn conjunction_compound_fills_title_and_first() {
    let p = PersonName::parse("mr and mrs smith").unwrap();
    assert_eq!(p.title, "mr and mrs");
    assert_eq!(p.first, "mr and mrs");
    assert_eq!(p.last, "smith");
}

#[test]
fn comma_suffix_segment_taken_whole() {
    let p = PersonName::parse("jane doe, md phd").unwrap();
    assert_eq!(p.first, "jane");
    assert_eq!(p.last, "doe");
    assert_eq!(p.suffix, "md phd");
}

#[test]
fn surname_first_extra_segments_go_to_suffix() {
    let p = PersonName::parse("king, martin luther, jr, phd").unwrap();
    assert_eq!(p.first, "martin");
    assert_eq!(p.middle, "luther");
    assert_eq!(p.last, "king");
    assert_eq!(p.suffix, "jr phd");
}

#[test]
fn lone_title_single_segment_goes_to_title() {
    let p = PersonName::parse("Dr.").unwrap();
    assert_eq!(p.title, "Dr.");
    assert_eq!(p.first, "");
    assert_eq!(p.last, "");
}

#[test]
fn lone_title_second_segment_goes_to_first() {
    let p = PersonName::parse("johnson, dr").unwrap();
    assert_eq!(p.title, "");
    assert_eq!(p.first, "dr");
    assert_eq!(p.last, "johnson");
}

#[test]
fn trailing_suffix_run_after_surname() {
    let p = PersonName::parse("john smith jr esq").unwrap();
    assert_eq!(p.first, "john");
    assert_eq!(p.last, "smith");
    assert_eq!(p.suffix, "jr esq");
}
