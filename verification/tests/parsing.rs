use nameparse::{extract_nicknames, find_nickname_start_end, PersonName};

#[test]
fn extracts_position() {
    let jfk = "John (Jack) Kennedy";
    let (opos, cpos) = find_nickname_start_end(jfk, '(', ')').unwrap();

    assert_eq!(5, opos);
    assert_eq!(10, cpos);
}

#[test]
fn extracts_nickname() {
    let jfk = "John (Jack) Kennedy";

    // Opening and closing positions of nickname delimiters
    let (opos, cpos) = find_nickname_start_end(jfk, '(', ')').unwrap();
    assert_eq!(5, opos);
    assert_eq!(10, cpos);

    let (full, nicks) = extract_nicknames(jfk);
    assert_eq!(full, "John Kennedy");
    assert_eq!(nicks.len(), 1);
    assert_eq!(nicks.get(0).unwrap(), "Jack");
}

#[test]
fn extracts_titles() {
    let p = PersonName::parse("Rev. Dr. Martin Luther King Jr.").unwrap();

    assert_eq!(p.title, "Rev. Dr.");
    assert_eq!(p.first, "Martin");
    assert_eq!(p.middle, "Luther");
    assert_eq!(p.last, "King");
    assert_eq!(p.suffix, "Jr.");
    assert_eq!(p.nicknames, Vec::<String>::new());
}

#[test]
fn join_on_conjunctions() {
    let mut p = PersonName::new();

    let input = "mr and mrs smith"
        .split(' ')
        .map(|s| s.to_string())
        .collect();
    let results = p.join_on_conjunctions(&input);

    assert_eq!(p.title, "mr and mrs");
    assert_eq!(results, &["mr and mrs", "smith"]);
}

#[test]
fn nickname_only() {
    let p = PersonName::parse("(jimbo)").unwrap();

    assert_eq!(p.title, "");
    assert_eq!(p.first, "");
    assert_eq!(p.middle, "");
    assert_eq!(p.last, "");
    assert_eq!(p.suffix, "");
    assert_eq!(p.nicknames, vec!["jimbo"]);
}

#[test]
fn format1() {
    let p = PersonName::parse("mrs jane q public").unwrap();

    assert_eq!(p.title, "mrs");
    assert_eq!(p.first, "jane");
    assert_eq!(p.middle, "q");
    assert_eq!(p.last, "public");
    assert_eq!(p.suffix, "");
    assert_eq!(p.nicknames, Vec::<String>::new());
}

#[test]
fn format2() {
    let p = PersonName::parse("Mr. john smith, esq").unwrap();

    assert_eq!(p.title, "Mr.");
    assert_eq!(p.first, "john");
    assert_eq!(p.middle, "");
    assert_eq!(p.last, "smith");
    assert_eq!(p.suffix, "esq");
    assert_eq!(p.nicknames, Vec::<String>::new());
}

#[test]
fn format3() {
    let p = PersonName::parse("johnson, john (johnny), iii").unwrap();

    assert_eq!(p.title, "");
    assert_eq!(p.first, "john");
    assert_eq!(p.middle, "");
    assert_eq!(p.last, "johnson");
    assert_eq!(p.suffix, "iii");
    assert_eq!(p.nicknames, vec!["johnny"]);
}

#[test]
fn last_name_prepositions() {
    let p = PersonName::parse("Guido van Rossum").unwrap();
    println!("{:?}", p);

    assert_eq!(p.first, "Guido");
    assert_eq!(p.middle, "");
    assert_eq!(p.last, "van Rossum");
    assert_eq!(p.suffix, "");

    let p2 = PersonName::parse("van Rossum, Guido").unwrap();
    assert_eq!(p, p2);
}

#[test]
fn last_name_prepositions2() {
    let p = PersonName::parse("Johannes Diderik van der Waals").unwrap();
    println!("{:?}", p);

    assert_eq!(p.first, "Johannes");
    assert_eq!(p.middle, "Diderik");
    assert_eq!(p.last, "van der Waals");
    assert_eq!(p.suffix, "");
}

#[test]
fn equality() {
    let p1 = PersonName::parse("john x smith").unwrap();
    let p2 = PersonName::parse("smith, john x").unwrap();

    assert_eq!(p1, p2);
}

#[test]
fn mr_johnson() {
    let p = PersonName::parse("Mr. Johnson").unwrap();

    assert_eq!(p.title, "Mr.");
    assert_eq!(p.first, "");
    assert_eq!(p.middle, "");
    assert_eq!(p.last, "Johnson");
}

#[test]
fn profession() {
    let p = PersonName::parse("Marie Curie, Ph.D.").unwrap();
    assert_eq!(p.first, "Marie");
    assert_eq!(p.middle, "");
    assert_eq!(p.last, "Curie");
    assert_eq!(p.suffix, "Ph.D.");
}
