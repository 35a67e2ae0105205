use aws_env::ini::{build, errors_among, parse, syntax_errors, text_fits, Ini, IniItem, MAX_LINE_BREAKS};
use std::borrow::Cow;

fn parse_all(source: &str) -> Ini<'_> {
    parse(source).unwrap()
}

const DATA: &'static str = r#"
[section]
key=value
"#;

#[test]
fn test_accepts_cow() {
    let d = DATA.to_string();
    let cow = Cow::from(d);
    let _ = parse(&cow);
}

#[test]
fn test_accepts_string() {
    let d = DATA.to_string();
    let _ = parse(&d);
}

#[test]
fn test_accepts_str() {
    let _ = parse(DATA);
}

#[test]
fn parse_keeps_sections_and_keys_in_order() {
    let ini = parse_all("[b]\nz = 1\na=2\n\n; a comment\n[a]\nk=v\n");
    let names: Vec<&str> = ini.keys().copied().collect();
    assert_eq!(vec!["b", "a"], names);
    let keys: Vec<&str> = ini["b"].keys().copied().collect();
    assert_eq!(vec!["z", "a"], keys);
    assert_eq!(Some(&Some("1")), ini["b"].get("z"));
    assert_eq!(Some(&Some("2")), ini["b"].get("a"));
    assert_eq!(Some(&Some("v")), ini["a"].get("k"));
    assert_eq!(None, ini["a"].get("z"));
}

#[test]
fn parse_tells_a_key_without_value_from_an_empty_value() {
    let ini = parse_all("[s]\nbare\nempty=\n");
    assert_eq!(Some(&None), ini["s"].get("bare"));
    assert_eq!(Some(&Some("")), ini["s"].get("empty"));
    assert_eq!(None, ini["s"].get("absent"));
}

#[test]
fn parse_drops_keys_before_the_first_section() {
    let ini = parse_all("stray=1\n[s]\nk=v\n");
    assert_eq!(1, ini.len());
    assert_eq!(1, ini["s"].len());
}

#[test]
fn parse_takes_the_later_value_of_a_key() {
    let ini = parse_all("[s]\na=1\nb=2\na=3\n");
    let keys: Vec<&str> = ini["s"].keys().copied().collect();
    assert_eq!(vec!["a", "b"], keys);
    assert_eq!(Some(&Some("3")), ini["s"].get("a"));
}

#[test]
fn parse_empties_a_section_whose_header_comes_again() {
    let ini = parse_all("[a]\nk1=1\n[b]\nk2=2\n[a]\nk3=3\n");
    let names: Vec<&str> = ini.keys().copied().collect();
    assert_eq!(vec!["a", "b"], names);
    let keys: Vec<&str> = ini["a"].keys().copied().collect();
    assert_eq!(vec!["k3"], keys);
    assert_eq!(Some(&Some("2")), ini["b"].get("k2"));
}

#[test]
fn parse_goes_on_after_a_malformed_header() {
    let ini = parse_all("[broken\nlost=1\n[ok]\nk=v\n");
    let names: Vec<&str> = ini.keys().copied().collect();
    assert_eq!(vec!["ok"], names);
}

#[test]
fn parse_of_nothing_is_empty() {
    assert!(parse_all("").is_empty());
    assert!(parse_all("\n\n; only a comment\n").is_empty());
}

#[test]
fn build_gathers_items_given_by_hand() {
    let items = vec![
        IniItem::Action("stray"),
        IniItem::Section("s"),
        IniItem::Comment("c"),
        IniItem::Property("k", "v"),
        IniItem::Blank,
        IniItem::Error("[x"),
        IniItem::Action("bare"),
        IniItem::Section("t"),
    ];
    let ini = build(&items);
    let names: Vec<&str> = ini.keys().copied().collect();
    assert_eq!(vec!["s", "t"], names);
    assert_eq!(Some(&Some("v")), ini["s"].get("k"));
    assert_eq!(Some(&None), ini["s"].get("bare"));
    assert_eq!(2, ini["s"].len());
    assert!(ini["t"].is_empty());
}

#[test]
fn syntax_errors_are_the_malformed_headers() {
    assert!(syntax_errors("[ok]\nk=v\n").unwrap().is_empty());
    assert_eq!(
        Some(vec!["[broken".to_string(), "[also] broken".to_string()]),
        syntax_errors("[broken\nk=v\n[ok]\n[also] broken\n")
    );
    let items = vec![IniItem::Error("[x"), IniItem::Blank, IniItem::Section("s"), IniItem::Error("[y")];
    assert_eq!(vec!["[x".to_string(), "[y".to_string()], errors_among(&items));
}

#[test]
fn ordinary_texts_fit() {
    assert!(text_fits(""));
    assert!(text_fits(DATA));
    assert!(parse(DATA).is_some());
    assert!(text_fits(&"\r\n".repeat(100_000)));
    assert!(text_fits(&"é".repeat(1000)));
    assert_eq!(4294967295, MAX_LINE_BREAKS);
}
