use architectury_versions::version::{ParseError, Version};
use std::cmp::Ordering;

fn parse(text: &str) -> Version {
    Version::from_str(text).unwrap()
}

fn compare(a: &str, b: &str) -> Ordering {
    parse(a).cmp(&parse(b))
}

#[test]
fn parses_components_and_qualifier() {
    let version = parse("1.20.4-beta.2");
    assert_eq!(version.components, vec![1, 20, 4]);
    assert_eq!(version.snapshot, Some(String::from("beta.2")));
}

#[test]
fn parses_a_single_component() {
    let version = parse("1");
    assert_eq!(version.components, vec![1]);
    assert_eq!(version.snapshot, None);
}

#[test]
fn qualifier_starts_behind_the_first_hyphen() {
    let version = parse("3.0-rc-1");
    assert_eq!(version.components, vec![3, 0]);
    assert_eq!(version.snapshot, Some(String::from("rc-1")));
}

#[test]
fn qualifier_may_be_empty() {
    let version = parse("2-");
    assert_eq!(version.components, vec![2]);
    assert_eq!(version.snapshot, Some(String::new()));
}

#[test]
fn leading_zeros_and_plus_sign_are_read() {
    assert_eq!(parse("007.+5").components, vec![7, 5]);
}

#[test]
fn largest_component_is_read() {
    assert_eq!(parse("4294967295").components, vec![u32::MAX]);
}

#[test]
fn component_beyond_the_largest_is_refused() {
    assert_eq!(Version::from_str("4294967296"), Err(ParseError));
    assert_eq!(Version::from_str("99999999999999999999"), Err(ParseError));
}

#[test]
fn malformed_texts_are_refused() {
    assert_eq!(Version::from_str("1.x"), Err(ParseError));
    assert_eq!(Version::from_str(""), Err(ParseError));
}

#[test]
fn empty_parts_are_refused() {
    assert_eq!(Version::from_str("1..2"), Err(ParseError));
    assert_eq!(Version::from_str(".1"), Err(ParseError));
    assert_eq!(Version::from_str("1."), Err(ParseError));
    assert_eq!(Version::from_str("-beta"), Err(ParseError));
    assert_eq!(Version::from_str("+"), Err(ParseError));
    assert_eq!(Version::from_str("1 .2"), Err(ParseError));
    assert_eq!(Version::from_str("abc"), Err(ParseError));
}

#[test]
fn renders_components_and_qualifier() {
    let version = Version { components: vec![1, 20, 4], snapshot: Some(String::from("beta")) };
    assert_eq!(version.to_string(), "1.20.4-beta");
    let plain = Version { components: vec![0, 10, 4294967295], snapshot: None };
    assert_eq!(plain.to_string(), "0.10.4294967295");
}

#[test]
fn rendering_a_parsed_version_parses_to_the_same() {
    for text in ["1", "1.2.3", "1.0-beta", "007.+5-x-y", "10.200.3000-", "0"] {
        let version = parse(text);
        let again = parse(&version.to_string());
        assert_eq!(again, version);
    }
    assert_eq!(parse("007.+5-x-y").to_string(), "7.5-x-y");
}

#[test]
fn missing_components_count_as_zero() {
    assert_eq!(compare("1.2", "1.2.0"), Ordering::Equal);
}

#[test]
fn release_is_newer_than_its_snapshot() {
    assert_eq!(compare("1.0", "1.0-beta"), Ordering::Greater);
    assert_eq!(compare("1.0-beta", "1.0"), Ordering::Less);
}

#[test]
fn qualifiers_compare_as_texts() {
    assert_eq!(compare("1.0-alpha", "1.0-beta"), Ordering::Less);
    assert_eq!(compare("1.0-beta", "1.0-alpha"), Ordering::Greater);
    assert_eq!(compare("1.0-beta", "1.0-beta"), Ordering::Equal);
    assert_eq!(compare("1.0-rc", "1.0-rc1"), Ordering::Less);
    assert_eq!(compare("1.0-rc1", "1.0-rc"), Ordering::Greater);
    assert_eq!(compare("1.0-", "1.0-a"), Ordering::Less);
    assert_eq!(compare("1.0-Z", "1.0-a"), Ordering::Less);
    assert_eq!(compare("1.0-é", "1.0-z"), Ordering::Greater);
}

#[test]
fn numbers_decide_before_qualifiers() {
    assert_eq!(compare("2.0", "1.9.9"), Ordering::Greater);
    assert_eq!(compare("1.9.9", "2.0"), Ordering::Less);
    assert_eq!(compare("1.10", "1.9"), Ordering::Greater);
    assert_eq!(compare("2.0-alpha", "1.0"), Ordering::Greater);
    assert_eq!(compare("1.0.0.1", "1"), Ordering::Greater);
    assert_eq!(compare("1", "1.0.0.1-x"), Ordering::Less);
}

#[test]
fn order_agrees_with_the_standard_order_of_strings() {
    let qualifiers = ["", "a", "ab", "b", "B", "alpha", "beta", "é", "z1", "z10"];
    for p in qualifiers {
        for q in qualifiers {
            assert_eq!(compare(&format!("1-{p}"), &format!("1-{q}")), p.cmp(q));
        }
    }
}

#[test]
fn exactly_one_of_older_same_newer_holds() {
    let texts = ["1", "1.0", "1.0.1", "1.0-a", "1-a", "1.0-b", "2", "0.9-z", "1.0.0-a"];
    for a in texts {
        for b in texts {
            let forth = compare(a, b);
            let back = compare(b, a);
            assert_eq!(forth, back.reverse());
            assert_eq!(parse(a) < parse(b), forth == Ordering::Less);
            assert_eq!(parse(a) > parse(b), forth == Ordering::Greater);
            assert_eq!(parse(a) <= parse(b), forth != Ordering::Greater);
            assert_eq!(parse(a).partial_cmp(&parse(b)), Some(forth));
        }
    }
}

#[test]
fn older_than_is_transitive() {
    let texts = ["1", "1.0", "1.0.1", "1.0-a", "1-a", "1.0-b", "2", "0.9-z", "1.0.0-a"];
    for a in texts {
        for b in texts {
            for c in texts {
                if compare(a, b) == Ordering::Less && compare(b, c) == Ordering::Less {
                    assert_eq!(compare(a, c), Ordering::Less);
                }
                if compare(a, b) == Ordering::Equal && compare(b, c) == Ordering::Equal {
                    assert_eq!(compare(a, c), Ordering::Equal);
                }
            }
        }
    }
}

#[test]
fn equality_is_finer_than_rank() {
    assert!(parse("1.2") == parse("1.2"));
    assert!(parse("1.2-x") == parse("1.2-x"));
    assert!(parse("1.2") != parse("1.2.0"));
    assert!(parse("1.2-x") != parse("1.2-y"));
    assert!(parse("1.2-x") != parse("1.2"));
    assert!(parse("1.2") != parse("1.3"));
}

#[test]
fn renders_what_it_is_given() {
    let bare = Version { components: Vec::new(), snapshot: Some(String::from("x")) };
    assert_eq!(bare.to_string(), "-x");
    let empty = Version { components: Vec::new(), snapshot: None };
    assert_eq!(empty.to_string(), "");
    let zeros = Version { components: vec![0, 0], snapshot: Some(String::new()) };
    assert_eq!(zeros.to_string(), "0.0-");
}

#[test]
fn every_power_of_ten_is_written_and_read() {
    let mut n: u32 = 1;
    loop {
        for value in [n - 1, n, n + 1] {
            let version = Version { components: vec![value], snapshot: None };
            let text = version.to_string();
            assert_eq!(text, format!("{value}"));
            assert_eq!(Version::from_str(&text).unwrap().components, vec![value]);
        }
        match n.checked_mul(10) {
            Some(next) => n = next,
            None => break,
        }
    }
}
