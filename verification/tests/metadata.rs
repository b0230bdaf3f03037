use architectury_versions::architectury::VersionDefinition;
use architectury_versions::latest::select_latest;
use architectury_versions::metadata::{listed_versions, Metadata, Node, MAX_NESTING};
use architectury_versions::nesting::nesting_of;
use regex::Regex;

fn node<T>(name: &str, children: Vec<T>) -> Node<T> {
    Node { name: String::from(name), children }
}

fn texts(values: &[Option<&str>]) -> Vec<Option<String>> {
    values.iter().map(|value| value.map(String::from)).collect()
}

fn strings(values: &[&str]) -> Vec<String> {
    values.iter().map(|value| value.to_string()).collect()
}

const METADATA: &str = "<?xml version=\"1.0\" encoding=\"UTF-8\"?>
<metadata>
  <groupId>dev.architectury</groupId>
  <artifactId>architectury</artifactId>
  <versioning>
    <latest>4.0.1</latest>
    <versions><version>3.9.0</version><version>4.0.0-beta</version><version>4.0.1</version></versions>
    <lastUpdated>20220101000000</lastUpdated>
  </versioning>
</metadata>";

#[test]
fn lists_the_versions_in_order() {
    let metadata = Metadata {
        children: vec![
            node("groupId", vec![node("", vec![])]),
            node(
                "versioning",
                vec![
                    node("latest", texts(&[Some("2.0")])),
                    node("versions", texts(&[Some("1.0"), Some("1.1"), Some("2.0")])),
                ],
            ),
        ],
    };
    assert_eq!(listed_versions(&metadata), Some(strings(&["1.0", "1.1", "2.0"])));
}

#[test]
fn text_between_elements_is_listed_too() {
    let metadata = Metadata {
        children: vec![node("versioning", vec![node("versions", texts(&[Some("\n  "), Some("1.0"), Some("\n")]))])],
    };
    assert_eq!(listed_versions(&metadata), Some(strings(&["\n  ", "1.0", "\n"])));
}

#[test]
fn every_versioning_and_versions_is_walked() {
    let metadata = Metadata {
        children: vec![
            node("versioning", vec![node("versions", texts(&[Some("1")])), node("versions", texts(&[Some("2")]))]),
            node("other", vec![node("versions", texts(&[Some("9")]))]),
            node("versioning", vec![node("other", texts(&[Some("8")])), node("versions", texts(&[Some("3")]))]),
        ],
    };
    assert_eq!(listed_versions(&metadata), Some(strings(&["1", "2", "3"])));
}

#[test]
fn nothing_listed_gives_an_empty_list() {
    assert_eq!(listed_versions(&Metadata { children: vec![] }), Some(Vec::new()));
    let empty = Metadata { children: vec![node("versioning", vec![node("versions", vec![])])] };
    assert_eq!(listed_versions(&empty), Some(Vec::new()));
    let higher = Metadata { children: vec![node("versions", vec![node("version", texts(&[Some("1.0")]))])] };
    assert_eq!(listed_versions(&higher), Some(Vec::new()));
}

#[test]
fn node_without_text_gives_no_list() {
    let metadata = Metadata {
        children: vec![node("versioning", vec![node("versions", texts(&[Some("1.0"), None, Some("1.1")]))])],
    };
    assert_eq!(listed_versions(&metadata), None);
    let elsewhere = Metadata {
        children: vec![node("versioning", vec![node("other", texts(&[None])), node("versions", texts(&[Some("1.0")]))])],
    };
    assert_eq!(listed_versions(&elsewhere), Some(strings(&["1.0"])));
}

#[test]
fn parse_reads_three_levels_of_a_document() {
    let text = "<a x=\"1\">t<b><c>u<d>deep</d></c><!--note--><e/>v</b><n:f xmlns:n=\"urn:n\"/></a>";
    let metadata = Metadata::parse(text).unwrap();
    assert_eq!(metadata.children.len(), 3);
    assert_eq!(metadata.children[0].name, "");
    assert!(metadata.children[0].children.is_empty());
    let b = &metadata.children[1];
    assert_eq!(b.name, "b");
    assert_eq!(b.children.len(), 4);
    assert_eq!(b.children[0].name, "c");
    assert_eq!(b.children[0].children, texts(&[Some("u"), Some("deep")]));
    assert_eq!(b.children[1].name, "");
    assert!(b.children[1].children.is_empty());
    assert_eq!(b.children[2].name, "e");
    assert!(b.children[2].children.is_empty());
    assert_eq!(b.children[3].name, "");
    assert_eq!(metadata.children[2].name, "f");
    assert!(metadata.children[2].children.is_empty());
}

#[test]
fn parse_tells_nodes_with_and_without_text_apart() {
    let text = "<m><versioning><versions><version>1.0</version><version/><version><x/>2</version><!--c--> </versions></versioning></m>";
    let metadata = Metadata::parse(text).unwrap();
    let versions = &metadata.children[0].children[0];
    assert_eq!(versions.name, "versions");
    assert_eq!(versions.children, texts(&[Some("1.0"), None, None, Some("c"), Some(" ")]));
    assert_eq!(listed_versions(&metadata), None);
}

#[test]
fn parse_refuses_what_is_no_xml() {
    assert!(Metadata::parse("").is_none());
    assert!(Metadata::parse("<a>").is_none());
    assert!(Metadata::parse("<a></b>").is_none());
    assert!(Metadata::parse("plain").is_none());
}

fn nested(depth: usize) -> String {
    let mut text = String::from("<metadata><versioning><versions><version>1.0");
    for _ in 4..depth {
        text.push_str("<a>");
    }
    for _ in 4..depth {
        text.push_str("</a>");
    }
    text.push_str("</version><version>1.1</version></versions></versioning></metadata>");
    text
}

#[test]
fn parse_reads_a_document_of_the_greatest_depth() {
    assert_eq!(MAX_NESTING, 128);
    let metadata = Metadata::parse(&nested(MAX_NESTING)).unwrap();
    assert_eq!(listed_versions(&metadata), Some(strings(&["1.0", "1.1"])));
}

#[test]
fn parse_refuses_a_document_that_is_nested_deeper() {
    assert!(Metadata::parse(&nested(MAX_NESTING + 1)).is_none());
    assert!(Metadata::parse(&nested(100_000)).is_none());
    let unclosed = "<a>".repeat(1_000_000);
    assert!(Metadata::parse(&unclosed).is_none());
}

#[test]
fn nesting_counts_the_elements_that_are_open() {
    let chars = |text: &str| text.chars().collect::<Vec<char>>();
    assert_eq!(nesting_of(&chars("")), 0);
    assert_eq!(nesting_of(&chars("plain > text")), 0);
    assert_eq!(nesting_of(&chars("<a/>")), 1);
    assert_eq!(nesting_of(&chars("<a><b/><b/><b></b><b>t</b></a>")), 2);
    assert_eq!(nesting_of(&chars("<a><b><c></c></b><d><e><f/></e></d></a>")), 4);
    assert_eq!(nesting_of(&chars(METADATA)), 4);
    assert_eq!(nesting_of(&chars("<a><!-- <b><c><d> </x></x> --><b/></a>")), 2);
    assert_eq!(nesting_of(&chars("<a><![CDATA[<b><c>]]><b></b></a>")), 2);
    assert_eq!(nesting_of(&chars("<?xml version=\"1.0\"?><?p <x><y> ?><a/>")), 1);
    assert_eq!(nesting_of(&chars("<a x=\"/>\" y='>'><b z=\"'\"/></a>")), 2);
    assert_eq!(nesting_of(&chars("<a b=\"/\"><c/></a>")), 2);
    assert_eq!(nesting_of(&chars("</a></a><b><c>")), 2);
    assert_eq!(nesting_of(&chars("<a><b><!DOCTYPE x><c><d><e>")), 2);
    assert_eq!(nesting_of(&chars("<a><b <c><d>")), 2);
    assert_eq!(nesting_of(&chars("<a><b x=\"<c><d>")), 2);
    assert_eq!(nesting_of(&chars("<a><a><a>")), 3);
}

#[test]
fn versions_are_listed_from_a_metadata_text() {
    let metadata = Metadata::parse(METADATA).unwrap();
    assert_eq!(listed_versions(&metadata), Some(strings(&["3.9.0", "4.0.0-beta", "4.0.1"])));
}

#[test]
fn newest_listed_version_is_selected() {
    let metadata = Metadata::parse(METADATA).unwrap();
    let listed = listed_versions(&metadata).unwrap();
    let definition = VersionDefinition { filter: Regex::new("^4\\.0\\.0").unwrap(), pom: String::new() };
    let latest = select_latest(&definition, &listed).unwrap().unwrap();
    assert_eq!(latest.to_string(), "4.0.0-beta");
}
