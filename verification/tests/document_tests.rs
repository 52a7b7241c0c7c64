use xmlmerge::parse::{parse, XmlError};
use xmlmerge::serialize::serialize;
use xmlmerge::tree::{XmlNode, XmlDocument};

fn root_of(text: &str) -> XmlDocument {
    parse(text).expect("document should parse")
}

#[test]
fn parse_simple_element() {
    let doc = root_of("<a/>");
    assert_eq!(doc.root.tag, "a");
    assert!(doc.root.attrs.is_empty());
    assert!(doc.root.children.is_empty());
}

#[test]
fn parse_attributes_in_order() {
    let doc = root_of(r#"<a x="1" y="two" z='three'/>"#);
    let names: Vec<&str> = doc.root.attrs.iter().map(|a| a.name.as_str()).collect();
    assert_eq!(names, vec!["x", "y", "z"]);
    assert_eq!(doc.root.attrs[1].value, "two");
    assert_eq!(doc.root.attrs[2].value, "three");
}

#[test]
fn parse_nested_children_in_order() {
    let doc = root_of("<a><b/><c><d/></c></a>");
    assert_eq!(doc.root.children.len(), 2);
    match &doc.root.children[0] {
        XmlNode::Elem(e) => assert_eq!(e.tag, "b"),
        other => panic!("expected element, got {:?}", other),
    }
    match &doc.root.children[1] {
        XmlNode::Elem(e) => {
            assert_eq!(e.tag, "c");
            assert_eq!(e.children.len(), 1);
        },
        other => panic!("expected element, got {:?}", other),
    }
}

#[test]
fn parse_text_is_trimmed() {
    let doc = root_of("<a>  hello world\n</a>");
    assert_eq!(doc.root.children, vec![XmlNode::Text("hello world".to_string())]);
}

#[test]
fn parse_drops_whitespace_only_text() {
    let doc = root_of("<a>\n  <b/>\n</a>");
    assert_eq!(doc.root.children.len(), 1);
}

#[test]
fn parse_decodes_entities() {
    let doc = root_of(r#"<a v="1 &lt; 2 &amp; 3 &gt; 2 &quot;q&quot; &apos;s&apos;"/>"#);
    assert_eq!(doc.root.attrs[0].value, r#"1 < 2 & 3 > 2 "q" 's'"#);
}

#[test]
fn parse_keeps_comments_and_instructions() {
    let doc = root_of("<a><!-- note --><?pi data?></a>");
    assert_eq!(
        doc.root.children,
        vec![XmlNode::Comment(" note ".to_string()), XmlNode::Pi("pi data".to_string())]
    );
}

#[test]
fn parse_accepts_declaration_and_prolog_comments() {
    let doc = root_of("<?xml version=\"1.0\"?>\n<!-- header -->\n<a/>\n<!-- trailer -->\n");
    assert_eq!(doc.root.tag, "a");
}

#[test]
fn parse_rejects_unclosed_tag() {
    assert!(parse("<a><b></a>").is_err());
}

#[test]
fn parse_rejects_mismatched_close() {
    assert!(parse("<a></b>").is_err());
}

#[test]
fn parse_rejects_unknown_entity() {
    assert!(parse("<a>&nbsp;</a>").is_err());
}

#[test]
fn parse_rejects_duplicate_attributes() {
    assert!(parse(r#"<a x="1" x="2"/>"#).is_err());
}

#[test]
fn parse_rejects_second_root() {
    assert!(parse("<a/><b/>").is_err());
}

#[test]
fn parse_rejects_garbage() {
    let e = parse("not xml at all").unwrap_err();
    let XmlError::MalformedDocument { offset } = e;
    assert!(offset < "not xml at all".len());
    assert_eq!(e.offset(), offset);
}

#[test]
fn serialize_canonical_form() {
    let doc = root_of("<a>\n\t<b x=\"1\"  />\n\t<c></c>\n</a>");
    let out = serialize(&doc);
    assert_eq!(
        out,
        "<?xml version=\"1.0\" encoding=\"UTF-8\"?>\n<a>\n  <b x=\"1\"/>\n  <c/>\n</a>\n"
    );
}

#[test]
fn serialize_keeps_text_inline() {
    let doc = root_of("<a><b>mysql.8</b></a>");
    let out = serialize(&doc);
    assert_eq!(
        out,
        "<?xml version=\"1.0\" encoding=\"UTF-8\"?>\n<a>\n  <b>mysql.8</b>\n</a>\n"
    );
}

#[test]
fn serialize_escapes_attributes_and_text() {
    let doc = root_of(r#"<a v="&quot;&lt;&amp;">x &amp; y</a>"#);
    let out = serialize(&doc);
    assert!(out.contains(r#"v="&quot;&lt;&amp;""#));
    assert!(out.contains("x &amp; y"));
}

#[test]
fn round_trip_structural() {
    let text = r#"<?xml version="1.0" encoding="UTF-8"?>
<application>
  <!-- settings -->
  <component name="ProjectJdkTable" other="kept &amp; escaped">
    <jdk version="2">
      <name value="Ruby 3.2.0 (main/app) + marker 2024-01-01"/>
      <homePath value="/opt/rubies/3.2.0/bin/ruby"/>
    </jdk>
    <note>some text</note>
  </component>
</application>
"#;
    let first = parse(text).expect("first parse");
    let rendered = serialize(&first);
    let second = parse(&rendered).expect("second parse");
    assert_eq!(first, second);
    // and the rendering is a fixed point from here on
    assert_eq!(rendered, serialize(&second));
}

#[test]
fn round_trip_mixed_content() {
    let text = "<a>alpha<b/>beta<!--c--><d>gamma</d></a>";
    let first = parse(text).expect("first parse");
    let rendered = serialize(&first);
    let second = parse(&rendered).expect("second parse");
    assert_eq!(first, second);
}
