use xmlmerge::api::{datasource_uuid, find_datasource_uuid, build_datasource_documents};
use xmlmerge::outside::{fresh_uuid, resolve_interpreter_path};
use xmlmerge::parse::parse;
use xmlmerge::payload::DbFacts;
use xmlmerge::tree::{Element, XmlNode};

fn db() -> DbFacts {
    DbFacts {
        host: "db.local".to_string(),
        port: "3306".to_string(),
        user: "app".to_string(),
    }
}

fn first_attr(e: &Element, tag: &str, attr: &str) -> Option<String> {
    if e.tag == tag {
        if let Some(a) = e.attrs.iter().find(|a| a.name == attr) {
            return Some(a.value.clone());
        }
    }
    for c in &e.children {
        if let XmlNode::Elem(child) = c {
            if let Some(v) = first_attr(child, tag, attr) {
                return Some(v);
            }
        }
    }
    None
}

#[test]
fn identifier_is_reused_from_prior_document() {
    let prior = r#"<project version="4">
      <component name="DataSourceManagerImpl">
        <data-source source="LOCAL" name="@db.local" uuid="11111111-2222-3333-4444-555555555555"/>
      </component>
    </project>"#;
    let got = datasource_uuid(Some(prior)).expect("recovery should succeed");
    assert_eq!(got, "11111111-2222-3333-4444-555555555555");
    // re-running with the same prior document yields the same identifier
    let again = datasource_uuid(Some(prior)).expect("recovery should succeed");
    assert_eq!(got, again);
}

#[test]
fn identifier_is_minted_when_absent() {
    let prior = r#"<project version="4"><component name="DataSourceManagerImpl"/></project>"#;
    let got = datasource_uuid(Some(prior)).expect("minting should succeed");
    assert_eq!(got.len(), 36);
    let none = datasource_uuid(None).expect("minting should succeed");
    assert_eq!(none.len(), 36);
}

#[test]
fn find_uuid_reports_absence() {
    let prior = r#"<project version="4"/>"#;
    assert_eq!(find_datasource_uuid(prior), Ok(None));
}

#[test]
fn malformed_prior_fails_recovery() {
    assert!(datasource_uuid(Some("<project")).is_err());
}

#[test]
fn fresh_identifier_is_hyphenated() {
    let u = fresh_uuid();
    assert_eq!(u.len(), 36);
    assert_eq!(u.as_bytes()[8], b'-');
    assert_eq!(u.as_bytes()[13], b'-');
    assert_eq!(u.as_bytes()[18], b'-');
    assert_eq!(u.as_bytes()[23], b'-');
}

#[test]
fn datasource_pair_shares_the_identifier() {
    let (a, b) = build_datasource_documents(&db(), "abc-123");
    let da = parse(&a).expect("first document parses");
    let db_ = parse(&b).expect("second document parses");
    assert_eq!(first_attr(&da.root, "data-source", "uuid"), Some("abc-123".to_string()));
    assert_eq!(first_attr(&db_.root, "data-source", "uuid"), Some("abc-123".to_string()));
}

#[test]
fn datasource_documents_hold_connection_facts() {
    let (a, b) = build_datasource_documents(&db(), "abc-123");
    assert!(a.contains(r#"name="@db.local""#));
    assert!(a.contains("<jdbc-url>jdbc:mysql://db.local:3306</jdbc-url>"));
    assert!(a.contains("<driver-ref>mysql.8</driver-ref>"));
    assert!(a.contains("<working-dir>$ProjectFileDir$</working-dir>"));
    assert!(b.contains("<user-name>app</user-name>"));
    assert!(b.contains("<secret-storage>master_key</secret-storage>"));
    assert!(b.contains(r#"qname="storefront_renderer_test_master""#));
    assert!(b.contains(r#"created-in="RM-233.15026.15""#));
}

#[test]
fn resolves_quoted_exec_target() {
    let script = "#!/bin/sh\nexec \"/opt/rubies/3.2.0/bin/ruby\" \"$@\"\n";
    assert_eq!(
        resolve_interpreter_path("/usr/local/bin/ruby", Some(script)),
        "/opt/rubies/3.2.0/bin/ruby"
    );
}

#[test]
fn resolves_bare_exec_target() {
    let script = "#!/bin/sh\nexec /opt/rubies/3.2.0/bin/ruby $@\n";
    assert_eq!(
        resolve_interpreter_path("/usr/local/bin/ruby", Some(script)),
        "/opt/rubies/3.2.0/bin/ruby"
    );
}

#[test]
fn falls_back_to_wrapper_path() {
    assert_eq!(
        resolve_interpreter_path("/usr/local/bin/ruby", Some("#!/bin/sh\necho no target\n")),
        "/usr/local/bin/ruby"
    );
    assert_eq!(resolve_interpreter_path("/usr/local/bin/ruby", None), "/usr/local/bin/ruby");
}
