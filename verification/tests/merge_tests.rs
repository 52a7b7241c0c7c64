use xmlmerge::api::{upsert_interpreter, MergeError};
use xmlmerge::parse::parse;
use xmlmerge::payload::InterpreterFacts;
use xmlmerge::tree::{Element, XmlNode};

fn facts(version: &str, dir: &str, date: &str) -> InterpreterFacts {
    InterpreterFacts {
        ruby_version: version.to_string(),
        interpreter_path: "/opt/rubies/3.2.0/bin/ruby".to_string(),
        tool_path: "/usr/local/bin/envtool".to_string(),
        working_dir: dir.to_string(),
        date: date.to_string(),
    }
}

fn find_component<'a>(root: &'a Element, name: &str) -> &'a Element {
    for c in &root.children {
        if let XmlNode::Elem(e) = c {
            if e.tag == "component"
                && e.attrs.iter().any(|a| a.name == "name" && a.value == name)
            {
                return e;
            }
        }
    }
    panic!("no component {} in {:?}", name, root);
}

fn jdk_names(container: &Element) -> Vec<String> {
    let mut out = Vec::new();
    for c in &container.children {
        if let XmlNode::Elem(e) = c {
            if e.tag == "jdk" {
                out.push(jdk_name(e));
            }
        }
    }
    out
}

fn jdk_name(jdk: &Element) -> String {
    for c in &jdk.children {
        if let XmlNode::Elem(e) = c {
            if e.tag == "name" {
                for a in &e.attrs {
                    if a.name == "value" {
                        return a.value.clone();
                    }
                }
            }
        }
    }
    panic!("jdk entry without a name: {:?}", jdk);
}

const PRIOR: &str = r#"<?xml version="1.0" encoding="UTF-8"?>
<application>
  <component name="ProjectJdkTable">
    <jdk version="2">
      <name value="Ruby 3.2.0 (main/app) + marker 2024-01-01"/>
      <type value="RUBY_SDK"/>
    </jdk>
    <jdk version="2">
      <name value="Ruby 3.1.4 (feature/app) + marker 2023-12-24"/>
      <type value="RUBY_SDK"/>
    </jdk>
  </component>
</application>
"#;

#[test]
fn replaces_entry_of_same_scope_and_keeps_others() {
    // the concrete replacement scenario: same scope, new date
    let out = upsert_interpreter(Some(PRIOR), &facts("3.2.0", "/trees/main/app", "2024-06-01"))
        .expect("merge should succeed");
    let doc = parse(&out).expect("output must be well formed");
    let container = find_component(&doc.root, "ProjectJdkTable");
    let names = jdk_names(container);
    assert_eq!(
        names,
        vec![
            "Ruby 3.1.4 (feature/app) + marker 2023-12-24".to_string(),
            "Ruby 3.2.0 (main/app) + marker 2024-06-01".to_string(),
        ]
    );
}

#[test]
fn new_entry_comes_last() {
    let out = upsert_interpreter(Some(PRIOR), &facts("3.3.0", "/trees/main/app", "2024-06-01"))
        .expect("merge should succeed");
    let doc = parse(&out).expect("output must be well formed");
    let container = find_component(&doc.root, "ProjectJdkTable");
    let names = jdk_names(container);
    assert_eq!(names.last().unwrap(), "Ruby 3.3.0 (main/app) + marker 2024-06-01");
}

#[test]
fn unrelated_entries_survive_with_attributes() {
    let out = upsert_interpreter(Some(PRIOR), &facts("3.2.0", "/trees/main/app", "2024-06-01"))
        .expect("merge should succeed");
    let doc = parse(&out).expect("output must be well formed");
    let container = find_component(&doc.root, "ProjectJdkTable");
    let kept = container
        .children
        .iter()
        .filter_map(|c| match c {
            XmlNode::Elem(e) if e.tag == "jdk" => Some(e),
            _ => None,
        })
        .find(|e| jdk_name(e).contains("feature/app"))
        .expect("the unrelated entry must survive");
    assert_eq!(kept.attrs[0].name, "version");
    assert_eq!(kept.attrs[0].value, "2");
    assert_eq!(kept.children.len(), 2);
}

#[test]
fn merging_twice_leaves_one_entry_per_scope() {
    // idempotence of identity: only the date differs between the runs
    let once = upsert_interpreter(Some(PRIOR), &facts("3.2.0", "/trees/main/app", "2024-06-01"))
        .expect("first merge");
    let twice = upsert_interpreter(Some(&once), &facts("3.2.0", "/trees/main/app", "2024-07-15"))
        .expect("second merge");
    let doc = parse(&twice).expect("output must be well formed");
    let container = find_component(&doc.root, "ProjectJdkTable");
    let names = jdk_names(container);
    let mine: Vec<&String> = names.iter().filter(|n| n.contains("(main/app)")).collect();
    assert_eq!(mine.len(), 1);
    assert_eq!(mine[0], "Ruby 3.2.0 (main/app) + marker 2024-07-15");
    assert_eq!(names.len(), 2);
}

#[test]
fn creation_path_builds_two_level_skeleton() {
    let out = upsert_interpreter(None, &facts("3.2.0", "/trees/main/app", "2024-06-01"))
        .expect("creation should succeed");
    let doc = parse(&out).expect("skeleton must be well formed");
    assert_eq!(doc.root.tag, "application");
    assert_eq!(doc.root.children.len(), 1);
    let container = find_component(&doc.root, "ProjectJdkTable");
    assert_eq!(container.children.len(), 1);
    let names = jdk_names(container);
    assert_eq!(names, vec!["Ruby 3.2.0 (main/app) + marker 2024-06-01".to_string()]);
}

#[test]
fn container_is_created_inside_existing_document() {
    let prior = "<application><component name=\"Other\"/></application>";
    let out = upsert_interpreter(Some(prior), &facts("3.2.0", "/trees/main/app", "2024-06-01"))
        .expect("merge should succeed");
    let doc = parse(&out).expect("output must be well formed");
    assert_eq!(doc.root.children.len(), 2);
    let container = find_component(&doc.root, "ProjectJdkTable");
    assert_eq!(jdk_names(container).len(), 1);
}

#[test]
fn entry_without_display_name_is_never_removed() {
    let prior = r#"<application><component name="ProjectJdkTable">
        <jdk version="2"><type value="RUBY_SDK"/></jdk>
    </component></application>"#;
    let out = upsert_interpreter(Some(prior), &facts("3.2.0", "/trees/main/app", "2024-06-01"))
        .expect("merge should succeed");
    let doc = parse(&out).expect("output must be well formed");
    let container = find_component(&doc.root, "ProjectJdkTable");
    let jdk_count = container
        .children
        .iter()
        .filter(|c| matches!(c, XmlNode::Elem(e) if e.tag == "jdk"))
        .count();
    assert_eq!(jdk_count, 2);
}

#[test]
fn malformed_prior_document_is_an_error() {
    let r = upsert_interpreter(Some("<application"), &facts("3.2.0", "/x", "2024-06-01"));
    match r {
        Err(MergeError::MalformedDocument { .. }) => {},
        other => panic!("expected a malformed-document error, got {:?}", other),
    }
}

#[test]
fn missing_fact_is_an_error() {
    let r = upsert_interpreter(None, &facts("", "/x", "2024-06-01"));
    assert_eq!(r, Err(MergeError::MissingRequiredFact));
    assert_eq!(MergeError::MissingRequiredFact.message(), "missing required fact");
}

#[test]
fn descriptor_entry_holds_option_list_and_gems_dir() {
    let out = upsert_interpreter(None, &facts("3.2.0", "/trees/main/app", "2024-06-01"))
        .expect("creation should succeed");
    assert!(out.contains(r#"<option value="/usr/local/bin/envtool"/>"#));
    assert!(out.contains(r#"<option value="exec"/>"#));
    assert!(out.contains(r#"<option value="--dir"/>"#));
    assert!(out.contains(r#"<option value="/trees/main/app"/>"#));
    assert!(out.contains(r#"<option value="--"/>"#));
    assert!(out.contains(r#"GEMS_BIN_DIR_PATH="/opt/rubies/3.2.0/bin""#));
    assert!(out.contains(r#"<homePath value="/opt/rubies/3.2.0/bin/ruby"/>"#));
    assert!(out.contains(r#"<type value="RUBY_SDK"/>"#));
}
