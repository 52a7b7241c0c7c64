use xmlmerge::api::{patch_test_runner_args, has_test_runner_config, MergeError};
use xmlmerge::parse::parse;
use xmlmerge::payload::generate_ruby_args;
use xmlmerge::tree::XmlNode;

const WORKSPACE: &str = r#"<?xml version="1.0" encoding="UTF-8"?>
<project version="4">
  <component name="RunManager">
    <configuration type="TestUnitRunConfigurationType" name="tests">
      <RTEST_RUN_CONFIG_SETTINGS_ID NAME="RUBY_ARGS" VALUE="-Iold" EXTRA="kept"/>
      <RTEST_RUN_CONFIG_SETTINGS_ID NAME="OTHER" VALUE="untouched"/>
    </configuration>
  </component>
</project>
"#;

#[test]
fn patches_value_and_keeps_other_attributes() {
    let (out, updated) = patch_test_runner_args(WORKSPACE, "-Inew -Ipaths").expect("patch");
    assert!(updated);
    let doc = parse(&out).expect("output must be well formed");
    let mut found = false;
    let mut stack = vec![XmlNode::Elem(doc.root)];
    while let Some(n) = stack.pop() {
        if let XmlNode::Elem(e) = n {
            if e.tag == "RTEST_RUN_CONFIG_SETTINGS_ID"
                && e.attrs.iter().any(|a| a.name == "NAME" && a.value == "RUBY_ARGS")
            {
                let names: Vec<&str> = e.attrs.iter().map(|a| a.name.as_str()).collect();
                assert_eq!(names, vec!["NAME", "VALUE", "EXTRA"]);
                assert_eq!(e.attrs[1].value, "-Inew -Ipaths");
                assert_eq!(e.attrs[2].value, "kept");
                found = true;
            }
            stack.extend(e.children);
        }
    }
    assert!(found);
    assert!(out.contains(r#"NAME="OTHER" VALUE="untouched""#));
}

#[test]
fn no_target_reports_nothing_updated_and_changes_nothing() {
    let text = r#"<project version="4"><component name="RunManager"/></project>"#;
    let (out, updated) = patch_test_runner_args(text, "-Inew").expect("patch");
    assert!(!updated);
    assert_eq!(parse(&out).unwrap(), parse(text).unwrap());
}

#[test]
fn element_with_other_name_is_not_patched() {
    let text = r#"<project><RTEST_RUN_CONFIG_SETTINGS_ID NAME="COVERAGE" VALUE="x"/></project>"#;
    let (out, updated) = patch_test_runner_args(text, "-Inew").expect("patch");
    assert!(!updated);
    assert!(out.contains(r#"VALUE="x""#));
}

#[test]
fn malformed_workspace_is_an_error() {
    match patch_test_runner_args("<project", "-Inew") {
        Err(MergeError::MalformedDocument { .. }) => {},
        other => panic!("expected a malformed-document error, got {:?}", other),
    }
}

#[test]
fn detects_test_runner_configuration() {
    assert_eq!(has_test_runner_config(WORKSPACE), Ok(true));
    let other = r#"<project><configuration type="RubyRunConfigurationType"/></project>"#;
    assert_eq!(has_test_runner_config(other), Ok(false));
}

#[test]
fn ruby_args_prefix_four_fixed_subpaths() {
    let args = generate_ruby_args("/Applications/RubyMine.app");
    let base = "/Applications/RubyMine.app/Contents/plugins/ruby/rb/testing/patch";
    assert_eq!(
        args,
        format!("-I{base}/common -I{base}/bdd -I{base}/rake -I{base}/testunit")
    );
}
