//! The three entry points of the library, each a pure transform from the
//! prior file text (or its absence) and caller-supplied facts to the new
//! file text: upserting a runtime descriptor, patching the test-runner
//! argument value, and building the data-source document pair.
//!
//! No function here performs any input or output; reading the prior file
//! and writing (with a backup) are the caller's business.

use vstd::prelude::*;
use crate::tree::{XmlNode, NodeView, XmlDocument};
use crate::merge::{
    ContainerSpec,
    ContainerSpecView,
    IdentityKey,
    IdentityKeyView,
    upsert_doc_s,
    skeleton_doc,
    find_first_attr,
};
use crate::parse::{parse, parse_doc_spec, XmlError};
use crate::serialize::{serialize, ser_doc};
use crate::payload::{InterpreterFacts, DbFacts, datasources_doc_v, datasources_local_doc_v};

verus! {

broadcast use vstd::std_specs::vec::group_vec_axioms, vstd::seq::group_seq_axioms;

/// Everything that can go wrong in a merge: the prior text is not a
/// well-formed document, or a fact the payload needs is absent.
#[derive(Debug, PartialEq, Eq, Structural)]
pub enum MergeError {
    MalformedDocument { offset: usize },
    MissingRequiredFact,
}

impl MergeError {
    /// A short description, for the operator.
    pub fn message(&self) -> (r: String) {
        match self {
            MergeError::MalformedDocument { .. } => "malformed document".to_owned(),
            MergeError::MissingRequiredFact => "missing required fact".to_owned(),
        }
    }
}

/// Upserts `entry` into the container of `old_text`, or into a fresh
/// skeleton when there is no prior text.  Returns the new document text:
/// the old document with colliding entries removed and the entry appended,
/// every unrelated node untouched.
pub fn upsert_entry(
    old_text: Option<&str>,
    root_tag: &str,
    cs: &ContainerSpec,
    key: &IdentityKey,
    entry: &XmlNode,
) -> (r: Result<String, MergeError>)
    ensures
        match old_text {
            None => r matches Ok(t) && t@ == ser_doc(skeleton_doc(root_tag@, cs@, entry@)),
            Some(s) => match parse_doc_spec(s@) {
                Some(d) => r matches Ok(t) && t@ == ser_doc(upsert_doc_s(d, cs@, key@, entry@)),
                None => r matches Err(e) && e is MalformedDocument,
            },
        },
{
    match old_text {
        None => {
            let doc = crate::merge::skeleton_doc_exec(root_tag, cs, entry);
            Ok(serialize(&doc))
        },
        Some(s) => {
            match parse(s) {
                Err(e) => {
                    match e {
                        XmlError::MalformedDocument { offset } => Err(
                            MergeError::MalformedDocument { offset },
                        ),
                    }
                },
                Ok(doc) => {
                    let merged = crate::merge::upsert_doc_exec(&doc, cs, key, entry);
                    Ok(serialize(&merged))
                },
            }
        },
    }
}

/// The container the runtime descriptors live in.
pub open spec fn interpreter_container_v() -> ContainerSpecView {
    ContainerSpecView {
        tag: "component"@,
        attr_name: "name"@,
        attr_value: "ProjectJdkTable"@,
    }
}

/// Builds the container description for runtime descriptors.
pub fn interpreter_container() -> (r: ContainerSpec)
    ensures
        r@ == interpreter_container_v(),
{
    ContainerSpec {
        tag: "component".to_owned(),
        attr_name: "name".to_owned(),
        attr_value: "ProjectJdkTable".to_owned(),
    }
}

/// The identity key a working directory gives rise to.
pub open spec fn interpreter_key_v(dir: Seq<char>) -> IdentityKeyView {
    IdentityKeyView {
        entry_tag: "jdk"@,
        worktree: crate::identity::worktree_of(dir),
        leaf: crate::identity::dir_leaf(dir),
    }
}

/// Builds the identity key for this working directory.
pub fn interpreter_key(working_dir: &str) -> (r: IdentityKey)
    ensures
        r@ == interpreter_key_v(working_dir@),
{
    let dir = crate::chars::str_to_chars(working_dir);
    IdentityKey {
        entry_tag: "jdk".to_owned(),
        worktree: crate::identity::extract_worktree_name(working_dir),
        leaf: crate::identity::dir_leaf_exec(&dir),
    }
}

/// A fact without which the runtime descriptor cannot be built.
pub open spec fn interpreter_fact_missing(f: crate::payload::InterpreterFactsView) -> bool {
    f.ruby_version.len() == 0 || f.interpreter_path.len() == 0
}

/// Upserts the runtime descriptor built from `facts` into the descriptor
/// table: the entry for this working directory is replaced (wherever its
/// date differs), entries of other scopes stay untouched, and with no prior
/// text a minimal skeleton is written.
pub fn upsert_interpreter(old_text: Option<&str>, facts: &InterpreterFacts) -> (r: Result<
    String,
    MergeError,
>)
    ensures
        interpreter_fact_missing(facts@) <==> (r matches Err(e) && e is MissingRequiredFact),
        !interpreter_fact_missing(facts@) ==> match old_text {
            None => r matches Ok(t) && t@ == ser_doc(
                skeleton_doc(
                    "application"@,
                    interpreter_container_v(),
                    crate::payload::interpreter_entry_v(facts@),
                ),
            ),
            Some(s) => match parse_doc_spec(s@) {
                Some(d) => r matches Ok(t) && t@ == ser_doc(
                    upsert_doc_s(
                        d,
                        interpreter_container_v(),
                        interpreter_key_v(facts@.working_dir),
                        crate::payload::interpreter_entry_v(facts@),
                    ),
                ),
                None => r matches Err(e) && e is MalformedDocument,
            },
        },
{
    if facts.ruby_version.as_str().is_empty() || facts.interpreter_path.as_str().is_empty() {
        return Err(MergeError::MissingRequiredFact);
    }
    let cs = interpreter_container();
    let key = interpreter_key(facts.working_dir.as_str());
    let entry = crate::payload::build_interpreter_entry(facts);
    upsert_entry(old_text, "application", &cs, &key, &entry)
}

/// Patches the test-runner argument value in the first matching settings
/// element of `old_text`.  The flag says whether anything was updated; when
/// nothing matched the document's content is unchanged.
pub fn patch_test_runner_args(old_text: &str, ruby_args: &str) -> (r: Result<
    (String, bool),
    MergeError,
>)
    ensures
        match parse_doc_spec(old_text@) {
            Some(d) => r matches Ok(p) && p.0@ == ser_doc(
                crate::patch::patch_doc_s(d, ruby_args@).0,
            ) && p.1 == crate::patch::patch_doc_s(d, ruby_args@).1,
            None => r matches Err(e) && e is MalformedDocument,
        },
{
    match parse(old_text) {
        Err(e) => {
            match e {
                XmlError::MalformedDocument { offset } => Err(
                    MergeError::MalformedDocument { offset },
                ),
            }
        },
        Ok(doc) => {
            let (doc2, updated) = crate::patch::patch_doc_exec(&doc, ruby_args);
            Ok((serialize(&doc2), updated))
        },
    }
}

/// Does this workspace document hold a test-runner configuration?
pub fn has_test_runner_config(text: &str) -> (r: Result<bool, MergeError>)
    ensures
        match parse_doc_spec(text@) {
            Some(d) => r matches Ok(b) && b == crate::patch::exists_elem_attr(
                NodeView::Elem(d.root),
                "configuration"@,
                "type"@,
                "TestUnitRunConfigurationType"@,
            ),
            None => r matches Err(e) && e is MalformedDocument,
        },
{
    match parse(text) {
        Err(e) => {
            match e {
                XmlError::MalformedDocument { offset } => Err(
                    MergeError::MalformedDocument { offset },
                ),
            }
        },
        Ok(doc) => {
            let tag = "configuration".to_owned();
            let attr = "type".to_owned();
            let val = "TestUnitRunConfigurationType".to_owned();
            let node = XmlNode::Elem(doc.root);
            let b = crate::patch::exists_elem_attr_exec(&node, &tag, &attr, &val);
            Ok(b)
        },
    }
}

/// Does this workspace text mention the project: its full directory, the
/// project-directory placeholder, or the directory's last component?
pub open spec fn mentions_project(content: Seq<char>, dir: Seq<char>) -> bool {
    crate::identity::find_sub_from(content, dir, 0) is Some || crate::identity::find_sub_from(
        content,
        "$PROJECT_DIR$"@,
        0,
    ) is Some || crate::identity::find_sub_from(content, crate::identity::dir_leaf(dir), 0)
        is Some
}

/// Executable mirror of [`mentions_project`].
pub fn workspace_mentions_project(content: &str, current_dir: &str) -> (r: bool)
    ensures
        r == mentions_project(content@, current_dir@),
{
    let cs = crate::chars::str_to_chars(content);
    let dir = crate::chars::str_to_chars(current_dir);
    if crate::identity::find_sub(&cs, &dir).is_some() {
        return true;
    }
    let marker = crate::chars::str_to_chars("$PROJECT_DIR$");
    if crate::identity::find_sub(&cs, &marker).is_some() {
        return true;
    }
    let leaf = crate::identity::dir_leaf_exec(&dir);
    let leaf_chars = crate::chars::str_to_chars(leaf.as_str());
    crate::identity::find_sub(&cs, &leaf_chars).is_some()
}

/// The identifier of the first data-source element of `text`, if any.
pub fn find_datasource_uuid(text: &str) -> (r: Result<Option<String>, MergeError>)
    ensures
        match parse_doc_spec(text@) {
            Some(d) => r matches Ok(o) && match o {
                Some(u) => find_first_attr(NodeView::Elem(d.root), "data-source"@, "uuid"@)
                    == Some(u@),
                None => find_first_attr(NodeView::Elem(d.root), "data-source"@, "uuid"@) is None,
            },
            None => r matches Err(e) && e is MalformedDocument,
        },
{
    match parse(text) {
        Err(e) => {
            match e {
                XmlError::MalformedDocument { offset } => Err(
                    MergeError::MalformedDocument { offset },
                ),
            }
        },
        Ok(doc) => {
            let tag = "data-source".to_owned();
            let attr = "uuid".to_owned();
            let node = XmlNode::Elem(doc.root);
            Ok(crate::merge::find_first_attr_exec(&node, &tag, &attr))
        },
    }
}

/// The identifier the data-source pair must carry: the one already present
/// in the prior document, so that re-runs keep it stable; only when none
/// can be recovered is a fresh one minted.
pub fn datasource_uuid(old_text: Option<&str>) -> (r: Result<String, MergeError>)
    ensures
        match old_text {
            None => r matches Ok(u) && u@.len() == 36,
            Some(s) => match parse_doc_spec(s@) {
                Some(d) => match find_first_attr(NodeView::Elem(d.root), "data-source"@, "uuid"@) {
                    Some(u0) => r matches Ok(u) && u@ == u0,
                    None => r matches Ok(u) && u@.len() == 36,
                },
                None => r matches Err(e) && e is MalformedDocument,
            },
        },
{
    match old_text {
        None => Ok(crate::outside::fresh_uuid()),
        Some(s) => {
            match find_datasource_uuid(s) {
                Err(e) => Err(e),
                Ok(Some(u)) => Ok(u),
                Ok(None) => Ok(crate::outside::fresh_uuid()),
            }
        },
    }
}

/// Builds the data-source document pair, both carrying the same identifier.
pub fn build_datasource_documents(facts: &DbFacts, uuid: &str) -> (r: (String, String))
    ensures
        r.0@ == ser_doc(datasources_doc_v(facts@, uuid@)),
        r.1@ == ser_doc(datasources_local_doc_v(facts@, uuid@)),
{
    let d1 = crate::payload::build_datasources_doc(facts, uuid);
    let d2 = crate::payload::build_datasources_local_doc(facts, uuid);
    (serialize(&d1), serialize(&d2))
}

} // verus!
