//! Payload builders: the subtrees and attribute patches the merge engine
//! inserts, built as pure functions of caller-supplied facts.
//!
//! Three shapes exist: a runtime-descriptor entry with a nested
//! path/version/option-list structure, an in-place attribute patch of a
//! test-runner argument list, and a pair of data-source documents sharing
//! one identifier.

use vstd::prelude::*;
use crate::tree::{Attr, AttrView, Element, ElemView, XmlNode, NodeView, XmlDocument, DocView};
use crate::identity::rfind_char;

verus! {

broadcast use vstd::std_specs::vec::group_vec_axioms, vstd::seq::group_seq_axioms;

/// `<tag attr="value"/>`.
pub open spec fn leaf_elem_v(tag: Seq<char>, attr: Seq<char>, value: Seq<char>) -> NodeView {
    NodeView::Elem(
        ElemView {
            tag,
            attrs: seq![AttrView { name: attr, value }],
            children: Seq::empty(),
        },
    )
}

/// `<tag>text</tag>`.
pub open spec fn text_elem_v(tag: Seq<char>, text: Seq<char>) -> NodeView {
    NodeView::Elem(ElemView { tag, attrs: Seq::empty(), children: seq![NodeView::Text(text)] })
}

/// Builds `<tag attr="value"/>`.
pub fn leaf_elem(tag: &str, attr: &str, value: &str) -> (r: XmlNode)
    ensures
        r@ == leaf_elem_v(tag@, attr@, value@),
{
    let mut attrs: Vec<Attr> = Vec::new();
    attrs.push(Attr { name: attr.to_owned(), value: value.to_owned() });
    let e = Element { tag: tag.to_owned(), attrs, children: Vec::new() };
    proof {
        assert(crate::tree::view_of_attrs(e.attrs) =~= seq![AttrView { name: attr@, value: value@ }]);
        assert(crate::tree::views_of_children(e.children) =~= Seq::<NodeView>::empty());
        assert(XmlNode::Elem(e)@ =~~= leaf_elem_v(tag@, attr@, value@));
    }
    XmlNode::Elem(e)
}

/// Builds `<tag>text</tag>`.
pub fn text_elem(tag: &str, text: &str) -> (r: XmlNode)
    ensures
        r@ == text_elem_v(tag@, text@),
{
    let mut children: Vec<XmlNode> = Vec::new();
    children.push(XmlNode::Text(text.to_owned()));
    let e = Element { tag: tag.to_owned(), attrs: Vec::new(), children };
    proof {
        assert(crate::tree::view_of_attrs(e.attrs) =~= Seq::<AttrView>::empty());
        assert(crate::tree::views_of_children(e.children) =~= seq![NodeView::Text(text@)]);
        assert(XmlNode::Elem(e)@ =~~= text_elem_v(tag@, text@));
    }
    XmlNode::Elem(e)
}

/// Builds an element from parts.
pub fn make_elem(tag: &str, attrs: Vec<Attr>, children: Vec<XmlNode>) -> (r: XmlNode)
    ensures
        r@ == NodeView::Elem(
            ElemView {
                tag: tag@,
                attrs: crate::tree::view_of_attrs(attrs),
                children: crate::tree::views_of_children(children),
            },
        ),
{
    XmlNode::Elem(Element { tag: tag.to_owned(), attrs, children })
}

/// The directory of a path: everything before the last `/`; a name without
/// one has the empty string, and a file directly under the root has `/`.
pub open spec fn dirname_of(path: Seq<char>) -> Seq<char> {
    match rfind_char(path, '/') {
        Some(p) => if p == 0 {
            seq!['/']
        } else {
            path.take(p)
        },
        None => Seq::empty(),
    }
}

/// Executable mirror of [`dirname_of`].
pub fn dirname(path: &str) -> (r: String)
    ensures
        r@ == dirname_of(path@),
{
    let cs = crate::chars::str_to_chars(path);
    // search for the last '/' from the back
    let mut b = cs.len();
    proof {
        assert(cs@.take(b as int) =~= cs@);
    }
    while b > 0 && cs[b - 1] != '/'
        invariant
            b <= cs@.len(),
            rfind_char(cs@, '/') == rfind_char(cs@.take(b as int), '/'),
        decreases b,
    {
        proof {
            let cur = cs@.take(b as int);
            assert(cur.last() == cs@[b - 1]);
            assert(cur.drop_last() =~= cs@.take(b - 1));
        }
        b = b - 1;
    }
    if b == 0 {
        proof {
            assert(cs@.take(0).len() == 0);
            assert(rfind_char(cs@, '/') is None);
        }
        proof {
            reveal_strlit("");
            assert(""@ =~= Seq::<char>::empty());
        }
        "".to_owned()
    } else if b == 1 {
        proof {
            let cur = cs@.take(1);
            assert(cur.last() == cs@[0]);
            assert(rfind_char(cs@, '/') == Some(0int));
        }
        proof {
            reveal_strlit("/");
            assert("/"@ =~= seq!['/']);
        }
        "/".to_owned()
    } else {
        proof {
            let cur = cs@.take(b as int);
            assert(cur.last() == cs@[b - 1]);
            assert(rfind_char(cs@, '/') == Some(b - 1));
            assert(cs@.take(b - 1) =~= cs@.subrange(0, b - 1));
        }
        crate::chars::chars_to_string(&crate::parse::copy_range(&cs, 0, b - 1))
    }
}

/// Facts the runtime-descriptor entry is built from.  The display name and
/// the identity key are derived from `working_dir` with the given date.
pub struct InterpreterFacts {
    pub ruby_version: String,
    pub interpreter_path: String,
    pub tool_path: String,
    pub working_dir: String,
    pub date: String,
}

/// View of the facts.
pub struct InterpreterFactsView {
    pub ruby_version: Seq<char>,
    pub interpreter_path: Seq<char>,
    pub tool_path: Seq<char>,
    pub working_dir: Seq<char>,
    pub date: Seq<char>,
}

impl View for InterpreterFacts {
    type V = InterpreterFactsView;

    open spec fn view(&self) -> InterpreterFactsView {
        InterpreterFactsView {
            ruby_version: self.ruby_version@,
            interpreter_path: self.interpreter_path@,
            tool_path: self.tool_path@,
            working_dir: self.working_dir@,
            date: self.date@,
        }
    }
}

/// The option list of the descriptor: tool, `exec`, `--dir`, directory, `--`.
pub open spec fn option_list_v(f: InterpreterFactsView) -> NodeView {
    NodeView::Elem(
        ElemView {
            tag: "list"@,
            attrs: Seq::empty(),
            children: seq![
                leaf_elem_v("option"@, "value"@, f.tool_path),
                leaf_elem_v("option"@, "value"@, "exec"@),
                leaf_elem_v("option"@, "value"@, "--dir"@),
                leaf_elem_v("option"@, "value"@, f.working_dir),
                leaf_elem_v("option"@, "value"@, "--"@),
            ],
        },
    )
}

/// The `roots` block: composite class and source paths.
pub open spec fn roots_block_v() -> NodeView {
    NodeView::Elem(
        ElemView {
            tag: "roots"@,
            attrs: Seq::empty(),
            children: seq![
                NodeView::Elem(
                    ElemView {
                        tag: "classPath"@,
                        attrs: Seq::empty(),
                        children: seq![leaf_elem_v("root"@, "type"@, "composite"@)],
                    },
                ),
                NodeView::Elem(
                    ElemView {
                        tag: "sourcePath"@,
                        attrs: Seq::empty(),
                        children: seq![leaf_elem_v("root"@, "type"@, "composite"@)],
                    },
                ),
            ],
        },
    )
}

/// The `additional` block: gems directory and the configurator option list.
pub open spec fn additional_block_v(f: InterpreterFactsView) -> NodeView {
    NodeView::Elem(
        ElemView {
            tag: "additional"@,
            attrs: seq![
                AttrView { name: "version"@, value: "1"@ },
                AttrView { name: "GEMS_BIN_DIR_PATH"@, value: dirname_of(f.interpreter_path) },
            ],
            children: seq![
                NodeView::Elem(
                    ElemView {
                        tag: "VERSION_MANAGER"@,
                        attrs: seq![AttrView { name: "ID"@, value: "system"@ }],
                        children: seq![
                            NodeView::Elem(
                                ElemView {
                                    tag: "custom-configurator"@,
                                    attrs: Seq::empty(),
                                    children: seq![option_list_v(f)],
                                },
                            ),
                        ],
                    },
                ),
            ],
        },
    )
}

/// The whole runtime-descriptor entry.
pub open spec fn interpreter_entry_v(f: InterpreterFactsView) -> NodeView {
    NodeView::Elem(
        ElemView {
            tag: "jdk"@,
            attrs: seq![AttrView { name: "version"@, value: "2"@ }],
            children: seq![
                leaf_elem_v(
                    "name"@,
                    "value"@,
                    crate::identity::display_name_of(f.ruby_version, f.working_dir, f.date),
                ),
                leaf_elem_v("type"@, "value"@, "RUBY_SDK"@),
                leaf_elem_v("version"@, "value"@, f.ruby_version),
                leaf_elem_v("homePath"@, "value"@, f.interpreter_path),
                roots_block_v(),
                additional_block_v(f),
            ],
        },
    )
}

/// Builds the runtime-descriptor entry from the facts.
pub fn build_interpreter_entry(f: &InterpreterFacts) -> (r: XmlNode)
    ensures
        r@ == interpreter_entry_v(f@),
{
    let display = crate::identity::generate_interpreter_name(
        f.working_dir.as_str(),
        f.ruby_version.as_str(),
        f.date.as_str(),
    );

    // roots block
    let mut cp_children: Vec<XmlNode> = Vec::new();
    cp_children.push(leaf_elem("root", "type", "composite"));
    let class_path = make_elem("classPath", Vec::new(), cp_children);
    proof {
        let inner = class_path@->Elem_0;
        assert(inner.attrs =~~= Seq::<AttrView>::empty());
        assert(inner.children =~~= seq![leaf_elem_v("root"@, "type"@, "composite"@)]);
        assert(inner =~~= ElemView { tag: "classPath"@, attrs: Seq::<AttrView>::empty(), children: seq![leaf_elem_v("root"@, "type"@, "composite"@)] });
        assert(class_path@ =~~= NodeView::Elem(
            ElemView { tag: "classPath"@, attrs: Seq::<AttrView>::empty(), children: seq![leaf_elem_v("root"@, "type"@, "composite"@)] },
        ));
    }
    let mut sp_children: Vec<XmlNode> = Vec::new();
    sp_children.push(leaf_elem("root", "type", "composite"));
    let source_path = make_elem("sourcePath", Vec::new(), sp_children);
    proof {
        let inner = source_path@->Elem_0;
        assert(inner.attrs =~~= Seq::<AttrView>::empty());
        assert(inner.children =~~= seq![leaf_elem_v("root"@, "type"@, "composite"@)]);
        assert(inner =~~= ElemView { tag: "sourcePath"@, attrs: Seq::<AttrView>::empty(), children: seq![leaf_elem_v("root"@, "type"@, "composite"@)] });
        assert(source_path@ =~~= NodeView::Elem(
            ElemView { tag: "sourcePath"@, attrs: Seq::<AttrView>::empty(), children: seq![leaf_elem_v("root"@, "type"@, "composite"@)] },
        ));
    }
    let mut roots_children: Vec<XmlNode> = Vec::new();
    roots_children.push(class_path);
    roots_children.push(source_path);
    let roots = make_elem("roots", Vec::new(), roots_children);
    proof {
        let inner = roots@->Elem_0;
        assert(inner.attrs =~~= Seq::<AttrView>::empty());
        assert(inner.children =~~= roots_block_v()->Elem_0.children);
        assert(inner =~~= roots_block_v()->Elem_0);
        assert(roots@ =~~= roots_block_v());
    }

    // option list
    let mut opts: Vec<XmlNode> = Vec::new();
    opts.push(leaf_elem("option", "value", f.tool_path.as_str()));
    opts.push(leaf_elem("option", "value", "exec"));
    opts.push(leaf_elem("option", "value", "--dir"));
    opts.push(leaf_elem("option", "value", f.working_dir.as_str()));
    opts.push(leaf_elem("option", "value", "--"));
    let list = make_elem("list", Vec::new(), opts);
    proof {
        let inner = list@->Elem_0;
        assert(inner.attrs =~~= Seq::<AttrView>::empty());
        assert(inner.children =~~= option_list_v(f@)->Elem_0.children);
        assert(inner =~~= option_list_v(f@)->Elem_0);
        assert(list@ =~~= option_list_v(f@));
    }

    // additional block
    let mut cc_children: Vec<XmlNode> = Vec::new();
    cc_children.push(list);
    let configurator = make_elem("custom-configurator", Vec::new(), cc_children);
    proof {
        let inner = configurator@->Elem_0;
        assert(inner.attrs =~~= Seq::<AttrView>::empty());
        assert(inner.children =~~= seq![option_list_v(f@)]);
        assert(inner =~~= ElemView { tag: "custom-configurator"@, attrs: Seq::<AttrView>::empty(), children: seq![option_list_v(f@)] });
        assert(configurator@ =~~= NodeView::Elem(
            ElemView { tag: "custom-configurator"@, attrs: Seq::<AttrView>::empty(), children: seq![option_list_v(f@)] },
        ));
    }
    let mut vm_attrs: Vec<Attr> = Vec::new();
    vm_attrs.push(Attr { name: "ID".to_owned(), value: "system".to_owned() });
    let mut vm_children: Vec<XmlNode> = Vec::new();
    vm_children.push(configurator);
    let version_manager = make_elem("VERSION_MANAGER", vm_attrs, vm_children);
    proof {
        let inner = version_manager@->Elem_0;
        assert(inner.attrs =~~= seq![AttrView { name: "ID"@, value: "system"@ }]);
        assert(inner.children =~~= seq![NodeView::Elem(ElemView { tag: "custom-configurator"@, attrs: Seq::<AttrView>::empty(), children: seq![option_list_v(f@)] })]);
        assert(inner =~~= ElemView { tag: "VERSION_MANAGER"@, attrs: seq![AttrView { name: "ID"@, value: "system"@ }], children: seq![NodeView::Elem(ElemView { tag: "custom-configurator"@, attrs: Seq::<AttrView>::empty(), children: seq![option_list_v(f@)] })] });
        assert(version_manager@ =~~= NodeView::Elem(
            ElemView { tag: "VERSION_MANAGER"@, attrs: seq![AttrView { name: "ID"@, value: "system"@ }], children: seq![NodeView::Elem(ElemView { tag: "custom-configurator"@, attrs: Seq::<AttrView>::empty(), children: seq![option_list_v(f@)] })] },
        ));
    }
    let gems_bin = dirname(f.interpreter_path.as_str());
    let mut add_attrs: Vec<Attr> = Vec::new();
    add_attrs.push(Attr { name: "version".to_owned(), value: "1".to_owned() });
    add_attrs.push(Attr { name: "GEMS_BIN_DIR_PATH".to_owned(), value: gems_bin });
    let mut add_children: Vec<XmlNode> = Vec::new();
    add_children.push(version_manager);
    let additional = make_elem("additional", add_attrs, add_children);
    proof {
        let inner = additional@->Elem_0;
        assert(inner.attrs =~~= additional_block_v(f@)->Elem_0.attrs);
        assert(inner.children =~~= additional_block_v(f@)->Elem_0.children);
        assert(inner =~~= additional_block_v(f@)->Elem_0);
        assert(additional@ =~~= additional_block_v(f@));
    }

    // the entry
    let mut jdk_attrs: Vec<Attr> = Vec::new();
    jdk_attrs.push(Attr { name: "version".to_owned(), value: "2".to_owned() });
    let mut jdk_children: Vec<XmlNode> = Vec::new();
    jdk_children.push(leaf_elem("name", "value", display.as_str()));
    jdk_children.push(leaf_elem("type", "value", "RUBY_SDK"));
    jdk_children.push(leaf_elem("version", "value", f.ruby_version.as_str()));
    jdk_children.push(leaf_elem("homePath", "value", f.interpreter_path.as_str()));
    jdk_children.push(roots);
    jdk_children.push(additional);
    let entry = make_elem("jdk", jdk_attrs, jdk_children);
    proof {
        let inner = entry@->Elem_0;
        assert(inner.attrs =~~= interpreter_entry_v(f@)->Elem_0.attrs);
        assert(inner.children =~~= interpreter_entry_v(f@)->Elem_0.children);
        assert(inner =~~= interpreter_entry_v(f@)->Elem_0);
        assert(entry@ =~~= interpreter_entry_v(f@));
    }
    entry
}

/// The include-path argument string for the test runner: four fixed
/// sub-paths of the host application, each prefixed with `-I`, joined by
/// spaces.
pub open spec fn ruby_args_of(app_path: Seq<char>) -> Seq<char> {
    let base = app_path + "/Contents/plugins/ruby/rb/testing/patch"@;
    "-I"@ + base + "/common"@ + " -I"@ + base + "/bdd"@ + " -I"@ + base + "/rake"@ + " -I"@ + base
        + "/testunit"@
}

/// Builds the include-path argument string.
pub fn generate_ruby_args(app_path: &str) -> (r: String)
    ensures
        r@ == ruby_args_of(app_path@),
{
    let mut base = app_path.to_owned();
    base.append("/Contents/plugins/ruby/rb/testing/patch");
    let mut r = "-I".to_owned();
    r.append(base.as_str());
    r.append("/common");
    r.append(" -I");
    r.append(base.as_str());
    r.append("/bdd");
    r.append(" -I");
    r.append(base.as_str());
    r.append("/rake");
    r.append(" -I");
    r.append(base.as_str());
    r.append("/testunit");
    proof {
        assert(r@ =~= ruby_args_of(app_path@));
    }
    r
}

/// Facts for the data-source pair.
pub struct DbFacts {
    pub host: String,
    pub port: String,
    pub user: String,
}

/// View of the data-source facts.
pub struct DbFactsView {
    pub host: Seq<char>,
    pub port: Seq<char>,
    pub user: Seq<char>,
}

impl View for DbFacts {
    type V = DbFactsView;

    open spec fn view(&self) -> DbFactsView {
        DbFactsView { host: self.host@, port: self.port@, user: self.user@ }
    }
}

/// The connection-descriptor document.
pub open spec fn datasources_doc_v(f: DbFactsView, uuid: Seq<char>) -> DocView {
    DocView {
        root: ElemView {
            tag: "project"@,
            attrs: seq![AttrView { name: "version"@, value: "4"@ }],
            children: seq![
                NodeView::Elem(
                    ElemView {
                        tag: "component"@,
                        attrs: seq![
                            AttrView { name: "name"@, value: "DataSourceManagerImpl"@ },
                            AttrView { name: "format"@, value: "xml"@ },
                            AttrView { name: "multifile-model"@, value: "true"@ },
                        ],
                        children: seq![
                            NodeView::Elem(
                                ElemView {
                                    tag: "data-source"@,
                                    attrs: seq![
                                        AttrView { name: "source"@, value: "LOCAL"@ },
                                        AttrView { name: "name"@, value: "@"@ + f.host },
                                        AttrView { name: "uuid"@, value: uuid },
                                    ],
                                    children: seq![
                                        text_elem_v("driver-ref"@, "mysql.8"@),
                                        text_elem_v("synchronize"@, "true"@),
                                        text_elem_v("jdbc-driver"@, "com.mysql.cj.jdbc.Driver"@),
                                        text_elem_v(
                                            "jdbc-url"@,
                                            "jdbc:mysql://"@ + f.host + ":"@ + f.port,
                                        ),
                                        NodeView::Elem(
                                            ElemView {
                                                tag: "jdbc-additional-properties"@,
                                                attrs: Seq::empty(),
                                                children: seq![
                                                    leaf_elem_v2(
                                                        "property"@,
                                                        "name"@,
                                                        "com.intellij.clouds.kubernetes.db.enabled"@,
                                                        "value"@,
                                                        "false"@,
                                                    ),
                                                ],
                                            },
                                        ),
                                        text_elem_v("working-dir"@, "$ProjectFileDir$"@),
                                    ],
                                },
                            ),
                        ],
                    },
                ),
            ],
        },
    }
}

/// `<tag a1="v1" a2="v2"/>`.
pub open spec fn leaf_elem_v2(
    tag: Seq<char>,
    a1: Seq<char>,
    v1: Seq<char>,
    a2: Seq<char>,
    v2: Seq<char>,
) -> NodeView {
    NodeView::Elem(
        ElemView {
            tag,
            attrs: seq![AttrView { name: a1, value: v1 }, AttrView { name: a2, value: v2 }],
            children: Seq::empty(),
        },
    )
}

/// Builds `<tag a1="v1" a2="v2"/>`.
pub fn leaf_elem2(tag: &str, a1: &str, v1: &str, a2: &str, v2: &str) -> (r: XmlNode)
    ensures
        r@ == leaf_elem_v2(tag@, a1@, v1@, a2@, v2@),
{
    let mut attrs: Vec<Attr> = Vec::new();
    attrs.push(Attr { name: a1.to_owned(), value: v1.to_owned() });
    attrs.push(Attr { name: a2.to_owned(), value: v2.to_owned() });
    let e = Element { tag: tag.to_owned(), attrs, children: Vec::new() };
    proof {
        assert(crate::tree::view_of_attrs(e.attrs) =~= seq![
            AttrView { name: a1@, value: v1@ },
            AttrView { name: a2@, value: v2@ },
        ]);
        assert(crate::tree::views_of_children(e.children) =~= Seq::<NodeView>::empty());
        assert(XmlNode::Elem(e)@ =~~= leaf_elem_v2(tag@, a1@, v1@, a2@, v2@));
    }
    XmlNode::Elem(e)
}

/// Builds the connection-descriptor document.
pub fn build_datasources_doc(f: &DbFacts, uuid: &str) -> (r: XmlDocument)
    ensures
        r@ == datasources_doc_v(f@, uuid@),
{
    let mut at_host = "@".to_owned();
    at_host.append(f.host.as_str());
    let mut jdbc_url = "jdbc:mysql://".to_owned();
    jdbc_url.append(f.host.as_str());
    jdbc_url.append(":");
    jdbc_url.append(f.port.as_str());

    let mut props: Vec<XmlNode> = Vec::new();
    props.push(
        leaf_elem2(
            "property",
            "name",
            "com.intellij.clouds.kubernetes.db.enabled",
            "value",
            "false",
        ),
    );
    let additional_props = make_elem("jdbc-additional-properties", Vec::new(), props);
    proof {
        let spec_props = NodeView::Elem(
            ElemView {
                tag: "jdbc-additional-properties"@,
                attrs: Seq::empty(),
                children: seq![
                    leaf_elem_v2(
                        "property"@,
                        "name"@,
                        "com.intellij.clouds.kubernetes.db.enabled"@,
                        "value"@,
                        "false"@,
                    ),
                ],
            },
        );
        let inner = additional_props@->Elem_0;
        assert(inner.attrs =~~= spec_props->Elem_0.attrs);
        assert(inner.children =~~= spec_props->Elem_0.children);
        assert(inner =~~= spec_props->Elem_0);
        assert(additional_props@ =~~= spec_props);
    }

    let mut ds_attrs: Vec<Attr> = Vec::new();
    ds_attrs.push(Attr { name: "source".to_owned(), value: "LOCAL".to_owned() });
    ds_attrs.push(Attr { name: "name".to_owned(), value: at_host });
    ds_attrs.push(Attr { name: "uuid".to_owned(), value: uuid.to_owned() });
    let mut ds_children: Vec<XmlNode> = Vec::new();
    ds_children.push(text_elem("driver-ref", "mysql.8"));
    ds_children.push(text_elem("synchronize", "true"));
    ds_children.push(text_elem("jdbc-driver", "com.mysql.cj.jdbc.Driver"));
    ds_children.push(text_elem("jdbc-url", jdbc_url.as_str()));
    ds_children.push(additional_props);
    ds_children.push(text_elem("working-dir", "$ProjectFileDir$"));
    let data_source = make_elem("data-source", ds_attrs, ds_children);
    proof {
        let spec_ds = datasources_doc_v(f@, uuid@).root.children[0]->Elem_0.children[0];
        let inner = data_source@->Elem_0;
        assert(inner.attrs =~~= spec_ds->Elem_0.attrs);
        assert(inner.children =~~= spec_ds->Elem_0.children);
        assert(inner =~~= spec_ds->Elem_0);
        assert(data_source@ =~~= spec_ds);
    }

    let mut comp_attrs: Vec<Attr> = Vec::new();
    comp_attrs.push(Attr { name: "name".to_owned(), value: "DataSourceManagerImpl".to_owned() });
    comp_attrs.push(Attr { name: "format".to_owned(), value: "xml".to_owned() });
    comp_attrs.push(Attr { name: "multifile-model".to_owned(), value: "true".to_owned() });
    let mut comp_children: Vec<XmlNode> = Vec::new();
    comp_children.push(data_source);
    let component = make_elem("component", comp_attrs, comp_children);
    proof {
        let spec_c = datasources_doc_v(f@, uuid@).root.children[0];
        let inner = component@->Elem_0;
        assert(inner.attrs =~~= spec_c->Elem_0.attrs);
        assert(inner.children =~~= spec_c->Elem_0.children);
        assert(inner =~~= spec_c->Elem_0);
        assert(component@ =~~= spec_c);
    }

    let mut root_attrs: Vec<Attr> = Vec::new();
    root_attrs.push(Attr { name: "version".to_owned(), value: "4".to_owned() });
    let mut root_children: Vec<XmlNode> = Vec::new();
    root_children.push(component);
    let root = Element { tag: "project".to_owned(), attrs: root_attrs, children: root_children };
    let doc = XmlDocument { root };
    proof {
        let spec_root = datasources_doc_v(f@, uuid@).root;
        assert(doc@.root.attrs =~~= spec_root.attrs);
        assert(doc@.root.children =~~= spec_root.children);
        assert(doc@.root =~~= spec_root);
        assert(doc@ =~~= datasources_doc_v(f@, uuid@));
    }
    doc
}

/// The driver block of the local document.
pub open spec fn database_info_v() -> NodeView {
    NodeView::Elem(
        ElemView {
            tag: "database-info"@,
            attrs: seq![
                AttrView { name: "product"@, value: "MySQL"@ },
                AttrView { name: "version"@, value: "8.0.11"@ },
                AttrView { name: "jdbc-version"@, value: "4.2"@ },
                AttrView { name: "driver-name"@, value: "MySQL Connector/J"@ },
                AttrView {
                    name: "driver-version"@,
                    value: "mysql-connector-java-8.0.25 (Revision: 08be9e9b4cba6aa115f9b27b215887af40b159e0)"@,
                },
                AttrView { name: "dbms"@, value: "MYSQL"@ },
                AttrView { name: "exact-version"@, value: "8.0.11"@ },
                AttrView { name: "exact-driver-version"@, value: "8.0"@ },
            ],
            children: seq![
                text_elem_v("extra-name-characters"@, "#@"@),
                text_elem_v("identifier-quote-string"@, "`"@),
            ],
        },
    )
}

/// The introspection scope: the fixed list of logical schema names.
pub open spec fn schema_mapping_v() -> NodeView {
    NodeView::Elem(
        ElemView {
            tag: "schema-mapping"@,
            attrs: Seq::empty(),
            children: seq![
                NodeView::Elem(
                    ElemView {
                        tag: "introspection-scope"@,
                        attrs: Seq::empty(),
                        children: seq![
                            leaf_elem_v2("node"@, "kind"@, "schema"@, "qname"@, "@"@),
                            leaf_elem_v2(
                                "node"@,
                                "kind"@,
                                "schema"@,
                                "qname"@,
                                "storefront_renderer_test_master"@,
                            ),
                            leaf_elem_v2(
                                "node"@,
                                "kind"@,
                                "schema"@,
                                "qname"@,
                                "storefront_renderer_test_shard"@,
                            ),
                            leaf_elem_v2(
                                "node"@,
                                "kind"@,
                                "schema"@,
                                "qname"@,
                                "storefront_renderer_dev_shard"@,
                            ),
                        ],
                    },
                ),
            ],
        },
    )
}

/// The connection-secrets / introspection-scope document.
pub open spec fn datasources_local_doc_v(f: DbFactsView, uuid: Seq<char>) -> DocView {
    DocView {
        root: ElemView {
            tag: "project"@,
            attrs: seq![AttrView { name: "version"@, value: "4"@ }],
            children: seq![
                NodeView::Elem(
                    ElemView {
                        tag: "component"@,
                        attrs: seq![
                            AttrView { name: "name"@, value: "dataSourceStorageLocal"@ },
                            AttrView { name: "created-in"@, value: "RM-233.15026.15"@ },
                        ],
                        children: seq![
                            NodeView::Elem(
                                ElemView {
                                    tag: "data-source"@,
                                    attrs: seq![
                                        AttrView { name: "name"@, value: "@"@ + f.host },
                                        AttrView { name: "uuid"@, value: uuid },
                                    ],
                                    children: seq![
                                        database_info_v(),
                                        leaf_elem_v2(
                                            "case-sensitivity"@,
                                            "plain-identifiers"@,
                                            "lower"@,
                                            "quoted-identifiers"@,
                                            "lower"@,
                                        ),
                                        text_elem_v("secret-storage"@, "master_key"@),
                                        text_elem_v("user-name"@, f.user),
                                        schema_mapping_v(),
                                    ],
                                },
                            ),
                        ],
                    },
                ),
            ],
        },
    }
}

/// Builds the connection-secrets / introspection-scope document.
pub fn build_datasources_local_doc(f: &DbFacts, uuid: &str) -> (r: XmlDocument)
    ensures
        r@ == datasources_local_doc_v(f@, uuid@),
{
    let mut at_host = "@".to_owned();
    at_host.append(f.host.as_str());

    // database-info
    let mut di_attrs: Vec<Attr> = Vec::new();
    di_attrs.push(Attr { name: "product".to_owned(), value: "MySQL".to_owned() });
    di_attrs.push(Attr { name: "version".to_owned(), value: "8.0.11".to_owned() });
    di_attrs.push(Attr { name: "jdbc-version".to_owned(), value: "4.2".to_owned() });
    di_attrs.push(Attr { name: "driver-name".to_owned(), value: "MySQL Connector/J".to_owned() });
    di_attrs.push(
        Attr {
            name: "driver-version".to_owned(),
            value: "mysql-connector-java-8.0.25 (Revision: 08be9e9b4cba6aa115f9b27b215887af40b159e0)".to_owned(),
        },
    );
    di_attrs.push(Attr { name: "dbms".to_owned(), value: "MYSQL".to_owned() });
    di_attrs.push(Attr { name: "exact-version".to_owned(), value: "8.0.11".to_owned() });
    di_attrs.push(Attr { name: "exact-driver-version".to_owned(), value: "8.0".to_owned() });
    let mut di_children: Vec<XmlNode> = Vec::new();
    di_children.push(text_elem("extra-name-characters", "#@"));
    di_children.push(text_elem("identifier-quote-string", "`"));
    let database_info = make_elem("database-info", di_attrs, di_children);
    proof {
        let spec_di = database_info_v();
        let inner = database_info@->Elem_0;
        assert(inner.attrs =~~= spec_di->Elem_0.attrs);
        assert(inner.children =~~= spec_di->Elem_0.children);
        assert(inner =~~= spec_di->Elem_0);
        assert(database_info@ =~~= spec_di);
    }

    // schema mapping
    let mut scope_children: Vec<XmlNode> = Vec::new();
    scope_children.push(leaf_elem2("node", "kind", "schema", "qname", "@"));
    scope_children.push(
        leaf_elem2("node", "kind", "schema", "qname", "storefront_renderer_test_master"),
    );
    scope_children.push(
        leaf_elem2("node", "kind", "schema", "qname", "storefront_renderer_test_shard"),
    );
    scope_children.push(
        leaf_elem2("node", "kind", "schema", "qname", "storefront_renderer_dev_shard"),
    );
    let scope = make_elem("introspection-scope", Vec::new(), scope_children);
    proof {
        let spec_scope = schema_mapping_v()->Elem_0.children[0];
        let inner = scope@->Elem_0;
        assert(inner.attrs =~~= spec_scope->Elem_0.attrs);
        assert(inner.children =~~= spec_scope->Elem_0.children);
        assert(inner =~~= spec_scope->Elem_0);
        assert(scope@ =~~= spec_scope);
    }
    let mut sm_children: Vec<XmlNode> = Vec::new();
    sm_children.push(scope);
    let schema_mapping = make_elem("schema-mapping", Vec::new(), sm_children);
    proof {
        let spec_sm = schema_mapping_v();
        let inner = schema_mapping@->Elem_0;
        assert(inner.attrs =~~= spec_sm->Elem_0.attrs);
        assert(inner.children =~~= spec_sm->Elem_0.children);
        assert(inner =~~= spec_sm->Elem_0);
        assert(schema_mapping@ =~~= spec_sm);
    }

    // data-source
    let mut ds_attrs: Vec<Attr> = Vec::new();
    ds_attrs.push(Attr { name: "name".to_owned(), value: at_host });
    ds_attrs.push(Attr { name: "uuid".to_owned(), value: uuid.to_owned() });
    let mut ds_children: Vec<XmlNode> = Vec::new();
    ds_children.push(database_info);
    ds_children.push(
        leaf_elem2("case-sensitivity", "plain-identifiers", "lower", "quoted-identifiers", "lower"),
    );
    ds_children.push(text_elem("secret-storage", "master_key"));
    ds_children.push(text_elem("user-name", f.user.as_str()));
    ds_children.push(schema_mapping);
    let data_source = make_elem("data-source", ds_attrs, ds_children);
    proof {
        let spec_ds = datasources_local_doc_v(f@, uuid@).root.children[0]->Elem_0.children[0];
        let inner = data_source@->Elem_0;
        assert(inner.attrs =~~= spec_ds->Elem_0.attrs);
        assert(inner.children =~~= spec_ds->Elem_0.children);
        assert(inner =~~= spec_ds->Elem_0);
        assert(data_source@ =~~= spec_ds);
    }

    // component and root
    let mut comp_attrs: Vec<Attr> = Vec::new();
    comp_attrs.push(Attr { name: "name".to_owned(), value: "dataSourceStorageLocal".to_owned() });
    comp_attrs.push(Attr { name: "created-in".to_owned(), value: "RM-233.15026.15".to_owned() });
    let mut comp_children: Vec<XmlNode> = Vec::new();
    comp_children.push(data_source);
    let component = make_elem("component", comp_attrs, comp_children);
    proof {
        let spec_c = datasources_local_doc_v(f@, uuid@).root.children[0];
        let inner = component@->Elem_0;
        assert(inner.attrs =~~= spec_c->Elem_0.attrs);
        assert(inner.children =~~= spec_c->Elem_0.children);
        assert(inner =~~= spec_c->Elem_0);
        assert(component@ =~~= spec_c);
    }

    let mut root_attrs: Vec<Attr> = Vec::new();
    root_attrs.push(Attr { name: "version".to_owned(), value: "4".to_owned() });
    let mut root_children: Vec<XmlNode> = Vec::new();
    root_children.push(component);
    let root = Element { tag: "project".to_owned(), attrs: root_attrs, children: root_children };
    let doc = XmlDocument { root };
    proof {
        let spec_root = datasources_local_doc_v(f@, uuid@).root;
        assert(doc@.root.attrs =~~= spec_root.attrs);
        assert(doc@.root.children =~~= spec_root.children);
        assert(doc@.root =~~= spec_root);
        assert(doc@ =~~= datasources_local_doc_v(f@, uuid@));
    }
    doc
}

} // verus!
