//! The in-place attribute patch: find the first settings element that
//! carries `NAME="RUBY_ARGS"` and overwrite its `VALUE` attribute, keeping
//! every other attribute, the children and everything else in the document
//! untouched.  When no such element exists nothing changes and the caller
//! is told so.

use vstd::prelude::*;
use crate::tree::{Attr, AttrView, Element, ElemView, XmlNode, NodeView, XmlDocument, DocView};
use crate::merge::{attr_value_of, clone_attrs, clone_node};

verus! {

broadcast use vstd::std_specs::vec::group_vec_axioms, vstd::seq::group_seq_axioms;

/// The attribute list with the first `name` attribute's value replaced by
/// `v`; when no such attribute exists one is appended.
pub open spec fn set_attr_value(attrs: Seq<AttrView>, name: Seq<char>, v: Seq<char>) -> Seq<
    AttrView,
>
    decreases attrs.len(),
{
    if attrs.len() == 0 {
        seq![AttrView { name, value: v }]
    } else if attrs[0].name == name {
        seq![AttrView { name, value: v }] + attrs.skip(1)
    } else {
        seq![attrs[0]] + set_attr_value(attrs.skip(1), name, v)
    }
}

/// Is this element the patch target: the settings element that names the
/// test-runner argument list?
pub open spec fn is_patch_target(e: ElemView) -> bool {
    e.tag == "RTEST_RUN_CONFIG_SETTINGS_ID"@ && attr_value_of(e.attrs, "NAME"@) == Some(
        "RUBY_ARGS"@,
    )
}

/// Patch in one node.
pub open spec fn patch_node_s(n: NodeView, v: Seq<char>) -> (NodeView, bool)
    decreases n, 1nat, 0nat,
{
    match n {
        NodeView::Elem(e) => {
            let (e2, b) = patch_elem_s(e, v);
            (NodeView::Elem(e2), b)
        },
        _ => (n, false),
    }
}

/// Patch in one element: the first matching descendant (the element itself
/// first) gets its `VALUE` attribute overwritten.
pub open spec fn patch_elem_s(e: ElemView, v: Seq<char>) -> (ElemView, bool)
    decreases e, 0nat, 0nat,
{
    if is_patch_target(e) {
        (
            ElemView {
                tag: e.tag,
                attrs: set_attr_value(e.attrs, "VALUE"@, v),
                children: e.children,
            },
            true,
        )
    } else {
        let (cs2, b) = patch_children_s(e.children, v, 0);
        (ElemView { tag: e.tag, attrs: e.attrs, children: cs2 }, b)
    }
}

/// Patch over a child list from index `i` on; after the first success the
/// remaining children are kept untouched.
pub open spec fn patch_children_s(children: Seq<NodeView>, v: Seq<char>, i: int) -> (
    Seq<NodeView>,
    bool,
)
    decreases children, 2nat, children.len() - i,
{
    if i < 0 || i >= children.len() {
        (Seq::empty(), false)
    } else {
        let (n2, b) = patch_node_s(children[i], v);
        if b {
            (seq![n2] + children.skip(i + 1), true)
        } else {
            let (rest, b2) = patch_children_s(children, v, i + 1);
            (seq![n2] + rest, b2)
        }
    }
}

/// Patch in a whole document.
pub open spec fn patch_doc_s(doc: DocView, v: Seq<char>) -> (DocView, bool) {
    let (root2, b) = patch_elem_s(doc.root, v);
    (DocView { root: root2 }, b)
}

/// Overwrites the first `name` attribute with `v`, appending when absent.
pub fn set_attr_value_exec(attrs: &Vec<Attr>, name: &str, v: &str) -> (r: Vec<Attr>)
    ensures
        crate::tree::view_of_attrs(r) == set_attr_value(
            crate::tree::view_of_attrs(*attrs),
            name@,
            v@,
        ),
{
    let ghost av = crate::tree::view_of_attrs(*attrs);
    let name_s: String = name.to_owned();
    let mut out: Vec<Attr> = Vec::new();
    let mut i: usize = 0;
    let mut replaced = false;
    proof {
        assert(av.skip(0) =~= av);
    }
    while i < attrs.len()
        invariant
            i <= attrs@.len(),
            av == crate::tree::view_of_attrs(*attrs),
            name_s@ == name@,
            set_attr_value(av, name@, v@) == if replaced {
                crate::tree::view_of_attrs(out) + av.skip(i as int)
            } else {
                crate::tree::view_of_attrs(out) + set_attr_value(av.skip(i as int), name@, v@)
            },
        decreases attrs@.len() - i,
    {
        proof {
            assert(av.skip(i as int)[0] == av[i as int]);
            assert(av[i as int] == attrs@[i as int]@);
            assert(av.skip(i as int).skip(1) =~= av.skip(i + 1));
            assert(av.skip(i as int) =~= seq![av[i as int]] + av.skip(i + 1));
        }
        let ghost prev = crate::tree::view_of_attrs(out);
        if !replaced && attrs[i].name == name_s {
            out.push(Attr { name: name.to_owned(), value: v.to_owned() });
            replaced = true;
            proof {
                assert(crate::tree::view_of_attrs(out) =~= prev.push(
                    AttrView { name: name@, value: v@ },
                ));
                assert(crate::tree::view_of_attrs(out) + av.skip(i + 1) =~= prev + (seq![
                    AttrView { name: name@, value: v@ },
                ] + av.skip(i + 1)));
            }
        } else {
            out.push(Attr { name: attrs[i].name.clone(), value: attrs[i].value.clone() });
            proof {
                assert(crate::tree::view_of_attrs(out) =~= prev.push(av[i as int]));
                if replaced {
                    assert(crate::tree::view_of_attrs(out) + av.skip(i + 1) =~= prev + (seq![
                        av[i as int],
                    ] + av.skip(i + 1)));
                } else {
                    assert(crate::tree::view_of_attrs(out) + set_attr_value(
                        av.skip(i + 1),
                        name@,
                        v@,
                    ) =~= prev + (seq![av[i as int]] + set_attr_value(av.skip(i + 1), name@, v@)));
                }
            }
        }
        i = i + 1;
    }
    if !replaced {
        let ghost prev = crate::tree::view_of_attrs(out);
        proof {
            assert(av.skip(attrs@.len() as int).len() == 0);
            assert(set_attr_value(av.skip(attrs@.len() as int), name@, v@) =~= seq![
                AttrView { name: name@, value: v@ },
            ]);
        }
        out.push(Attr { name: name.to_owned(), value: v.to_owned() });
        proof {
            assert(crate::tree::view_of_attrs(out) =~= prev.push(
                AttrView { name: name@, value: v@ },
            ));
            assert(prev + seq![AttrView { name: name@, value: v@ }] =~= prev.push(
                AttrView { name: name@, value: v@ },
            ));
        }
    } else {
        proof {
            assert(av.skip(attrs@.len() as int).len() == 0);
            assert(crate::tree::view_of_attrs(out) + av.skip(attrs@.len() as int)
                =~= crate::tree::view_of_attrs(out));
        }
    }
    out
}

/// Is this element the patch target?
pub fn is_patch_target_exec(e: &Element) -> (r: bool)
    ensures
        r == is_patch_target(e@),
{
    let target_tag: String = "RTEST_RUN_CONFIG_SETTINGS_ID".to_owned();
    if e.tag == target_tag {
        let name_attr = "NAME".to_owned();
        match crate::merge::attr_value_exec(&e.attrs, &name_attr) {
            Some(v) => {
                let want: String = "RUBY_ARGS".to_owned();
                v == want
            },
            None => false,
        }
    } else {
        false
    }
}

/// Patch in one element.
#[verifier::loop_isolation(false)]
pub fn patch_elem_exec(e: &Element, v: &str) -> (r: (Element, bool))
    ensures
        (r.0@, r.1) == patch_elem_s(e@, v@),
    decreases *e, 0nat, 0nat,
{
    if is_patch_target_exec(e) {
        let attrs = set_attr_value_exec(&e.attrs, "VALUE", v);
        let r0 = Element {
            tag: e.tag.clone(),
            attrs,
            children: crate::merge::clone_children(&e.children),
        };
        proof {
            assert(r0@ =~= patch_elem_s(e@, v@).0);
        }
        (r0, true)
    } else {
        let ghost cv = crate::tree::views_of_children(e.children);
        let mut out: Vec<XmlNode> = Vec::new();
        let mut done = false;
        let mut i: usize = 0;
        while i < e.children.len()
            invariant
                i <= e.children@.len(),
                cv == crate::tree::views_of_children(e.children),
                patch_children_s(cv, v@, 0) == if done {
                    (crate::tree::views_of_children(out) + cv.skip(i as int), true)
                } else {
                    (
                        crate::tree::views_of_children(out) + patch_children_s(
                            cv,
                            v@,
                            i as int,
                        ).0,
                        patch_children_s(cv, v@, i as int).1,
                    )
                },
            decreases e.children@.len() - i,
        {
            proof {
                assert(cv[i as int] == crate::tree::view_of_node(e.children@[i as int]));
                assert(cv.skip(i as int) =~= seq![cv[i as int]] + cv.skip(i + 1));
            }
            if done {
                let c = clone_node(&e.children[i]);
                out.push(c);
                proof {
                    assert(crate::tree::views_of_children(out) + cv.skip(i + 1)
                        =~= patch_children_s(cv, v@, 0).0);
                }
            } else {
                let ghost prev = crate::tree::views_of_children(out);
                let (c2, b) = patch_node_exec(&e.children[i], v);
                out.push(c2);
                done = b;
                proof {
                    assert(crate::tree::views_of_children(out) =~= prev.push(c2@));
                    assert(patch_children_s(cv, v@, i as int) == if b {
                        (seq![c2@] + cv.skip(i + 1), true)
                    } else {
                        (
                            seq![c2@] + patch_children_s(cv, v@, i + 1).0,
                            patch_children_s(cv, v@, i + 1).1,
                        )
                    });
                    if b {
                        assert(crate::tree::views_of_children(out) + cv.skip(i + 1) =~= prev + (
                        seq![c2@] + cv.skip(i + 1)));
                    } else {
                        assert(crate::tree::views_of_children(out) + patch_children_s(
                            cv,
                            v@,
                            i + 1,
                        ).0 =~= prev + (seq![c2@] + patch_children_s(cv, v@, i + 1).0));
                    }
                }
            }
            i = i + 1;
        }
        proof {
            if done {
                assert(cv.skip(cv.len() as int) =~= Seq::<NodeView>::empty());
                assert(crate::tree::views_of_children(out) + Seq::<NodeView>::empty()
                    =~= crate::tree::views_of_children(out));
            } else {
                assert(patch_children_s(cv, v@, cv.len() as int).0 =~= Seq::<NodeView>::empty());
                assert(crate::tree::views_of_children(out) + Seq::<NodeView>::empty()
                    =~= crate::tree::views_of_children(out));
            }
        }
        let r0 = Element { tag: e.tag.clone(), attrs: clone_attrs(&e.attrs), children: out };
        proof {
            assert(r0@ =~= patch_elem_s(e@, v@).0);
        }
        (r0, done)
    }
}

/// Patch in one node.
pub fn patch_node_exec(n: &XmlNode, v: &str) -> (r: (XmlNode, bool))
    ensures
        (r.0@, r.1) == patch_node_s(n@, v@),
    decreases *n, 1nat, 0nat,
{
    match n {
        XmlNode::Elem(e) => {
            let (e2, b) = patch_elem_exec(e, v);
            (XmlNode::Elem(e2), b)
        },
        _ => (clone_node(n), false),
    }
}

/// Patch in a whole document; the flag says whether anything was updated.
pub fn patch_doc_exec(doc: &XmlDocument, v: &str) -> (r: (XmlDocument, bool))
    ensures
        (r.0@, r.1) == patch_doc_s(doc@, v@),
{
    let (root2, b) = patch_elem_exec(&doc.root, v);
    (XmlDocument { root: root2 }, b)
}

/// Is there any element with this tag whose attribute `attr` has value
/// `val`, anywhere in the subtree?
pub open spec fn exists_elem_attr(
    n: NodeView,
    tag: Seq<char>,
    attr: Seq<char>,
    val: Seq<char>,
) -> bool
    decreases n, 0nat, 0nat,
{
    match n {
        NodeView::Elem(e) => (e.tag == tag && attr_value_of(e.attrs, attr) == Some(val))
            || exists_elem_attr_in(e.children, tag, attr, val, 0),
        _ => false,
    }
}

/// [`exists_elem_attr`] over a child list from index `i` on.
pub open spec fn exists_elem_attr_in(
    cs: Seq<NodeView>,
    tag: Seq<char>,
    attr: Seq<char>,
    val: Seq<char>,
    i: int,
) -> bool
    decreases cs, 1nat, cs.len() - i,
{
    if i < 0 || i >= cs.len() {
        false
    } else {
        exists_elem_attr(cs[i], tag, attr, val) || exists_elem_attr_in(cs, tag, attr, val, i + 1)
    }
}

/// Executable mirror of [`exists_elem_attr`].
#[verifier::loop_isolation(false)]
pub fn exists_elem_attr_exec(n: &XmlNode, tag: &String, attr: &String, val: &String) -> (r: bool)
    ensures
        r == exists_elem_attr(n@, tag@, attr@, val@),
    decreases *n, 1nat, 0nat,
{
    match n {
        XmlNode::Elem(e) => {
            if e.tag == *tag {
                match crate::merge::attr_value_exec(&e.attrs, attr) {
                    Some(v) => {
                        if v == *val {
                            return true;
                        }
                    },
                    None => {},
                }
            }
            let ghost cv = crate::tree::views_of_children(e.children);
            let mut i: usize = 0;
            while i < e.children.len()
                invariant
                    i <= e.children@.len(),
                    cv == crate::tree::views_of_children(e.children),
                    !exists_elem_attr(n@, tag@, attr@, val@) || exists_elem_attr_in(
                        cv,
                        tag@,
                        attr@,
                        val@,
                        i as int,
                    ),
                    exists_elem_attr_in(cv, tag@, attr@, val@, i as int) ==> exists_elem_attr(
                        n@,
                        tag@,
                        attr@,
                        val@,
                    ),
                decreases e.children@.len() - i,
            {
                proof {
                    assert(cv[i as int] == crate::tree::view_of_node(e.children@[i as int]));
                }
                if exists_elem_attr_exec(&e.children[i], tag, attr, val) {
                    return true;
                }
                i = i + 1;
            }
            false
        },
        _ => false,
    }
}

} // verus!
