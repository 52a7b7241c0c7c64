//! The merge engine: locate a container element, drop the entries that
//! collide with an identity key, append the fresh entry, and leave every
//! other node exactly where and as it was.
//!
//! The engine is a pure transform on the document tree.  Locating walks the
//! tree depth first and the first container wins; removal strikes exactly
//! the direct children of the container that bear the entry tag and whose
//! embedded display name matches the identity key.

use vstd::prelude::*;
use crate::tree::{Attr, AttrView, Element, ElemView, XmlNode, NodeView, XmlDocument, DocView};
use crate::identity::name_matches_key;

verus! {

broadcast use vstd::std_specs::vec::group_vec_axioms, vstd::seq::group_seq_axioms;

/// Where the upserted entries live: an element with this tag carrying this
/// attribute value.
pub struct ContainerSpec {
    pub tag: String,
    pub attr_name: String,
    pub attr_value: String,
}

/// View of a container description.
pub struct ContainerSpecView {
    pub tag: Seq<char>,
    pub attr_name: Seq<char>,
    pub attr_value: Seq<char>,
}

impl View for ContainerSpec {
    type V = ContainerSpecView;

    open spec fn view(&self) -> ContainerSpecView {
        ContainerSpecView {
            tag: self.tag@,
            attr_name: self.attr_name@,
            attr_value: self.attr_value@,
        }
    }
}

/// What makes an existing entry "the same logical entry": its tag, plus the
/// scope key `(worktree, leaf)` embedded in its display name.
pub struct IdentityKey {
    pub entry_tag: String,
    pub worktree: String,
    pub leaf: String,
}

/// View of an identity key.
pub struct IdentityKeyView {
    pub entry_tag: Seq<char>,
    pub worktree: Seq<char>,
    pub leaf: Seq<char>,
}

impl View for IdentityKey {
    type V = IdentityKeyView;

    open spec fn view(&self) -> IdentityKeyView {
        IdentityKeyView {
            entry_tag: self.entry_tag@,
            worktree: self.worktree@,
            leaf: self.leaf@,
        }
    }
}

/// Value of the first attribute with this name.
pub open spec fn attr_value_of(attrs: Seq<AttrView>, name: Seq<char>) -> Option<Seq<char>>
    decreases attrs.len(),
{
    if attrs.len() == 0 {
        None
    } else if attrs[0].name == name {
        Some(attrs[0].value)
    } else {
        attr_value_of(attrs.skip(1), name)
    }
}

/// Is this element the container?
pub open spec fn elem_is_container(e: ElemView, cs: ContainerSpecView) -> bool {
    e.tag == cs.tag && attr_value_of(e.attrs, cs.attr_name) == Some(cs.attr_value)
}

/// First element in this subtree (depth first, the node itself included)
/// with tag `tag` and an attribute `attr`: that attribute's value.
pub open spec fn find_first_attr(n: NodeView, tag: Seq<char>, attr: Seq<char>) -> Option<
    Seq<char>,
>
    decreases n, 0nat, 0nat,
{
    match n {
        NodeView::Elem(e) => {
            if e.tag == tag && attr_value_of(e.attrs, attr) is Some {
                attr_value_of(e.attrs, attr)
            } else {
                find_first_attr_in(e.children, tag, attr, 0)
            }
        },
        _ => None,
    }
}

/// [`find_first_attr`] over a child list, from index `i` on.
pub open spec fn find_first_attr_in(cs: Seq<NodeView>, tag: Seq<char>, attr: Seq<char>, i: int) -> Option<
    Seq<char>,
>
    decreases cs, 1nat, cs.len() - i,
{
    if i < 0 || i >= cs.len() {
        None
    } else {
        match find_first_attr(cs[i], tag, attr) {
            Some(v) => Some(v),
            None => find_first_attr_in(cs, tag, attr, i + 1),
        }
    }
}

/// The identity-bearing display name of an entry: the value of the first
/// `name` element carrying a `value` attribute, anywhere in the subtree.
pub open spec fn entry_display_name(n: NodeView) -> Option<Seq<char>> {
    find_first_attr(n, "name"@, "value"@)
}

/// Does this node collide with the identity key?  It must bear the entry
/// tag and embed a display name whose scope matches; an entry without a
/// recognizable display name never collides, so unknown data survives.
pub open spec fn entry_matches(n: NodeView, key: IdentityKeyView) -> bool {
    &&& n matches NodeView::Elem(e)
    &&& e.tag == key.entry_tag
    &&& match entry_display_name(n) {
        Some(v) => name_matches_key(v, key.worktree, key.leaf),
        None => false,
    }
}

/// The merged child list of the container: every non-colliding child in
/// its original place, then the fresh entry, last.
pub open spec fn merge_children(cs: Seq<NodeView>, key: IdentityKeyView, entry: NodeView) -> Seq<
    NodeView,
> {
    cs.filter(|c: NodeView| !entry_matches(c, key)) + seq![entry]
}

/// Upsert in one node: an element is transformed, anything else is kept.
pub open spec fn upsert_node_s(
    n: NodeView,
    cs: ContainerSpecView,
    key: IdentityKeyView,
    entry: NodeView,
) -> (NodeView, bool)
    decreases n, 1nat, 0nat,
{
    match n {
        NodeView::Elem(e) => {
            let (e2, b) = upsert_elem_s(e, cs, key, entry);
            (NodeView::Elem(e2), b)
        },
        _ => (n, false),
    }
}

/// Upsert in one element: the container itself gets the merged child list;
/// otherwise the first child subtree holding a container is transformed and
/// everything else is kept.
pub open spec fn upsert_elem_s(
    e: ElemView,
    cs: ContainerSpecView,
    key: IdentityKeyView,
    entry: NodeView,
) -> (ElemView, bool)
    decreases e, 0nat, 0nat,
{
    if elem_is_container(e, cs) {
        (ElemView { tag: e.tag, attrs: e.attrs, children: merge_children(e.children, key, entry) }, true)
    } else {
        let (cs2, b) = upsert_children_s(e.children, cs, key, entry, 0);
        (ElemView { tag: e.tag, attrs: e.attrs, children: cs2 }, b)
    }
}

/// Upsert over a child list from index `i` on; after the first success the
/// remaining children are kept untouched.
pub open spec fn upsert_children_s(
    children: Seq<NodeView>,
    cs: ContainerSpecView,
    key: IdentityKeyView,
    entry: NodeView,
    i: int,
) -> (Seq<NodeView>, bool)
    decreases children, 2nat, children.len() - i,
{
    if i < 0 || i >= children.len() {
        (Seq::empty(), false)
    } else {
        let (n2, b) = upsert_node_s(children[i], cs, key, entry);
        if b {
            (seq![n2] + children.skip(i + 1), true)
        } else {
            let (rest, b2) = upsert_children_s(children, cs, key, entry, i + 1);
            (seq![n2] + rest, b2)
        }
    }
}

/// A freshly synthesized container holding only the entry.
pub open spec fn synth_container(cs: ContainerSpecView, entry: NodeView) -> NodeView {
    NodeView::Elem(
        ElemView {
            tag: cs.tag,
            attrs: seq![AttrView { name: cs.attr_name, value: cs.attr_value }],
            children: seq![entry],
        },
    )
}

/// Upsert in a whole document: transform the first container found depth
/// first; when none exists, a synthesized container becomes the root's last
/// child.
pub open spec fn upsert_doc_s(
    doc: DocView,
    cs: ContainerSpecView,
    key: IdentityKeyView,
    entry: NodeView,
) -> DocView {
    let (root2, applied) = upsert_elem_s(doc.root, cs, key, entry);
    if applied {
        DocView { root: root2 }
    } else {
        DocView {
            root: ElemView {
                tag: doc.root.tag,
                attrs: doc.root.attrs,
                children: doc.root.children + seq![synth_container(cs, entry)],
            },
        }
    }
}

/// The minimal skeleton written when no prior document exists: a bare root
/// wrapping one synthesized container with one entry.
pub open spec fn skeleton_doc(root_tag: Seq<char>, cs: ContainerSpecView, entry: NodeView) -> DocView {
    DocView {
        root: ElemView {
            tag: root_tag,
            attrs: Seq::empty(),
            children: seq![synth_container(cs, entry)],
        },
    }
}

/// Deep copy of an attribute list.
pub fn clone_attrs(attrs: &Vec<Attr>) -> (r: Vec<Attr>)
    ensures
        crate::tree::view_of_attrs(r) == crate::tree::view_of_attrs(*attrs),
{
    let mut r: Vec<Attr> = Vec::new();
    let mut i: usize = 0;
    while i < attrs.len()
        invariant
            i <= attrs@.len(),
            crate::tree::view_of_attrs(r) == crate::tree::view_of_attrs(*attrs).take(i as int),
        decreases attrs@.len() - i,
    {
        let ghost prev = crate::tree::view_of_attrs(r);
        r.push(Attr { name: attrs[i].name.clone(), value: attrs[i].value.clone() });
        proof {
            let va = crate::tree::view_of_attrs(*attrs);
            assert(r@.last()@ == va[i as int]);
            assert(crate::tree::view_of_attrs(r) =~= prev.push(va[i as int]));
            assert(va.take(i + 1) =~= va.take(i as int).push(va[i as int]));
        }
        i = i + 1;
    }
    proof {
        assert(crate::tree::view_of_attrs(*attrs).take(attrs@.len() as int)
            =~= crate::tree::view_of_attrs(*attrs));
    }
    r
}

/// Deep copy of a child list.
pub fn clone_children(cs: &Vec<XmlNode>) -> (r: Vec<XmlNode>)
    ensures
        crate::tree::views_of_children(r) == crate::tree::views_of_children(*cs),
    decreases *cs, 2nat,
{
    let mut children: Vec<XmlNode> = Vec::new();
    let mut i: usize = 0;
    while i < cs.len()
        invariant
            i <= cs@.len(),
            crate::tree::views_of_children(children) == crate::tree::views_of_children(*cs).take(
                i as int,
            ),
        decreases cs@.len() - i,
    {
        let ghost prev = crate::tree::views_of_children(children);
        let c = clone_node(&cs[i]);
        children.push(c);
        proof {
            let cv = crate::tree::views_of_children(*cs);
            assert(children@.last()@ == cv[i as int]);
            assert(crate::tree::views_of_children(children) =~= prev.push(cv[i as int]));
            assert(cv.take(i + 1) =~= cv.take(i as int).push(cv[i as int]));
        }
        i = i + 1;
    }
    proof {
        assert(crate::tree::views_of_children(*cs).take(cs@.len() as int)
            =~= crate::tree::views_of_children(*cs));
    }
    children
}

/// Deep copy of an element.
pub fn clone_elem(e: &Element) -> (r: Element)
    ensures
        r@ == e@,
    decreases *e, 0nat,
{
    let tag = e.tag.clone();
    let attrs = clone_attrs(&e.attrs);
    let children = clone_children(&e.children);
    let r = Element { tag, attrs, children };
    proof {
        assert(r@ =~= e@) by {
            assert(r@.tag == e@.tag);
            assert(r@.attrs == e@.attrs);
            assert(r@.children == e@.children);
        }
    }
    r
}

/// Deep copy of a node.
pub fn clone_node(n: &XmlNode) -> (r: XmlNode)
    ensures
        r@ == n@,
    decreases *n, 1nat,
{
    match n {
        XmlNode::Elem(e) => XmlNode::Elem(clone_elem(e)),
        XmlNode::Text(t) => XmlNode::Text(t.clone()),
        XmlNode::Comment(t) => XmlNode::Comment(t.clone()),
        XmlNode::Pi(t) => XmlNode::Pi(t.clone()),
    }
}

/// Value of the first attribute with this name, copied out.
pub fn attr_value_exec(attrs: &Vec<Attr>, name: &String) -> (r: Option<String>)
    ensures
        match r {
            Some(v) => attr_value_of(crate::tree::view_of_attrs(*attrs), name@) == Some(v@),
            None => attr_value_of(crate::tree::view_of_attrs(*attrs), name@) is None,
        },
{
    let ghost av = crate::tree::view_of_attrs(*attrs);
    proof {
        assert(av.skip(0) =~= av);
    }
    let mut i: usize = 0;
    while i < attrs.len()
        invariant
            i <= attrs@.len(),
            av == crate::tree::view_of_attrs(*attrs),
            attr_value_of(av, name@) == attr_value_of(av.skip(i as int), name@),
        decreases attrs@.len() - i,
    {
        proof {
            assert(av.skip(i as int)[0] == av[i as int]);
            assert(av[i as int] == attrs@[i as int]@);
            assert(av.skip(i as int).skip(1) =~= av.skip(i + 1));
        }
        if attrs[i].name == *name {
            return Some(attrs[i].value.clone());
        }
        i = i + 1;
    }
    proof {
        assert(av.skip(attrs@.len() as int).len() == 0);
    }
    None
}

/// Is this element the container?
pub fn is_container_exec(e: &Element, cs: &ContainerSpec) -> (r: bool)
    ensures
        r == elem_is_container(e@, cs@),
{
    if e.tag == cs.tag {
        match attr_value_exec(&e.attrs, &cs.attr_name) {
            Some(v) => v == cs.attr_value,
            None => false,
        }
    } else {
        false
    }
}

/// First element in the subtree with tag `tag` and an attribute `attr`.
#[verifier::loop_isolation(false)]
pub fn find_first_attr_exec(n: &XmlNode, tag: &String, attr: &String) -> (r: Option<String>)
    ensures
        match r {
            Some(v) => find_first_attr(n@, tag@, attr@) == Some(v@),
            None => find_first_attr(n@, tag@, attr@) is None,
        },
    decreases *n, 1nat, 0nat,
{
    match n {
        XmlNode::Elem(e) => {
            if e.tag == *tag {
                match attr_value_exec(&e.attrs, attr) {
                    Some(v) => {
                        return Some(v);
                    },
                    None => {},
                }
            }
            let ghost cv = crate::tree::views_of_children(e.children);
            let mut i: usize = 0;
            while i < e.children.len()
                invariant
                    i <= e.children@.len(),
                    cv == crate::tree::views_of_children(e.children),
                    find_first_attr_in(cv, tag@, attr@, 0) == find_first_attr_in(
                        cv,
                        tag@,
                        attr@,
                        i as int,
                    ),
                decreases e.children@.len() - i,
            {
                proof {
                    assert(cv[i as int] == crate::tree::view_of_node(e.children@[i as int]));
                    assert(n@ == NodeView::Elem(crate::tree::view_of_elem(*e)));
                }
                match find_first_attr_exec(&e.children[i], tag, attr) {
                    Some(v) => {
                        proof {
                            assert(find_first_attr_in(cv, tag@, attr@, i as int) == Some(v@));
                        }
                        return Some(v);
                    },
                    None => {},
                }
                i = i + 1;
            }
            None
        },
        _ => None,
    }
}

/// Does this node collide with the identity key?
pub fn entry_matches_exec(n: &XmlNode, key: &IdentityKey) -> (r: bool)
    ensures
        r == entry_matches(n@, key@),
{
    match n {
        XmlNode::Elem(e) => {
            if !(e.tag == key.entry_tag) {
                return false;
            }
            let name_tag = "name".to_owned();
            let value_attr = "value".to_owned();
            match find_first_attr_exec(n, &name_tag, &value_attr) {
                Some(v) => crate::identity::is_same_worktree_interpreter(
                    v.as_str(),
                    &key.worktree,
                    &key.leaf,
                ),
                None => false,
            }
        },
        _ => false,
    }
}

/// The merged child list: non-colliding children in original order, then
/// the fresh entry.
pub fn merge_children_exec(children: &Vec<XmlNode>, key: &IdentityKey, entry: &XmlNode) -> (r: Vec<
    XmlNode,
>)
    ensures
        crate::tree::views_of_children(r) == merge_children(
            crate::tree::views_of_children(*children),
            key@,
            entry@,
        ),
{
    let ghost cv = crate::tree::views_of_children(*children);
    let ghost pred = |c: NodeView| !entry_matches(c, key@);
    let mut out: Vec<XmlNode> = Vec::new();
    let mut i: usize = 0;
    while i < children.len()
        invariant
            i <= children@.len(),
            cv == crate::tree::views_of_children(*children),
            pred == (|c: NodeView| !entry_matches(c, key@)),
            crate::tree::views_of_children(out) == cv.take(i as int).filter(pred),
        decreases children@.len() - i,
    {
        let keep = !entry_matches_exec(&children[i], key);
        proof {
            assert(cv[i as int] == crate::tree::view_of_node(children@[i as int]));
            assert(cv.take(i + 1).drop_last() =~= cv.take(i as int));
            assert(cv.take(i + 1).last() == cv[i as int]);
            reveal_with_fuel(Seq::filter, 2);
            assert(cv.take(i + 1).filter(pred) == if pred(cv[i as int]) {
                cv.take(i as int).filter(pred).push(cv[i as int])
            } else {
                cv.take(i as int).filter(pred)
            });
        }
        if keep {
            let c = clone_node(&children[i]);
            out.push(c);
            proof {
                assert(crate::tree::views_of_children(out) =~= cv.take(i as int).filter(
                    pred,
                ).push(cv[i as int]));
            }
        }
        i = i + 1;
    }
    proof {
        assert(cv.take(children@.len() as int) =~= cv);
    }
    let e2 = clone_node(entry);
    out.push(e2);
    proof {
        assert(crate::tree::views_of_children(out) =~= cv.filter(pred) + seq![entry@]);
    }
    out
}

/// Upsert in one element; the flag says whether a container was found.
#[verifier::loop_isolation(false)]
pub fn upsert_elem_exec(
    e: &Element,
    cs: &ContainerSpec,
    key: &IdentityKey,
    entry: &XmlNode,
) -> (r: (Element, bool))
    ensures
        (r.0@, r.1) == upsert_elem_s(e@, cs@, key@, entry@),
    decreases *e, 0nat, 0nat,
{
    if is_container_exec(e, cs) {
        let children = merge_children_exec(&e.children, key, entry);
        let r0 = Element { tag: e.tag.clone(), attrs: clone_attrs(&e.attrs), children };
        proof {
            assert(r0@ =~= upsert_elem_s(e@, cs@, key@, entry@).0);
        }
        (r0, true)
    } else {
        let ghost cv = crate::tree::views_of_children(e.children);
        let mut out: Vec<XmlNode> = Vec::new();
        let mut done = false;
        let mut i: usize = 0;
        while i < e.children.len()
            invariant
                i <= e.children@.len(),
                cv == crate::tree::views_of_children(e.children),
                upsert_children_s(cv, cs@, key@, entry@, 0) == if done {
                    (crate::tree::views_of_children(out) + cv.skip(i as int), true)
                } else {
                    (
                        crate::tree::views_of_children(out) + upsert_children_s(
                            cv,
                            cs@,
                            key@,
                            entry@,
                            i as int,
                        ).0,
                        upsert_children_s(cv, cs@, key@, entry@, i as int).1,
                    )
                },
            decreases e.children@.len() - i,
        {
            proof {
                assert(cv[i as int] == crate::tree::view_of_node(e.children@[i as int]));
                assert(cv.skip(i as int) =~= seq![cv[i as int]] + cv.skip(i + 1));
            }
            if done {
                let c = clone_node(&e.children[i]);
                out.push(c);
                proof {
                    assert(crate::tree::views_of_children(out) + cv.skip(i + 1)
                        =~= upsert_children_s(cv, cs@, key@, entry@, 0).0);
                }
            } else {
                let ghost prev = crate::tree::views_of_children(out);
                let (c2, b) = upsert_node_exec(&e.children[i], cs, key, entry);
                out.push(c2);
                done = b;
                proof {
                    assert(crate::tree::views_of_children(out) =~= prev.push(c2@));
                    assert(upsert_children_s(cv, cs@, key@, entry@, i as int)
                        == if b {
                            (seq![c2@] + cv.skip(i + 1), true)
                        } else {
                            (
                                seq![c2@] + upsert_children_s(cv, cs@, key@, entry@, i + 1).0,
                                upsert_children_s(cv, cs@, key@, entry@, i + 1).1,
                            )
                        });
                    if b {
                        assert(crate::tree::views_of_children(out) + cv.skip(i + 1) =~= prev + (
                        seq![c2@] + cv.skip(i + 1)));
                    } else {
                        assert(crate::tree::views_of_children(out) + upsert_children_s(
                            cv,
                            cs@,
                            key@,
                            entry@,
                            i + 1,
                        ).0 =~= prev + (seq![c2@] + upsert_children_s(
                            cv,
                            cs@,
                            key@,
                            entry@,
                            i + 1,
                        ).0));
                    }
                }
            }
            i = i + 1;
        }
        proof {
            if done {
                assert(cv.skip(cv.len() as int) =~= Seq::<NodeView>::empty());
                assert(crate::tree::views_of_children(out) + Seq::<NodeView>::empty()
                    =~= crate::tree::views_of_children(out));
            } else {
                assert(upsert_children_s(cv, cs@, key@, entry@, cv.len() as int).0
                    =~= Seq::<NodeView>::empty());
                assert(crate::tree::views_of_children(out) + Seq::<NodeView>::empty()
                    =~= crate::tree::views_of_children(out));
            }
        }
        let r0 = Element { tag: e.tag.clone(), attrs: clone_attrs(&e.attrs), children: out };
        proof {
            assert(r0@ =~= upsert_elem_s(e@, cs@, key@, entry@).0);
        }
        (r0, done)
    }
}

/// Upsert in one node.
pub fn upsert_node_exec(
    n: &XmlNode,
    cs: &ContainerSpec,
    key: &IdentityKey,
    entry: &XmlNode,
) -> (r: (XmlNode, bool))
    ensures
        (r.0@, r.1) == upsert_node_s(n@, cs@, key@, entry@),
    decreases *n, 1nat, 0nat,
{
    match n {
        XmlNode::Elem(e) => {
            let (e2, b) = upsert_elem_exec(e, cs, key, entry);
            (XmlNode::Elem(e2), b)
        },
        _ => (clone_node(n), false),
    }
}

/// Builds the synthesized container holding only the entry.
pub fn synth_container_exec(cs: &ContainerSpec, entry: &XmlNode) -> (r: XmlNode)
    ensures
        r@ == synth_container(cs@, entry@),
{
    let mut attrs: Vec<Attr> = Vec::new();
    attrs.push(Attr { name: cs.attr_name.clone(), value: cs.attr_value.clone() });
    let mut children: Vec<XmlNode> = Vec::new();
    children.push(clone_node(entry));
    let e = Element { tag: cs.tag.clone(), attrs, children };
    proof {
        assert(crate::tree::view_of_attrs(e.attrs) =~= seq![
            AttrView { name: cs@.attr_name, value: cs@.attr_value },
        ]);
        assert(crate::tree::views_of_children(e.children) =~= seq![entry@]);
        assert(XmlNode::Elem(e)@ =~= synth_container(cs@, entry@));
    }
    XmlNode::Elem(e)
}

/// Upsert in a whole document.
pub fn upsert_doc_exec(
    doc: &XmlDocument,
    cs: &ContainerSpec,
    key: &IdentityKey,
    entry: &XmlNode,
) -> (r: XmlDocument)
    ensures
        r@ == upsert_doc_s(doc@, cs@, key@, entry@),
{
    let (root2, applied) = upsert_elem_exec(&doc.root, cs, key, entry);
    if applied {
        XmlDocument { root: root2 }
    } else {
        let mut root3 = clone_elem(&doc.root);
        let c = synth_container_exec(cs, entry);
        root3.children.push(c);
        proof {
            assert(crate::tree::views_of_children(root3.children) =~= doc@.root.children + seq![
                synth_container(cs@, entry@),
            ]);
            assert(root3@ =~= upsert_doc_s(doc@, cs@, key@, entry@).root);
        }
        XmlDocument { root: root3 }
    }
}

/// Builds the skeleton document written when no prior document exists.
pub fn skeleton_doc_exec(root_tag: &str, cs: &ContainerSpec, entry: &XmlNode) -> (r: XmlDocument)
    ensures
        r@ == skeleton_doc(root_tag@, cs@, entry@),
{
    let mut children: Vec<XmlNode> = Vec::new();
    children.push(synth_container_exec(cs, entry));
    let root = Element { tag: root_tag.to_owned(), attrs: Vec::new(), children };
    proof {
        assert(crate::tree::view_of_attrs(root.attrs) =~= Seq::<AttrView>::empty());
        assert(crate::tree::views_of_children(root.children) =~= seq![
            synth_container(cs@, entry@),
        ]);
        assert(root@ =~= skeleton_doc(root_tag@, cs@, entry@).root);
    }
    XmlDocument { root }
}

} // verus!
