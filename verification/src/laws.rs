//! The laws of the merge engine, proved once and for all documents.
//!
//! Idempotence: running the merge twice with entries of the same identity
//! leaves the document exactly as one run with the second entry would.
//! Preservation: a merge keeps every non-colliding child of the container,
//! in order, appends the fresh entry last, and leaves exactly one entry of
//! the given identity.  Creation: with no prior document the skeleton holds
//! exactly one container with exactly one entry.

use vstd::prelude::*;
use crate::tree::{AttrView, ElemView, NodeView, DocView};
use crate::merge::{
    ContainerSpecView,
    IdentityKeyView,
    elem_is_container,
    entry_matches,
    merge_children,
    upsert_node_s,
    upsert_elem_s,
    upsert_children_s,
    upsert_doc_s,
    synth_container,
    skeleton_doc,
};

verus! {

broadcast use vstd::seq::group_seq_axioms;

/// How many children collide with the key.
pub open spec fn count_matching(cs: Seq<NodeView>, key: IdentityKeyView) -> nat {
    cs.filter(|c: NodeView| entry_matches(c, key)).len()
}

/// Filtering a sequence whose members all fail the test gives nothing.
proof fn lemma_filter_none(s: Seq<NodeView>, pred: spec_fn(NodeView) -> bool)
    requires
        forall|i: int| 0 <= i < s.len() ==> !pred(#[trigger] s[i]),
    ensures
        s.filter(pred) == Seq::<NodeView>::empty(),
    decreases s.len(),
{
    reveal(Seq::filter);
    if s.len() != 0 {
        assert(s.drop_last() =~= s.subrange(0, s.len() - 1));
        lemma_filter_none(s.drop_last(), pred);
        assert(!pred(s.last()));
    }
}

/// Filtering twice by the same test is filtering once.
proof fn lemma_filter_idem(s: Seq<NodeView>, pred: spec_fn(NodeView) -> bool)
    ensures
        s.filter(pred).filter(pred) == s.filter(pred),
    decreases s.len(),
{
    broadcast use vstd::seq_lib::group_filter_ensures;

    let f = s.filter(pred);
    assert forall|i: int| 0 <= i < f.len() implies pred(#[trigger] f[i]) by {}
    lemma_filter_all(f, pred);
}

/// Filtering a sequence whose members all pass the test keeps it whole.
proof fn lemma_filter_all(s: Seq<NodeView>, pred: spec_fn(NodeView) -> bool)
    requires
        forall|i: int| 0 <= i < s.len() ==> pred(#[trigger] s[i]),
    ensures
        s.filter(pred) == s,
    decreases s.len(),
{
    reveal(Seq::filter);
    if s.len() != 0 {
        assert(s.drop_last() =~= s.subrange(0, s.len() - 1));
        lemma_filter_all(s.drop_last(), pred);
        assert(pred(s.last()));
        assert(s.drop_last().push(s.last()) =~= s);
    }
}

/// PRESERVATION.  A merge keeps exactly the non-colliding children of the
/// container, in their original order, and appends the fresh entry last:
/// every non-colliding child is still present, and when the entry itself
/// bears the identity, exactly one child of that identity remains.
pub proof fn lemma_merge_preserves(cs: Seq<NodeView>, key: IdentityKeyView, entry: NodeView)
    ensures
        merge_children(cs, key, entry).drop_last() == cs.filter(
            |c: NodeView| !entry_matches(c, key),
        ),
        merge_children(cs, key, entry).last() == entry,
        forall|i: int|
            0 <= i < cs.len() && !entry_matches(#[trigger] cs[i], key) ==> merge_children(
                cs,
                key,
                entry,
            ).contains(cs[i]),
        entry_matches(entry, key) ==> count_matching(merge_children(cs, key, entry), key) == 1,
{
    broadcast use vstd::seq_lib::group_filter_ensures;

    let keep = |c: NodeView| !entry_matches(c, key);
    let m = |c: NodeView| entry_matches(c, key);
    let merged = merge_children(cs, key, entry);
    assert(merged.drop_last() =~= cs.filter(keep));
    assert(merged.last() == entry);
    assert forall|i: int|
        0 <= i < cs.len() && !entry_matches(#[trigger] cs[i], key) implies merged.contains(
        cs[i],
    ) by {
        assert(cs.filter(keep).contains(cs[i]));
        let j = choose|j: int| 0 <= j < cs.filter(keep).len() && cs.filter(keep)[j] == cs[i];
        assert(merged[j] == cs[i]);
    }
    if entry_matches(entry, key) {
        Seq::filter_distributes_over_add(cs.filter(keep), seq![entry], m);
        assert forall|i: int| 0 <= i < cs.filter(keep).len() implies !m(
            #[trigger] cs.filter(keep)[i],
        ) by {}
        lemma_filter_none(cs.filter(keep), m);
        reveal_with_fuel(Seq::filter, 3);
        assert(seq![entry].drop_last() =~= Seq::<NodeView>::empty());
        assert(seq![entry].filter(m) =~= seq![entry]);
        assert(merged =~= cs.filter(keep) + seq![entry]);
        assert(merged.filter(m) =~= seq![entry]);
    }
}

/// Merging twice with entries of one identity is merging once with the
/// second entry.
pub proof fn lemma_merge_idem(
    cs: Seq<NodeView>,
    key: IdentityKeyView,
    e1: NodeView,
    e2: NodeView,
)
    requires
        entry_matches(e1, key),
    ensures
        merge_children(merge_children(cs, key, e1), key, e2) == merge_children(cs, key, e2),
{
    broadcast use vstd::seq_lib::group_filter_ensures;

    let keep = |c: NodeView| !entry_matches(c, key);
    Seq::filter_distributes_over_add(cs.filter(keep), seq![e1], keep);
    lemma_filter_idem(cs, keep);
    reveal_with_fuel(Seq::filter, 3);
    assert(seq![e1].drop_last() =~= Seq::<NodeView>::empty());
    assert(seq![e1].filter(keep) =~= Seq::<NodeView>::empty());
    assert((cs.filter(keep) + seq![e1]).filter(keep) =~= cs.filter(keep));
    assert(merge_children(merge_children(cs, key, e1), key, e2) =~= merge_children(cs, key, e2));
}

/// Whether an upsert applies depends on the tree and the container
/// description alone, never on the key or the entry.
proof fn lemma_applied_indep_node(
    n: NodeView,
    cs: ContainerSpecView,
    k1: IdentityKeyView,
    x1: NodeView,
    k2: IdentityKeyView,
    x2: NodeView,
)
    ensures
        upsert_node_s(n, cs, k1, x1).1 == upsert_node_s(n, cs, k2, x2).1,
    decreases n, 1nat, 0nat,
{
    match n {
        NodeView::Elem(e) => {
            lemma_applied_indep_elem(e, cs, k1, x1, k2, x2);
        },
        _ => {},
    }
}

/// [`lemma_applied_indep_node`] for an element.
proof fn lemma_applied_indep_elem(
    e: ElemView,
    cs: ContainerSpecView,
    k1: IdentityKeyView,
    x1: NodeView,
    k2: IdentityKeyView,
    x2: NodeView,
)
    ensures
        upsert_elem_s(e, cs, k1, x1).1 == upsert_elem_s(e, cs, k2, x2).1,
    decreases e, 0nat, 0nat,
{
    if !elem_is_container(e, cs) {
        lemma_applied_indep_children(e.children, cs, k1, x1, k2, x2, 0);
    }
}

/// [`lemma_applied_indep_node`] for a child list.
proof fn lemma_applied_indep_children(
    children: Seq<NodeView>,
    cs: ContainerSpecView,
    k1: IdentityKeyView,
    x1: NodeView,
    k2: IdentityKeyView,
    x2: NodeView,
    i: int,
)
    ensures
        upsert_children_s(children, cs, k1, x1, i).1 == upsert_children_s(
            children,
            cs,
            k2,
            x2,
            i,
        ).1,
    decreases children, 2nat, children.len() - i,
{
    if 0 <= i < children.len() {
        lemma_applied_indep_node(children[i], cs, k1, x1, k2, x2);
        if !upsert_node_s(children[i], cs, k1, x1).1 {
            lemma_applied_indep_children(children, cs, k1, x1, k2, x2, i + 1);
        }
    }
}

/// An upsert that found no container changes nothing.
proof fn lemma_unapplied_id_node(
    n: NodeView,
    cs: ContainerSpecView,
    key: IdentityKeyView,
    entry: NodeView,
)
    requires
        !upsert_node_s(n, cs, key, entry).1,
    ensures
        upsert_node_s(n, cs, key, entry).0 == n,
    decreases n, 1nat, 0nat,
{
    match n {
        NodeView::Elem(e) => {
            lemma_unapplied_id_elem(e, cs, key, entry);
        },
        _ => {},
    }
}

/// [`lemma_unapplied_id_node`] for an element.
proof fn lemma_unapplied_id_elem(
    e: ElemView,
    cs: ContainerSpecView,
    key: IdentityKeyView,
    entry: NodeView,
)
    requires
        !upsert_elem_s(e, cs, key, entry).1,
    ensures
        upsert_elem_s(e, cs, key, entry).0 == e,
    decreases e, 0nat, 0nat,
{
    lemma_unapplied_id_children(e.children, cs, key, entry, 0);
    assert(e.children.skip(0) =~= e.children);
    assert(upsert_elem_s(e, cs, key, entry).0 =~~= e);
}

/// [`lemma_unapplied_id_node`] for a child list.
proof fn lemma_unapplied_id_children(
    children: Seq<NodeView>,
    cs: ContainerSpecView,
    key: IdentityKeyView,
    entry: NodeView,
    i: int,
)
    requires
        0 <= i <= children.len(),
        !upsert_children_s(children, cs, key, entry, i).1,
    ensures
        upsert_children_s(children, cs, key, entry, i).0 == children.skip(i),
    decreases children, 2nat, children.len() - i,
{
    if i == children.len() {
        assert(children.skip(i) =~= Seq::<NodeView>::empty());
    } else {
        lemma_unapplied_id_node(children[i], cs, key, entry);
        lemma_unapplied_id_children(children, cs, key, entry, i + 1);
        assert(children.skip(i) =~= seq![children[i]] + children.skip(i + 1));
    }
}

/// Processing a child list from `i` is processing its tail from the front.
proof fn lemma_children_shift(
    children: Seq<NodeView>,
    cs: ContainerSpecView,
    key: IdentityKeyView,
    entry: NodeView,
    i: int,
)
    requires
        0 <= i <= children.len(),
    ensures
        upsert_children_s(children, cs, key, entry, i).0 == upsert_children_s(
            children.skip(i),
            cs,
            key,
            entry,
            0,
        ).0,
        upsert_children_s(children, cs, key, entry, i).1 == upsert_children_s(
            children.skip(i),
            cs,
            key,
            entry,
            0,
        ).1,
    decreases children.len() - i,
{
    let tail = children.skip(i);
    if i == children.len() {
        assert(tail.len() == 0);
    } else {
        assert(tail[0] == children[i]);
        let (n2, b) = upsert_node_s(children[i], cs, key, entry);
        if b {
            assert(tail.skip(1) =~= children.skip(i + 1));
            assert(upsert_children_s(children, cs, key, entry, i).0 =~= upsert_children_s(
                tail,
                cs,
                key,
                entry,
                0,
            ).0);
        } else {
            lemma_children_shift(children, cs, key, entry, i + 1);
            lemma_children_shift(tail, cs, key, entry, 1);
            assert(tail.skip(1) =~= children.skip(i + 1));
            assert(upsert_children_s(children, cs, key, entry, i).0 =~= upsert_children_s(
                tail,
                cs,
                key,
                entry,
                0,
            ).0);
        }
    }
}

/// Second upsert on an already-upserted node is one direct upsert.
proof fn lemma_idem_node(
    n: NodeView,
    cs: ContainerSpecView,
    key: IdentityKeyView,
    e1: NodeView,
    e2: NodeView,
)
    requires
        entry_matches(e1, key),
        upsert_node_s(n, cs, key, e1).1,
    ensures
        upsert_node_s(upsert_node_s(n, cs, key, e1).0, cs, key, e2).0 == upsert_node_s(
            n,
            cs,
            key,
            e2,
        ).0,
        upsert_node_s(upsert_node_s(n, cs, key, e1).0, cs, key, e2).1,
        upsert_node_s(n, cs, key, e2).1,
    decreases n, 1nat, 0nat,
{
    match n {
        NodeView::Elem(e) => {
            lemma_idem_elem(e, cs, key, e1, e2);
        },
        _ => {},
    }
}

/// [`lemma_idem_node`] for an element.
proof fn lemma_idem_elem(
    e: ElemView,
    cs: ContainerSpecView,
    key: IdentityKeyView,
    e1: NodeView,
    e2: NodeView,
)
    requires
        entry_matches(e1, key),
        upsert_elem_s(e, cs, key, e1).1,
    ensures
        upsert_elem_s(upsert_elem_s(e, cs, key, e1).0, cs, key, e2).0 == upsert_elem_s(
            e,
            cs,
            key,
            e2,
        ).0,
        upsert_elem_s(upsert_elem_s(e, cs, key, e1).0, cs, key, e2).1,
        upsert_elem_s(e, cs, key, e2).1,
    decreases e, 0nat, 0nat,
{
    let t = upsert_elem_s(e, cs, key, e1).0;
    if elem_is_container(e, cs) {
        assert(elem_is_container(t, cs));
        lemma_merge_idem(e.children, key, e1, e2);
        assert(upsert_elem_s(t, cs, key, e2).0 =~~= upsert_elem_s(e, cs, key, e2).0);
    } else {
        assert(t.tag == e.tag && t.attrs == e.attrs);
        assert(!elem_is_container(t, cs));
        lemma_idem_children(e.children, cs, key, e1, e2, 0);
        assert(t.children == upsert_children_s(e.children, cs, key, e1, 0).0);
        assert(upsert_elem_s(t, cs, key, e2).0 =~~= upsert_elem_s(e, cs, key, e2).0);
    }
}

/// [`lemma_idem_node`] for a child list: the second run over the
/// transformed tail equals one direct run over the original tail.
proof fn lemma_idem_children(
    children: Seq<NodeView>,
    cs: ContainerSpecView,
    key: IdentityKeyView,
    e1: NodeView,
    e2: NodeView,
    i: int,
)
    requires
        entry_matches(e1, key),
        0 <= i <= children.len(),
        upsert_children_s(children, cs, key, e1, i).1,
    ensures
        upsert_children_s(upsert_children_s(children, cs, key, e1, i).0, cs, key, e2, 0).0
            == upsert_children_s(children, cs, key, e2, i).0,
        upsert_children_s(upsert_children_s(children, cs, key, e1, i).0, cs, key, e2, 0).1,
        upsert_children_s(children, cs, key, e2, i).1,
    decreases children, 2nat, children.len() - i,
{
    let a = upsert_children_s(children, cs, key, e1, i).0;
    let (n2, b) = upsert_node_s(children[i], cs, key, e1);
    if b {
        // the transformed head applies again; everything after it is kept
        lemma_idem_node(children[i], cs, key, e1, e2);
        assert(a =~= seq![n2] + children.skip(i + 1));
        assert(a[0] == n2);
        let (h2, b2) = upsert_node_s(n2, cs, key, e2);
        assert(b2);
        assert(a.skip(1) =~= children.skip(i + 1));
        assert(upsert_children_s(a, cs, key, e2, 0).0 =~= seq![h2] + a.skip(1));
        assert(upsert_children_s(children, cs, key, e2, i).0 =~= seq![
            upsert_node_s(children[i], cs, key, e2).0,
        ] + children.skip(i + 1));
    } else {
        // the head stays as it was, the tail carries the application
        lemma_unapplied_id_node(children[i], cs, key, e1);
        assert(n2 == children[i]);
        lemma_applied_indep_node(children[i], cs, key, e1, key, e2);
        let rest = upsert_children_s(children, cs, key, e1, i + 1).0;
        assert(a =~= seq![children[i]] + rest);
        assert(a[0] == children[i]);
        assert(a.skip(1) =~= rest);
        lemma_idem_children(children, cs, key, e1, e2, i + 1);
        lemma_children_shift(a, cs, key, e2, 1);
        assert(upsert_children_s(a.skip(1), cs, key, e2, 0).0 == upsert_children_s(
            children,
            cs,
            key,
            e2,
            i + 1,
        ).0);
        assert(upsert_children_s(a, cs, key, e2, 0).0 =~= seq![
            upsert_node_s(children[i], cs, key, e2).0,
        ] + upsert_children_s(a, cs, key, e2, 1).0);
        assert(upsert_children_s(children, cs, key, e2, i).0 =~= seq![
            upsert_node_s(children[i], cs, key, e2).0,
        ] + upsert_children_s(children, cs, key, e2, i + 1).0);
    }
}

/// When the whole walk found no container, no single child did.
proof fn lemma_children_all_unapplied(
    children: Seq<NodeView>,
    cs: ContainerSpecView,
    key: IdentityKeyView,
    entry: NodeView,
    i: int,
    j: int,
)
    requires
        0 <= i <= j < children.len(),
        !upsert_children_s(children, cs, key, entry, i).1,
    ensures
        !upsert_node_s(children[j], cs, key, entry).1,
    decreases j - i,
{
    if i < j {
        lemma_children_all_unapplied(children, cs, key, entry, i + 1, j);
    }
}

/// A child list with no container, extended by one synthesized container:
/// the walk keeps the list and transforms the appended container.
proof fn lemma_children_extended(
    children: Seq<NodeView>,
    cs: ContainerSpecView,
    key: IdentityKeyView,
    e1: NodeView,
    e2: NodeView,
    i: int,
)
    requires
        entry_matches(e1, key),
        0 <= i <= children.len(),
        !upsert_children_s(children, cs, key, e1, i).1,
    ensures
        upsert_children_s(children + seq![synth_container(cs, e1)], cs, key, e2, i).0
            == children.skip(i) + seq![synth_container(cs, e2)],
        upsert_children_s(children + seq![synth_container(cs, e1)], cs, key, e2, i).1,
    decreases children.len() - i,
{
    let ext = children + seq![synth_container(cs, e1)];
    if i == children.len() {
        // at the synthesized container itself
        assert(ext[i] == synth_container(cs, e1));
        let c = synth_container(cs, e1)->Elem_0;
        attr_value_one(cs);
        assert(elem_is_container(c, cs));
        lemma_merge_preserves(seq![e1], key, e2);
        lemma_merge_idem(Seq::<NodeView>::empty(), key, e1, e2);
        assert(Seq::<NodeView>::empty().filter(|x: NodeView| !entry_matches(x, key))
            =~= Seq::<NodeView>::empty()) by {
            reveal_with_fuel(Seq::filter, 2);
        }
        assert(merge_children(seq![e1], key, e2) =~= seq![e2]) by {
            reveal_with_fuel(Seq::filter, 3);
            assert(seq![e1].drop_last() =~= Seq::<NodeView>::empty());
            assert(seq![e1].filter(|x: NodeView| !entry_matches(x, key))
                =~= Seq::<NodeView>::empty());
        }
        let t = upsert_elem_s(c, cs, key, e2).0;
        assert(t =~~= synth_container(cs, e2)->Elem_0);
        assert(ext.skip(i + 1) =~= Seq::<NodeView>::empty());
        assert(synth_container(cs, e1) == NodeView::Elem(c));
        assert(upsert_node_s(synth_container(cs, e1), cs, key, e2) == (NodeView::Elem(t), true));
        assert(upsert_elem_s(c, cs, key, e2).1);
        assert(NodeView::Elem(t) == synth_container(cs, e2));
        assert(upsert_children_s(ext, cs, key, e2, i).0 == seq![NodeView::Elem(t)] + ext.skip(
            i + 1,
        ));
        assert(upsert_children_s(ext, cs, key, e2, i).1);
        assert(upsert_children_s(ext, cs, key, e2, i).0 =~= seq![synth_container(cs, e2)]);
        assert(children.skip(i) =~= Seq::<NodeView>::empty());
        assert(children.skip(i) + seq![synth_container(cs, e2)] =~= seq![
            synth_container(cs, e2),
        ]);
    } else {
        assert(ext[i] == children[i]);
        lemma_children_all_unapplied(children, cs, key, e1, i, i);
        lemma_applied_indep_node(children[i], cs, key, e1, key, e2);
        lemma_unapplied_id_node(children[i], cs, key, e2);
        lemma_children_extended(children, cs, key, e1, e2, i + 1);
        assert(children.skip(i) =~= seq![children[i]] + children.skip(i + 1));
        assert(upsert_children_s(ext, cs, key, e2, i).0 =~= children.skip(i) + seq![
            synth_container(cs, e2),
        ]);
    }
}

/// The one attribute of a synthesized container answers the lookup.
proof fn attr_value_one(cs: ContainerSpecView)
    ensures
        crate::merge::attr_value_of(
            seq![AttrView { name: cs.attr_name, value: cs.attr_value }],
            cs.attr_name,
        ) == Some(cs.attr_value),
{
    let attrs = seq![AttrView { name: cs.attr_name, value: cs.attr_value }];
    assert(attrs[0].name == cs.attr_name);
}

/// IDEMPOTENCE.  Upserting twice, with two entries of one identity (the
/// same facts up to the time-varying ones), gives exactly the document one
/// upsert with the second entry gives: one surviving entry per identity.
pub proof fn lemma_upsert_idempotent(
    doc: DocView,
    cs: ContainerSpecView,
    key: IdentityKeyView,
    e1: NodeView,
    e2: NodeView,
)
    requires
        entry_matches(e1, key),
        entry_matches(e2, key),
    ensures
        upsert_doc_s(upsert_doc_s(doc, cs, key, e1), cs, key, e2) == upsert_doc_s(
            doc,
            cs,
            key,
            e2,
        ),
{
    let (root1, applied1) = upsert_elem_s(doc.root, cs, key, e1);
    lemma_applied_indep_elem(doc.root, cs, key, e1, key, e2);
    if applied1 {
        lemma_idem_elem(doc.root, cs, key, e1, e2);
        assert(upsert_doc_s(upsert_doc_s(doc, cs, key, e1), cs, key, e2) =~~= upsert_doc_s(
            doc,
            cs,
            key,
            e2,
        ));
    } else {
        // no container anywhere: both runs land on a synthesized container
        let doc1 = upsert_doc_s(doc, cs, key, e1);
        assert(doc1.root.children == doc.root.children + seq![synth_container(cs, e1)]);
        assert(!elem_is_container(doc.root, cs));
        assert(!elem_is_container(doc1.root, cs));
        lemma_children_extended(doc.root.children, cs, key, e1, e2, 0);
        assert(doc.root.children.skip(0) =~= doc.root.children);
        assert(upsert_elem_s(doc1.root, cs, key, e2).1);
        assert(upsert_elem_s(doc1.root, cs, key, e2).0.children == doc.root.children + seq![
            synth_container(cs, e2),
        ]);
        assert(upsert_doc_s(doc1, cs, key, e2) =~~= upsert_doc_s(doc, cs, key, e2));
    }
}

/// An attribute patch that found no target changes nothing: the document
/// comes back exactly as it was.
pub proof fn lemma_patch_unapplied(doc: DocView, v: Seq<char>)
    requires
        !crate::patch::patch_doc_s(doc, v).1,
    ensures
        crate::patch::patch_doc_s(doc, v).0 == doc,
{
    lemma_patch_unapplied_elem(doc.root, v);
    assert(crate::patch::patch_doc_s(doc, v).0 =~~= doc);
}

/// [`lemma_patch_unapplied`] for a node.
proof fn lemma_patch_unapplied_node(n: NodeView, v: Seq<char>)
    requires
        !crate::patch::patch_node_s(n, v).1,
    ensures
        crate::patch::patch_node_s(n, v).0 == n,
    decreases n, 1nat, 0nat,
{
    match n {
        NodeView::Elem(e) => {
            lemma_patch_unapplied_elem(e, v);
        },
        _ => {},
    }
}

/// [`lemma_patch_unapplied`] for an element.
proof fn lemma_patch_unapplied_elem(e: ElemView, v: Seq<char>)
    requires
        !crate::patch::patch_elem_s(e, v).1,
    ensures
        crate::patch::patch_elem_s(e, v).0 == e,
    decreases e, 0nat, 0nat,
{
    lemma_patch_unapplied_children(e.children, v, 0);
    assert(e.children.skip(0) =~= e.children);
    assert(crate::patch::patch_elem_s(e, v).0 =~~= e);
}

/// [`lemma_patch_unapplied`] for a child list.
proof fn lemma_patch_unapplied_children(children: Seq<NodeView>, v: Seq<char>, i: int)
    requires
        0 <= i <= children.len(),
        !crate::patch::patch_children_s(children, v, i).1,
    ensures
        crate::patch::patch_children_s(children, v, i).0 == children.skip(i),
    decreases children, 2nat, children.len() - i,
{
    if i == children.len() {
        assert(children.skip(i) =~= Seq::<NodeView>::empty());
    } else {
        lemma_patch_unapplied_node(children[i], v);
        lemma_patch_unapplied_children(children, v, i + 1);
        assert(children.skip(i) =~= seq![children[i]] + children.skip(i + 1));
    }
}

/// CREATION.  The skeleton written when no prior document exists holds
/// exactly one child under the root: the container, holding exactly one
/// child: the entry.
pub proof fn lemma_skeleton_shape(
    root_tag: Seq<char>,
    cs: ContainerSpecView,
    entry: NodeView,
)
    ensures
        skeleton_doc(root_tag, cs, entry).root.children.len() == 1,
        skeleton_doc(root_tag, cs, entry).root.children[0] == synth_container(cs, entry),
        elem_is_container(synth_container(cs, entry)->Elem_0, cs),
        synth_container(cs, entry)->Elem_0.children == seq![entry],
{
    attr_value_one(cs);
}

} // verus!
