//! Serialization: a deterministic, two-space-indented rendering of a
//! document, independent of how the source text was formatted.
//!
//! An element whose children include text keeps its whole content on one
//! line, so character data never gains surrounding whitespace; an element
//! with only element, comment or instruction children puts each child on
//! its own indented line.

use vstd::prelude::*;
use crate::escape::escape_seq;
use crate::tree::{Attr, Element, XmlNode, XmlDocument, ElemView, NodeView, AttrView};
use crate::chars::{str_to_chars, chars_to_string, is_ws};

verus! {

broadcast use vstd::std_specs::vec::group_vec_axioms, vstd::seq::group_seq_axioms;

/// Two spaces for every nesting level.
pub open spec fn ind(d: nat) -> Seq<char>
    decreases d,
{
    if d == 0 {
        Seq::empty()
    } else {
        ind((d - 1) as nat) + seq![' ', ' ']
    }
}

/// Indentation is whitespace of length `2 * d`.
pub proof fn lemma_ind_ws(d: nat)
    ensures
        ind(d).len() == 2 * d,
        forall|i: int| 0 <= i < ind(d).len() ==> is_ws(#[trigger] ind(d)[i]),
    decreases d,
{
    if d > 0 {
        lemma_ind_ws((d - 1) as nat);
    }
}

/// Nesting depth for children; saturates so that the executable counter
/// cannot overflow (indentation beyond that depth merely stops growing).
pub open spec fn next_depth(d: nat) -> nat {
    if d < 0xffff {
        d + 1
    } else {
        d
    }
}

/// True when some child is a text node.
pub open spec fn has_text_child(cs: Seq<NodeView>) -> bool {
    exists|i: int| 0 <= i < cs.len() && #[trigger] cs[i] is Text
}

/// ` name="value"` for every attribute, from index `i` on.
pub open spec fn ser_attrs_from(attrs: Seq<AttrView>, i: int) -> Seq<char>
    decreases attrs.len() - i,
{
    if i < 0 || i >= attrs.len() {
        Seq::empty()
    } else {
        seq![' '] + attrs[i].name + seq!['=', '"'] + escape_seq(attrs[i].value, true) + seq!['"']
            + ser_attrs_from(attrs, i + 1)
    }
}

/// An element rendered from its `<` to its closing `>`, with no
/// surrounding indentation or line break.
pub open spec fn elem_core(e: ElemView, d: nat) -> Seq<char>
    decreases e, 0nat, 0nat,
{
    let head = seq!['<'] + e.tag + ser_attrs_from(e.attrs, 0);
    if e.children.len() == 0 {
        head + seq!['/', '>']
    } else if has_text_child(e.children) {
        head + seq!['>'] + inline_cat(e.children, next_depth(d), 0) + seq!['<', '/'] + e.tag
            + seq!['>']
    } else {
        head + seq!['>', '\n'] + block_cat(e.children, next_depth(d), 0) + ind(d) + seq!['<', '/']
            + e.tag + seq!['>']
    }
}

/// One node rendered with no surrounding indentation or line break.
pub open spec fn node_core(n: NodeView, d: nat) -> Seq<char>
    decreases n, 1nat, 0nat,
{
    match n {
        NodeView::Elem(e) => elem_core(e, d),
        NodeView::Text(t) => escape_seq(t, false),
        NodeView::Comment(t) => seq!['<', '!', '-', '-'] + t + seq!['-', '-', '>'],
        NodeView::Pi(t) => seq!['<', '?'] + t + seq!['?', '>'],
    }
}

/// Children of a mixed-content element, all on one line, from `i` on.
pub open spec fn inline_cat(cs: Seq<NodeView>, d: nat, i: int) -> Seq<char>
    decreases cs, 2nat, cs.len() - i,
{
    if i < 0 || i >= cs.len() {
        Seq::empty()
    } else {
        node_core(cs[i], d) + inline_cat(cs, d, i + 1)
    }
}

/// Children of a text-free element, one indented line each, from `i` on.
pub open spec fn block_cat(cs: Seq<NodeView>, d: nat, i: int) -> Seq<char>
    decreases cs, 2nat, cs.len() - i,
{
    if i < 0 || i >= cs.len() {
        Seq::empty()
    } else {
        ind(d) + node_core(cs[i], d) + seq!['\n'] + block_cat(cs, d, i + 1)
    }
}

/// The document declaration the serializer always writes.
pub open spec fn decl_seq() -> Seq<char> {
    "<?xml version=\"1.0\" encoding=\"UTF-8\"?>"@
}

/// A whole document: declaration, root element, final line break.
pub open spec fn ser_doc(doc: crate::tree::DocView) -> Seq<char> {
    decl_seq() + seq!['\n'] + elem_core(doc.root, 0) + seq!['\n']
}

/// Appends the characters of `s` unchanged.
pub fn push_str_raw(s: &str, out: &mut Vec<char>)
    ensures
        final(out)@ == old(out)@ + s@,
{
    let mut cs = str_to_chars(s);
    out.append(&mut cs);
}

/// Appends `ind(d)`.
pub fn push_ind(d: usize, out: &mut Vec<char>)
    ensures
        final(out)@ == old(out)@ + ind(d as nat),
{
    let ghost base = out@;
    let mut k: usize = 0;
    while k < d
        invariant
            k <= d,
            out@ == base + ind(k as nat),
        decreases d - k,
    {
        out.push(' ');
        out.push(' ');
        proof {
            assert(out@ =~= base + (ind(k as nat) + seq![' ', ' ']));
        }
        k = k + 1;
    }
    proof {
        if d == 0 {
            assert(out@ =~= base + ind(0));
        }
    }
}

/// Appends the attribute list of `e`.
fn push_attrs(attrs: &Vec<Attr>, out: &mut Vec<char>)
    ensures
        final(out)@ == old(out)@ + ser_attrs_from(crate::tree::view_of_attrs(*attrs), 0),
{
    let ghost av = crate::tree::view_of_attrs(*attrs);
    let ghost base = out@;
    let mut ai: usize = 0;
    while ai < attrs.len()
        invariant
            ai <= attrs.len(),
            av == crate::tree::view_of_attrs(*attrs),
            out@ + ser_attrs_from(av, ai as int) == base + ser_attrs_from(av, 0),
        decreases attrs.len() - ai,
    {
        let a = &attrs[ai];
        let ghost before = out@;
        out.push(' ');
        push_str_raw(a.name.as_str(), out);
        out.push('=');
        out.push('"');
        crate::escape::escape_push(a.value.as_str(), true, out);
        out.push('"');
        proof {
            assert(av[ai as int] == attrs@[ai as int]@);
            assert(out@ =~= before + (seq![' '] + av[ai as int].name + seq!['=', '"'] + escape_seq(
                av[ai as int].value,
                true,
            ) + seq!['"']));
            assert(out@ + ser_attrs_from(av, ai + 1) =~= before + ser_attrs_from(av, ai as int));
        }
        ai = ai + 1;
    }
    proof {
        assert(ser_attrs_from(av, attrs.len() as int) =~= Seq::<char>::empty());
        assert(out@ =~= out@ + ser_attrs_from(av, attrs.len() as int));
        assert(out@ =~= base + ser_attrs_from(av, 0));
    }
}

/// Does any child hold text?
fn any_text_child(cs: &Vec<XmlNode>) -> (r: bool)
    ensures
        r == has_text_child(crate::tree::views_of_children(*cs)),
{
    let ghost cv = crate::tree::views_of_children(*cs);
    let mut ti: usize = 0;
    let mut found = false;
    while ti < cs.len()
        invariant
            ti <= cs.len(),
            cv == crate::tree::views_of_children(*cs),
            found == has_text_child(cv.take(ti as int)),
        decreases cs.len() - ti,
    {
        let is_text = match &cs[ti] {
            XmlNode::Text(_) => true,
            _ => false,
        };
        proof {
            assert(cv[ti as int] == crate::tree::view_of_node(cs@[ti as int]));
            if is_text {
                assert(cv.take(ti + 1)[ti as int] is Text);
            }
            if !is_text && has_text_child(cv.take(ti + 1)) {
                let j = choose|j: int|
                    0 <= j < cv.take(ti + 1).len() && #[trigger] cv.take(ti + 1)[j] is Text;
                if j < ti {
                    assert(cv.take(ti as int)[j] is Text);
                } else {
                    assert(cv.take(ti + 1)[ti as int] == cv[ti as int]);
                }
            }
            if found {
                let j = choose|j: int|
                    0 <= j < cv.take(ti as int).len() && #[trigger] cv.take(ti as int)[j] is Text;
                assert(cv.take(ti + 1)[j] is Text);
            }
        }
        found = found || is_text;
        ti = ti + 1;
    }
    proof {
        assert(cv.take(cs.len() as int) =~= cv);
    }
    found
}

/// Appends `elem_core(e@, d)`.
#[verifier::rlimit(60)]
pub fn push_elem(e: &Element, d: usize, out: &mut Vec<char>)
    ensures
        final(out)@ == old(out)@ + elem_core(e@, d as nat),
    decreases *e, 0nat, 0nat,
{
    let ghost base = out@;
    let ghost ev = e@;
    out.push('<');
    push_str_raw(e.tag.as_str(), out);
    push_attrs(&e.attrs, out);
    let ghost head = base + seq!['<'] + ev.tag + ser_attrs_from(ev.attrs, 0);
    proof {
        assert(out@ =~= head);
    }

    let dnext: usize = if d < 0xffff {
        d + 1
    } else {
        d
    };
    assert(dnext as nat == next_depth(d as nat));

    if e.children.len() == 0 {
        out.push('/');
        out.push('>');
        proof {
            assert(out@ =~= head + seq!['/', '>']);
        }
    } else if any_text_child(&e.children) {
        out.push('>');
        push_inline_children(&e.children, dnext, out);
        out.push('<');
        out.push('/');
        push_str_raw(e.tag.as_str(), out);
        out.push('>');
        proof {
            assert(out@ =~= head + seq!['>'] + inline_cat(ev.children, next_depth(d as nat), 0)
                + seq!['<', '/'] + ev.tag + seq!['>']);
        }
    } else {
        out.push('>');
        out.push('\n');
        push_block_children(&e.children, dnext, out);
        push_ind(d, out);
        out.push('<');
        out.push('/');
        push_str_raw(e.tag.as_str(), out);
        out.push('>');
        proof {
            assert(out@ =~= head + seq!['>', '\n'] + block_cat(
                ev.children,
                next_depth(d as nat),
                0,
            ) + ind(d as nat) + seq!['<', '/'] + ev.tag + seq!['>']);
        }
    }
}

/// Appends `inline_cat` of the children.
fn push_inline_children(cs: &Vec<XmlNode>, d: usize, out: &mut Vec<char>)
    ensures
        final(out)@ == old(out)@ + inline_cat(crate::tree::views_of_children(*cs), d as nat, 0),
    decreases *cs, 2nat, 0nat,
{
    let ghost cv = crate::tree::views_of_children(*cs);
    let ghost base = out@;
    let mut ci: usize = 0;
    while ci < cs.len()
        invariant
            ci <= cs.len(),
            cv == crate::tree::views_of_children(*cs),
            out@ + inline_cat(cv, d as nat, ci as int) == base + inline_cat(cv, d as nat, 0),
        decreases cs.len() - ci,
    {
        let ghost before = out@;
        push_node_core(&cs[ci], d, out);
        proof {
            assert(cv[ci as int] == crate::tree::view_of_node(cs@[ci as int]));
            assert(out@ + inline_cat(cv, d as nat, ci + 1) =~= before + inline_cat(
                cv,
                d as nat,
                ci as int,
            ));
        }
        ci = ci + 1;
    }
    proof {
        assert(inline_cat(cv, d as nat, cs.len() as int) =~= Seq::<char>::empty());
        assert(out@ =~= out@ + inline_cat(cv, d as nat, cs.len() as int));
        assert(out@ =~= base + inline_cat(cv, d as nat, 0));
    }
}

/// Appends `block_cat` of the children.
fn push_block_children(cs: &Vec<XmlNode>, d: usize, out: &mut Vec<char>)
    ensures
        final(out)@ == old(out)@ + block_cat(crate::tree::views_of_children(*cs), d as nat, 0),
    decreases *cs, 2nat, 0nat,
{
    let ghost cv = crate::tree::views_of_children(*cs);
    let ghost base = out@;
    let mut ci: usize = 0;
    while ci < cs.len()
        invariant
            ci <= cs.len(),
            cv == crate::tree::views_of_children(*cs),
            out@ + block_cat(cv, d as nat, ci as int) == base + block_cat(cv, d as nat, 0),
        decreases cs.len() - ci,
    {
        let ghost before = out@;
        push_ind(d, out);
        push_node_core(&cs[ci], d, out);
        out.push('\n');
        proof {
            assert(cv[ci as int] == crate::tree::view_of_node(cs@[ci as int]));
            assert(out@ =~= before + (ind(d as nat) + node_core(cv[ci as int], d as nat)
                + seq!['\n']));
            assert(out@ + block_cat(cv, d as nat, ci + 1) =~= before + block_cat(
                cv,
                d as nat,
                ci as int,
            ));
        }
        ci = ci + 1;
    }
    proof {
        assert(block_cat(cv, d as nat, cs.len() as int) =~= Seq::<char>::empty());
        assert(out@ =~= out@ + block_cat(cv, d as nat, cs.len() as int));
        assert(out@ =~= base + block_cat(cv, d as nat, 0));
    }
}

/// Appends `node_core(n@, d)`.
pub fn push_node_core(n: &XmlNode, d: usize, out: &mut Vec<char>)
    ensures
        final(out)@ == old(out)@ + node_core(n@, d as nat),
    decreases *n, 1nat, 0nat,
{
    let ghost base = out@;
    match n {
        XmlNode::Elem(e) => {
            push_elem(e, d, out);
        },
        XmlNode::Text(t) => {
            crate::escape::escape_push(t.as_str(), false, out);
        },
        XmlNode::Comment(t) => {
            out.push('<');
            out.push('!');
            out.push('-');
            out.push('-');
            push_str_raw(t.as_str(), out);
            out.push('-');
            out.push('-');
            out.push('>');
            proof {
                assert(out@ =~= base + (seq!['<', '!', '-', '-'] + t@ + seq!['-', '-', '>']));
            }
        },
        XmlNode::Pi(t) => {
            out.push('<');
            out.push('?');
            push_str_raw(t.as_str(), out);
            out.push('?');
            out.push('>');
            proof {
                assert(out@ =~= base + (seq!['<', '?'] + t@ + seq!['?', '>']));
            }
        },
    }
}

/// Renders a whole document: declaration, root element, final line break.
pub fn serialize(doc: &XmlDocument) -> (r: String)
    ensures
        r@ == ser_doc(doc@),
{
    let mut out: Vec<char> = Vec::new();
    push_str_raw("<?xml version=\"1.0\" encoding=\"UTF-8\"?>", &mut out);
    out.push('\n');
    push_elem(&doc.root, 0, &mut out);
    out.push('\n');
    proof {
        assert(out@ =~= decl_seq() + seq!['\n'] + elem_core(doc@.root, 0) + seq!['\n']);
    }
    chars_to_string(&out)
}

} // verus!
