//! Round-trip: parsing what the serializer wrote yields the same tree.
//!
//! The serializer's output is canonical, so this holds for every
//! well-formed tree — and the parser only ever produces well-formed trees,
//! which closes the loop: re-parsing a serialized parse is the parse.

use vstd::prelude::*;
use crate::chars::is_ws;
use crate::escape::{starts_with, escape_seq, unescape_seq};
use crate::identity::match_at;
use crate::parse::{
    is_name_char,
    ws_skip,
    scan_name,
    parse_name,
    take_until_lt,
    take_until_char,
    find_delim,
    trim,
    trim_end,
    parse_attrs,
    parse_nodes,
    parse_elem,
    skip_misc,
    parse_doc_spec,
    shrunk,
    attrs_have_name,
};
use crate::serialize::{
    ind,
    next_depth,
    has_text_child,
    ser_attrs_from,
    elem_core,
    node_core,
    inline_cat,
    block_cat,
    decl_seq,
    ser_doc,
};
use crate::tree::{AttrView, ElemView, NodeView, DocView};

verus! {

broadcast use vstd::seq::group_seq_axioms;

/// A usable tag or attribute name: nonempty, name characters only.
pub open spec fn valid_name(s: Seq<char>) -> bool {
    s.len() > 0 && forall|i: int| 0 <= i < s.len() ==> is_name_char(#[trigger] s[i])
}

/// Whitespace only.
pub open spec fn all_ws(s: Seq<char>) -> bool {
    forall|i: int| 0 <= i < s.len() ==> is_ws(#[trigger] s[i])
}

/// `pat` occurs nowhere in `s`.
pub open spec fn no_occurrence(s: Seq<char>, pat: Seq<char>) -> bool {
    forall|j: int| !match_at(s, pat, j)
}

/// Well-formed attributes: valid, pairwise distinct names.
pub open spec fn wf_attrs(attrs: Seq<AttrView>) -> bool {
    &&& forall|i: int| 0 <= i < attrs.len() ==> valid_name(#[trigger] attrs[i].name)
    &&& forall|i: int, j: int|
        0 <= i < j < attrs.len() ==> (#[trigger] attrs[i].name) != (#[trigger] attrs[j].name)
}

/// Well-formed character data: nonempty and trimmed (the parser stores it
/// that way, and the serializer re-indents around it).
pub open spec fn wf_text(t: Seq<char>) -> bool {
    t.len() > 0 && !is_ws(t[0]) && !is_ws(t.last())
}

/// A well-formed node.
pub open spec fn wf_node(n: NodeView) -> bool
    decreases n, 1nat, 0nat,
{
    match n {
        NodeView::Elem(e) => wf_elem(e),
        NodeView::Text(t) => wf_text(t),
        NodeView::Comment(c) => no_occurrence(c, seq!['-', '-', '>']),
        NodeView::Pi(p) => no_occurrence(p, seq!['?', '>']),
    }
}

/// A well-formed element: valid tag, well-formed attributes and children,
/// and no two adjacent text children (the parser never produces them, and
/// serialization would fuse them).
pub open spec fn wf_elem(e: ElemView) -> bool
    decreases e, 0nat, 0nat,
{
    &&& valid_name(e.tag)
    &&& wf_attrs(e.attrs)
    &&& forall|i: int| 0 <= i < e.children.len() ==> wf_node(#[trigger] e.children[i])
    &&& forall|i: int|
        0 <= i && i + 1 < e.children.len() && (#[trigger] e.children[i]) is Text ==> !(e.children[
        i + 1] is Text)
}

/// A well-formed document.
pub open spec fn wf_doc(d: DocView) -> bool {
    wf_elem(d.root)
}

/// Skipping whitespace runs to the first non-whitespace character.
proof fn lemma_ws_skip_concat(w: Seq<char>, rest: Seq<char>)
    requires
        all_ws(w),
        rest.len() == 0 || !is_ws(rest[0]),
    ensures
        ws_skip(w + rest) == rest,
    decreases w.len(),
{
    if w.len() == 0 {
        assert(w + rest =~= rest);
    } else {
        assert((w + rest)[0] == w[0]);
        assert((w + rest).skip(1) =~= w.skip(1) + rest);
        assert(all_ws(w.skip(1)));
        lemma_ws_skip_concat(w.skip(1), rest);
    }
}

/// Scanning a name stops exactly at the first non-name character.
proof fn lemma_scan_name_concat(n: Seq<char>, rest: Seq<char>)
    requires
        forall|i: int| 0 <= i < n.len() ==> is_name_char(#[trigger] n[i]),
        rest.len() == 0 || !is_name_char(rest[0]),
    ensures
        scan_name(n + rest) == (n, rest),
    decreases n.len(),
{
    if n.len() == 0 {
        assert(n + rest =~= rest);
    } else {
        assert((n + rest)[0] == n[0]);
        assert((n + rest).skip(1) =~= n.skip(1) + rest);
        lemma_scan_name_concat(n.skip(1), rest);
        assert(seq![n[0]] + n.skip(1) =~= n);
    }
}

/// A character run without `<` ends exactly at the `<` that follows it.
proof fn lemma_take_until_lt_concat(x: Seq<char>, rest: Seq<char>)
    requires
        forall|i: int| 0 <= i < x.len() ==> (#[trigger] x[i]) != '<',
        rest.len() == 0 || rest[0] == '<',
    ensures
        take_until_lt(x + rest) == (x, rest),
    decreases x.len(),
{
    if x.len() == 0 {
        assert(x + rest =~= rest);
    } else {
        assert((x + rest)[0] == x[0]);
        assert((x + rest).skip(1) =~= x.skip(1) + rest);
        lemma_take_until_lt_concat(x.skip(1), rest);
        assert(seq![x[0]] + x.skip(1) =~= x);
    }
}

/// A run without the delimiter ends exactly at the delimiter.
proof fn lemma_take_until_char_concat(x: Seq<char>, q: char, rest: Seq<char>)
    requires
        forall|i: int| 0 <= i < x.len() ==> (#[trigger] x[i]) != q,
    ensures
        take_until_char(x + seq![q] + rest, q) == Some((x, rest)),
    decreases x.len(),
{
    let s = x + seq![q] + rest;
    if x.len() == 0 {
        assert(s[0] == q);
        assert(s.skip(1) =~= rest);
    } else {
        assert(s[0] == x[0]);
        assert(s.skip(1) =~= x.skip(1) + seq![q] + rest);
        lemma_take_until_char_concat(x.skip(1), q, rest);
        assert(seq![x[0]] + x.skip(1) =~= x);
    }
}

/// A comment body without `-->` ends exactly at the `-->` that closes it.
proof fn lemma_find_comment_end(c: Seq<char>, rest: Seq<char>)
    requires
        no_occurrence(c, seq!['-', '-', '>']),
    ensures
        find_delim(c + seq!['-', '-', '>'] + rest, seq!['-', '-', '>']) == Some((c, rest)),
    decreases c.len(),
{
    let pat = seq!['-', '-', '>'];
    let s = c + pat + rest;
    if c.len() == 0 {
        assert(s.subrange(0, 3) =~= pat);
        assert(starts_with(s, pat));
        assert(s.skip(3) =~= rest);
    } else {
        assert(!starts_with(s, pat)) by {
            if starts_with(s, pat) {
                assert(s.subrange(0, 3) == pat);
                assert(s[0] == '-' && s[1] == '-' && s[2] == '>') by {
                    assert(s.subrange(0, 3)[0] == s[0]);
                    assert(s.subrange(0, 3)[1] == s[1]);
                    assert(s.subrange(0, 3)[2] == s[2]);
                }
                if c.len() >= 3 {
                    assert(c.subrange(0, 3) =~= pat);
                    assert(match_at(c, pat, 0));
                } else if c.len() == 2 {
                    // the `>` would have to be the first appended `-`
                    assert(s[2] == pat[0]);
                } else {
                    // c.len() == 1: the `>` would have to be the second `-`
                    assert(s[1] == pat[0] && s[2] == pat[1]);
                }
            }
        }
        assert(s[0] == c[0]);
        assert(s.skip(1) =~= c.skip(1) + pat + rest);
        assert(no_occurrence(c.skip(1), pat)) by {
            assert forall|j: int| !match_at(c.skip(1), pat, j) by {
                if match_at(c.skip(1), pat, j) {
                    assert(c.skip(1).subrange(j, j + 3) =~= c.subrange(j + 1, j + 4));
                    assert(match_at(c, pat, j + 1));
                }
            }
        }
        lemma_find_comment_end(c.skip(1), rest);
        assert(seq![c[0]] + c.skip(1) =~= c);
    }
}

/// An instruction body without `?>` ends exactly at the `?>` that closes it.
proof fn lemma_find_pi_end(c: Seq<char>, rest: Seq<char>)
    requires
        no_occurrence(c, seq!['?', '>']),
    ensures
        find_delim(c + seq!['?', '>'] + rest, seq!['?', '>']) == Some((c, rest)),
    decreases c.len(),
{
    let pat = seq!['?', '>'];
    let s = c + pat + rest;
    if c.len() == 0 {
        assert(s.subrange(0, 2) =~= pat);
        assert(starts_with(s, pat));
        assert(s.skip(2) =~= rest);
    } else {
        assert(!starts_with(s, pat)) by {
            if starts_with(s, pat) {
                assert(s.subrange(0, 2) == pat);
                assert(s[0] == '?' && s[1] == '>') by {
                    assert(s.subrange(0, 2)[0] == s[0]);
                    assert(s.subrange(0, 2)[1] == s[1]);
                }
                if c.len() >= 2 {
                    assert(c.subrange(0, 2) =~= pat);
                    assert(match_at(c, pat, 0));
                } else {
                    // c.len() == 1: the `>` would have to be the appended `?`
                    assert(s[1] == pat[0]);
                }
            }
        }
        assert(s[0] == c[0]);
        assert(s.skip(1) =~= c.skip(1) + pat + rest);
        assert(no_occurrence(c.skip(1), pat)) by {
            assert forall|j: int| !match_at(c.skip(1), pat, j) by {
                if match_at(c.skip(1), pat, j) {
                    assert(c.skip(1).subrange(j, j + 2) =~= c.subrange(j + 1, j + 3));
                    assert(match_at(c, pat, j + 1));
                }
            }
        }
        lemma_find_pi_end(c.skip(1), rest);
        assert(seq![c[0]] + c.skip(1) =~= c);
    }
}

/// Decoding text without `&` leaves it unchanged.
proof fn lemma_unescape_plain(s: Seq<char>)
    requires
        forall|i: int| 0 <= i < s.len() ==> (#[trigger] s[i]) != '&',
    ensures
        unescape_seq(s) == Some(s),
    decreases s.len(),
{
    if s.len() > 0 {
        lemma_unescape_plain(s.skip(1));
        assert(seq![s[0]] + s.skip(1) =~= s);
    }
}

/// Trimming strips exactly the whitespace padding around trimmed text.
proof fn lemma_trim_pad(w1: Seq<char>, t: Seq<char>, w2: Seq<char>)
    requires
        all_ws(w1),
        all_ws(w2),
        wf_text(t),
    ensures
        trim(w1 + t + w2) == t,
{
    assert(w1 + t + w2 =~= w1 + (t + w2));
    assert((t + w2)[0] == t[0]);
    lemma_ws_skip_concat(w1, t + w2);
    lemma_trim_end_pad(t, w2);
}

/// Trailing whitespace is dropped down to the trimmed text.
proof fn lemma_trim_end_pad(t: Seq<char>, w2: Seq<char>)
    requires
        all_ws(w2),
        t.len() > 0,
        !is_ws(t.last()),
    ensures
        trim_end(t + w2) == t,
    decreases w2.len(),
{
    if w2.len() == 0 {
        assert(t + w2 =~= t);
    } else {
        assert((t + w2).last() == w2.last());
        assert((t + w2).drop_last() =~= t + w2.drop_last());
        assert(all_ws(w2.drop_last()));
        lemma_trim_end_pad(t, w2.drop_last());
    }
}

/// A whitespace run trims to nothing.
proof fn lemma_trim_ws(w: Seq<char>)
    requires
        all_ws(w),
    ensures
        trim(w) == Seq::<char>::empty(),
{
    assert(w =~= w + Seq::<char>::empty());
    lemma_ws_skip_concat(w, Seq::empty());
}

/// Encoding a nonempty text is nonempty.
proof fn lemma_escape_nonempty(t: Seq<char>, quoted: bool)
    requires
        t.len() > 0,
    ensures
        escape_seq(t, quoted).len() > 0,
{
    assert(crate::escape::esc_char(t[0], quoted).len() >= 1);
}

/// Name characters are neither whitespace nor any delimiter the parser
/// watches for.
proof fn lemma_name_char_facts(c: char)
    requires
        is_name_char(c),
    ensures
        !is_ws(c),
        c != '<' && c != '>' && c != '/' && c != '=' && c != '"' && c != '\'' && c != '!' && c
            != '?',
{
}

/// Parsing the serialized attribute tail from `i` yields the attributes
/// from `i` and stops at the tag-closing character.
proof fn lemma_ser_attrs(attrs: Seq<AttrView>, i: int, tail: Seq<char>)
    requires
        wf_attrs(attrs),
        0 <= i <= attrs.len(),
        tail.len() > 0,
        tail[0] == '/' || tail[0] == '>',
    ensures
        parse_attrs(ser_attrs_from(attrs, i) + tail) == Some((attrs.skip(i), tail)),
    decreases attrs.len() - i,
{
    if i == attrs.len() {
        assert(ser_attrs_from(attrs, i) + tail =~= tail);
        assert(ws_skip(tail) == tail);
        assert(attrs.skip(i) =~= Seq::<AttrView>::empty());
    } else {
        let name = attrs[i].name;
        let value = attrs[i].value;
        let esc = escape_seq(value, true);
        let r4 = ser_attrs_from(attrs, i + 1) + tail;
        let s = ser_attrs_from(attrs, i) + tail;
        assert(s =~= seq![' '] + (name + (seq!['=', '"'] + (esc + (seq!['"'] + r4)))));
        let rest0 = name + (seq!['=', '"'] + (esc + (seq!['"'] + r4)));
        lemma_name_char_facts(name[0]);
        assert(rest0[0] == name[0]);
        lemma_ws_skip_concat(seq![' '], rest0);
        assert(ws_skip(s) == rest0);
        // the name
        assert(rest0 =~= name + (seq!['=', '"'] + (esc + (seq!['"'] + r4))));
        let after_name = seq!['=', '"'] + (esc + (seq!['"'] + r4));
        assert(after_name[0] == '=');
        lemma_scan_name_concat(name, after_name);
        assert(parse_name(rest0) == Some((name, after_name)));
        // `=` then the opening quote
        assert(after_name.skip(1) =~= seq!['"'] + (esc + (seq!['"'] + r4)));
        let quoted_part = after_name.skip(1);
        assert(ws_skip(after_name) == after_name);
        assert(ws_skip(quoted_part) == quoted_part);
        assert(quoted_part[0] == '"');
        // the value, up to the closing quote
        crate::escape::lemma_escape_clean(value, true);
        assert(quoted_part.skip(1) =~= esc + seq!['"'] + r4);
        lemma_take_until_char_concat(esc, '"', r4);
        crate::escape::lemma_unescape_escape(value, true);
        // the remaining attributes
        assert(r4.len() < s.len()) by {
            assert(s.len() == 1 + name.len() + 2 + esc.len() + 1 + r4.len());
        }
        assert(shrunk(s, r4) == r4);
        lemma_ser_attrs(attrs, i + 1, tail);
        // no duplicate: the names from i+1 on differ from this one
        assert(!attrs_have_name(attrs.skip(i + 1), name)) by {
            if attrs_have_name(attrs.skip(i + 1), name) {
                let j = choose|j: int|
                    0 <= j < attrs.skip(i + 1).len() && #[trigger] attrs.skip(i + 1)[j].name
                        == name;
                assert(attrs[i + 1 + j].name == name);
                assert(attrs[i].name != attrs[i + 1 + j].name);
            }
        }
        assert(seq![AttrView { name, value }] + attrs.skip(i + 1) =~= attrs.skip(i)) by {
            assert(AttrView { name, value } == attrs[i]);
        }
    }
}

/// The rendering of an element starts `<` then a name character, so the
/// parser's dispatch lands on the element branch.
proof fn lemma_elem_core_head(e: ElemView, d: nat, tail: Seq<char>)
    requires
        valid_name(e.tag),
    ensures
        (elem_core(e, d) + tail).len() >= 2,
        (elem_core(e, d) + tail)[0] == '<',
        is_name_char((elem_core(e, d) + tail)[1]),
{
    let s = elem_core(e, d) + tail;
    let head = seq!['<'] + e.tag + ser_attrs_from(e.attrs, 0);
    assert(head[0] == '<' && head[1] == e.tag[0]);
    assert(s[0] == head[0] && s[1] == head[1]);
}

/// Parsing the rendering of a well-formed element gives back exactly that
/// element, with the trailing text untouched.
#[verifier::rlimit(80)]
proof fn lemma_ser_elem(e: ElemView, d: nat, tail: Seq<char>)
    requires
        wf_elem(e),
    ensures
        parse_elem(elem_core(e, d) + tail) == Some((e, tail)),
    decreases e, 0nat, 0int, 0nat,
{
    let s = elem_core(e, d) + tail;
    let head = seq!['<'] + e.tag + ser_attrs_from(e.attrs, 0);
    assert(s[0] == '<') by {
        assert(head[0] == '<');
    }
    // the tag name
    let closing = if e.children.len() == 0 {
        seq!['/', '>']
    } else if has_text_child(e.children) {
        seq!['>'] + inline_cat(e.children, next_depth(d), 0) + seq!['<', '/'] + e.tag + seq!['>']
    } else {
        seq!['>', '\n'] + block_cat(e.children, next_depth(d), 0) + ind(d) + seq!['<', '/']
            + e.tag + seq!['>']
    };
    assert(s =~= seq!['<'] + (e.tag + (ser_attrs_from(e.attrs, 0) + (closing + tail))));
    assert(s.skip(1) =~= e.tag + (ser_attrs_from(e.attrs, 0) + (closing + tail)));
    let after_tag = ser_attrs_from(e.attrs, 0) + (closing + tail);
    assert(after_tag.len() > 0 && !is_name_char(after_tag[0])) by {
        if e.attrs.len() > 0 {
            assert(ser_attrs_from(e.attrs, 0)[0] == ' ');
            assert(after_tag[0] == ' ');
        } else {
            assert(ser_attrs_from(e.attrs, 0) =~= Seq::<char>::empty());
            assert(after_tag[0] == closing[0]);
            assert(closing[0] == '/' || closing[0] == '>');
        }
    }
    lemma_scan_name_concat(e.tag, after_tag);
    assert(parse_name(s.skip(1)) == Some((e.tag, after_tag)));
    // the attributes
    let ct = closing + tail;
    assert(ct[0] == '/' || ct[0] == '>');
    assert(after_tag =~= ser_attrs_from(e.attrs, 0) + ct);
    lemma_ser_attrs(e.attrs, 0, ct);
    assert(after_tag.len() < s.len()) by {
        assert(s.len() == 1 + e.tag.len() + after_tag.len());
    }
    assert(shrunk(s, after_tag) == after_tag);
    assert(e.attrs.skip(0) =~= e.attrs);
    assert(parse_attrs(after_tag) == Some((e.attrs, ct)));

    if e.children.len() == 0 {
        assert(ct =~= seq!['/', '>'] + tail);
        assert(ct.subrange(0, 2) =~= seq!['/', '>']);
        assert(starts_with(ct, seq!['/', '>']));
        assert(ct.skip(2) =~= tail);
        assert(e =~~= ElemView { tag: e.tag, attrs: e.attrs, children: Seq::empty() }) by {
            assert(e.children =~= Seq::<NodeView>::empty());
        }
    } else {
        assert(!starts_with(ct, seq!['/', '>'])) by {
            if starts_with(ct, seq!['/', '>']) {
                assert(ct.subrange(0, 2)[0] == ct[0]);
            }
        }
        assert(ct[0] == '>');
        if has_text_child(e.children) {
            let m = seq!['<', '/'] + e.tag + seq!['>'] + tail;
            assert(ct.skip(1) =~= inline_cat(e.children, next_depth(d), 0) + m);
            assert(m.subrange(0, 2) =~= seq!['<', '/']);
            assert(starts_with(m, seq!['<', '/']));
            assert(ct.skip(1).len() < s.len());
            assert(shrunk(s, ct.skip(1)) == ct.skip(1));
            lemma_ser_inline(e.children, next_depth(d), 0, m);
            assert(e.children.skip(0) =~= e.children);
            lemma_close_tag(e, m, tail);
        } else {
            let m = seq!['<', '/'] + e.tag + seq!['>'] + tail;
            assert(ct.skip(1) =~= seq!['\n'] + block_cat(e.children, next_depth(d), 0) + ind(d)
                + m);
            assert(m.subrange(0, 2) =~= seq!['<', '/']);
            assert(starts_with(m, seq!['<', '/']));
            assert(ct.skip(1).len() < s.len());
            assert(shrunk(s, ct.skip(1)) == ct.skip(1));
            crate::serialize::lemma_ind_ws(d);
            assert(all_ws(seq!['\n']));
            assert(all_ws(ind(d)));
            assert forall|j: int|
                0 <= j < e.children.len() implies !((#[trigger] e.children[j]) is Text) by {
                if e.children[j] is Text {
                    assert(has_text_child(e.children));
                }
            }
            lemma_ser_block(e.children, next_depth(d), 0, seq!['\n'], ind(d), m);
            assert(seq!['\n'] + block_cat(e.children, next_depth(d), 0) + ind(d) + m
                =~= seq!['\n'] + block_cat(e.children, next_depth(d), 0) + (ind(d) + m));
            assert(e.children.skip(0) =~= e.children);
            lemma_close_tag(e, m, tail);
        }
    }
}

/// The closing tag `</tag>` parses to the element's own tag and leaves the
/// trailing text.
proof fn lemma_close_tag(e: ElemView, m: Seq<char>, tail: Seq<char>)
    requires
        valid_name(e.tag),
        m == seq!['<', '/'] + e.tag + seq!['>'] + tail,
    ensures
        starts_with(m, seq!['<', '/']),
        parse_name(m.skip(2)) == Some((e.tag, seq!['>'] + tail)),
        ws_skip(seq!['>'] + tail) == seq!['>'] + tail,
        (seq!['>'] + tail)[0] == '>',
        (seq!['>'] + tail).skip(1) == tail,
{
    assert(m.subrange(0, 2) =~= seq!['<', '/']);
    assert(m.skip(2) =~= e.tag + (seq!['>'] + tail));
    assert((seq!['>'] + tail)[0] == '>');
    lemma_scan_name_concat(e.tag, seq!['>'] + tail);
    assert(ws_skip(seq!['>'] + tail) == seq!['>'] + tail);
    assert((seq!['>'] + tail).skip(1) =~= tail);
}

/// Parsing the one-line rendering of mixed content gives back exactly the
/// children from `i` on, stopping at the closing tag.
proof fn lemma_ser_inline(cs: Seq<NodeView>, d: nat, i: int, m: Seq<char>)
    requires
        0 <= i <= cs.len(),
        forall|j: int| i <= j < cs.len() ==> wf_node(#[trigger] cs[j]),
        forall|j: int|
            i <= j && j + 1 < cs.len() && (#[trigger] cs[j]) is Text ==> !(cs[j + 1] is Text),
        m.len() >= 2,
        starts_with(m, seq!['<', '/']),
    ensures
        parse_nodes(inline_cat(cs, d, i) + m) == Some((cs.skip(i), m)),
    decreases cs, 1nat, cs.len() - i, 0nat,
{
    let s = inline_cat(cs, d, i) + m;
    if i == cs.len() {
        assert(s =~= m);
        assert(cs.skip(i) =~= Seq::<NodeView>::empty());
        assert(m[0] == '<' && m[1] == '/') by {
            assert(m.subrange(0, 2)[0] == m[0] && m.subrange(0, 2)[1] == m[1]);
        }
        crate::parse::lemma_not_starts_with_bang(m);
    } else {
        let rest = inline_cat(cs, d, i + 1) + m;
        assert(s =~= node_core(cs[i], d) + rest);
        assert(rest.len() >= 2);
        lemma_ser_inline(cs, d, i + 1, m);
        match cs[i] {
            NodeView::Elem(e) => {
                lemma_dispatch_elem(e, d, rest);
                lemma_ser_elem(e, d, rest);
                assert(rest.len() < s.len()) by {
                    lemma_elem_core_head(e, d, rest);
                    assert(s.len() == elem_core(e, d).len() + rest.len());
                }
                assert(shrunk(s, rest) == rest);
                assert(seq![cs[i]] + cs.skip(i + 1) =~= cs.skip(i));
            },
            NodeView::Text(t) => {
                let esc = escape_seq(t, false);
                assert(s =~= esc + rest);
                crate::escape::lemma_escape_clean(t, false);
                lemma_escape_nonempty(t, false);
                assert(s[0] == esc[0]);
                assert(s[0] != '<');
                crate::parse::lemma_not_starts_with_bang(s);
                crate::parse::lemma_not_starts_with_close(s);
                crate::parse::lemma_not_starts_with_pi(s);
                assert(rest[0] == '<') by {
                    if i + 1 == cs.len() {
                        assert(rest =~= m);
                        assert(m.subrange(0, 2)[0] == m[0]);
                    } else {
                        assert(!(cs[i + 1] is Text));
                        lemma_core_head(cs[i + 1], d);
                        assert(rest[0] == node_core(cs[i + 1], d)[0]);
                    }
                }
                lemma_take_until_lt_concat(esc, rest);
                assert(take_until_lt(s) == (esc, rest));
                crate::escape::lemma_unescape_escape(t, false);
                lemma_trim_pad(Seq::empty(), t, Seq::empty());
                assert(Seq::<char>::empty() + t + Seq::<char>::empty() =~= t);
                assert(trim(t) == t);
                assert(rest.len() < s.len());
                assert(shrunk(s, rest) == rest);
                assert(seq![cs[i]] + cs.skip(i + 1) =~= cs.skip(i));
            },
            NodeView::Comment(c) => {
                assert(s =~= seq!['<', '!', '-', '-'] + (c + seq!['-', '-', '>'] + rest));
                assert(s.subrange(0, 4) =~= seq!['<', '!', '-', '-']);
                assert(starts_with(s, seq!['<', '!', '-', '-']));
                assert(s.skip(4) =~= c + seq!['-', '-', '>'] + rest);
                lemma_find_comment_end(c, rest);
                assert(rest.len() < s.len());
                assert(shrunk(s, rest) == rest);
                assert(seq![cs[i]] + cs.skip(i + 1) =~= cs.skip(i));
            },
            NodeView::Pi(p) => {
                assert(s =~= seq!['<', '?'] + (p + seq!['?', '>'] + rest));
                assert(s.subrange(0, 2) =~= seq!['<', '?']);
                assert(starts_with(s, seq!['<', '?']));
                assert(s[0] == '<' && s[1] == '?');
                crate::parse::lemma_not_starts_with_bang(s);
                crate::parse::lemma_not_starts_with_close(s);
                assert(s.skip(2) =~= p + seq!['?', '>'] + rest);
                lemma_find_pi_end(p, rest);
                assert(rest.len() < s.len());
                assert(shrunk(s, rest) == rest);
                assert(seq![cs[i]] + cs.skip(i + 1) =~= cs.skip(i));
            },
        }
    }
}

/// The rendering of a non-text node begins with `<`, and for an element the
/// next character is a name character.
proof fn lemma_core_head(n: NodeView, d: nat)
    requires
        wf_node(n),
        !(n is Text),
    ensures
        node_core(n, d).len() >= 2,
        node_core(n, d)[0] == '<',
    decreases n,
{
    match n {
        NodeView::Elem(e) => {
            let head = seq!['<'] + e.tag + ser_attrs_from(e.attrs, 0);
            assert(node_core(n, d)[0] == head[0]);
        },
        _ => {},
    }
}

/// Parse of a rendered node at the head of a block line, then the rest of
/// the block.
proof fn lemma_ser_block_core(cs: Seq<NodeView>, d: nat, i: int, tw: Seq<char>, m: Seq<char>)
    requires
        0 <= i < cs.len(),
        forall|j: int| i <= j < cs.len() ==> wf_node(#[trigger] cs[j]),
        forall|j: int| i <= j < cs.len() ==> !((#[trigger] cs[j]) is Text),
        all_ws(tw),
        m.len() >= 2,
        starts_with(m, seq!['<', '/']),
    ensures
        parse_nodes(node_core(cs[i], d) + (seq!['\n'] + block_cat(cs, d, i + 1)) + tw + m)
            == Some((cs.skip(i), m)),
    decreases cs, 1nat, cs.len() - i, 0nat,
{
    let rest = (seq!['\n'] + block_cat(cs, d, i + 1)) + tw + m;
    let s = node_core(cs[i], d) + (seq!['\n'] + block_cat(cs, d, i + 1)) + tw + m;
    assert(s =~= node_core(cs[i], d) + rest);
    assert(rest =~= seq!['\n'] + block_cat(cs, d, i + 1) + tw + m);
    lemma_ser_block(cs, d, i + 1, seq!['\n'], tw, m);
    assert(rest.len() >= 1);
    match cs[i] {
        NodeView::Elem(e) => {
            lemma_dispatch_elem(e, d, rest);
            lemma_ser_elem(e, d, rest);
            assert(rest.len() < s.len()) by {
                lemma_elem_core_head(e, d, rest);
                assert(s.len() == elem_core(e, d).len() + rest.len());
            }
            assert(shrunk(s, rest) == rest);
            assert(seq![cs[i]] + cs.skip(i + 1) =~= cs.skip(i));
        },
        NodeView::Comment(c) => {
            assert(s =~= seq!['<', '!', '-', '-'] + (c + seq!['-', '-', '>'] + rest));
            assert(s.subrange(0, 4) =~= seq!['<', '!', '-', '-']);
            assert(starts_with(s, seq!['<', '!', '-', '-']));
            assert(s.skip(4) =~= c + seq!['-', '-', '>'] + rest);
            lemma_find_comment_end(c, rest);
            assert(rest.len() < s.len());
            assert(shrunk(s, rest) == rest);
            assert(seq![cs[i]] + cs.skip(i + 1) =~= cs.skip(i));
        },
        NodeView::Pi(p) => {
            assert(s =~= seq!['<', '?'] + (p + seq!['?', '>'] + rest));
            assert(s.subrange(0, 2) =~= seq!['<', '?']);
            assert(starts_with(s, seq!['<', '?']));
            assert(s[0] == '<' && s[1] == '?');
            crate::parse::lemma_not_starts_with_bang(s);
            crate::parse::lemma_not_starts_with_close(s);
            assert(s.skip(2) =~= p + seq!['?', '>'] + rest);
            lemma_find_pi_end(p, rest);
            assert(rest.len() < s.len());
            assert(shrunk(s, rest) == rest);
            assert(seq![cs[i]] + cs.skip(i + 1) =~= cs.skip(i));
        },
        NodeView::Text(_) => {
            assert(false);
        },
    }
}

/// The parser's dispatch on a rendered element: not a comment, not a
/// closing tag, not an instruction.
proof fn lemma_dispatch_elem(e: ElemView, d: nat, rest: Seq<char>)
    requires
        valid_name(e.tag),
    ensures
        !starts_with(elem_core(e, d) + rest, seq!['<', '!', '-', '-']),
        !starts_with(elem_core(e, d) + rest, seq!['<', '/']),
        !starts_with(elem_core(e, d) + rest, seq!['<', '?']),
        (elem_core(e, d) + rest)[0] == '<',
{
    let s = elem_core(e, d) + rest;
    lemma_elem_core_head(e, d, rest);
    lemma_name_char_facts(s[1]);
    crate::parse::lemma_not_starts_with_bang(s);
    crate::parse::lemma_not_starts_with_close(s);
    crate::parse::lemma_not_starts_with_pi(s);
}

/// Parsing an indented block of non-text children gives back exactly the
/// children from `i` on, stopping at the closing tag.
proof fn lemma_ser_block(
    cs: Seq<NodeView>,
    d: nat,
    i: int,
    pre: Seq<char>,
    tw: Seq<char>,
    m: Seq<char>,
)
    requires
        0 <= i <= cs.len(),
        forall|j: int| i <= j < cs.len() ==> wf_node(#[trigger] cs[j]),
        forall|j: int| i <= j < cs.len() ==> !((#[trigger] cs[j]) is Text),
        all_ws(pre),
        all_ws(tw),
        m.len() >= 2,
        starts_with(m, seq!['<', '/']),
    ensures
        parse_nodes(pre + block_cat(cs, d, i) + tw + m) == Some((cs.skip(i), m)),
    decreases cs, 1nat, cs.len() - i, 1nat,
{
    let s = pre + block_cat(cs, d, i) + tw + m;
    assert(m[0] == '<' && m[1] == '/') by {
        assert(m.subrange(0, 2)[0] == m[0] && m.subrange(0, 2)[1] == m[1]);
    }
    if i == cs.len() {
        assert(cs.skip(i) =~= Seq::<NodeView>::empty());
        let w = pre + tw;
        assert(s =~= w + m);
        if w.len() == 0 {
            assert(s =~= m);
            crate::parse::lemma_not_starts_with_bang(m);
        } else {
            assert(all_ws(w));
            assert(s[0] == w[0]);
            assert(!is_ws('<'));
            assert(s[0] != '<');
            crate::parse::lemma_not_starts_with_bang(s);
            crate::parse::lemma_not_starts_with_close(s);
            crate::parse::lemma_not_starts_with_pi(s);
            lemma_take_until_lt_concat(w, m);
            assert(take_until_lt(s) == (w, m));
            lemma_unescape_plain(w);
            lemma_trim_ws(w);
            assert(m.len() < s.len());
            assert(shrunk(s, m) == m);
            assert(parse_nodes(m) == Some((Seq::<NodeView>::empty(), m))) by {
                crate::parse::lemma_not_starts_with_bang(m);
            }
        }
    } else {
        let w = pre + ind(d);
        crate::serialize::lemma_ind_ws(d);
        assert(all_ws(w));
        let core_and_on = node_core(cs[i], d) + (seq!['\n'] + block_cat(cs, d, i + 1)) + tw + m;
        assert(s =~= w + core_and_on) by {
            assert(block_cat(cs, d, i) =~= ind(d) + node_core(cs[i], d) + seq!['\n'] + block_cat(
                cs,
                d,
                i + 1,
            ));
        }
        lemma_ser_block_core(cs, d, i, tw, m);
        if w.len() == 0 {
            assert(s =~= core_and_on);
        } else {
            lemma_core_head(cs[i], d);
            assert(core_and_on[0] == node_core(cs[i], d)[0]);
            assert(core_and_on[0] == '<');
            assert(s[0] == w[0]);
            assert(!is_ws('<'));
            assert(s[0] != '<');
            crate::parse::lemma_not_starts_with_bang(s);
            crate::parse::lemma_not_starts_with_close(s);
            crate::parse::lemma_not_starts_with_pi(s);
            lemma_take_until_lt_concat(w, core_and_on);
            assert(take_until_lt(s) == (w, core_and_on));
            lemma_unescape_plain(w);
            lemma_trim_ws(w);
            assert(core_and_on.len() < s.len());
            assert(shrunk(s, core_and_on) == core_and_on);
        }
    }
}

/// Parsing the rendering of a whole well-formed document gives back
/// exactly that document.
pub proof fn lemma_parse_ser_doc(d: DocView)
    requires
        wf_doc(d),
    ensures
        parse_doc_spec(ser_doc(d)) == Some(d),
{
    reveal_strlit("<?xml version=\"1.0\" encoding=\"UTF-8\"?>");
    let decl = decl_seq();
    assert(decl.len() == 38);
    let body = decl.subrange(2, 36);
    assert(decl =~= seq!['<', '?'] + body + seq!['?', '>']);
    let core = elem_core(d.root, 0);
    let rest = seq!['\n'] + core + seq!['\n'];
    let s = ser_doc(d);
    assert(s =~= decl + rest);

    // the declaration is skipped as one instruction
    assert(s[0] == '<' && s[1] == '?');
    assert(!is_ws(s[0]));
    assert(ws_skip(s) == s);
    crate::parse::lemma_not_starts_with_bang(s);
    assert(s.subrange(0, 2) =~= seq!['<', '?']);
    assert(starts_with(s, seq!['<', '?']));
    assert(s.skip(2) =~= body + seq!['?', '>'] + rest);
    assert(no_occurrence(body, seq!['?', '>'])) by {
        assert forall|j: int| !match_at(body, seq!['?', '>'], j) by {
            if match_at(body, seq!['?', '>'], j) {
                assert(body.subrange(j, j + 2)[0] == body[j]);
                assert(body[j] == '?');
                assert(decl[j + 2] == '?');
            }
        }
    }
    lemma_find_pi_end(body, rest);
    assert(rest.len() < s.len());
    assert(shrunk(s, rest) == rest);

    // whitespace, then the root element
    lemma_elem_core_head(d.root, 0, seq!['\n']);
    assert(core[0] == '<') by {
        assert((core + seq!['\n'])[0] == core[0]);
    }
    assert(rest[0] == '\n');
    assert(is_ws(rest[0]));
    assert(rest.skip(1) =~= core + seq!['\n']);
    assert(ws_skip(rest) == core + seq!['\n']) by {
        assert(rest =~= seq!['\n'] + (core + seq!['\n']));
        lemma_ws_skip_concat(seq!['\n'], core + seq!['\n']);
    }
    let t = core + seq!['\n'];
    lemma_dispatch_elem(d.root, 0, seq!['\n']);
    assert(skip_misc(rest) == Some(t));
    assert(skip_misc(s) == Some(t));
    lemma_ser_elem(d.root, 0, seq!['\n']);
    assert(parse_elem(t) == Some((d.root, seq!['\n'])));

    // trailing whitespace only
    assert(ws_skip(seq!['\n']) == Seq::<char>::empty()) by {
        assert(seq!['\n'] =~= seq!['\n'] + Seq::<char>::empty());
        lemma_ws_skip_concat(seq!['\n'], Seq::empty());
    }
    assert(skip_misc(seq!['\n']) == Some(Seq::<char>::empty())) by {
        assert(!starts_with(Seq::<char>::empty(), seq!['<', '!', '-', '-']));
        assert(!starts_with(Seq::<char>::empty(), seq!['<', '?']));
    }
    assert(parse_doc_spec(s) == Some(DocView { root: d.root }));
    assert(DocView { root: d.root } == d);
}

/// The name a scan yields holds name characters only.
proof fn lemma_scan_name_chars(s: Seq<char>)
    ensures
        forall|i: int|
            0 <= i < scan_name(s).0.len() ==> is_name_char(#[trigger] scan_name(s).0[i]),
    decreases s.len(),
{
    if s.len() > 0 && is_name_char(s[0]) {
        lemma_scan_name_chars(s.skip(1));
        let (n, r) = scan_name(s.skip(1));
        assert forall|i: int|
            0 <= i < scan_name(s).0.len() implies is_name_char(#[trigger] scan_name(s).0[i]) by {
            if i > 0 {
                assert(scan_name(s).0[i] == n[i - 1]);
            }
        }
    }
}

/// What a delimiter search skips holds no occurrence of the delimiter,
/// and the input is exactly skipped part, delimiter, rest.
proof fn lemma_find_delim_no_occ(s: Seq<char>, pat: Seq<char>)
    requires
        find_delim(s, pat) is Some,
    ensures
        no_occurrence(find_delim(s, pat)->Some_0.0, pat),
        s == find_delim(s, pat)->Some_0.0 + pat + find_delim(s, pat)->Some_0.1,
    decreases s.len(),
{
    let (c, r) = find_delim(s, pat)->Some_0;
    if starts_with(s, pat) {
        assert(s =~= Seq::<char>::empty() + pat + s.skip(pat.len() as int));
        assert forall|j: int| !match_at(c, pat, j) by {}
    } else {
        lemma_find_delim_no_occ(s.skip(1), pat);
        let (c2, r2) = find_delim(s.skip(1), pat)->Some_0;
        assert(c == seq![s[0]] + c2);
        assert(s =~= seq![s[0]] + s.skip(1));
        assert(s =~= (seq![s[0]] + c2) + pat + r);
        assert forall|j: int| !match_at(c, pat, j) by {
            if match_at(c, pat, j) {
                if j == 0 {
                    assert(c.subrange(0, pat.len() as int) == pat);
                    assert(s.subrange(0, pat.len() as int) =~= c.subrange(0, pat.len() as int));
                    assert(starts_with(s, pat));
                } else {
                    assert(c.subrange(j, j + pat.len()) =~= c2.subrange(j - 1, j - 1 + pat.len()));
                    assert(match_at(c2, pat, j - 1));
                }
            }
        }
    }
}

/// A trimmed run is either empty or trimmed text.
proof fn lemma_trim_wf(u: Seq<char>)
    ensures
        trim(u).len() > 0 ==> wf_text(trim(u)),
{
    lemma_ws_skip_head(u);
    let x = ws_skip(u);
    lemma_trim_end_props(x);
}

/// Skipped whitespace leaves a non-whitespace head (or nothing).
proof fn lemma_ws_skip_head(s: Seq<char>)
    ensures
        ws_skip(s).len() > 0 ==> !is_ws(ws_skip(s)[0]),
    decreases s.len(),
{
    if s.len() > 0 && is_ws(s[0]) {
        lemma_ws_skip_head(s.skip(1));
    }
}

/// Trimming the end keeps the head and leaves a non-whitespace last
/// character (or nothing).
proof fn lemma_trim_end_props(x: Seq<char>)
    ensures
        trim_end(x).len() > 0 ==> !is_ws(trim_end(x).last()),
        trim_end(x).len() > 0 ==> trim_end(x)[0] == x[0],
    decreases x.len(),
{
    if x.len() > 0 && is_ws(x.last()) {
        lemma_trim_end_props(x.drop_last());
        if trim_end(x).len() > 0 {
            assert(x.drop_last()[0] == x[0]);
        }
    }
}

/// Attributes a parse yields are well formed.
proof fn lemma_parse_attrs_wf(s: Seq<char>)
    requires
        parse_attrs(s) is Some,
    ensures
        wf_attrs(parse_attrs(s)->Some_0.0),
    decreases s.len(),
{
    let t = ws_skip(s);
    if t[0] == '/' || t[0] == '>' {
    } else {
        let (name, r1) = parse_name(t)->Some_0;
        let r2 = ws_skip(r1);
        let r3 = ws_skip(r2.skip(1));
        let (raw, r4) = take_until_char(r3.skip(1), r3[0])->Some_0;
        lemma_parse_attrs_wf(shrunk(s, r4));
        let (rest, r5) = parse_attrs(shrunk(s, r4))->Some_0;
        lemma_scan_name_chars(t);
        let whole = parse_attrs(s)->Some_0.0;
        assert(whole == seq![AttrView { name, value: unescape_seq(raw)->Some_0 }] + rest);
        assert forall|i: int| 0 <= i < whole.len() implies valid_name(#[trigger] whole[i].name) by {
            if i > 0 {
                assert(whole[i] == rest[i - 1]);
            }
        }
        assert forall|i: int, j: int|
            0 <= i < j < whole.len() implies (#[trigger] whole[i].name) != (
        #[trigger] whole[j].name) by {
            if i == 0 {
                assert(whole[j] == rest[j - 1]);
                assert(!attrs_have_name(rest, name));
                assert(rest[j - 1].name != name);
            } else {
                assert(whole[i] == rest[i - 1]);
                assert(whole[j] == rest[j - 1]);
            }
        }
    }
}

/// Nodes a parse yields are well formed, never start with character data
/// when the text starts with `<`, and never hold two adjacent text nodes.
#[verifier::rlimit(100)]
proof fn lemma_parse_nodes_wf(s: Seq<char>)
    requires
        parse_nodes(s) is Some,
    ensures
        ({
            let ns = parse_nodes(s)->Some_0.0;
            &&& forall|j: int| 0 <= j < ns.len() ==> wf_node(#[trigger] ns[j])
            &&& forall|j: int|
                0 <= j && j + 1 < ns.len() && (#[trigger] ns[j]) is Text ==> !(ns[j + 1] is Text)
            &&& (s[0] == '<' && ns.len() > 0 ==> !(ns[0] is Text))
        }),
    decreases s.len(), 1nat,
{
    let ns = parse_nodes(s)->Some_0.0;
    if starts_with(s, seq!['<', '!', '-', '-']) {
        let (c, r) = find_delim(s.skip(4), seq!['-', '-', '>'])->Some_0;
        lemma_find_delim_no_occ(s.skip(4), seq!['-', '-', '>']);
        lemma_parse_nodes_wf(shrunk(s, r));
        let tail = parse_nodes(shrunk(s, r))->Some_0.0;
        assert(ns == seq![NodeView::Comment(c)] + tail);
        lemma_cons_list_wf(NodeView::Comment(c), tail);
        lemma_cons_nontext_adjacency(NodeView::Comment(c), tail);
    } else if starts_with(s, seq!['<', '/']) {
    } else if starts_with(s, seq!['<', '?']) {
        let (c, r) = find_delim(s.skip(2), seq!['?', '>'])->Some_0;
        lemma_find_delim_no_occ(s.skip(2), seq!['?', '>']);
        lemma_parse_nodes_wf(shrunk(s, r));
        let tail = parse_nodes(shrunk(s, r))->Some_0.0;
        assert(ns == seq![NodeView::Pi(c)] + tail);
        lemma_cons_list_wf(NodeView::Pi(c), tail);
        lemma_cons_nontext_adjacency(NodeView::Pi(c), tail);
    } else if s[0] == '<' {
        let (e, r) = parse_elem(s)->Some_0;
        lemma_parse_elem_wf(s);
        lemma_parse_nodes_wf(shrunk(s, r));
        let tail = parse_nodes(shrunk(s, r))->Some_0.0;
        assert(ns == seq![NodeView::Elem(e)] + tail);
        lemma_cons_list_wf(NodeView::Elem(e), tail);
        lemma_cons_nontext_adjacency(NodeView::Elem(e), tail);
    } else {
        let (raw, r) = take_until_lt(s);
        let u = unescape_seq(raw)->Some_0;
        let t = trim(u);
        lemma_parse_nodes_wf(shrunk(s, r));
        let tail = parse_nodes(shrunk(s, r))->Some_0.0;
        if t.len() == 0 {
        } else {
            lemma_trim_wf(u);
            assert(ns == seq![NodeView::Text(t)] + tail);
            // what follows character data starts at a `<`, so the next
            // parsed node is never more character data
            lemma_take_until_lt_next(s);
            assert(tail.len() > 0 ==> !(tail[0] is Text)) by {
                if tail.len() > 0 {
                    assert(shrunk(s, r) == r || shrunk(s, r) == s.skip(1));
                    if r.len() < s.len() {
                        assert(r.len() > 0) by {
                            if r.len() == 0 {
                                assert(parse_nodes(r) is None);
                            }
                        }
                        assert(r[0] == '<');
                    } else {
                        assert(r == take_until_lt(s).1);
                        lemma_take_until_lt_len(s);
                        assert(false);
                    }
                }
            }
            lemma_cons_list_wf(NodeView::Text(t), tail);
            lemma_cons_adjacency(NodeView::Text(t), tail);
        }
    }
}

/// Prepending a non-text node keeps the no-adjacent-text shape.
#[verifier::spinoff_prover]
proof fn lemma_cons_nontext_adjacency(h: NodeView, tail: Seq<NodeView>)
    requires
        !(h is Text),
        forall|j: int|
            0 <= j && j + 1 < tail.len() && (#[trigger] tail[j]) is Text ==> !(tail[j + 1]
                is Text),
    ensures
        forall|j: int|
            0 <= j && j + 1 < (seq![h] + tail).len() && (#[trigger] (seq![h] + tail)[j]) is Text
                ==> !((seq![h] + tail)[j + 1] is Text),
{
    let ns = seq![h] + tail;
    assert(seq![h].len() == 1);
    assert(ns.len() == 1 + tail.len());
    assert forall|j: int|
        0 <= j && j + 1 < ns.len() && (#[trigger] ns[j]) is Text implies !(ns[j + 1] is Text) by {
        assert(0 <= j < ns.len());
        assert(0 <= j + 1 < ns.len());
        if j > 0 {
            assert(ns[j] == tail[j - 1]);
            assert(ns[j + 1] == tail[j]);
            assert(tail[j - 1] is Text);
            assert(0 <= (j - 1) + 1 < tail.len());
            assert(!(tail[j] is Text));
        } else {
            assert(ns[0] == h);
        }
    }
}

/// Prepending a node whose successor is not text keeps the no-adjacent-text
/// shape.
#[verifier::spinoff_prover]
proof fn lemma_cons_adjacency(h: NodeView, tail: Seq<NodeView>)
    requires
        tail.len() > 0 ==> !(tail[0] is Text),
        forall|j: int|
            0 <= j && j + 1 < tail.len() && (#[trigger] tail[j]) is Text ==> !(tail[j + 1]
                is Text),
    ensures
        forall|j: int|
            0 <= j && j + 1 < (seq![h] + tail).len() && (#[trigger] (seq![h] + tail)[j]) is Text
                ==> !((seq![h] + tail)[j + 1] is Text),
{
    let ns = seq![h] + tail;
    assert(seq![h].len() == 1);
    assert(ns.len() == 1 + tail.len());
    assert forall|j: int|
        0 <= j && j + 1 < ns.len() && (#[trigger] ns[j]) is Text implies !(ns[j + 1] is Text) by {
        assert(0 <= j < ns.len());
        assert(0 <= j + 1 < ns.len());
        if j == 0 {
            assert(ns[1] == tail[0]);
        } else {
            assert(ns[j] == tail[j - 1]);
            assert(ns[j + 1] == tail[j]);
            assert(tail[j - 1] is Text);
            assert(0 <= (j - 1) + 1 < tail.len());
            assert(!(tail[j] is Text));
        }
    }
}

/// The remainder of a character-data split is no longer than the input,
/// and genuinely shorter when data was taken.
proof fn lemma_take_until_lt_len(s: Seq<char>)
    ensures
        take_until_lt(s).1.len() + take_until_lt(s).0.len() == s.len(),
        take_until_lt(s).1.len() > 0 ==> take_until_lt(s).1[0] == '<',
    decreases s.len(),
{
    if s.len() == 0 || s[0] == '<' {
    } else {
        lemma_take_until_lt_len(s.skip(1));
    }
}

/// Alias kept close to its use: the rest after character data starts `<`.
proof fn lemma_take_until_lt_next(s: Seq<char>)
    ensures
        take_until_lt(s).1.len() > 0 ==> take_until_lt(s).1[0] == '<',
{
    lemma_take_until_lt_len(s);
}

/// Putting a non-text node (or trimmed text followed by a non-text head) in
/// front of a well-formed list keeps the list well formed.
proof fn lemma_cons_list_wf(h: NodeView, tail: Seq<NodeView>)
    requires
        wf_node(h),
        forall|j: int| 0 <= j < tail.len() ==> wf_node(#[trigger] tail[j]),
    ensures
        forall|j: int| 0 <= j < (seq![h] + tail).len() ==> wf_node(#[trigger] (seq![h] + tail)[j]),
{
    let ns = seq![h] + tail;
    assert forall|j: int| 0 <= j < ns.len() implies wf_node(#[trigger] ns[j]) by {
        if j > 0 {
            assert(ns[j] == tail[j - 1]);
        }
    }
}

/// Elements a parse yields are well formed.
proof fn lemma_parse_elem_wf(s: Seq<char>)
    requires
        parse_elem(s) is Some,
    ensures
        wf_elem(parse_elem(s)->Some_0.0),
    decreases s.len(), 0nat,
{
    let (tag, r1) = parse_name(s.skip(1))->Some_0;
    lemma_scan_name_chars(s.skip(1));
    let (attrs, r2) = parse_attrs(shrunk(s, r1))->Some_0;
    lemma_parse_attrs_wf(shrunk(s, r1));
    if starts_with(r2, seq!['/', '>']) {
    } else {
        let (cs, r3) = parse_nodes(shrunk(s, r2.skip(1)))->Some_0;
        lemma_parse_nodes_wf(shrunk(s, r2.skip(1)));
        let e = parse_elem(s)->Some_0.0;
        assert(e.children == cs);
        // adjacency carries over from the child-list lemma
        let t = shrunk(s, r2.skip(1));
        assert forall|i: int|
            0 <= i && i + 1 < e.children.len() && (#[trigger] e.children[i]) is Text implies !(
        e.children[i + 1] is Text) by {}
    }
}

/// The parser only ever produces well-formed documents.
pub proof fn lemma_parse_wf(text: Seq<char>)
    requires
        parse_doc_spec(text) is Some,
    ensures
        wf_doc(parse_doc_spec(text)->Some_0),
{
    let t = skip_misc(text)->Some_0;
    lemma_parse_elem_wf(t);
}

/// ROUND-TRIP.  Re-parsing the rendering of any parsed document gives a
/// tree structurally identical to the first parse: same tags, attributes,
/// order and character data.
pub proof fn lemma_round_trip(text: Seq<char>)
    requires
        parse_doc_spec(text) is Some,
    ensures
        parse_doc_spec(ser_doc(parse_doc_spec(text)->Some_0)) == parse_doc_spec(text),
{
    lemma_parse_wf(text);
    lemma_parse_ser_doc(parse_doc_spec(text)->Some_0);
}

} // verus!
