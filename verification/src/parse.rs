//! Parsing: source text to document tree.
//!
//! The grammar covers what the target configuration files use: one root
//! element, attributes in single or double quotes, character data with the
//! five predefined entities, comments, and processing instructions (the
//! declaration is one).  Whitespace-only character data and anything before
//! or after the root element is insignificant and dropped; character data
//! is stored trimmed, since the serializer re-indents it.
//!
//! The executable parser returns exactly what the specification-level
//! parser denotes; the specification parser is the meaning of a document.

use vstd::prelude::*;
use crate::chars::{is_ws, str_to_chars, chars_to_string};
use crate::escape::{starts_with, unescape_seq, unescape_range};
use crate::tree::{Attr, AttrView, Element, ElemView, XmlNode, NodeView, XmlDocument, DocView};

verus! {

broadcast use vstd::std_specs::vec::group_vec_axioms, vstd::seq::group_seq_axioms;

/// Characters accepted in tag and attribute names.
pub open spec fn is_name_char(c: char) -> bool {
    ('a' <= c && c <= 'z') || ('A' <= c && c <= 'Z') || ('0' <= c && c <= '9') || c == '_' || c
        == '-' || c == '.' || c == ':'
}

/// Executable mirror of [`is_name_char`].
pub fn name_char(c: char) -> (r: bool)
    ensures
        r == is_name_char(c),
{
    ('a' <= c && c <= 'z') || ('A' <= c && c <= 'Z') || ('0' <= c && c <= '9') || c == '_' || c
        == '-' || c == '.' || c == ':'
}

/// Drops leading whitespace.
pub open spec fn ws_skip(s: Seq<char>) -> Seq<char>
    decreases s.len(),
{
    if s.len() > 0 && is_ws(s[0]) {
        ws_skip(s.skip(1))
    } else {
        s
    }
}

/// Splits off the longest name-character prefix.
pub open spec fn scan_name(s: Seq<char>) -> (Seq<char>, Seq<char>)
    decreases s.len(),
{
    if s.len() > 0 && is_name_char(s[0]) {
        let (n, r) = scan_name(s.skip(1));
        (seq![s[0]] + n, r)
    } else {
        (Seq::empty(), s)
    }
}

/// A nonempty name, or nothing.
pub open spec fn parse_name(s: Seq<char>) -> Option<(Seq<char>, Seq<char>)> {
    let (n, r) = scan_name(s);
    if n.len() == 0 {
        None
    } else {
        Some((n, r))
    }
}

/// Splits at the first `<` (or the end).
pub open spec fn take_until_lt(s: Seq<char>) -> (Seq<char>, Seq<char>)
    decreases s.len(),
{
    if s.len() == 0 || s[0] == '<' {
        (Seq::empty(), s)
    } else {
        let (t, r) = take_until_lt(s.skip(1));
        (seq![s[0]] + t, r)
    }
}

/// Splits at the first `q`, dropping it; `None` when `q` never comes.
pub open spec fn take_until_char(s: Seq<char>, q: char) -> Option<(Seq<char>, Seq<char>)>
    decreases s.len(),
{
    if s.len() == 0 {
        None
    } else if s[0] == q {
        Some((Seq::empty(), s.skip(1)))
    } else {
        match take_until_char(s.skip(1), q) {
            Some((t, r)) => Some((seq![s[0]] + t, r)),
            None => None,
        }
    }
}

/// Content before the first occurrence of `pat`, and the rest after it;
/// `None` when `pat` never occurs.
pub open spec fn find_delim(s: Seq<char>, pat: Seq<char>) -> Option<(Seq<char>, Seq<char>)>
    decreases s.len(),
{
    if s.len() < pat.len() || pat.len() == 0 {
        None
    } else if starts_with(s, pat) {
        Some((Seq::empty(), s.skip(pat.len() as int)))
    } else {
        match find_delim(s.skip(1), pat) {
            Some((t, r)) => Some((seq![s[0]] + t, r)),
            None => None,
        }
    }
}

/// Drops trailing whitespace.
pub open spec fn trim_end(s: Seq<char>) -> Seq<char>
    decreases s.len(),
{
    if s.len() > 0 && is_ws(s.last()) {
        trim_end(s.drop_last())
    } else {
        s
    }
}

/// Drops leading and trailing whitespace.
pub open spec fn trim(s: Seq<char>) -> Seq<char> {
    trim_end(ws_skip(s))
}

/// The guard that makes the recursion of the parser visibly well-founded:
/// the remainder a sub-parser hands back, clamped to be shorter than what
/// went in.  Every run that matters hands back a genuinely shorter
/// remainder, so the clamp never fires there.
pub open spec fn shrunk(s: Seq<char>, r: Seq<char>) -> Seq<char> {
    if r.len() < s.len() {
        r
    } else {
        s.skip(1)
    }
}

/// Some attribute in the list bears this name.
pub open spec fn attrs_have_name(attrs: Seq<AttrView>, name: Seq<char>) -> bool {
    exists|i: int| 0 <= i < attrs.len() && #[trigger] attrs[i].name == name
}

/// The attribute list of an open tag: `name="value"` pairs up to the `/`
/// or `>` that ends the tag.  Duplicate names are rejected.
pub open spec fn parse_attrs(s: Seq<char>) -> Option<(Seq<AttrView>, Seq<char>)>
    decreases s.len(),
{
    let t = ws_skip(s);
    if t.len() == 0 {
        None
    } else if t[0] == '/' || t[0] == '>' {
        Some((Seq::empty(), t))
    } else {
        match parse_name(t) {
            None => None,
            Some((name, r1)) => {
                let r2 = ws_skip(r1);
                if r2.len() > 0 && r2[0] == '=' {
                    let r3 = ws_skip(r2.skip(1));
                    if r3.len() > 0 && (r3[0] == '"' || r3[0] == '\'') {
                        match take_until_char(r3.skip(1), r3[0]) {
                            None => None,
                            Some((raw, r4)) => match unescape_seq(raw) {
                                None => None,
                                Some(v) => match parse_attrs(shrunk(s, r4)) {
                                    None => None,
                                    Some((rest, r5)) => if attrs_have_name(rest, name) {
                                        None
                                    } else {
                                        Some((seq![AttrView { name, value: v }] + rest, r5))
                                    },
                                },
                            },
                        }
                    } else {
                        None
                    }
                } else {
                    None
                }
            },
        }
    }
}

/// Child content up to a closing tag: elements, comments, instructions and
/// character data.  Whitespace-only data is dropped; other data is trimmed.
/// Returns the children and the rest, which begins with `</`.
pub open spec fn parse_nodes(s: Seq<char>) -> Option<(Seq<NodeView>, Seq<char>)>
    decreases s.len(), 1nat,
{
    if s.len() == 0 {
        None
    } else if starts_with(s, seq!['<', '!', '-', '-']) {
        match find_delim(s.skip(4), seq!['-', '-', '>']) {
            None => None,
            Some((c, r)) => match parse_nodes(shrunk(s, r)) {
                None => None,
                Some((ns, r2)) => Some((seq![NodeView::Comment(c)] + ns, r2)),
            },
        }
    } else if starts_with(s, seq!['<', '/']) {
        Some((Seq::empty(), s))
    } else if starts_with(s, seq!['<', '?']) {
        match find_delim(s.skip(2), seq!['?', '>']) {
            None => None,
            Some((c, r)) => match parse_nodes(shrunk(s, r)) {
                None => None,
                Some((ns, r2)) => Some((seq![NodeView::Pi(c)] + ns, r2)),
            },
        }
    } else if s[0] == '<' {
        match parse_elem(s) {
            None => None,
            Some((e, r)) => match parse_nodes(shrunk(s, r)) {
                None => None,
                Some((ns, r2)) => Some((seq![NodeView::Elem(e)] + ns, r2)),
            },
        }
    } else {
        let (raw, r) = take_until_lt(s);
        match unescape_seq(raw) {
            None => None,
            Some(u) => {
                let t = trim(u);
                match parse_nodes(shrunk(s, r)) {
                    None => None,
                    Some((ns, r2)) => if t.len() == 0 {
                        Some((ns, r2))
                    } else {
                        Some((seq![NodeView::Text(t)] + ns, r2))
                    },
                }
            },
        }
    }
}

/// One element, from its `<` to its closing `>`.
pub open spec fn parse_elem(s: Seq<char>) -> Option<(ElemView, Seq<char>)>
    decreases s.len(), 0nat,
{
    if s.len() == 0 || s[0] != '<' {
        None
    } else {
        match parse_name(s.skip(1)) {
            None => None,
            Some((tag, r1)) => match parse_attrs(shrunk(s, r1)) {
                None => None,
                Some((attrs, r2)) => if starts_with(r2, seq!['/', '>']) {
                    Some((ElemView { tag, attrs, children: Seq::empty() }, r2.skip(2)))
                } else if r2.len() > 0 && r2[0] == '>' {
                    match parse_nodes(shrunk(s, r2.skip(1))) {
                        None => None,
                        Some((cs, r3)) => if starts_with(r3, seq!['<', '/']) {
                            match parse_name(r3.skip(2)) {
                                None => None,
                                Some((tag2, r4)) => {
                                    let r5 = ws_skip(r4);
                                    if tag2 == tag && r5.len() > 0 && r5[0] == '>' {
                                        Some(
                                            (
                                                ElemView { tag, attrs, children: cs },
                                                r5.skip(1),
                                            ),
                                        )
                                    } else {
                                        None
                                    }
                                },
                            }
                        } else {
                            None
                        },
                    }
                } else {
                    None
                },
            },
        }
    }
}

/// Drops whitespace, comments and processing instructions; `None` on an
/// unterminated comment or instruction.
pub open spec fn skip_misc(s: Seq<char>) -> Option<Seq<char>>
    decreases s.len(),
{
    let t = ws_skip(s);
    if starts_with(t, seq!['<', '!', '-', '-']) {
        match find_delim(t.skip(4), seq!['-', '-', '>']) {
            None => None,
            Some((c, r)) => skip_misc(shrunk(s, r)),
        }
    } else if starts_with(t, seq!['<', '?']) {
        match find_delim(t.skip(2), seq!['?', '>']) {
            None => None,
            Some((c, r)) => skip_misc(shrunk(s, r)),
        }
    } else {
        Some(t)
    }
}

/// Copies the region `from..to`.
pub fn copy_range(s: &Vec<char>, from: usize, to: usize) -> (v: Vec<char>)
    requires
        from <= to <= s@.len(),
    ensures
        v@ == s@.subrange(from as int, to as int),
{
    let mut v: Vec<char> = Vec::new();
    let mut k: usize = from;
    while k < to
        invariant
            from <= k <= to <= s@.len(),
            v@ == s@.subrange(from as int, k as int),
        decreases to - k,
    {
        v.push(s[k]);
        proof {
            assert(v@ =~= s@.subrange(from as int, k + 1));
        }
        k = k + 1;
    }
    v
}

/// Index after the leading whitespace from `i` on.
pub fn skip_ws_at(s: &Vec<char>, i: usize) -> (j: usize)
    requires
        i <= s@.len(),
    ensures
        i <= j <= s@.len(),
        ws_skip(s@.skip(i as int)) == s@.skip(j as int),
{
    let mut j = i;
    while j < s.len() && crate::chars::ws_char(s[j])
        invariant
            i <= j <= s@.len(),
            ws_skip(s@.skip(i as int)) == ws_skip(s@.skip(j as int)),
        decreases s@.len() - j,
    {
        proof {
            assert(s@.skip(j as int)[0] == s@[j as int]);
            assert(s@.skip(j as int).skip(1) =~= s@.skip(j + 1));
        }
        j = j + 1;
    }
    proof {
        if j < s@.len() {
            assert(s@.skip(j as int)[0] == s@[j as int]);
        }
        assert(ws_skip(s@.skip(j as int)) == s@.skip(j as int));
    }
    j
}

/// Index after the name characters from `i` on.
pub fn scan_name_at(s: &Vec<char>, i: usize) -> (j: usize)
    requires
        i <= s@.len(),
    ensures
        i <= j <= s@.len(),
        scan_name(s@.skip(i as int)) == (s@.subrange(i as int, j as int), s@.skip(j as int)),
{
    let mut j = i;
    while j < s.len() && name_char(s[j])
        invariant
            i <= j <= s@.len(),
            scan_name(s@.skip(i as int)).0 == s@.subrange(i as int, j as int) + scan_name(
                s@.skip(j as int),
            ).0,
            scan_name(s@.skip(i as int)).1 == scan_name(s@.skip(j as int)).1,
        decreases s@.len() - j,
    {
        proof {
            assert(s@.skip(j as int)[0] == s@[j as int]);
            assert(s@.skip(j as int).skip(1) =~= s@.skip(j + 1));
            assert(s@.subrange(i as int, j as int) + (seq![s@[j as int]] + scan_name(
                s@.skip(j + 1),
            ).0) =~= s@.subrange(i as int, j + 1) + scan_name(s@.skip(j + 1)).0);
        }
        j = j + 1;
    }
    proof {
        if j < s@.len() {
            assert(s@.skip(j as int)[0] == s@[j as int]);
        }
        assert(scan_name(s@.skip(j as int)).0 == Seq::<char>::empty());
        assert(s@.subrange(i as int, j as int) + Seq::<char>::empty() =~= s@.subrange(
            i as int,
            j as int,
        ));
    }
    j
}

/// Index of the first `<` from `i` on (or the end).
pub fn until_lt_at(s: &Vec<char>, i: usize) -> (j: usize)
    requires
        i <= s@.len(),
    ensures
        i <= j <= s@.len(),
        take_until_lt(s@.skip(i as int)) == (s@.subrange(i as int, j as int), s@.skip(j as int)),
{
    let mut j = i;
    while j < s.len() && s[j] != '<'
        invariant
            i <= j <= s@.len(),
            take_until_lt(s@.skip(i as int)).0 == s@.subrange(i as int, j as int) + take_until_lt(
                s@.skip(j as int),
            ).0,
            take_until_lt(s@.skip(i as int)).1 == take_until_lt(s@.skip(j as int)).1,
        decreases s@.len() - j,
    {
        proof {
            assert(s@.skip(j as int)[0] == s@[j as int]);
            assert(s@.skip(j as int).skip(1) =~= s@.skip(j + 1));
            assert(s@.subrange(i as int, j as int) + (seq![s@[j as int]] + take_until_lt(
                s@.skip(j + 1),
            ).0) =~= s@.subrange(i as int, j + 1) + take_until_lt(s@.skip(j + 1)).0);
        }
        j = j + 1;
    }
    proof {
        if j < s@.len() {
            assert(s@.skip(j as int)[0] == s@[j as int]);
        }
        assert(take_until_lt(s@.skip(j as int)).0 == Seq::<char>::empty());
        assert(s@.subrange(i as int, j as int) + Seq::<char>::empty() =~= s@.subrange(
            i as int,
            j as int,
        ));
    }
    j
}

/// Index of the first `q` from `i` on; `None` when it never comes.
pub fn until_char_at(s: &Vec<char>, i: usize, q: char) -> (r: Option<usize>)
    requires
        i <= s@.len(),
    ensures
        match r {
            Some(j) => i <= j < s@.len() && take_until_char(s@.skip(i as int), q) == Some(
                (s@.subrange(i as int, j as int), s@.skip(j + 1)),
            ),
            None => take_until_char(s@.skip(i as int), q) is None,
        },
{
    let mut j = i;
    while j < s.len() && s[j] != q
        invariant
            i <= j <= s@.len(),
            take_until_char(s@.skip(i as int), q) == match take_until_char(s@.skip(j as int), q) {
                Some((t, r)) => Some::<(Seq<char>, Seq<char>)>(
                    (s@.subrange(i as int, j as int) + t, r),
                ),
                None => None::<(Seq<char>, Seq<char>)>,
            },
        decreases s@.len() - j,
    {
        proof {
            assert(s@.skip(j as int)[0] == s@[j as int]);
            assert(s@.skip(j as int).skip(1) =~= s@.skip(j + 1));
            match take_until_char(s@.skip(j + 1), q) {
                Some((t, r)) => {
                    assert(s@.subrange(i as int, j as int) + (seq![s@[j as int]] + t)
                        =~= s@.subrange(i as int, j + 1) + t);
                },
                None => {},
            }
        }
        j = j + 1;
    }
    if j < s.len() {
        proof {
            assert(s@.skip(j as int)[0] == s@[j as int]);
            assert(s@.skip(j as int).skip(1) =~= s@.skip(j + 1));
            assert(take_until_char(s@.skip(j as int), q) == Some(
                (Seq::<char>::empty(), s@.skip(j + 1)),
            ));
            assert(s@.subrange(i as int, j as int) + Seq::<char>::empty() =~= s@.subrange(
                i as int,
                j as int,
            ));
        }
        Some(j)
    } else {
        proof {
            assert(s@.skip(j as int).len() == 0);
        }
        None
    }
}

/// Start of the first occurrence of the two-character pattern `a b` from
/// `i` on; `None` when it never occurs.
pub fn find_two_at(s: &Vec<char>, i: usize, a: char, b: char) -> (r: Option<usize>)
    requires
        i <= s@.len(),
    ensures
        match r {
            Some(j) => i <= j && j + 2 <= s@.len() && find_delim(s@.skip(i as int), seq![a, b])
                == Some((s@.subrange(i as int, j as int), s@.skip(j + 2))),
            None => find_delim(s@.skip(i as int), seq![a, b]) is None,
        },
{
    let ghost pat = seq![a, b];
    let mut j = i;
    while s.len() - j >= 2 && !(s[j] == a && s[j + 1] == b)
        invariant
            i <= j,
            j <= s@.len(),
            pat == seq![a, b],
            find_delim(s@.skip(i as int), pat) == match find_delim(s@.skip(j as int), pat) {
                Some((t, r)) => Some::<(Seq<char>, Seq<char>)>(
                    (s@.subrange(i as int, j as int) + t, r),
                ),
                None => None::<(Seq<char>, Seq<char>)>,
            },
        decreases s@.len() - j,
    {
        proof {
            let cur = s@.skip(j as int);
            assert(cur[0] == s@[j as int]);
            assert(cur[1] == s@[j + 1]);
            assert(!starts_with(cur, pat)) by {
                if starts_with(cur, pat) {
                    assert(pat.len() == 2);
                    assert(cur.subrange(0, 2) == pat);
                    assert(cur.subrange(0, 2)[0] == cur[0] && cur.subrange(0, 2)[1] == cur[1]);
                    assert(pat[0] == a && pat[1] == b);
                }
            }
            assert(cur.skip(1) =~= s@.skip(j + 1));
            match find_delim(s@.skip(j + 1), pat) {
                Some((t, r)) => {
                    assert(s@.subrange(i as int, j as int) + (seq![s@[j as int]] + t)
                        =~= s@.subrange(i as int, j + 1) + t);
                },
                None => {},
            }
        }
        j = j + 1;
    }
    if s.len() - j >= 2 {
        proof {
            let cur = s@.skip(j as int);
            assert(cur.subrange(0, 2) =~= pat);
            assert(starts_with(cur, pat));
            assert(cur.skip(2) =~= s@.skip(j + 2));
            assert(s@.subrange(i as int, j as int) + Seq::<char>::empty() =~= s@.subrange(
                i as int,
                j as int,
            ));
        }
        Some(j)
    } else {
        proof {
            assert(s@.skip(j as int).len() < 2);
        }
        None
    }
}

/// Start of the first occurrence of the three-character pattern `a b c`
/// from `i` on; `None` when it never occurs.
pub fn find_three_at(s: &Vec<char>, i: usize, a: char, b: char, c: char) -> (r: Option<usize>)
    requires
        i <= s@.len(),
    ensures
        match r {
            Some(j) => i <= j && j + 3 <= s@.len() && find_delim(s@.skip(i as int), seq![a, b, c])
                == Some((s@.subrange(i as int, j as int), s@.skip(j + 3))),
            None => find_delim(s@.skip(i as int), seq![a, b, c]) is None,
        },
{
    let ghost pat = seq![a, b, c];
    let mut j = i;
    while s.len() - j >= 3 && !(s[j] == a && s[j + 1] == b && s[j + 2] == c)
        invariant
            i <= j,
            j <= s@.len(),
            pat == seq![a, b, c],
            find_delim(s@.skip(i as int), pat) == match find_delim(s@.skip(j as int), pat) {
                Some((t, r)) => Some::<(Seq<char>, Seq<char>)>(
                    (s@.subrange(i as int, j as int) + t, r),
                ),
                None => None::<(Seq<char>, Seq<char>)>,
            },
        decreases s@.len() - j,
    {
        proof {
            let cur = s@.skip(j as int);
            assert(cur[0] == s@[j as int]);
            assert(cur[1] == s@[j + 1]);
            assert(cur[2] == s@[j + 2]);
            assert(!starts_with(cur, pat)) by {
                if starts_with(cur, pat) {
                    assert(pat.len() == 3);
                    assert(cur.subrange(0, 3) == pat);
                    assert(cur.subrange(0, 3)[0] == cur[0] && cur.subrange(0, 3)[1] == cur[1]
                        && cur.subrange(0, 3)[2] == cur[2]);
                    assert(pat[0] == a && pat[1] == b && pat[2] == c);
                }
            }
            assert(cur.skip(1) =~= s@.skip(j + 1));
            match find_delim(s@.skip(j + 1), pat) {
                Some((t, r)) => {
                    assert(s@.subrange(i as int, j as int) + (seq![s@[j as int]] + t)
                        =~= s@.subrange(i as int, j + 1) + t);
                },
                None => {},
            }
        }
        j = j + 1;
    }
    if s.len() - j >= 3 {
        proof {
            let cur = s@.skip(j as int);
            assert(cur.subrange(0, 3) =~= pat);
            assert(starts_with(cur, pat));
            assert(cur.skip(3) =~= s@.skip(j + 3));
            assert(s@.subrange(i as int, j as int) + Seq::<char>::empty() =~= s@.subrange(
                i as int,
                j as int,
            ));
        }
        Some(j)
    } else {
        proof {
            assert(s@.skip(j as int).len() < 3);
        }
        None
    }
}

/// A whole document: optional prolog, one root element, optional trailing
/// comments and whitespace.
pub open spec fn parse_doc_spec(s: Seq<char>) -> Option<DocView> {
    match skip_misc(s) {
        None => None,
        Some(t) => match parse_elem(t) {
            None => None,
            Some((root, r)) => match skip_misc(r) {
                None => None,
                Some(t2) => if t2.len() == 0 {
                    Some(DocView { root })
                } else {
                    None
                },
            },
        },
    }
}

/// The one parse failure: the text is not a well-formed document.  The
/// offset is a best-effort position of the flaw in the source text.
#[derive(Debug, PartialEq, Eq, Structural)]
pub enum XmlError {
    MalformedDocument { offset: usize },
}

impl XmlError {
    /// Best-effort position of the flaw in the source text.
    pub fn offset(&self) -> (r: usize) {
        match self {
            XmlError::MalformedDocument { offset } => *offset,
        }
    }
}

/// Trims leading and trailing whitespace.
pub fn trim_chars(v: &Vec<char>) -> (r: Vec<char>)
    ensures
        r@ == trim(v@),
{
    let a = skip_ws_at(v, 0);
    proof {
        assert(v@.skip(0) =~= v@);
    }
    let mut b = v.len();
    while b > a && crate::chars::ws_char(v[b - 1])
        invariant
            a <= b <= v@.len(),
            ws_skip(v@) == v@.skip(a as int),
            trim_end(v@.skip(a as int)) == trim_end(v@.subrange(a as int, b as int)),
        decreases b,
    {
        proof {
            let cur = v@.subrange(a as int, b as int);
            assert(cur.last() == v@[b - 1]);
            assert(cur.drop_last() =~= v@.subrange(a as int, b - 1));
        }
        b = b - 1;
    }
    proof {
        let cur = v@.subrange(a as int, b as int);
        if b > a {
            assert(cur.last() == v@[b - 1]);
        }
        assert(trim_end(cur) == cur);
    }
    copy_range(v, a, b)
}

/// Does some attribute bear this name?
fn attrs_contain_name(attrs: &Vec<Attr>, name: &String) -> (r: bool)
    ensures
        r == attrs_have_name(crate::tree::view_of_attrs(*attrs), name@),
{
    let ghost av = crate::tree::view_of_attrs(*attrs);
    let mut k: usize = 0;
    while k < attrs.len()
        invariant
            k <= attrs.len(),
            av == crate::tree::view_of_attrs(*attrs),
            forall|m: int| 0 <= m < k ==> #[trigger] av[m].name != name@,
        decreases attrs.len() - k,
    {
        if attrs[k].name == *name {
            proof {
                assert(av[k as int].name == name@);
            }
            return true;
        }
        proof {
            assert(av[k as int] == attrs@[k as int]@);
        }
        k = k + 1;
    }
    false
}

/// The attribute list of an open tag, from `i` on.  On failure the error
/// carries a best-effort offset.
pub fn parse_attrs_at(s: &Vec<char>, i: usize) -> (r: Result<(Vec<Attr>, usize), usize>)
    requires
        i <= s@.len(),
    ensures
        match r {
            Ok((attrs, j)) => i <= j <= s@.len() && parse_attrs(s@.skip(i as int)) == Some(
                (crate::tree::view_of_attrs(attrs), s@.skip(j as int)),
            ),
            Err(_) => parse_attrs(s@.skip(i as int)) is None,
        },
    decreases s@.len() - i,
{
    let ghost whole = s@.skip(i as int);
    let t = skip_ws_at(s, i);
    if t == s.len() {
        proof {
            assert(ws_skip(whole).len() == 0);
        }
        return Err(t);
    }
    let c = s[t];
    proof {
        assert(s@.skip(t as int)[0] == s@[t as int]);
    }
    if c == '/' || c == '>' {
        let attrs: Vec<Attr> = Vec::new();
        proof {
            assert(crate::tree::view_of_attrs(attrs) =~= Seq::<AttrView>::empty());
        }
        return Ok((attrs, t));
    }
    let ne = scan_name_at(s, t);
    if ne == t {
        proof {
            assert(s@.subrange(t as int, t as int).len() == 0);
        }
        return Err(t);
    }
    let ghost name_v = s@.subrange(t as int, ne as int);
    let r2 = skip_ws_at(s, ne);
    if r2 == s.len() || s[r2] != '=' {
        proof {
            if r2 < s@.len() {
                assert(s@.skip(r2 as int)[0] == s@[r2 as int]);
            }
        }
        return Err(r2);
    }
    proof {
        assert(s@.skip(r2 as int)[0] == s@[r2 as int]);
        assert(s@.skip(r2 as int).skip(1) =~= s@.skip(r2 + 1));
    }
    let r3 = skip_ws_at(s, r2 + 1);
    if r3 == s.len() {
        return Err(r3);
    }
    let q = s[r3];
    proof {
        assert(s@.skip(r3 as int)[0] == s@[r3 as int]);
    }
    if q != '"' && q != '\'' {
        return Err(r3);
    }
    proof {
        assert(s@.skip(r3 as int).skip(1) =~= s@.skip(r3 + 1));
    }
    match until_char_at(s, r3 + 1, q) {
        None => Err(r3),
        Some(vend) => {
            match unescape_range(s, r3 + 1, vend) {
                None => Err(r3),
                Some(vchars) => {
                    let name_s = chars_to_string(&copy_range(s, t, ne));
                    let val_s = chars_to_string(&vchars);
                    proof {
                        assert(s@.skip(vend + 1).len() < whole.len());
                        assert(shrunk(whole, s@.skip(vend + 1)) == s@.skip(vend + 1));
                    }
                    match parse_attrs_at(s, vend + 1) {
                        Err(p) => Err(p),
                        Ok((mut rest, j)) => {
                            if attrs_contain_name(&rest, &name_s) {
                                Err(t)
                            } else {
                                let ghost old_rest = rest;
                                rest.insert(0, Attr { name: name_s, value: val_s });
                                proof {
                                    assert(crate::tree::view_of_attrs(rest) =~= seq![
                                        AttrView { name: name_v, value: vchars@ },
                                    ] + crate::tree::view_of_attrs(old_rest));
                                }
                                Ok((rest, j))
                            }
                        },
                    }
                },
            }
        },
    }
}

/// One element, from `i` (which must hold `<`) on.
pub fn parse_elem_at(s: &Vec<char>, i: usize) -> (r: Result<(Element, usize), usize>)
    requires
        i <= s@.len(),
    ensures
        match r {
            Ok((e, j)) => i < j <= s@.len() && parse_elem(s@.skip(i as int)) == Some(
                (e@, s@.skip(j as int)),
            ),
            Err(_) => parse_elem(s@.skip(i as int)) is None,
        },
    decreases s@.len() - i, 0nat,
{
    let ghost whole = s@.skip(i as int);
    if i == s.len() || s[i] != '<' {
        proof {
            if i < s@.len() {
                assert(whole[0] == s@[i as int]);
            }
        }
        return Err(i);
    }
    proof {
        assert(whole[0] == s@[i as int]);
        assert(whole.skip(1) =~= s@.skip(i + 1));
    }
    let ne = scan_name_at(s, i + 1);
    if ne == i + 1 {
        proof {
            assert(s@.subrange(i + 1, i + 1).len() == 0);
        }
        return Err(i);
    }
    let ghost tag_v = s@.subrange(i + 1, ne as int);
    let tag = chars_to_string(&copy_range(s, i + 1, ne));
    proof {
        assert(s@.skip(ne as int).len() < whole.len());
        assert(shrunk(whole, s@.skip(ne as int)) == s@.skip(ne as int));
    }
    match parse_attrs_at(s, ne) {
        Err(p) => Err(p),
        Ok((attrs, j2)) => {
            let ghost r2 = s@.skip(j2 as int);
            if s.len() - j2 >= 2 && s[j2] == '/' && s[j2 + 1] == '>' {
                proof {
                    assert(r2.subrange(0, 2) =~= seq!['/', '>']);
                    assert(starts_with(r2, seq!['/', '>']));
                    assert(r2.skip(2) =~= s@.skip(j2 + 2));
                }
                let e = Element { tag, attrs, children: Vec::new() };
                proof {
                    assert(crate::tree::views_of_children(e.children) =~= Seq::<
                        NodeView,
                    >::empty());
                    assert(e@ == ElemView {
                        tag: tag_v,
                        attrs: crate::tree::view_of_attrs(e.attrs),
                        children: Seq::<NodeView>::empty(),
                    });
                }
                Ok((e, j2 + 2))
            } else if j2 < s.len() && s[j2] == '>' {
                proof {
                    assert(r2[0] == s@[j2 as int]);
                    assert(!starts_with(r2, seq!['/', '>'])) by {
                        if starts_with(r2, seq!['/', '>']) {
                            assert(r2.subrange(0, 2) == seq!['/', '>']);
                            assert(r2.subrange(0, 2)[0] == r2[0]);
                        }
                    }
                    assert(r2.skip(1) =~= s@.skip(j2 + 1));
                    assert(s@.skip(j2 + 1).len() < whole.len());
                    assert(shrunk(whole, s@.skip(j2 + 1)) == s@.skip(j2 + 1));
                }
                match parse_nodes_at(s, j2 + 1) {
                    Err(p) => Err(p),
                    Ok((cs, j3)) => {
                        let ghost r3 = s@.skip(j3 as int);
                        if s.len() - j3 >= 2 && s[j3] == '<' && s[j3 + 1] == '/' {
                            proof {
                                assert(r3.subrange(0, 2) =~= seq!['<', '/']);
                                assert(starts_with(r3, seq!['<', '/']));
                                assert(r3.skip(2) =~= s@.skip(j3 + 2));
                            }
                            let ne2 = scan_name_at(s, j3 + 2);
                            if ne2 == j3 + 2 {
                                proof {
                                    assert(s@.subrange(j3 + 2, j3 + 2).len() == 0);
                                }
                                return Err(j3);
                            }
                            let tag2 = chars_to_string(&copy_range(s, j3 + 2, ne2));
                            let r5 = skip_ws_at(s, ne2);
                            if tag2 == tag && r5 < s.len() && s[r5] == '>' {
                                proof {
                                    assert(s@.skip(r5 as int)[0] == s@[r5 as int]);
                                    assert(s@.skip(r5 as int).skip(1) =~= s@.skip(r5 + 1));
                                }
                                let e = Element { tag, attrs, children: cs };
                                Ok((e, r5 + 1))
                            } else {
                                proof {
                                    if r5 < s@.len() {
                                        assert(s@.skip(r5 as int)[0] == s@[r5 as int]);
                                    }
                                }
                                Err(r5)
                            }
                        } else {
                            proof {
                                if j3 < s@.len() {
                                    assert(r3[0] == s@[j3 as int]);
                                }
                                if j3 + 1 < s@.len() {
                                    assert(r3[1] == s@[j3 + 1]);
                                }
                                assert(!starts_with(r3, seq!['<', '/'])) by {
                                    if starts_with(r3, seq!['<', '/']) {
                                        assert(r3.subrange(0, 2) == seq!['<', '/']);
                                        assert(r3.subrange(0, 2)[0] == r3[0]);
                                        assert(r3.subrange(0, 2)[1] == r3[1]);
                                    }
                                }
                            }
                            Err(j3)
                        }
                    },
                }
            } else {
                proof {
                    if j2 < s@.len() {
                        assert(r2[0] == s@[j2 as int]);
                    }
                    assert(!starts_with(r2, seq!['/', '>'])) by {
                        if starts_with(r2, seq!['/', '>']) {
                            assert(r2.subrange(0, 2) == seq!['/', '>']);
                            assert(r2.subrange(0, 2)[0] == r2[0]);
                            assert(r2.subrange(0, 2)[1] == r2[1]);
                        }
                    }
                }
                Err(j2)
            }
        },
    }
}

/// Child content up to a closing tag, from `i` on.
pub fn parse_nodes_at(s: &Vec<char>, i: usize) -> (r: Result<(Vec<XmlNode>, usize), usize>)
    requires
        i <= s@.len(),
    ensures
        match r {
            Ok((cs, j)) => i <= j <= s@.len() && parse_nodes(s@.skip(i as int)) == Some(
                (crate::tree::views_of_children(cs), s@.skip(j as int)),
            ),
            Err(_) => parse_nodes(s@.skip(i as int)) is None,
        },
    decreases s@.len() - i, 1nat,
{
    let ghost whole = s@.skip(i as int);
    if i == s.len() {
        return Err(i);
    }
    proof {
        assert(whole[0] == s@[i as int]);
        if i + 1 < s@.len() {
            assert(whole[1] == s@[i + 1]);
        }
        if i + 2 < s@.len() {
            assert(whole[2] == s@[i + 2]);
        }
        if i + 3 < s@.len() {
            assert(whole[3] == s@[i + 3]);
        }
    }
    if s.len() - i >= 4 && s[i] == '<' && s[i + 1] == '!' && s[i + 2] == '-' && s[i + 3] == '-' {
        proof {
            assert(whole.subrange(0, 4) =~= seq!['<', '!', '-', '-']);
            assert(starts_with(whole, seq!['<', '!', '-', '-']));
            assert(whole.skip(4) =~= s@.skip(i + 4));
        }
        match find_three_at(s, i + 4, '-', '-', '>') {
            None => Err(i),
            Some(k) => {
                let ctext = chars_to_string(&copy_range(s, i + 4, k));
                proof {
                    assert(s@.skip(k + 3).len() < whole.len());
                    assert(shrunk(whole, s@.skip(k + 3)) == s@.skip(k + 3));
                }
                match parse_nodes_at(s, k + 3) {
                    Err(p) => Err(p),
                    Ok((mut cs, j)) => {
                        let ghost old_cs = cs;
                        cs.insert(0, XmlNode::Comment(ctext));
                        proof {
                            assert(crate::tree::views_of_children(cs) =~= seq![
                                NodeView::Comment(s@.subrange(i + 4, k as int)),
                            ] + crate::tree::views_of_children(old_cs));
                        }
                        Ok((cs, j))
                    },
                }
            },
        }
    } else if s.len() - i >= 2 && s[i] == '<' && s[i + 1] == '/' {
        proof {
            lemma_not_starts_with_bang(whole);
            assert(whole.subrange(0, 2) =~= seq!['<', '/']);
            assert(starts_with(whole, seq!['<', '/']));
        }
        let cs: Vec<XmlNode> = Vec::new();
        proof {
            assert(crate::tree::views_of_children(cs) =~= Seq::<NodeView>::empty());
        }
        Ok((cs, i))
    } else if s.len() - i >= 2 && s[i] == '<' && s[i + 1] == '?' {
        proof {
            lemma_not_starts_with_bang(whole);
            lemma_not_starts_with_close(whole);
            assert(whole.subrange(0, 2) =~= seq!['<', '?']);
            assert(starts_with(whole, seq!['<', '?']));
            assert(whole.skip(2) =~= s@.skip(i + 2));
        }
        match find_two_at(s, i + 2, '?', '>') {
            None => Err(i),
            Some(k) => {
                let ctext = chars_to_string(&copy_range(s, i + 2, k));
                proof {
                    assert(s@.skip(k + 2).len() < whole.len());
                    assert(shrunk(whole, s@.skip(k + 2)) == s@.skip(k + 2));
                }
                match parse_nodes_at(s, k + 2) {
                    Err(p) => Err(p),
                    Ok((mut cs, j)) => {
                        let ghost old_cs = cs;
                        cs.insert(0, XmlNode::Pi(ctext));
                        proof {
                            assert(crate::tree::views_of_children(cs) =~= seq![
                                NodeView::Pi(s@.subrange(i + 2, k as int)),
                            ] + crate::tree::views_of_children(old_cs));
                        }
                        Ok((cs, j))
                    },
                }
            },
        }
    } else if s[i] == '<' {
        proof {
            lemma_not_starts_with_bang(whole);
            lemma_not_starts_with_close(whole);
            lemma_not_starts_with_pi(whole);
        }
        match parse_elem_at(s, i) {
            Err(p) => Err(p),
            Ok((e, j)) => {
                proof {
                    assert(s@.skip(j as int).len() < whole.len());
                    assert(shrunk(whole, s@.skip(j as int)) == s@.skip(j as int));
                }
                match parse_nodes_at(s, j) {
                    Err(p) => Err(p),
                    Ok((mut cs, j2)) => {
                        let ghost old_cs = cs;
                        cs.insert(0, XmlNode::Elem(e));
                        proof {
                            assert(crate::tree::views_of_children(cs) =~= seq![NodeView::Elem(e@)]
                                + crate::tree::views_of_children(old_cs));
                        }
                        Ok((cs, j2))
                    },
                }
            },
        }
    } else {
        let j = until_lt_at(s, i);
        proof {
            assert(take_until_lt(whole).0.len() >= 1);
            assert(j > i);
        }
        match unescape_range(s, i, j) {
            None => Err(i),
            Some(u) => {
                let t = trim_chars(&u);
                proof {
                    assert(s@.skip(j as int).len() < whole.len());
                    assert(shrunk(whole, s@.skip(j as int)) == s@.skip(j as int));
                }
                match parse_nodes_at(s, j) {
                    Err(p) => Err(p),
                    Ok((mut cs, j2)) => {
                        if t.len() == 0 {
                            Ok((cs, j2))
                        } else {
                            let ghost old_cs = cs;
                            cs.insert(0, XmlNode::Text(chars_to_string(&t)));
                            proof {
                                assert(crate::tree::views_of_children(cs) =~= seq![
                                    NodeView::Text(t@),
                                ] + crate::tree::views_of_children(old_cs));
                            }
                            Ok((cs, j2))
                        }
                    },
                }
            },
        }
    }
}

/// A sequence that does not begin with `<!` cannot begin with `<!--`.
pub proof fn lemma_not_starts_with_bang(s: Seq<char>)
    requires
        s.len() < 4 || s[0] != '<' || s[1] != '!' || s[2] != '-' || s[3] != '-',
    ensures
        !starts_with(s, seq!['<', '!', '-', '-']),
{
    if starts_with(s, seq!['<', '!', '-', '-']) {
        let p = s.subrange(0, 4);
        assert(p == seq!['<', '!', '-', '-']);
        assert(p[0] == s[0] && p[1] == s[1] && p[2] == s[2] && p[3] == s[3]);
    }
}

/// A sequence that does not begin with `</` cannot begin with `</`.
pub proof fn lemma_not_starts_with_close(s: Seq<char>)
    requires
        s.len() < 2 || s[0] != '<' || s[1] != '/',
    ensures
        !starts_with(s, seq!['<', '/']),
{
    if starts_with(s, seq!['<', '/']) {
        let p = s.subrange(0, 2);
        assert(p == seq!['<', '/']);
        assert(p[0] == s[0] && p[1] == s[1]);
    }
}

/// A sequence that does not begin with `<?` cannot begin with `<?`.
pub proof fn lemma_not_starts_with_pi(s: Seq<char>)
    requires
        s.len() < 2 || s[0] != '<' || s[1] != '?',
    ensures
        !starts_with(s, seq!['<', '?']),
{
    if starts_with(s, seq!['<', '?']) {
        let p = s.subrange(0, 2);
        assert(p == seq!['<', '?']);
        assert(p[0] == s[0] && p[1] == s[1]);
    }
}

/// Skips whitespace, comments and processing instructions, from `i` on.
pub fn skip_misc_at(s: &Vec<char>, i: usize) -> (r: Result<usize, usize>)
    requires
        i <= s@.len(),
    ensures
        match r {
            Ok(j) => i <= j <= s@.len() && skip_misc(s@.skip(i as int)) == Some(
                s@.skip(j as int),
            ),
            Err(_) => skip_misc(s@.skip(i as int)) is None,
        },
    decreases s@.len() - i,
{
    let ghost whole = s@.skip(i as int);
    let t = skip_ws_at(s, i);
    let ghost tv = s@.skip(t as int);
    proof {
        if t < s@.len() {
            assert(tv[0] == s@[t as int]);
        }
        if t + 1 < s@.len() {
            assert(tv[1] == s@[t + 1]);
        }
        if t + 2 < s@.len() {
            assert(tv[2] == s@[t + 2]);
        }
        if t + 3 < s@.len() {
            assert(tv[3] == s@[t + 3]);
        }
    }
    if s.len() - t >= 4 && s[t] == '<' && s[t + 1] == '!' && s[t + 2] == '-' && s[t + 3] == '-' {
        proof {
            assert(tv.subrange(0, 4) =~= seq!['<', '!', '-', '-']);
            assert(starts_with(tv, seq!['<', '!', '-', '-']));
            assert(tv.skip(4) =~= s@.skip(t + 4));
        }
        match find_three_at(s, t + 4, '-', '-', '>') {
            None => Err(t),
            Some(k) => {
                proof {
                    assert(s@.skip(k + 3).len() < whole.len());
                    assert(shrunk(whole, s@.skip(k + 3)) == s@.skip(k + 3));
                }
                skip_misc_at(s, k + 3)
            },
        }
    } else if s.len() - t >= 2 && s[t] == '<' && s[t + 1] == '?' {
        proof {
            lemma_not_starts_with_bang(tv);
            assert(tv.subrange(0, 2) =~= seq!['<', '?']);
            assert(starts_with(tv, seq!['<', '?']));
            assert(tv.skip(2) =~= s@.skip(t + 2));
        }
        match find_two_at(s, t + 2, '?', '>') {
            None => Err(t),
            Some(k) => {
                proof {
                    assert(s@.skip(k + 2).len() < whole.len());
                    assert(shrunk(whole, s@.skip(k + 2)) == s@.skip(k + 2));
                }
                skip_misc_at(s, k + 2)
            },
        }
    } else {
        proof {
            lemma_not_starts_with_bang(tv);
            lemma_not_starts_with_pi(tv);
        }
        Ok(t)
    }
}

/// Parses a whole document.  Succeeds exactly where the document meaning
/// [`parse_doc_spec`] is defined, and returns exactly that document.
pub fn parse(text: &str) -> (r: Result<XmlDocument, XmlError>)
    ensures
        match r {
            Ok(d) => parse_doc_spec(text@) == Some(d@),
            Err(_) => parse_doc_spec(text@) is None,
        },
{
    let cs = str_to_chars(text);
    proof {
        assert(cs@.skip(0) =~= cs@);
    }
    match skip_misc_at(&cs, 0) {
        Err(p) => Err(XmlError::MalformedDocument { offset: p }),
        Ok(t) => {
            match parse_elem_at(&cs, t) {
                Err(p) => Err(XmlError::MalformedDocument { offset: p }),
                Ok((root, j)) => {
                    match skip_misc_at(&cs, j) {
                        Err(p) => Err(XmlError::MalformedDocument { offset: p }),
                        Ok(t2) => {
                            if t2 == cs.len() {
                                proof {
                                    assert(cs@.skip(t2 as int).len() == 0);
                                }
                                Ok(XmlDocument { root })
                            } else {
                                proof {
                                    assert(cs@.skip(t2 as int).len() > 0);
                                }
                                Err(XmlError::MalformedDocument { offset: t2 })
                            }
                        },
                    }
                },
            }
        },
    }
}

} // verus!
