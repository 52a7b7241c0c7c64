//! Escaping of character data and attribute values, and the inverse
//! entity decoding used by the parser.
//!
//! Text content escapes `&`, `<` and `>`; attribute values additionally
//! escape the double quote.  The decoder accepts the five predefined
//! entities.  Decoding inverts encoding ([`lemma_unescape_escape`]), and an
//! encoded sequence never contains a raw `<`, `&`, or (for attribute
//! values) `"` — which is what lets the parser scan to the next delimiter.

use vstd::prelude::*;

verus! {

pub open spec fn amp_ent() -> Seq<char> {
    seq!['&', 'a', 'm', 'p', ';']
}

pub open spec fn lt_ent() -> Seq<char> {
    seq!['&', 'l', 't', ';']
}

pub open spec fn gt_ent() -> Seq<char> {
    seq!['&', 'g', 't', ';']
}

pub open spec fn quot_ent() -> Seq<char> {
    seq!['&', 'q', 'u', 'o', 't', ';']
}

pub open spec fn apos_ent() -> Seq<char> {
    seq!['&', 'a', 'p', 'o', 's', ';']
}

/// `p` is a prefix of `s`.
pub open spec fn starts_with(s: Seq<char>, p: Seq<char>) -> bool {
    p.len() <= s.len() && s.subrange(0, p.len() as int) == p
}

/// Encoding of one character.  `quoted` is true inside attribute values.
pub open spec fn esc_char(c: char, quoted: bool) -> Seq<char> {
    if c == '&' {
        amp_ent()
    } else if c == '<' {
        lt_ent()
    } else if c == '>' {
        gt_ent()
    } else if c == '"' && quoted {
        quot_ent()
    } else {
        seq![c]
    }
}

/// Encoding of a character sequence.
pub open spec fn escape_seq(s: Seq<char>, quoted: bool) -> Seq<char>
    decreases s.len(),
{
    if s.len() == 0 {
        Seq::empty()
    } else {
        esc_char(s[0], quoted) + escape_seq(s.skip(1), quoted)
    }
}

pub open spec fn opt_prepend(p: Seq<char>, o: Option<Seq<char>>) -> Option<Seq<char>> {
    match o {
        Some(t) => Some(p + t),
        None => None,
    }
}

/// Entity decoding; `None` on a bare `&` that opens no known entity.
pub open spec fn unescape_seq(s: Seq<char>) -> Option<Seq<char>>
    decreases s.len(),
{
    if s.len() == 0 {
        Some(Seq::empty())
    } else if s[0] == '&' {
        if starts_with(s, amp_ent()) {
            opt_prepend(seq!['&'], unescape_seq(s.skip(5)))
        } else if starts_with(s, lt_ent()) {
            opt_prepend(seq!['<'], unescape_seq(s.skip(4)))
        } else if starts_with(s, gt_ent()) {
            opt_prepend(seq!['>'], unescape_seq(s.skip(4)))
        } else if starts_with(s, quot_ent()) {
            opt_prepend(seq!['"'], unescape_seq(s.skip(6)))
        } else if starts_with(s, apos_ent()) {
            opt_prepend(seq!['\''], unescape_seq(s.skip(6)))
        } else {
            None
        }
    } else {
        opt_prepend(seq![s[0]], unescape_seq(s.skip(1)))
    }
}

/// An encoded sequence contains no `<`, and no `"` when quoted, so a scan
/// for the closing delimiter never stops early.
pub open spec fn escape_clean(s: Seq<char>, quoted: bool) -> bool {
    forall|i: int| 0 <= i < s.len() ==> s[i] != '<' && (quoted ==> s[i] != '"')
}

pub proof fn lemma_escape_clean(s: Seq<char>, quoted: bool)
    ensures
        escape_clean(escape_seq(s, quoted), quoted),
    decreases s.len(),
{
    if s.len() != 0 {
        lemma_escape_clean(s.skip(1), quoted);
        let head = esc_char(s[0], quoted);
        let tail = escape_seq(s.skip(1), quoted);
        assert forall|i: int| 0 <= i < head.len() implies head[i] != '<' && (quoted ==> head[i]
            != '"') by {
            if s[0] == '&' {
                assert(head =~= seq!['&', 'a', 'm', 'p', ';']);
            } else if s[0] == '<' {
                assert(head =~= seq!['&', 'l', 't', ';']);
            } else if s[0] == '>' {
                assert(head =~= seq!['&', 'g', 't', ';']);
            } else if s[0] == '"' && quoted {
                assert(head =~= seq!['&', 'q', 'u', 'o', 't', ';']);
            } else {
                assert(head =~= seq![s[0]]);
            }
        }
        assert forall|i: int|
            0 <= i < (head + tail).len() implies (head + tail)[i] != '<' && (quoted ==> (head
            + tail)[i] != '"') by {
            if i >= head.len() {
                assert((head + tail)[i] == tail[i - head.len()]);
            }
        }
    }
}

/// Decoding a single encoded character followed by anything decodes to that
/// character followed by the decoding of the rest.
proof fn lemma_unescape_esc_char(c: char, quoted: bool, rest: Seq<char>)
    ensures
        unescape_seq(esc_char(c, quoted) + rest) == opt_prepend(seq![c], unescape_seq(rest)),
{
    let s = esc_char(c, quoted) + rest;
    if c == '&' {
        assert(s.subrange(0, 5) =~= amp_ent());
        assert(s.skip(5) =~= rest);
    } else if c == '<' {
        assert(s.subrange(0, 4) =~= lt_ent());
        assert(s.skip(4) =~= rest);
        assert(!starts_with(s, amp_ent())) by {
            if starts_with(s, amp_ent()) {
                assert(s.subrange(0, 5)[1] == 'a');
            }
        }
    } else if c == '>' {
        assert(s.subrange(0, 4) =~= gt_ent());
        assert(s.skip(4) =~= rest);
        assert(!starts_with(s, amp_ent())) by {
            if starts_with(s, amp_ent()) {
                assert(s.subrange(0, 5)[1] == 'a');
            }
        }
        assert(!starts_with(s, lt_ent())) by {
            if starts_with(s, lt_ent()) {
                assert(s.subrange(0, 4)[1] == 'l');
            }
        }
    } else if c == '"' && quoted {
        assert(s.subrange(0, 6) =~= quot_ent());
        assert(s.skip(6) =~= rest);
        assert(!starts_with(s, amp_ent())) by {
            if starts_with(s, amp_ent()) {
                assert(s.subrange(0, 5)[1] == 'a');
            }
        }
        assert(!starts_with(s, lt_ent())) by {
            if starts_with(s, lt_ent()) {
                assert(s.subrange(0, 4)[1] == 'l');
            }
        }
        assert(!starts_with(s, gt_ent())) by {
            if starts_with(s, gt_ent()) {
                assert(s.subrange(0, 4)[1] == 'g');
            }
        }
    } else {
        assert(s[0] == c);
        assert(s.skip(1) =~= rest);
        if c == '&' {
        } else {
            assert(unescape_seq(s) == opt_prepend(seq![c], unescape_seq(rest)));
        }
    }
}

/// Decoding inverts encoding, with any remainder carried through.
pub proof fn lemma_unescape_escape_plus(s: Seq<char>, quoted: bool, rest: Seq<char>)
    ensures
        unescape_seq(escape_seq(s, quoted) + rest) == opt_prepend(s, unescape_seq(rest)),
    decreases s.len(),
{
    if s.len() == 0 {
        assert(escape_seq(s, quoted) + rest =~= rest);
        match unescape_seq(rest) {
            Some(t) => {
                assert(s + t =~= t);
            },
            None => {},
        }
    } else {
        lemma_unescape_escape_plus(s.skip(1), quoted, rest);
        let head = esc_char(s[0], quoted);
        let mid = escape_seq(s.skip(1), quoted);
        assert(escape_seq(s, quoted) + rest =~= head + (mid + rest));
        lemma_unescape_esc_char(s[0], quoted, mid + rest);
        match unescape_seq(rest) {
            Some(t) => {
                assert(unescape_seq(mid + rest) == Some(s.skip(1) + t));
                assert(seq![s[0]] + (s.skip(1) + t) =~= s + t);
            },
            None => {},
        }
    }
}

/// Decoding inverts encoding.
pub proof fn lemma_unescape_escape(s: Seq<char>, quoted: bool)
    ensures
        unescape_seq(escape_seq(s, quoted)) == Some(s),
{
    lemma_unescape_escape_plus(s, quoted, Seq::empty());
    assert(escape_seq(s, quoted) + Seq::<char>::empty() =~= escape_seq(s, quoted));
    assert(s + Seq::<char>::empty() =~= s);
}

/// Encoding distributes over concatenation.
pub proof fn lemma_escape_add(a: Seq<char>, b: Seq<char>, quoted: bool)
    ensures
        escape_seq(a + b, quoted) == escape_seq(a, quoted) + escape_seq(b, quoted),
    decreases a.len(),
{
    if a.len() == 0 {
        assert(a + b =~= b);
        assert(escape_seq(a, quoted) + escape_seq(b, quoted) =~= escape_seq(b, quoted));
    } else {
        lemma_escape_add(a.skip(1), b, quoted);
        assert((a + b).skip(1) =~= a.skip(1) + b);
        assert(escape_seq(a + b, quoted) == esc_char(a[0], quoted) + (escape_seq(a.skip(1), quoted)
            + escape_seq(b, quoted)));
        assert(esc_char(a[0], quoted) + (escape_seq(a.skip(1), quoted) + escape_seq(b, quoted))
            =~= (esc_char(a[0], quoted) + escape_seq(a.skip(1), quoted)) + escape_seq(b, quoted));
    }
}

/// Appends the encoding of `s` to `out`.
pub fn escape_push(s: &str, quoted: bool, out: &mut Vec<char>)
    ensures
        final(out)@ == old(out)@ + escape_seq(s@, quoted),
{
    let cs = crate::chars::str_to_chars(s);
    let ghost orig = out@;
    let mut i: usize = 0;
    while i < cs.len()
        invariant
            i <= cs.len(),
            cs@ == s@,
            out@ == orig + escape_seq(s@.take(i as int), quoted),
        decreases cs.len() - i,
    {
        let c = cs[i];
        proof {
            assert(s@.take(i + 1) =~= s@.take(i as int) + seq![s@[i as int]]);
            lemma_escape_add(s@.take(i as int), seq![s@[i as int]], quoted);
            assert(escape_seq(seq![s@[i as int]], quoted) =~= esc_char(s@[i as int], quoted) +
            escape_seq(seq![s@[i as int]].skip(1), quoted));
            assert(seq![s@[i as int]].skip(1) =~= Seq::<char>::empty());
            assert(escape_seq(seq![s@[i as int]], quoted) =~= esc_char(s@[i as int], quoted));
        }
        if c == '&' {
            out.push('&');
            out.push('a');
            out.push('m');
            out.push('p');
            out.push(';');
            proof {
                assert(out@ =~= orig + escape_seq(s@.take(i + 1), quoted));
            }
        } else if c == '<' {
            out.push('&');
            out.push('l');
            out.push('t');
            out.push(';');
            proof {
                assert(out@ =~= orig + escape_seq(s@.take(i + 1), quoted));
            }
        } else if c == '>' {
            out.push('&');
            out.push('g');
            out.push('t');
            out.push(';');
            proof {
                assert(out@ =~= orig + escape_seq(s@.take(i + 1), quoted));
            }
        } else if c == '"' && quoted {
            out.push('&');
            out.push('q');
            out.push('u');
            out.push('o');
            out.push('t');
            out.push(';');
            proof {
                assert(out@ =~= orig + escape_seq(s@.take(i + 1), quoted));
            }
        } else {
            out.push(c);
            proof {
                assert(out@ =~= orig + escape_seq(s@.take(i + 1), quoted));
            }
        }
        i = i + 1;
    }
    proof {
        assert(s@.take(cs.len() as int) =~= s@);
    }
}

/// Decodes the region `from..to` of `s`; `None` on an undecodable entity.
pub fn unescape_range(s: &Vec<char>, from: usize, to: usize) -> (r: Option<Vec<char>>)
    requires
        from <= to <= s@.len(),
    ensures
        match r {
            Some(v) => unescape_seq(s@.subrange(from as int, to as int)) == Some(v@),
            None => unescape_seq(s@.subrange(from as int, to as int)) is None,
        },
{
    let ghost whole = s@.subrange(from as int, to as int);
    let mut acc: Vec<char> = Vec::new();
    let mut i: usize = from;
    while i < to
        invariant
            from <= i <= to <= s@.len(),
            unescape_seq(whole) == opt_prepend(acc@, unescape_seq(s@.subrange(i as int, to as int))),
            whole == s@.subrange(from as int, to as int),
        decreases to - i,
    {
        let ghost cur = s@.subrange(i as int, to as int);
        let c = s[i];
        assert(cur[0] == c);
        if c == '&' {
            if to - i >= 5 && s[i + 1] == 'a' && s[i + 2] == 'm' && s[i + 3] == 'p' && s[i + 4]
                == ';' {
                proof {
                    assert(cur.subrange(0, 5) =~= amp_ent());
                    assert(cur.skip(5) =~= s@.subrange(i + 5, to as int));
                }
                acc.push('&');
                proof {
                    match unescape_seq(s@.subrange(i + 5, to as int)) {
                        Some(t) => {
                            assert(acc@ + t =~= acc@.drop_last() + (seq!['&'] + t));
                        },
                        None => {},
                    }
                }
                i = i + 5;
            } else if to - i >= 4 && s[i + 1] == 'l' && s[i + 2] == 't' && s[i + 3] == ';' {
                proof {
                    assert(!starts_with(cur, amp_ent())) by {
                        if starts_with(cur, amp_ent()) {
                            assert(cur[1] == 'a');
                        }
                    }
                    assert(cur.subrange(0, 4) =~= lt_ent());
                    assert(cur.skip(4) =~= s@.subrange(i + 4, to as int));
                }
                acc.push('<');
                proof {
                    match unescape_seq(s@.subrange(i + 4, to as int)) {
                        Some(t) => {
                            assert(acc@ + t =~= acc@.drop_last() + (seq!['<'] + t));
                        },
                        None => {},
                    }
                }
                i = i + 4;
            } else if to - i >= 4 && s[i + 1] == 'g' && s[i + 2] == 't' && s[i + 3] == ';' {
                proof {
                    assert(!starts_with(cur, amp_ent())) by {
                        if starts_with(cur, amp_ent()) {
                            assert(cur[1] == 'a');
                        }
                    }
                    assert(!starts_with(cur, lt_ent())) by {
                        if starts_with(cur, lt_ent()) {
                            assert(cur[1] == 'l');
                        }
                    }
                    assert(cur.subrange(0, 4) =~= gt_ent());
                    assert(cur.skip(4) =~= s@.subrange(i + 4, to as int));
                }
                acc.push('>');
                proof {
                    match unescape_seq(s@.subrange(i + 4, to as int)) {
                        Some(t) => {
                            assert(acc@ + t =~= acc@.drop_last() + (seq!['>'] + t));
                        },
                        None => {},
                    }
                }
                i = i + 4;
            } else if to - i >= 6 && s[i + 1] == 'q' && s[i + 2] == 'u' && s[i + 3] == 'o' && s[i
                + 4] == 't' && s[i + 5] == ';' {
                proof {
                    assert(!starts_with(cur, amp_ent())) by {
                        if starts_with(cur, amp_ent()) {
                            assert(cur[1] == 'a');
                        }
                    }
                    assert(!starts_with(cur, lt_ent())) by {
                        if starts_with(cur, lt_ent()) {
                            assert(cur[1] == 'l');
                        }
                    }
                    assert(!starts_with(cur, gt_ent())) by {
                        if starts_with(cur, gt_ent()) {
                            assert(cur[1] == 'g');
                        }
                    }
                    assert(cur.subrange(0, 6) =~= quot_ent());
                    assert(cur.skip(6) =~= s@.subrange(i + 6, to as int));
                }
                acc.push('"');
                proof {
                    match unescape_seq(s@.subrange(i + 6, to as int)) {
                        Some(t) => {
                            assert(acc@ + t =~= acc@.drop_last() + (seq!['"'] + t));
                        },
                        None => {},
                    }
                }
                i = i + 6;
            } else if to - i >= 6 && s[i + 1] == 'a' && s[i + 2] == 'p' && s[i + 3] == 'o' && s[i
                + 4] == 's' && s[i + 5] == ';' {
                proof {
                    assert(!starts_with(cur, amp_ent())) by {
                        if starts_with(cur, amp_ent()) {
                            assert(cur[2] == 'm');
                        }
                    }
                    assert(!starts_with(cur, lt_ent())) by {
                        if starts_with(cur, lt_ent()) {
                            assert(cur[1] == 'l');
                        }
                    }
                    assert(!starts_with(cur, gt_ent())) by {
                        if starts_with(cur, gt_ent()) {
                            assert(cur[1] == 'g');
                        }
                    }
                    assert(!starts_with(cur, quot_ent())) by {
                        if starts_with(cur, quot_ent()) {
                            assert(cur[1] == 'q');
                        }
                    }
                    assert(cur.subrange(0, 6) =~= apos_ent());
                    assert(cur.skip(6) =~= s@.subrange(i + 6, to as int));
                }
                acc.push('\'');
                proof {
                    match unescape_seq(s@.subrange(i + 6, to as int)) {
                        Some(t) => {
                            assert(acc@ + t =~= acc@.drop_last() + (seq!['\''] + t));
                        },
                        None => {},
                    }
                }
                i = i + 6;
            } else {
                proof {
                    assert(!starts_with(cur, amp_ent())) by {
                        if starts_with(cur, amp_ent()) {
                            assert(cur[1] == 'a' && cur[2] == 'm' && cur[3] == 'p' && cur[4]
                                == ';');
                        }
                    }
                    assert(!starts_with(cur, lt_ent())) by {
                        if starts_with(cur, lt_ent()) {
                            assert(cur[1] == 'l' && cur[2] == 't' && cur[3] == ';');
                        }
                    }
                    assert(!starts_with(cur, gt_ent())) by {
                        if starts_with(cur, gt_ent()) {
                            assert(cur[1] == 'g' && cur[2] == 't' && cur[3] == ';');
                        }
                    }
                    assert(!starts_with(cur, quot_ent())) by {
                        if starts_with(cur, quot_ent()) {
                            assert(cur[1] == 'q' && cur[2] == 'u' && cur[3] == 'o' && cur[4] == 't'
                                && cur[5] == ';');
                        }
                    }
                    assert(!starts_with(cur, apos_ent())) by {
                        if starts_with(cur, apos_ent()) {
                            assert(cur[1] == 'a' && cur[2] == 'p' && cur[3] == 'o' && cur[4] == 's'
                                && cur[5] == ';');
                        }
                    }
                }
                return None;
            }
        } else {
            proof {
                assert(cur.skip(1) =~= s@.subrange(i + 1, to as int));
            }
            acc.push(c);
            proof {
                match unescape_seq(s@.subrange(i + 1, to as int)) {
                    Some(t) => {
                        assert(acc@ + t =~= acc@.drop_last() + (seq![c] + t));
                    },
                    None => {},
                }
            }
            i = i + 1;
        }
    }
    proof {
        assert(s@.subrange(i as int, to as int) =~= Seq::<char>::empty());
        match unescape_seq(whole) {
            Some(t) => {
                assert(t =~= acc@ + Seq::<char>::empty());
                assert(t =~= acc@);
            },
            None => {
                assert(false);
            },
        }
    }
    Some(acc)
}

} // verus!
