//! The naming convention: deriving a display name from a working
//! directory, and parsing such a name back into the scope it identifies.
//!
//! A directory under a `/trees/` segment belongs to a worktree named by the
//! path segment after `/trees/`; otherwise the directory's last component
//! stands for itself.  A generated display name embeds
//! `({scope}/{leaf})` or `({leaf})`, and two entries are the same logical
//! entry exactly when the embedded scope matches.

use vstd::prelude::*;
use crate::chars::{str_to_chars, chars_to_string};

verus! {

broadcast use vstd::std_specs::vec::group_vec_axioms, vstd::seq::group_seq_axioms;

/// `pat` occurs in `s` at position `j`.
pub open spec fn match_at(s: Seq<char>, pat: Seq<char>, j: int) -> bool {
    0 <= j && j + pat.len() <= s.len() && s.subrange(j, j + pat.len()) == pat
}

/// Position of the first occurrence of `pat` at or after `j`.
pub open spec fn find_sub_from(s: Seq<char>, pat: Seq<char>, j: int) -> Option<int>
    decreases s.len() - j,
{
    if j < 0 || pat.len() == 0 || j + pat.len() > s.len() {
        None
    } else if match_at(s, pat, j) {
        Some(j)
    } else {
        find_sub_from(s, pat, j + 1)
    }
}

/// Position of the first occurrence of `c` at or after `j`.
pub open spec fn find_char_from(s: Seq<char>, c: char, j: int) -> Option<int>
    decreases s.len() - j,
{
    if j < 0 || j >= s.len() {
        None
    } else if s[j] == c {
        Some(j)
    } else {
        find_char_from(s, c, j + 1)
    }
}

/// Position of the last occurrence of `c`.
pub open spec fn rfind_char(s: Seq<char>, c: char) -> Option<int>
    decreases s.len(),
{
    if s.len() == 0 {
        None
    } else if s.last() == c {
        Some(s.len() - 1)
    } else {
        rfind_char(s.drop_last(), c)
    }
}

/// The string without its trailing `/` characters.
pub open spec fn strip_trailing_slashes(s: Seq<char>) -> Seq<char>
    decreases s.len(),
{
    if s.len() > 0 && s.last() == '/' {
        strip_trailing_slashes(s.drop_last())
    } else {
        s
    }
}

/// The last path component, or `unknown` when there is none.
pub open spec fn dir_leaf(s: Seq<char>) -> Seq<char> {
    let t = strip_trailing_slashes(s);
    let leaf = match rfind_char(t, '/') {
        Some(p) => t.skip(p + 1),
        None => t,
    };
    if leaf.len() == 0 {
        "unknown"@
    } else {
        leaf
    }
}

/// The worktree a directory belongs to: the path segment after the first
/// `/trees/`, or the directory's last component when there is none.
pub open spec fn worktree_of(dir: Seq<char>) -> Seq<char> {
    match find_sub_from(dir, "/trees/"@, 0) {
        Some(p) => {
            let after = dir.skip(p + 7);
            match find_char_from(after, '/', 0) {
                Some(q) => after.take(q),
                None => after,
            }
        },
        None => dir_leaf(dir),
    }
}

/// The scope part of a display name: `{worktree}/{leaf}` under a worktree,
/// else just the leaf.
pub open spec fn name_part_of(dir: Seq<char>) -> Seq<char> {
    if find_sub_from(dir, "/trees/"@, 0) is Some {
        worktree_of(dir) + seq!['/'] + dir_leaf(dir)
    } else {
        dir_leaf(dir)
    }
}

/// The derived display name: `Ruby {version} ({scope}) + marker {date}`.
pub open spec fn display_name_of(version: Seq<char>, dir: Seq<char>, date: Seq<char>) -> Seq<
    char,
> {
    "Ruby "@ + version + " ("@ + name_part_of(dir) + ") + marker "@ + date
}

/// The characters between the first `(` and the `)` after it.
pub open spec fn paren_part(s: Seq<char>) -> Option<Seq<char>> {
    match find_char_from(s, '(', 0) {
        None => None,
        Some(p) => match find_char_from(s, ')', p + 1) {
            None => None,
            Some(q) => Some(s.subrange(p + 1, q)),
        },
    }
}

/// Does a display name identify the same logical entry as the key
/// `(worktree, leaf)`?  With a slash in the embedded scope the worktree
/// decides; without one the name must match the leaf, and the key must not
/// name a separate worktree.
pub open spec fn name_matches_key(name: Seq<char>, worktree: Seq<char>, leaf: Seq<char>) -> bool {
    match paren_part(name) {
        None => false,
        Some(p) => match find_char_from(p, '/', 0) {
            Some(q) => p.take(q) == worktree,
            None => p == leaf && worktree == leaf,
        },
    }
}

/// Does `pat` occur at position `j`?
fn match_at_exec(s: &Vec<char>, pat: &Vec<char>, j: usize) -> (r: bool)
    requires
        j <= s@.len(),
        pat@.len() <= s@.len() - j,
    ensures
        r == match_at(s@, pat@, j as int),
{
    let slen = s.len();
    let mut k: usize = 0;
    while k < pat.len()
        invariant
            k <= pat@.len(),
            slen == s@.len(),
            j + pat@.len() <= s@.len(),
            forall|m: int| 0 <= m < k ==> s@[j + m] == pat@[m],
        decreases pat@.len() - k,
    {
        assert(j + k < slen);
        if s[j + k] != pat[k] {
            proof {
                if match_at(s@, pat@, j as int) {
                    assert(s@.subrange(j as int, j + pat@.len())[k as int] == pat@[k as int]);
                }
            }
            return false;
        }
        k = k + 1;
    }
    proof {
        assert(s@.subrange(j as int, j + pat@.len()) =~= pat@);
    }
    true
}

/// First occurrence of `pat` in `s`, scanning from the front.
pub fn find_sub(s: &Vec<char>, pat: &Vec<char>) -> (r: Option<usize>)
    ensures
        match r {
            Some(j) => j <= s@.len() && find_sub_from(s@, pat@, 0) == Some(j as int),
            None => find_sub_from(s@, pat@, 0) is None,
        },
{
    if pat.len() == 0 || pat.len() > s.len() {
        return None;
    }
    let mut j: usize = 0;
    while s.len() - j >= pat.len()
        invariant
            j <= s@.len(),
            0 < pat@.len() <= s@.len(),
            find_sub_from(s@, pat@, 0) == find_sub_from(s@, pat@, j as int),
        decreases s@.len() - j,
    {
        if match_at_exec(s, pat, j) {
            return Some(j);
        }
        proof {
            assert(find_sub_from(s@, pat@, j as int) == find_sub_from(s@, pat@, j + 1));
        }
        j = j + 1;
    }
    None
}

/// A found position really carries a match.
pub proof fn lemma_find_sub_found(s: Seq<char>, pat: Seq<char>, j0: int, j: int)
    requires
        find_sub_from(s, pat, j0) == Some(j),
    ensures
        match_at(s, pat, j),
        j0 <= j,
    decreases s.len() - j0,
{
    if j0 < 0 || pat.len() == 0 || j0 + pat.len() > s.len() {
    } else if match_at(s, pat, j0) {
    } else {
        lemma_find_sub_found(s, pat, j0 + 1, j);
    }
}

/// First occurrence of `c` at or after `from`.
pub fn find_char(s: &Vec<char>, c: char, from: usize) -> (r: Option<usize>)
    requires
        from <= s@.len(),
    ensures
        match r {
            Some(j) => from <= j < s@.len() && find_char_from(s@, c, from as int) == Some(
                j as int,
            ),
            None => find_char_from(s@, c, from as int) is None,
        },
{
    let mut j = from;
    while j < s.len() && s[j] != c
        invariant
            from <= j <= s@.len(),
            find_char_from(s@, c, from as int) == find_char_from(s@, c, j as int),
        decreases s@.len() - j,
    {
        j = j + 1;
    }
    if j < s.len() {
        Some(j)
    } else {
        None
    }
}

/// The last path component of a directory, or `unknown`.
pub fn dir_leaf_exec(dir: &Vec<char>) -> (r: String)
    ensures
        r@ == dir_leaf(dir@),
{
    let mut b = dir.len();
    proof {
        assert(dir@.take(b as int) =~= dir@);
    }
    while b > 0 && dir[b - 1] == '/'
        invariant
            b <= dir@.len(),
            strip_trailing_slashes(dir@) == strip_trailing_slashes(dir@.take(b as int)),
        decreases b,
    {
        proof {
            let cur = dir@.take(b as int);
            assert(cur.last() == dir@[b - 1]);
            assert(cur.drop_last() =~= dir@.take(b - 1));
        }
        b = b - 1;
    }
    let ghost t = strip_trailing_slashes(dir@);
    proof {
        let cur = dir@.take(b as int);
        if b > 0 {
            assert(cur.last() == dir@[b - 1]);
        }
        assert(strip_trailing_slashes(cur) == cur);
        assert(t == dir@.take(b as int));
    }
    // last '/' within dir[..b]
    let mut a = b;
    proof {
        assert(t.take(a as int) =~= t);
    }
    while a > 0 && dir[a - 1] != '/'
        invariant
            a <= b <= dir@.len(),
            t == dir@.take(b as int),
            rfind_char(t, '/') == rfind_char(t.take(a as int), '/'),
            forall|m: int| a <= m < b ==> #[trigger] dir@[m] != '/',
        decreases a,
    {
        proof {
            let cur = t.take(a as int);
            assert(cur.last() == dir@[a - 1]);
            assert(cur.drop_last() =~= t.take(a - 1));
        }
        a = a - 1;
    }
    let ghost leaf = if a > 0 {
        t.skip(a as int)
    } else {
        t
    };
    proof {
        let cur = t.take(a as int);
        if a > 0 {
            assert(cur.last() == t[a - 1]);
            assert(rfind_char(cur, '/') == Some(a - 1));
            assert(t.skip(a as int) =~= dir@.subrange(a as int, b as int));
        } else {
            assert(cur.len() == 0);
            assert(rfind_char(t, '/') is None);
            assert(t =~= dir@.subrange(a as int, b as int));
        }
    }
    if a == b {
        proof {
            assert(leaf.len() == 0);
        }
        "unknown".to_owned()
    } else {
        proof {
            assert(leaf.len() > 0);
        }
        chars_to_string(&crate::parse::copy_range(dir, a, b))
    }
}

/// The worktree of a directory: the segment after `/trees/`, else the last
/// path component.
pub fn extract_worktree_name(current_dir: &str) -> (r: String)
    ensures
        r@ == worktree_of(current_dir@),
{
    let dir = str_to_chars(current_dir);
    let pat = str_to_chars("/trees/");
    match find_sub(&dir, &pat) {
        Some(p) => {
            let dlen = dir.len();
            proof {
                reveal_strlit("/trees/");
                assert(pat@.len() == 7);
                lemma_find_sub_found(dir@, pat@, 0, p as int);
                assert(p + 7 <= dlen);
            }
            let ghost after = dir@.skip(p + 7);
            match find_char(&dir, '/', p + 7) {
                Some(q) => {
                    proof {
                        lemma_find_char_skip(dir@, '/', p + 7, 0);
                        assert(after.take(q - (p + 7)) =~= dir@.subrange(p + 7, q as int));
                    }
                    chars_to_string(&crate::parse::copy_range(&dir, p + 7, q))
                },
                None => {
                    proof {
                        lemma_find_char_skip(dir@, '/', p + 7, 0);
                        assert(after =~= dir@.subrange(p + 7, dir@.len() as int));
                    }
                    chars_to_string(&crate::parse::copy_range(&dir, p + 7, dir.len()))
                },
            }
        },
        None => dir_leaf_exec(&dir),
    }
}

/// Searching in a suffix is searching from an offset, shifted.
proof fn lemma_find_char_skip(s: Seq<char>, c: char, base: int, k: int)
    requires
        0 <= base <= s.len(),
        0 <= k,
    ensures
        find_char_from(s.skip(base), c, k) == match find_char_from(s, c, base + k) {
            Some(j) => Some(j - base),
            None => None::<int>,
        },
    decreases s.len() - base - k,
{
    let suf = s.skip(base);
    if k >= suf.len() {
    } else {
        assert(suf[k] == s[base + k]);
        if suf[k] == c {
        } else {
            lemma_find_char_skip(s, c, base, k + 1);
        }
    }
}

/// The scope part of a display name for this directory.
pub fn interpreter_name_part(current_dir: &str) -> (r: String)
    ensures
        r@ == name_part_of(current_dir@),
{
    let dir = str_to_chars(current_dir);
    let pat = str_to_chars("/trees/");
    let has_trees = match find_sub(&dir, &pat) {
        Some(_) => true,
        None => false,
    };
    if has_trees {
        let mut r = extract_worktree_name(current_dir);
        r.append("/");
        let leaf = dir_leaf_exec(&dir);
        r.append(leaf.as_str());
        proof {
            reveal_strlit("/");
            assert("/"@ =~= seq!['/']);
            assert(r@ =~= worktree_of(current_dir@) + seq!['/'] + dir_leaf(current_dir@));
        }
        r
    } else {
        dir_leaf_exec(&dir)
    }
}

/// The derived display name `Ruby {version} ({scope}) + marker {date}`.
pub fn generate_interpreter_name(current_dir: &str, ruby_version: &str, date: &str) -> (r: String)
    ensures
        r@ == display_name_of(ruby_version@, current_dir@, date@),
{
    let mut r = "Ruby ".to_owned();
    r.append(ruby_version);
    r.append(" (");
    let part = interpreter_name_part(current_dir);
    r.append(part.as_str());
    r.append(") + marker ");
    r.append(date);
    proof {
        assert(r@ =~= display_name_of(ruby_version@, current_dir@, date@));
    }
    r
}

/// Does this display name identify the same logical entry as the key
/// derived from `current_dir`?
pub fn is_same_worktree_interpreter(name: &str, worktree: &String, leaf: &String) -> (r: bool)
    ensures
        r == name_matches_key(name@, worktree@, leaf@),
{
    let cs = str_to_chars(name);
    match find_char(&cs, '(', 0) {
        None => false,
        Some(p) => {
            assert(p < cs@.len());
            match find_char(&cs, ')', p + 1) {
                None => false,
                Some(q) => {
                    let ghost part = cs@.subrange(p + 1, q as int);
                    let pv = crate::parse::copy_range(&cs, p + 1, q);
                    match find_char(&pv, '/', 0) {
                        Some(sl) => {
                            proof {
                                assert(pv@.take(sl as int) =~= pv@.subrange(0, sl as int));
                            }
                            let wt = chars_to_string(&crate::parse::copy_range(&pv, 0, sl));
                            wt == *worktree
                        },
                        None => {
                            let ps = chars_to_string(&pv);
                            ps == *leaf && *worktree == *leaf
                        },
                    }
                },
            }
        },
    }
}

} // verus!
