use vstd::prelude::*;
use vstd::string::*;

verus! {

/// The views of a sequence of strings, as one sequence of character
/// sequences.
pub open spec fn views_of(v: Seq<String>) -> Seq<Seq<char>> {
    v.map_values(|s: String| s@)
}

/// No two elements are equal.
pub open spec fn seq_distinct(v: Seq<Seq<char>>) -> bool {
    forall|i: int, j: int| 0 <= i < j < v.len() ==> v[i] != v[j]
}

/// Lexicographic order on character sequences, by unicode scalar value.
pub open spec fn lex_le(a: Seq<char>, b: Seq<char>) -> bool
    decreases a.len(),
{
    if a.len() == 0 {
        true
    } else if b.len() == 0 {
        false
    } else if (a[0] as int) < (b[0] as int) {
        true
    } else if (b[0] as int) < (a[0] as int) {
        false
    } else {
        lex_le(a.skip(1), b.skip(1))
    }
}

/// Sorted in lexicographic order.
pub open spec fn lex_sorted(v: Seq<Seq<char>>) -> bool {
    forall|i: int, j: int| 0 <= i < j < v.len() ==> lex_le(v[i], v[j])
}

pub proof fn lemma_lex_le_total(a: Seq<char>, b: Seq<char>)
    ensures
        lex_le(a, b) || lex_le(b, a),
    decreases a.len(),
{
    if a.len() == 0 || b.len() == 0 {
    } else if (a[0] as int) < (b[0] as int) || (b[0] as int) < (a[0] as int) {
    } else {
        lemma_lex_le_total(a.skip(1), b.skip(1));
    }
}

pub proof fn lemma_lex_le_transitive(a: Seq<char>, b: Seq<char>, c: Seq<char>)
    requires
        lex_le(a, b),
        lex_le(b, c),
    ensures
        lex_le(a, c),
    decreases a.len(),
{
    if a.len() == 0 {
    } else {
        assert(b.len() > 0);
        assert(c.len() > 0);
        let x = a[0] as int;
        let y = b[0] as int;
        let z = c[0] as int;
        if x < z {
        } else {
            assert(!(x < y) && !(y < x) ==> lex_le(a.skip(1), b.skip(1)));
            assert(x == y && y == z);
            lemma_lex_le_transitive(a.skip(1), b.skip(1), c.skip(1));
        }
    }
}

/// Equal prefixes of length `i` do not change the order of what
/// follows.
proof fn lemma_lex_le_skip(a: Seq<char>, b: Seq<char>, i: int)
    requires
        0 <= i <= a.len(),
        i <= b.len(),
        forall|k: int| 0 <= k < i ==> a[k] == b[k],
    ensures
        lex_le(a, b) == lex_le(a.skip(i), b.skip(i)),
    decreases i,
{
    if i == 0 {
        assert(a.skip(0) =~= a);
        assert(b.skip(0) =~= b);
    } else {
        assert(a.len() > 0 && b.len() > 0 && a[0] == b[0]);
        assert(forall|k: int| 0 <= k < i - 1 ==> a.skip(1)[k] == b.skip(1)[k]);
        lemma_lex_le_skip(a.skip(1), b.skip(1), i - 1);
        assert(a.skip(1).skip(i - 1) =~= a.skip(i));
        assert(b.skip(1).skip(i - 1) =~= b.skip(i));
    }
}

/// Lexicographic comparison of two strings.
pub fn str_le(a: &str, b: &str) -> (r: bool)
    ensures
        r == lex_le(a@, b@),
{
    let la = a.unicode_len();
    let lb = b.unicode_len();
    let mut i: usize = 0;
    while i < la && i < lb
        invariant
            i <= la,
            i <= lb,
            la == a@.len(),
            lb == b@.len(),
            forall|k: int| 0 <= k < i ==> a@[k] == b@[k],
        decreases la - i,
    {
        let ca = a.get_char(i);
        let cb = b.get_char(i);
        if (ca as u32) < (cb as u32) {
            proof {
                lemma_lex_le_skip(a@, b@, i as int);
                assert(a@.skip(i as int)[0] == a@[i as int]);
                assert(b@.skip(i as int)[0] == b@[i as int]);
            }
            return true;
        }
        if (cb as u32) < (ca as u32) {
            proof {
                lemma_lex_le_skip(a@, b@, i as int);
                assert(a@.skip(i as int)[0] == a@[i as int]);
                assert(b@.skip(i as int)[0] == b@[i as int]);
            }
            return false;
        }
        i = i + 1;
    }
    proof {
        lemma_lex_le_skip(a@, b@, i as int);
        assert(a@.skip(i as int).len() == la - i);
        assert(b@.skip(i as int).len() == lb - i);
        if la <= lb {
            assert(i == la);
            assert(lex_le(a@.skip(i as int), b@.skip(i as int)));
        } else {
            assert(i == lb);
            assert(b@.skip(i as int).len() == 0);
            assert(a@.skip(i as int).len() > 0);
            assert(!lex_le(a@.skip(i as int), b@.skip(i as int)));
        }
    }
    la <= lb
}

/// Character-wise string equality.
pub fn str_eq_str(a: &str, b: &str) -> (r: bool)
    ensures
        r == (a@ == b@),
{
    let la = a.unicode_len();
    let lb = b.unicode_len();
    if la != lb {
        return false;
    }
    let mut i: usize = 0;
    while i < la
        invariant
            i <= la,
            la == a@.len(),
            la == b@.len(),
            forall|k: int| 0 <= k < i ==> a@[k] == b@[k],
        decreases la - i,
    {
        if a.get_char(i) != b.get_char(i) {
            return false;
        }
        i = i + 1;
    }
    proof {
        assert(a@ =~= b@);
    }
    true
}

/// Mapping to views commutes with appending one string.
pub proof fn lemma_views_push(old: Seq<String>, s: String)
    ensures
        views_of(old.push(s)) =~= views_of(old).push(s@),
{
    assert forall|k: int| 0 <= k < old.len() + 1 implies views_of(old.push(s))[k] == views_of(
        old,
    ).push(s@)[k] by {
        if k < old.len() {
            assert(old.push(s)[k] == old[k]);
        } else {
            assert(old.push(s)[k] == s);
        }
    }
}

/// `pre` is an initial segment of `s`.
pub open spec fn seq_starts_with(s: Seq<char>, pre: Seq<char>) -> bool {
    pre.len() <= s.len() && s.subrange(0, pre.len() as int) == pre
}

/// Whether the string starts with the given prefix, character-wise.
pub fn str_starts_with(s: &str, pre: &str) -> (r: bool)
    ensures
        r == seq_starts_with(s@, pre@),
{
    let ls = s.unicode_len();
    let lp = pre.unicode_len();
    if lp > ls {
        return false;
    }
    let mut i: usize = 0;
    while i < lp
        invariant
            i <= lp,
            lp <= ls,
            ls == s@.len(),
            lp == pre@.len(),
            forall|k: int| 0 <= k < i ==> s@[k] == pre@[k],
        decreases lp - i,
    {
        if s.get_char(i) != pre.get_char(i) {
            assert(s@.subrange(0, pre@.len() as int)[i as int] != pre@[i as int]);
            return false;
        }
        i = i + 1;
    }
    proof {
        assert(s@.subrange(0, pre@.len() as int) =~= pre@);
    }
    true
}

/// `sub` occurs somewhere in `s`.
pub open spec fn seq_contains_sub(s: Seq<char>, sub: Seq<char>) -> bool {
    exists|i: int| 0 <= i && i + sub.len() <= s.len() && #[trigger] s.subrange(i, i + sub.len())
        == sub
}

/// Whether `sub` occurs in `s` at exactly position `i`.
fn match_at(s: &str, sub: &str, i: usize) -> (r: bool)
    requires
        i + sub@.len() <= s@.len(),
    ensures
        r == (s@.subrange(i as int, i + sub@.len()) == sub@),
{
    let n = s.unicode_len();
    let m = sub.unicode_len();
    let mut j: usize = 0;
    while j < m
        invariant
            i + m <= n,
            n == s@.len(),
            m == sub@.len(),
            j <= m,
            forall|k: int| 0 <= k < j ==> s@[i + k] == sub@[k],
        decreases m - j,
    {
        if s.get_char(i + j) != sub.get_char(j) {
            proof {
                assert(s@.subrange(i as int, i + sub@.len())[j as int] != sub@[j as int]);
            }
            return false;
        }
        j = j + 1;
    }
    proof {
        assert(s@.subrange(i as int, i + sub@.len()) =~= sub@);
    }
    true
}

/// Substring search.
pub fn str_contains(s: &str, sub: &str) -> (r: bool)
    ensures
        r == seq_contains_sub(s@, sub@),
{
    let n = s.unicode_len();
    let m = sub.unicode_len();
    if m > n {
        return false;
    }
    if m == 0 {
        proof {
            assert(seq_contains_sub(s@, sub@)) by {
                assert(s@.subrange(0, 0 + sub@.len() as int) =~= sub@);
            }
        }
        return true;
    }
    let mut i: usize = 0;
    while i <= n - m
        invariant
            1 <= m <= n,
            n == s@.len(),
            m == sub@.len(),
            i <= n - m + 1,
            forall|ii: int|
                0 <= ii < i ==> #[trigger] s@.subrange(ii, ii + sub@.len()) != sub@,
        decreases n - i,
    {
        if match_at(s, sub, i) {
            return true;
        }
        i = i + 1;
    }
    false
}

/// Joining a non-empty relative path onto a prefix with a separator.
pub open spec fn path_join_spec(prefix: Seq<char>, rest: Seq<char>) -> Seq<char> {
    prefix + seq!['/'] + rest
}

/// Concatenates `prefix`, a path separator, and `rest`.
pub fn path_join(prefix: &str, rest: &str) -> (r: String)
    ensures
        r@ == path_join_spec(prefix@, rest@),
{
    let mut s = String::from_str(prefix);
    s.append("/");
    s.append(rest);
    proof {
        reveal_strlit("/");
        assert("/"@ =~= seq!['/']);
    }
    s
}

/// `p` equals `prefix` or lies below it, in whole path components.
pub open spec fn path_under(p: Seq<char>, prefix: Seq<char>) -> bool {
    p == prefix || seq_starts_with(p, prefix.push('/'))
}

/// Component-wise path prefix test: `p` is `prefix` itself or a path
/// inside it.
pub fn path_starts_with(p: &str, prefix: &str) -> (r: bool)
    ensures
        r == path_under(p@, prefix@),
{
    if str_eq_str(p, prefix) {
        return true;
    }
    let lp = p.unicode_len();
    let lx = prefix.unicode_len();
    if lp <= lx {
        proof {
            assert(prefix@.push('/').len() == lx + 1 > lp);
        }
        return false;
    }
    if !str_starts_with(p, prefix) {
        proof {
            if seq_starts_with(p@, prefix@.push('/')) {
                assert(p@.subrange(0, lx as int) =~= p@.subrange(0, (lx + 1) as int).subrange(
                    0,
                    lx as int,
                ));
                assert(p@.subrange(0, (lx + 1) as int) =~= prefix@.push('/'));
                assert(prefix@.push('/').subrange(0, lx as int) =~= prefix@);
            }
        }
        return false;
    }
    let c = p.get_char(lx);
    proof {
        if c == '/' {
            assert(p@.subrange(0, (lx + 1) as int) =~= prefix@.push('/')) by {
                assert(p@.subrange(0, lx as int) == prefix@);
                assert(forall|k: int|
                    0 <= k < lx ==> p@.subrange(0, (lx + 1) as int)[k] == p@.subrange(
                        0,
                        lx as int,
                    )[k]);
            }
        } else {
            if seq_starts_with(p@, prefix@.push('/')) {
                assert(p@.subrange(0, (lx + 1) as int)[lx as int] == '/');
            }
        }
    }
    c == '/'
}

/// The path begins with a root separator.
pub open spec fn seq_is_absolute(p: Seq<char>) -> bool {
    p.len() > 0 && p[0] == '/'
}

/// Whether the path is relative (does not begin at the filesystem
/// root).
pub fn path_is_relative(p: &str) -> (r: bool)
    ensures
        r == !seq_is_absolute(p@),
{
    let l = p.unicode_len();
    if l == 0 {
        return true;
    }
    p.get_char(0) != '/'
}

/// A parent-directory component begins at index `i` of `p`.
pub open spec fn dotdot_at(p: Seq<char>, i: int) -> bool {
    &&& 0 <= i
    &&& i + 2 <= p.len()
    &&& p[i] == '.'
    &&& p[i + 1] == '.'
    &&& (i == 0 || p[i - 1] == '/')
    &&& (i + 2 == p.len() || p[i + 2] == '/')
}

/// The path contains a `..` component.
pub open spec fn has_parent_component(p: Seq<char>) -> bool {
    exists|i: int| dotdot_at(p, i)
}

/// Scans for a whole `..` path component.
pub fn path_has_parent_component(p: &str) -> (r: bool)
    ensures
        r == has_parent_component(p@),
{
    let l = p.unicode_len();
    if l < 2 {
        proof {
            assert(forall|i: int| !dotdot_at(p@, i));
        }
        return false;
    }
    let mut i: usize = 0;
    while i <= l - 2
        invariant
            l == p@.len(),
            2 <= l,
            i <= l,
            forall|ii: int| 0 <= ii < i ==> !dotdot_at(p@, ii),
        decreases l - i,
    {
        let mut here = p.get_char(i) == '.' && p.get_char(i + 1) == '.';
        if here && i > 0 {
            here = p.get_char(i - 1) == '/';
        }
        if here && i + 2 < l {
            here = p.get_char(i + 2) == '/';
        }
        if here {
            assert(dotdot_at(p@, i as int));
            return true;
        }
        assert(!dotdot_at(p@, i as int));
        i = i + 1;
    }
    proof {
        assert(forall|ii: int| i <= ii ==> !dotdot_at(p@, ii));
    }
    false
}

/// The set of character sequences held by a string sequence.
pub open spec fn view_set(v: Seq<String>) -> Set<Seq<char>> {
    views_of(v).to_set()
}

/// Sorts distinct paths into lexicographic order. The result holds
/// exactly the same paths, each once, in sorted order.
pub fn sort_paths(v: &Vec<String>) -> (r: Vec<String>)
    requires
        seq_distinct(views_of(v@)),
    ensures
        lex_sorted(views_of(r@)),
        seq_distinct(views_of(r@)),
        view_set(r@) == view_set(v@),
        r@.len() == v@.len(),
{
    let ghost all = views_of(v@);
    let mut out: Vec<String> = Vec::new();
    let mut idx: usize = 0;
    proof {
        assert(views_of(v@.subrange(0, 0)) =~= Seq::<Seq<char>>::empty());
        assert(view_set(out@) =~= views_of(v@.subrange(0, 0)).to_set());
    }
    while idx < v.len()
        invariant
            idx <= v@.len(),
            seq_distinct(views_of(v@)),
            lex_sorted(views_of(out@)),
            seq_distinct(views_of(out@)),
            view_set(out@) == views_of(v@.subrange(0, idx as int)).to_set(),
            out@.len() == idx,
        decreases v@.len() - idx,
    {
        let x = v[idx].clone();
        let ghost xv = x@;
        let ghost old_out = out@;
        proof {
            assert(xv == views_of(v@)[idx as int]);
            // x is not yet present in out
            assert forall|k: int| 0 <= k < old_out.len() implies views_of(old_out)[k] != xv by {
                if views_of(old_out)[k] == xv {
                    assert(views_of(old_out).contains(xv));
                    assert(view_set(old_out).contains(xv));
                    let w = choose|w: int|
                        0 <= w < idx && views_of(v@.subrange(0, idx as int))[w] == xv;
                    assert(views_of(v@)[w] == xv);
                }
            }
        }
        let mut j: usize = 0;
        while j < out.len() && !str_le(x.as_str(), out[j].as_str())
            invariant
                j <= out@.len(),
                out@.len() < usize::MAX,
                forall|k: int| 0 <= k < j ==> !lex_le(xv, #[trigger] views_of(out@)[k]),
                xv == x@,
            decreases out@.len() - j,
        {
            j = j + 1;
        }
        proof {
            assert(j < out@.len() ==> lex_le(xv, views_of(old_out)[j as int]));
            assert forall|k: int| 0 <= k < j implies lex_le(
                #[trigger] views_of(old_out)[k],
                xv,
            ) by {
                lemma_lex_le_total(xv, views_of(old_out)[k]);
            }
        }
        out.insert(j, x);
        proof {
            assert(out@ == old_out.insert(j as int, x));
            let nv = views_of(out@);
            let ov = views_of(old_out);
            assert(nv =~= ov.insert(j as int, xv)) by {
                assert forall|k: int| 0 <= k < nv.len() implies nv[k] == ov.insert(
                    j as int,
                    xv,
                )[k] by {
                    assert(nv[k] == out@[k]@);
                }
            }
            // sortedness of the new sequence
            assert forall|a: int, b: int| 0 <= a < b < nv.len() implies lex_le(nv[a], nv[b]) by {
                let ja = if a < j { ov[a] } else if a == j { xv } else { ov[a - 1] };
                let jb = if b < j { ov[b] } else if b == j { xv } else { ov[b - 1] };
                assert(nv[a] == ja);
                assert(nv[b] == jb);
                if a < j && b == j {
                } else if a == j && b > j {
                    if b - 1 > j {
                        lemma_lex_le_transitive(xv, ov[j as int], ov[b - 1]);
                    }
                } else if a < j && b > j {
                } else {
                }
            }
            // distinctness of the new sequence
            assert forall|a: int, b: int| 0 <= a < b < nv.len() implies nv[a] != nv[b] by {
                assert(nv[a] == if a < j { ov[a] } else if a == j { xv } else { ov[a - 1] });
                assert(nv[b] == if b < j { ov[b] } else if b == j { xv } else { ov[b - 1] });
            }
            // the set grows by exactly the new element
            assert(view_set(out@) =~= views_of(v@.subrange(0, idx as int + 1)).to_set()) by {
                let pv = views_of(v@.subrange(0, idx as int));
                let pv1 = views_of(v@.subrange(0, idx as int + 1));
                assert(pv1 =~= pv.push(xv));
                assert forall|e: Seq<char>| nv.contains(e) implies pv1.contains(e) by {
                    let k = choose|k: int| 0 <= k < nv.len() && nv[k] == e;
                    if k == j {
                        assert(pv1[pv1.len() - 1] == xv);
                    } else {
                        let ko = if k < j { k } else { k - 1 };
                        assert(ov[ko] == e);
                        assert(ov.contains(e));
                        assert(view_set(old_out).contains(e));
                        let w = choose|w: int| 0 <= w < pv.len() && pv[w] == e;
                        assert(pv1[w] == e);
                    }
                }
                assert forall|e: Seq<char>| pv1.contains(e) implies nv.contains(e) by {
                    let k = choose|k: int| 0 <= k < pv1.len() && pv1[k] == e;
                    if k == pv1.len() - 1 {
                        assert(nv[j as int] == e);
                    } else {
                        assert(pv[k] == e);
                        assert(pv.contains(e));
                        assert(view_set(old_out).contains(e));
                        let w = choose|w: int| 0 <= w < ov.len() && ov[w] == e;
                        let wn = if w < j { w } else { w + 1 };
                        assert(nv[wn] == e);
                    }
                }
            }
        }
        idx = idx + 1;
    }
    proof {
        assert(v@.subrange(0, idx as int) =~= v@);
    }
    out
}


/// Horizontal whitespace, with the newline included when `wn` holds.
pub open spec fn char_is_space(c: char, wn: bool) -> bool {
    c == ' ' || c == '\t' || c == '\r' || (wn && c == '\n')
}

/// Every character of `s` is whitespace.
pub open spec fn all_space(s: Seq<char>, wn: bool) -> bool {
    forall|i: int| 0 <= i < s.len() ==> char_is_space(#[trigger] s[i], wn)
}

/// `s` with leading and trailing whitespace removed.
#[verifier::opaque]
pub open spec fn trimmed(s: Seq<char>, wn: bool) -> Seq<char> {
    if all_space(s, wn) {
        Seq::empty()
    } else {
        let a = choose|a: int|
            0 <= a < s.len() && !char_is_space(s[a], wn) && (forall|k: int|
                0 <= k < a ==> char_is_space(#[trigger] s[k], wn));
        let b = choose|b: int|
            0 <= b < s.len() && !char_is_space(s[b], wn) && (forall|k: int|
                b < k < s.len() ==> char_is_space(#[trigger] s[k], wn));
        s.subrange(a, b + 1)
    }
}

/// Removes leading and trailing whitespace; the newline counts as
/// whitespace when `with_newline` holds.
pub fn trim_str(s: &str, with_newline: bool) -> (r: String)
    ensures
        r@ == trimmed(s@, with_newline),
{
    let l = s.unicode_len();
    let mut a: usize = 0;
    while a < l && char_space(s.get_char(a), with_newline)
        invariant
            a <= l,
            l == s@.len(),
            forall|k: int| 0 <= k < a ==> char_is_space(#[trigger] s@[k], with_newline),
        decreases l - a,
    {
        a = a + 1;
    }
    if a == l {
        proof {
            reveal(trimmed);
            assert(all_space(s@, with_newline));
        }
        return String::new();
    }
    let mut b: usize = l - 1;
    while b > a && char_space(s.get_char(b), with_newline)
        invariant
            a <= b < l,
            l == s@.len(),
            !char_is_space(s@[a as int], with_newline),
            forall|k: int| b < k < l ==> char_is_space(#[trigger] s@[k], with_newline),
        decreases b,
    {
        b = b - 1;
    }
    let r = s.substring_char(a, b + 1).to_owned();
    proof {
        reveal(trimmed);
        assert(!all_space(s@, with_newline));
        assert(!char_is_space(s@[b as int], with_newline));
        let aa = choose|aa: int|
            0 <= aa < s@.len() && !char_is_space(s@[aa], with_newline) && (forall|k: int|
                0 <= k < aa ==> char_is_space(#[trigger] s@[k], with_newline));
        let bb = choose|bb: int|
            0 <= bb < s@.len() && !char_is_space(s@[bb], with_newline) && (forall|k: int|
                bb < k < s@.len() ==> char_is_space(#[trigger] s@[k], with_newline));
        assert(aa == a as int);
        assert(bb == b as int);
    }
    r
}

/// Whitespace test on one character.
fn char_space(c: char, with_newline: bool) -> (r: bool)
    ensures
        r == char_is_space(c, with_newline),
{
    c == ' ' || c == '\t' || c == '\r' || (with_newline && c == '\n')
}

/// The lines of `s`, split on the newline character, the current line
/// accumulated in `cur`. A final line is kept only when it is
/// non-empty, so a trailing newline adds no empty line.
pub open spec fn split_acc(s: Seq<char>, cur: Seq<char>) -> Seq<Seq<char>>
    decreases s.len(),
{
    if s.len() == 0 {
        if cur.len() == 0 {
            Seq::empty()
        } else {
            seq![cur]
        }
    } else if s[0] == '\n' {
        seq![cur] + split_acc(s.skip(1), Seq::empty())
    } else {
        split_acc(s.skip(1), cur.push(s[0]))
    }
}

/// The lines of `s`.
pub open spec fn split_lines_spec(s: Seq<char>) -> Seq<Seq<char>> {
    split_acc(s, Seq::empty())
}

/// Splits `s` into its lines.
pub fn split_lines(s: &str) -> (r: Vec<String>)
    ensures
        views_of(r@) == split_lines_spec(s@),
{
    let l = s.unicode_len();
    let mut out: Vec<String> = Vec::new();
    let mut start: usize = 0;
    let mut i: usize = 0;
    proof {
        assert(s@.skip(0) =~= s@);
        assert(s@.subrange(0, 0) =~= Seq::<char>::empty());
        assert(views_of(out@) =~= Seq::<Seq<char>>::empty());
        assert(views_of(out@) + split_acc(s@, Seq::empty()) =~= split_acc(s@, Seq::empty()));
    }
    while i < l
        invariant
            start <= i <= l,
            l == s@.len(),
            split_lines_spec(s@) == views_of(out@) + split_acc(
                s@.skip(i as int),
                s@.subrange(start as int, i as int),
            ),
        decreases l - i,
    {
        let ghost pre_views = views_of(out@);
        let ghost cur = s@.subrange(start as int, i as int);
        if s.get_char(i) == '\n' {
            let line = s.substring_char(start, i).to_owned();
            let ghost old_out = out@;
            out.push(line);
            proof {
                assert(out@ == old_out.push(line));
                assert(views_of(old_out).len() == old_out.len());
                assert forall|k: int| 0 <= k < out@.len() implies views_of(out@)[k] == (
                views_of(old_out).push(cur))[k] by {
                    assert(views_of(out@)[k] == out@[k]@);
                    if k < old_out.len() {
                        assert(out@[k] == old_out[k]);
                        assert(views_of(old_out)[k] == old_out[k]@);
                    }
                }
                assert(views_of(out@) =~= views_of(old_out).push(cur));
                assert(s@.skip(i as int)[0] == s@[i as int]);
                assert(s@.skip(i as int).skip(1) =~= s@.skip(i as int + 1));
                assert(split_acc(s@.skip(i as int), cur) == seq![cur] + split_acc(
                    s@.skip(i as int + 1),
                    Seq::empty(),
                ));
                assert(views_of(old_out) + (seq![cur] + split_acc(
                    s@.skip(i as int + 1),
                    Seq::empty(),
                )) =~= views_of(out@) + split_acc(s@.skip(i as int + 1), Seq::empty()));
                assert(s@.subrange(i as int + 1, i as int + 1) =~= Seq::<char>::empty());
            }
            start = i + 1;
        } else {
            proof {
                assert(s@.skip(i as int)[0] == s@[i as int]);
                assert(s@.skip(i as int).skip(1) =~= s@.skip(i as int + 1));
                assert(cur.push(s@[i as int]) =~= s@.subrange(start as int, i as int + 1));
                assert(split_acc(s@.skip(i as int), cur) == split_acc(
                    s@.skip(i as int + 1),
                    s@.subrange(start as int, i as int + 1),
                ));
            }
        }
        i = i + 1;
    }
    if start < l {
        let line = s.substring_char(start, l).to_owned();
        let ghost old_out = out@;
        let ghost cur = s@.subrange(start as int, l as int);
        out.push(line);
        proof {
            assert(out@ == old_out.push(line));
            assert(views_of(old_out).len() == old_out.len());
            assert forall|k: int| 0 <= k < out@.len() implies views_of(out@)[k] == (views_of(
                old_out,
            ).push(cur))[k] by {
                assert(views_of(out@)[k] == out@[k]@);
                if k < old_out.len() {
                    assert(out@[k] == old_out[k]);
                    assert(views_of(old_out)[k] == old_out[k]@);
                }
            }
            assert(views_of(out@) =~= views_of(old_out).push(cur));
            assert(s@.skip(l as int).len() == 0);
            assert(cur.len() > 0);
            assert(split_acc(s@.skip(l as int), cur) == seq![cur]);
            assert(views_of(old_out) + seq![cur] =~= views_of(out@));
        }
    } else {
        proof {
            assert(s@.skip(l as int).len() == 0);
            assert(s@.subrange(start as int, l as int).len() == 0);
            assert(split_acc(s@.skip(l as int), s@.subrange(start as int, l as int))
                =~= Seq::<Seq<char>>::empty());
            assert(views_of(out@) + Seq::<Seq<char>>::empty() =~= views_of(out@));
        }
    }
    out
}

/// The lines joined with single newlines, without a trailing newline.
pub open spec fn join_lines_spec(lines: Seq<Seq<char>>) -> Seq<char>
    decreases lines.len(),
{
    if lines.len() == 0 {
        Seq::empty()
    } else if lines.len() == 1 {
        lines[0]
    } else {
        lines[0] + seq!['\n'] + join_lines_spec(lines.skip(1))
    }
}

/// Appending one line extends the joined text by a separator and the
/// line, except at the very front.
proof fn lemma_join_push(lines: Seq<Seq<char>>, x: Seq<char>)
    ensures
        lines.len() == 0 ==> join_lines_spec(lines.push(x)) == x,
        lines.len() > 0 ==> join_lines_spec(lines.push(x)) == join_lines_spec(lines)
            + seq!['\n'] + x,
    decreases lines.len(),
{
    if lines.len() == 0 {
        assert(lines.push(x)[0] == x);
        assert(join_lines_spec(lines.push(x)) == x);
    } else {
        assert(lines.push(x).skip(1) =~= lines.skip(1).push(x));
        lemma_join_push(lines.skip(1), x);
        assert(lines.push(x)[0] == lines[0]);
        if lines.len() == 1 {
            assert(lines.skip(1).len() == 0);
            assert(join_lines_spec(lines.push(x)) == lines[0] + seq!['\n'] + x);
            assert(join_lines_spec(lines) == lines[0]);
        } else {
            assert(join_lines_spec(lines.push(x)) == lines[0] + seq!['\n'] + (join_lines_spec(
                lines.skip(1),
            ) + seq!['\n'] + x));
            assert(lines[0] + seq!['\n'] + (join_lines_spec(lines.skip(1)) + seq!['\n'] + x)
                =~= (lines[0] + seq!['\n'] + join_lines_spec(lines.skip(1))) + seq!['\n'] + x);
        }
    }
}

/// Joins lines with single newlines, without a trailing newline.
pub fn join_lines(v: &Vec<String>) -> (r: String)
    ensures
        r@ == join_lines_spec(views_of(v@)),
{
    let mut acc = String::new();
    let mut i: usize = 0;
    while i < v.len()
        invariant
            i <= v@.len(),
            acc@ == join_lines_spec(views_of(v@).subrange(0, i as int)),
        decreases v@.len() - i,
    {
        if i > 0 {
            acc.append("\n");
            proof {
                reveal_strlit("\n");
                assert("\n"@ =~= seq!['\n']);
            }
        }
        acc.append(v[i].as_str());
        proof {
            let pre = views_of(v@).subrange(0, i as int);
            lemma_join_push(pre, views_of(v@)[i as int]);
            assert(views_of(v@)[i as int] == v@[i as int]@);
            assert(pre.push(views_of(v@)[i as int]) =~= views_of(v@).subrange(0, i as int + 1));
            if i == 0 {
                assert(pre.len() == 0);
                assert(acc@ =~= join_lines_spec(views_of(v@).subrange(0, i as int + 1)));
            } else {
                assert(pre.len() > 0);
                assert(acc@ =~= join_lines_spec(views_of(v@).subrange(0, i as int + 1)));
            }
        }
        i = i + 1;
    }
    proof {
        assert(views_of(v@).subrange(0, i as int) =~= views_of(v@));
    }
    acc
}

} // verus!
