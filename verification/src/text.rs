//! Character-level text utilities shared by the extractors: trimming,
//! prefix and substring tests, splitting, line handling, and two-character
//! pattern replacement, each specified over `Seq<char>`.

use vstd::prelude::*;

verus! {

/// What `char::is_whitespace` returns: whether the character has the
/// Unicode white-space property.
pub uninterp spec fn space_char(c: char) -> bool;

/// What `char::is_alphanumeric` returns: whether the character is a
/// Unicode letter or digit.
pub uninterp spec fn alnum_char(c: char) -> bool;

/// Relies on char::is_whitespace: the result depends on the character alone.
#[verifier::external_body]
pub(crate) fn is_space_char(c: char) -> (r: bool)
    ensures
        r == space_char(c),
{
    c.is_whitespace()
}

/// Relies on char::is_alphanumeric: the result depends on the character alone.
#[verifier::external_body]
pub(crate) fn is_alnum_char(c: char) -> (r: bool)
    ensures
        r == alnum_char(c),
{
    c.is_alphanumeric()
}

/// Relies on String's FromIterator over characters: collecting yields a
/// string holding exactly those characters in order.
#[verifier::external_body]
pub(crate) fn string_from_chars(v: &Vec<char>) -> (r: String)
    ensures
        r@ == v@,
{
    v.iter().collect()
}

/// Converts a string slice into the vector of its characters.
pub fn to_chars(s: &str) -> (r: Vec<char>)
    ensures
        r@ == s@,
{
    let n: usize = s.unicode_len();
    let mut v: Vec<char> = Vec::new();
    let mut i: usize = 0;
    while i < n
        invariant
            n == s@.len(),
            i <= n,
            v@ == s@.subrange(0, i as int),
        decreases n - i,
    {
        let c = s.get_char(i);
        v.push(c);
        proof {
            assert(v@ =~= s@.subrange(0, i + 1 as int));
        }
        i = i + 1;
    }
    proof {
        assert(v@ =~= s@);
    }
    v
}

/// Copies a character vector.
pub(crate) fn clone_chars(src: &Vec<char>) -> (r: Vec<char>)
    ensures
        r@ == src@,
{
    let mut r: Vec<char> = Vec::new();
    push_all(&mut r, src);
    proof {
        assert(r@ =~= src@);
    }
    r
}

/// Appends the characters of `src` to `dst`.
pub(crate) fn push_all(dst: &mut Vec<char>, src: &Vec<char>)
    ensures
        final(dst)@ == old(dst)@ + src@,
{
    let mut i: usize = 0;
    while i < src.len()
        invariant
            i <= src@.len(),
            dst@ == old(dst)@ + src@.subrange(0, i as int),
        decreases src@.len() - i,
    {
        dst.push(src[i]);
        proof {
            assert(old(dst)@ + src@.subrange(0, i + 1 as int) =~= (old(dst)@ + src@.subrange(
                0,
                i as int,
            )).push(src@[i as int]));
        }
        i = i + 1;
    }
    proof {
        assert(src@.subrange(0, src@.len() as int) =~= src@);
    }
}

/// Copies the characters of `v` between positions `a` and `b`.
pub(crate) fn copy_range(v: &Vec<char>, a: usize, b: usize) -> (r: Vec<char>)
    requires
        a <= b <= v@.len(),
    ensures
        r@ == v@.subrange(a as int, b as int),
{
    let mut r: Vec<char> = Vec::new();
    let mut i: usize = a;
    while i < b
        invariant
            a <= i <= b <= v@.len(),
            r@ == v@.subrange(a as int, i as int),
        decreases b - i,
    {
        r.push(v[i]);
        proof {
            assert(r@ =~= v@.subrange(a as int, i + 1 as int));
        }
        i = i + 1;
    }
    r
}

/// The sequence with leading white space removed.
pub open spec fn trim_front(s: Seq<char>) -> Seq<char>
    decreases s.len(),
{
    if s.len() > 0 && space_char(s[0]) {
        trim_front(s.subrange(1, s.len() as int))
    } else {
        s
    }
}

/// The sequence with trailing white space removed.
pub open spec fn trim_back(s: Seq<char>) -> Seq<char>
    decreases s.len(),
{
    if s.len() > 0 && space_char(s[s.len() - 1]) {
        trim_back(s.subrange(0, s.len() - 1))
    } else {
        s
    }
}

/// The sequence with both leading and trailing white space removed, as
/// `str::trim` yields it.
pub open spec fn trimmed(s: Seq<char>) -> Seq<char> {
    trim_back(trim_front(s))
}

/// Removes leading and trailing white space.
pub(crate) fn trim_chars(v: &Vec<char>) -> (r: Vec<char>)
    ensures
        r@ == trimmed(v@),
{
    let n = v.len();
    proof {
        assert(v@.subrange(0, n as int) =~= v@);
    }
    let mut lo: usize = 0;
    while lo < n && is_space_char(v[lo])
        invariant
            n == v@.len(),
            lo <= n,
            trim_front(v@) == trim_front(v@.subrange(lo as int, n as int)),
        decreases n - lo,
    {
        proof {
            assert(v@.subrange(lo as int, n as int)[0] == v@[lo as int]);
            assert(v@.subrange(lo as int, n as int).subrange(1, (n - lo) as int) =~= v@.subrange(
                lo + 1 as int,
                n as int,
            ));
        }
        lo = lo + 1;
    }
    proof {
        if lo < n {
            assert(v@.subrange(lo as int, n as int)[0] == v@[lo as int]);
        }
        assert(trim_front(v@) == v@.subrange(lo as int, n as int));
    }
    let mut hi: usize = n;
    while hi > lo && is_space_char(v[hi - 1])
        invariant
            n == v@.len(),
            lo <= hi <= n,
            trim_front(v@) == v@.subrange(lo as int, n as int),
            trim_back(v@.subrange(lo as int, n as int)) == trim_back(
                v@.subrange(lo as int, hi as int),
            ),
        decreases hi,
    {
        proof {
            let sub = v@.subrange(lo as int, hi as int);
            assert(sub[sub.len() - 1] == v@[hi - 1 as int]);
            assert(sub.subrange(0, sub.len() - 1) =~= v@.subrange(lo as int, hi - 1 as int));
        }
        hi = hi - 1;
    }
    proof {
        let sub = v@.subrange(lo as int, hi as int);
        if hi > lo {
            assert(sub[sub.len() - 1] == v@[hi - 1 as int]);
        }
        assert(trim_back(v@.subrange(lo as int, hi as int)) == v@.subrange(lo as int, hi as int));
    }
    let mut r: Vec<char> = Vec::new();
    let mut i: usize = lo;
    while i < hi
        invariant
            lo <= i <= hi <= n,
            n == v@.len(),
            r@ == v@.subrange(lo as int, i as int),
        decreases hi - i,
    {
        r.push(v[i]);
        proof {
            assert(r@ =~= v@.subrange(lo as int, i + 1 as int));
        }
        i = i + 1;
    }
    r
}

/// Decides whether two string slices hold the same characters.
pub(crate) fn str_eq(a: &str, b: &str) -> (r: bool)
    ensures
        r == (a@ == b@),
{
    let va = to_chars(a);
    let vb = to_chars(b);
    if va.len() != vb.len() {
        return false;
    }
    let n = va.len();
    let mut i: usize = 0;
    while i < n
        invariant
            n == va@.len() == vb@.len(),
            va@ == a@,
            vb@ == b@,
            i <= n,
            forall|k: int| 0 <= k < i ==> va@[k] == vb@[k],
        decreases n - i,
    {
        if va[i] != vb[i] {
            return false;
        }
        i = i + 1;
    }
    proof {
        assert(a@ =~= b@);
    }
    true
}

/// Whether pattern `p` occurs in `s` starting at position `i`.
pub open spec fn match_at(s: Seq<char>, p: Seq<char>, i: int) -> bool {
    0 <= i && i + p.len() <= s.len() && s.subrange(i, i + p.len() as int) == p
}

/// Whether `p` is a prefix of `s`.
pub open spec fn has_prefix(s: Seq<char>, p: Seq<char>) -> bool {
    match_at(s, p, 0)
}

/// Whether `p` occurs anywhere in `s`.
pub open spec fn contains_seq(s: Seq<char>, p: Seq<char>) -> bool {
    exists|i: int| match_at(s, p, i)
}

/// Decides whether `p` occurs in `v` at position `i`.
fn match_at_exec(v: &Vec<char>, p: &str, i: usize) -> (r: bool)
    ensures
        r == match_at(v@, p@, i as int),
{
    let plen = p.unicode_len();
    let vn = v.len();
    if i > vn || vn - i < plen {
        return false;
    }
    let mut j: usize = 0;
    while j < plen
        invariant
            plen == p@.len(),
            vn == v@.len(),
            i + plen <= vn,
            j <= plen,
            forall|k: int| 0 <= k < j ==> v@[i + k] == p@[k],
        decreases plen - j,
    {
        if v[i + j] != p.get_char(j) {
            proof {
                assert(v@.subrange(i as int, i + plen as int)[j as int] == v@[i + j]);
            }
            return false;
        }
        j = j + 1;
    }
    proof {
        assert(v@.subrange(i as int, i + plen as int) =~= p@);
    }
    true
}

/// Decides whether `p` is a prefix of `v`.
pub(crate) fn starts_with_chars(v: &Vec<char>, p: &str) -> (r: bool)
    ensures
        r == has_prefix(v@, p@),
{
    match_at_exec(v, p, 0)
}

/// Decides whether `p` occurs anywhere in `v`.
pub(crate) fn contains_chars(v: &Vec<char>, p: &str) -> (r: bool)
    ensures
        r == contains_seq(v@, p@),
{
    let n = v.len();
    let mut i: usize = 0;
    while i < n
        invariant
            n == v@.len(),
            i <= n,
            forall|k: int| 0 <= k < i ==> !match_at(v@, p@, k),
        decreases n - i,
    {
        if match_at_exec(v, p, i) {
            return true;
        }
        i = i + 1;
    }
    if match_at_exec(v, p, n) {
        return true;
    }
    proof {
        assert(forall|k: int| match_at(v@, p@, k) ==> 0 <= k <= v@.len());
    }
    false
}

/// The longest prefix of `s` from position `i` that holds no white space.
pub open spec fn word_from(s: Seq<char>, i: int) -> Seq<char>
    decreases s.len() - i,
{
    if i < 0 || i >= s.len() || space_char(s[i]) {
        Seq::empty()
    } else {
        seq![s[i]] + word_from(s, i + 1)
    }
}

/// The first white-space-delimited word of `s`, for `s` with no leading
/// white space.
pub open spec fn first_word(s: Seq<char>) -> Seq<char> {
    word_from(s, 0)
}

/// Takes the characters of `v` up to the first white space.
pub(crate) fn first_word_chars(v: &Vec<char>) -> (r: Vec<char>)
    ensures
        r@ == first_word(v@),
{
    let mut r: Vec<char> = Vec::new();
    let mut i: usize = 0;
    while i < v.len() && !is_space_char(v[i])
        invariant
            i <= v@.len(),
            first_word(v@) == r@ + word_from(v@, i as int),
        decreases v@.len() - i,
    {
        let ghost r0 = r@;
        r.push(v[i]);
        proof {
            assert(r0 + word_from(v@, i as int) =~= r@ + word_from(v@, i + 1 as int));
        }
        i = i + 1;
    }
    proof {
        assert(word_from(v@, i as int) =~= Seq::<char>::empty());
        assert(r@ + Seq::<char>::empty() =~= r@);
    }
    r
}

/// Splitting from position `i` with current piece `cur` and earlier
/// pieces `acc`: the pieces of `s` delimited by `sep`.
pub open spec fn split_from(
    s: Seq<char>,
    sep: char,
    i: int,
    cur: Seq<char>,
    acc: Seq<Seq<char>>,
) -> Seq<Seq<char>>
    decreases s.len() - i,
{
    if i < 0 || i >= s.len() {
        acc.push(cur)
    } else if s[i] == sep {
        split_from(s, sep, i + 1, Seq::empty(), acc.push(cur))
    } else {
        split_from(s, sep, i + 1, cur.push(s[i]), acc)
    }
}

/// The pieces of `s` delimited by `sep`, as `str::split` yields them:
/// empty pieces are kept, and there is always at least one piece.
pub open spec fn split_on(s: Seq<char>, sep: char) -> Seq<Seq<char>> {
    split_from(s, sep, 0, Seq::empty(), Seq::empty())
}

/// The view of a vector of character vectors.
pub open spec fn pieces_view(v: Seq<Vec<char>>) -> Seq<Seq<char>> {
    v.map_values(|x: Vec<char>| x@)
}

/// Splits `v` on the separator, keeping empty pieces.
pub(crate) fn split_chars(v: &Vec<char>, sep: char) -> (r: Vec<Vec<char>>)
    ensures
        pieces_view(r@) == split_on(v@, sep),
        r@.len() >= 1,
{
    let mut acc: Vec<Vec<char>> = Vec::new();
    let mut cur: Vec<char> = Vec::new();
    proof {
        assert(pieces_view(acc@) =~= Seq::<Seq<char>>::empty());
    }
    let mut i: usize = 0;
    while i < v.len()
        invariant
            i <= v@.len(),
            split_on(v@, sep) == split_from(v@, sep, i as int, cur@, pieces_view(acc@)),
        decreases v@.len() - i,
    {
        let c = v[i];
        if c == sep {
            let ghost acc0 = acc@;
            let ghost cur0 = cur@;
            acc.push(cur);
            cur = Vec::new();
            proof {
                acc0.lemma_push_map_commute(|x: Vec<char>| x@, acc@.last());
                assert(pieces_view(acc@) =~= pieces_view(acc0).push(cur0));
            }
        } else {
            cur.push(c);
        }
        i = i + 1;
    }
    let ghost acc0 = acc@;
    let ghost cur0 = cur@;
    acc.push(cur);
    proof {
        acc0.lemma_push_map_commute(|x: Vec<char>| x@, acc@.last());
        assert(pieces_view(acc@) =~= pieces_view(acc0).push(cur0));
    }
    acc
}

/// The piece with one trailing carriage return removed, as `str::lines`
/// strips it from a line that a newline ended.
pub open spec fn strip_cr(l: Seq<char>) -> Seq<char> {
    if l.len() > 0 && l[l.len() - 1] == '\r' {
        l.subrange(0, l.len() - 1)
    } else {
        l
    }
}

/// The lines of `s`, as `str::lines` yields them: pieces split on
/// newlines, each newline-terminated piece with a trailing carriage
/// return removed, and a final empty piece dropped.
pub open spec fn spec_lines(s: Seq<char>) -> Seq<Seq<char>> {
    let raw = split_on(s, '\n');
    let body = raw.subrange(0, raw.len() - 1).map_values(|l: Seq<char>| strip_cr(l));
    if raw.last().len() == 0 {
        body
    } else {
        body.push(raw.last())
    }
}

/// Removes one trailing carriage return, if present.
fn strip_cr_chars(l: &Vec<char>) -> (r: Vec<char>)
    ensures
        r@ == strip_cr(l@),
{
    let mut r = clone_chars(l);
    if r.len() > 0 && r[r.len() - 1] == '\r' {
        let _ = r.pop();
        proof {
            assert(r@ =~= l@.subrange(0, l@.len() - 1));
        }
    }
    r
}

/// The lines of `v`, as `str::lines` yields them.
pub(crate) fn lines_chars(v: &Vec<char>) -> (r: Vec<Vec<char>>)
    ensures
        pieces_view(r@) == spec_lines(v@),
{
    let parts = split_chars(v, '\n');
    let m = parts.len() - 1;
    let ghost full = pieces_view(parts@).subrange(0, m as int).map_values(
        |l: Seq<char>| strip_cr(l),
    );
    let mut out: Vec<Vec<char>> = Vec::new();
    let mut i: usize = 0;
    while i < m
        invariant
            m == parts@.len() - 1,
            i <= m,
            pieces_view(parts@) == split_on(v@, '\n'),
            full == pieces_view(parts@).subrange(0, m as int).map_values(
                |l: Seq<char>| strip_cr(l),
            ),
            pieces_view(out@) == full.subrange(0, i as int),
        decreases m - i,
    {
        let stripped = strip_cr_chars(&parts[i]);
        proof {
            assert(parts@[i as int]@ == pieces_view(parts@)[i as int]);
            assert(full[i as int] == strip_cr(pieces_view(parts@)[i as int]));
        }
        let ghost out0 = out@;
        out.push(stripped);
        proof {
            out0.lemma_push_map_commute(|x: Vec<char>| x@, out@.last());
            assert(pieces_view(out@) =~= pieces_view(out0).push(out@.last()@));
            assert(full.subrange(0, i + 1 as int) =~= full.subrange(0, i as int).push(
                full[i as int],
            ));
            assert(pieces_view(out@) =~= full.subrange(0, i + 1 as int));
        }
        i = i + 1;
    }
    proof {
        assert(pieces_view(out@) =~= full);
    }
    let last = &parts[m];
    if last.len() > 0 {
        let lastv = clone_chars(last);
        proof {
            assert(parts@[m as int]@ == pieces_view(parts@)[m as int]);
        }
        let ghost out0 = out@;
        out.push(lastv);
        proof {
            out0.lemma_push_map_commute(|x: Vec<char>| x@, out@.last());
            let raw = split_on(v@, '\n');
            assert(raw.last() == pieces_view(parts@)[m as int]);
            assert(pieces_view(out@) =~= full.push(raw.last()));
        }
    }
    out
}

/// Joining trimmed lines with single spaces: the text the schema column
/// parser scans.
pub open spec fn join_trimmed(ls: Seq<Seq<char>>) -> Seq<char>
    decreases ls.len(),
{
    if ls.len() == 0 {
        Seq::empty()
    } else if ls.len() == 1 {
        trimmed(ls[0])
    } else {
        join_trimmed(ls.drop_last()) + seq![' '] + trimmed(ls.last())
    }
}

/// Trims each line and joins them with single spaces.
pub(crate) fn join_trimmed_chars(ls: &Vec<Vec<char>>) -> (r: Vec<char>)
    ensures
        r@ == join_trimmed(pieces_view(ls@)),
{
    let mut acc: Vec<char> = Vec::new();
    let mut i: usize = 0;
    while i < ls.len()
        invariant
            i <= ls@.len(),
            acc@ == join_trimmed(pieces_view(ls@).subrange(0, i as int)),
        decreases ls@.len() - i,
    {
        let t = trim_chars(&ls[i]);
        proof {
            assert(ls@[i as int]@ == pieces_view(ls@)[i as int]);
        }
        if i == 0 {
            acc = t;
            proof {
                let sub = pieces_view(ls@).subrange(0, 1);
                assert(sub.len() == 1);
                assert(sub[0] == pieces_view(ls@)[0]);
            }
        } else {
            acc.push(' ');
            push_all(&mut acc, &t);
            proof {
                let sub1 = pieces_view(ls@).subrange(0, i + 1 as int);
                assert(sub1.drop_last() =~= pieces_view(ls@).subrange(0, i as int));
                assert(sub1.last() == pieces_view(ls@)[i as int]);
                assert(acc@ =~= join_trimmed(sub1.drop_last()) + seq![' '] + trimmed(sub1.last()));
            }
        }
        i = i + 1;
    }
    proof {
        assert(pieces_view(ls@).subrange(0, ls@.len() as int) =~= pieces_view(ls@));
    }
    acc
}

/// Replacing every occurrence of the two-character pattern `a b` with the
/// single character `r`, scanning left to right without overlap, from
/// position `i`.
pub open spec fn replace_pair_from(s: Seq<char>, a: char, b: char, r: char, i: int) -> Seq<char>
    decreases s.len() - i,
{
    if i < 0 || i >= s.len() {
        Seq::empty()
    } else if i + 1 < s.len() && s[i] == a && s[i + 1] == b {
        seq![r] + replace_pair_from(s, a, b, r, i + 2)
    } else {
        seq![s[i]] + replace_pair_from(s, a, b, r, i + 1)
    }
}

/// Every occurrence of the two-character pattern `a b` replaced by `r`,
/// as `str::replace` does it.
pub open spec fn replace_pair(s: Seq<char>, a: char, b: char, r: char) -> Seq<char> {
    replace_pair_from(s, a, b, r, 0)
}

/// Replaces every occurrence of the two-character pattern `a b` with `rc`.
pub(crate) fn replace_pair_chars(v: &Vec<char>, a: char, b: char, rc: char) -> (r: Vec<char>)
    ensures
        r@ == replace_pair(v@, a, b, rc),
{
    let mut out: Vec<char> = Vec::new();
    let mut i: usize = 0;
    while i < v.len()
        invariant
            i <= v@.len(),
            replace_pair(v@, a, b, rc) == out@ + replace_pair_from(v@, a, b, rc, i as int),
        decreases v@.len() - i,
    {
        if i + 1 < v.len() && v[i] == a && v[i + 1] == b {
            let ghost out0 = out@;
            out.push(rc);
            proof {
                assert(out0 + replace_pair_from(v@, a, b, rc, i as int) =~= out@
                    + replace_pair_from(v@, a, b, rc, i + 2 as int));
            }
            i = i + 2;
        } else {
            let ghost out0 = out@;
            out.push(v[i]);
            proof {
                assert(out0 + replace_pair_from(v@, a, b, rc, i as int) =~= out@
                    + replace_pair_from(v@, a, b, rc, i + 1 as int));
            }
            i = i + 1;
        }
    }
    proof {
        assert(out@ + replace_pair_from(v@, a, b, rc, i as int) =~= out@);
    }
    out
}

} // verus!
