//! The methods of hana's `String` record. Characters of hana strings are
//! extended grapheme clusters, as the `unicode-segmentation` crate finds them.

use unicode_segmentation::UnicodeSegmentation;
use vstd::prelude::*;

verus! {

/// The extended grapheme clusters of `s`, in order, as
/// `UnicodeSegmentation::graphemes(s, true)` yields them.
pub uninterp spec fn grapheme_clusters(s: Seq<char>) -> Seq<Seq<char>>;

/// The strings `parts`, one after the other.
pub open spec fn concat(parts: Seq<Seq<char>>) -> Seq<char>
    decreases parts.len(),
{
    if parts.len() == 0 {
        Seq::empty()
    } else {
        concat(parts.drop_last()) + parts.last()
    }
}

/// The parts whose index `keep` selects, one after the other.
pub open spec fn select(parts: Seq<Seq<char>>, keep: spec_fn(int) -> bool) -> Seq<char>
    decreases parts.len(),
{
    if parts.len() == 0 {
        Seq::empty()
    } else {
        select(parts.drop_last(), keep) + if keep(parts.len() - 1) {
            parts.last()
        } else {
            Seq::empty()
        }
    }
}

/// Index of the first character of part `i`.
pub open spec fn part_start(parts: Seq<Seq<char>>, i: int) -> int {
    concat(parts.take(i)).len() as int
}

/// The range of hana characters that `copy` and `delete` take: from
/// `from` on, `nchars` of them, or all of the rest if `nchars` is -1.
pub open spec fn in_range(i: int, from: int, nchars: i64) -> bool {
    if nchars == -1 {
        i >= from
    } else {
        from <= i < from + nchars as usize
    }
}

/// The grapheme clusters of `s`, each as a string of its own.
///
/// Calls `UnicodeSegmentation::graphemes(s, true)`, whose iterator yields
/// the slices of `s` between consecutive cluster boundaries: each slice is
/// non-empty, and together, in order, they are `s`. The contract claims
/// that, and names the clusters; which boundaries Unicode's segmentation
/// rules place is not stated.
#[verifier::external_body]
fn graphemes_of(s: &str) -> (v: Vec<String>)
    ensures
        v@.map_values(|g: String| g@) == grapheme_clusters(s@),
        concat(v@.map_values(|g: String| g@)) == s@,
        forall|i: int| 0 <= i < v@.len() ==> (#[trigger] v@[i])@.len() > 0,
{
    s.graphemes(true).map(|g| g.to_string()).collect()
}

/// Lemma: `select` over one more part.
proof fn lemma_select_push(parts: Seq<Seq<char>>, keep: spec_fn(int) -> bool, i: int)
    requires
        0 <= i < parts.len(),
    ensures
        select(parts.take(i + 1), keep) == select(parts.take(i), keep) + if keep(i) {
            parts[i]
        } else {
            Seq::empty()
        },
{
    assert(parts.take(i + 1).drop_last() =~= parts.take(i));
}

/// Lemma: `concat` over one more part.
proof fn lemma_concat_push(parts: Seq<Seq<char>>, i: int)
    requires
        0 <= i < parts.len(),
    ensures
        concat(parts.take(i + 1)) == concat(parts.take(i)) + parts[i],
{
    assert(parts.take(i + 1).drop_last() =~= parts.take(i));
}

/// The number of hana characters (grapheme clusters) of `s`.
pub fn length(s: &str) -> (r: i64)
    ensures
        r == grapheme_clusters(s@).len() as i64,
{
    let v = graphemes_of(s);
    v.len() as i64
}

/// The number of bytes of the UTF-8 encoding of `s`.
pub fn bytesize(s: &str) -> (r: i64)
    ensures
        r == s.len() as i64,
{
    s.len() as i64
}

/// Does `s` start with `left`?
pub fn startswith(s: &str, left: &str) -> (r: bool)
    ensures
        r == (left@.len() <= s@.len() && s@.take(left@.len() as int) == left@),
{
    let a = crate::text::chars_of(s);
    let b = crate::text::chars_of(left);
    if b.len() > a.len() {
        return false;
    }
    let mut i: usize = 0;
    while i < b.len()
        invariant
            a@ == s@,
            b@ == left@,
            b@.len() <= a@.len(),
            i <= b@.len(),
            forall|k: int| 0 <= k < i ==> a@[k] == b@[k],
        decreases b.len() - i,
    {
        if a[i] != b[i] {
            assert(s@.take(left@.len() as int)[i as int] != left@[i as int]);
            return false;
        }
        i += 1;
    }
    assert(s@.take(left@.len() as int) =~= left@);
    true
}

/// Does `s` end with `right`?
pub fn endswith(s: &str, right: &str) -> (r: bool)
    ensures
        r == (right@.len() <= s@.len() && s@.skip(s@.len() - right@.len()) == right@),
{
    let a = crate::text::chars_of(s);
    let b = crate::text::chars_of(right);
    if b.len() > a.len() {
        return false;
    }
    let off = a.len() - b.len();
    let mut i: usize = 0;
    while i < b.len()
        invariant
            a@ == s@,
            b@ == right@,
            off + b.len() == a.len(),
            i <= b@.len(),
            forall|k: int| 0 <= k < i ==> a@[off + k] == b@[k],
        decreases b.len() - i,
    {
        if a[off + i] != b[i] {
            assert(s@.skip(s@.len() - right@.len())[i as int] != right@[i as int]);
            return false;
        }
        i += 1;
    }
    assert(s@.skip(s@.len() - right@.len()) =~= right@);
    true
}

/// Keeps the hana characters of `s` whose index is (`inside`) or is not
/// in the range of `from_pos` and `nchars`.
fn filter_range(s: &str, from_pos: i64, nchars: i64, inside: bool) -> (r: String)
    requires
        nchars == -1 || from_pos as usize + nchars as usize <= usize::MAX,
    ensures
        r@ == select(
            grapheme_clusters(s@),
            |i: int| in_range(i, from_pos as usize as int, nchars) == inside,
        ),
{
    let from = from_pos as usize;
    let v = graphemes_of(s);
    let ghost parts = v@.map_values(|g: String| g@);
    let ghost keep = |i: int| in_range(i, from as int, nchars) == inside;
    let mut out = String::new();
    let mut i: usize = 0;
    assert(parts.take(0) =~= Seq::<Seq<char>>::empty());
    while i < v.len()
        invariant
            i <= v@.len(),
            parts == v@.map_values(|g: String| g@),
            nchars == -1 || from + nchars as usize <= usize::MAX,
            keep == (|j: int| in_range(j, from as int, nchars) == inside),
            out@ == select(parts.take(i as int), keep),
        decreases v.len() - i,
    {
        let hit = if nchars == -1 {
            i >= from
        } else {
            from <= i && i < from + nchars as usize
        };
        proof {
            lemma_select_push(parts, keep, i as int);
            assert(hit == in_range(i as int, from as int, nchars));
        }
        if hit == inside {
            crate::text::push_str(&mut out, v[i].as_str());
        }
        i += 1;
    }
    assert(parts.take(v@.len() as int) =~= parts);
    out
}

/// A copy of `s` without the hana characters in the range: `nchars` of
/// them from `from_pos` on, or all from `from_pos` on if `nchars` is -1.
pub fn delete(s: &str, from_pos: i64, nchars: i64) -> (r: String)
    requires
        nchars == -1 || from_pos as usize + nchars as usize <= usize::MAX,
    ensures
        r@ == select(grapheme_clusters(s@), |i: int| !in_range(i, from_pos as usize as int, nchars)),
{
    let r = filter_range(s, from_pos, nchars, false);
    assert((|i: int| in_range(i, from_pos as usize as int, nchars) == false) =~= (|i: int|
        !in_range(i, from_pos as usize as int, nchars)));
    r
}

/// The hana characters of `s` in the range: `nchars` of them from
/// `from_pos` on, or all from `from_pos` on if `nchars` is -1.
pub fn copy(s: &str, from_pos: i64, nchars: i64) -> (r: String)
    requires
        nchars == -1 || from_pos as usize + nchars as usize <= usize::MAX,
    ensures
        r@ == select(grapheme_clusters(s@), |i: int| in_range(i, from_pos as usize as int, nchars)),
{
    let r = filter_range(s, from_pos, nchars, true);
    assert((|i: int| in_range(i, from_pos as usize as int, nchars) == true) =~= (|i: int|
        in_range(i, from_pos as usize as int, nchars)));
    r
}

/// The index of the first character of each hana character of `s`, with
/// the clusters themselves.
fn cluster_starts(s: &str) -> (r: (Vec<String>, Vec<usize>))
    ensures
        r.0@.map_values(|g: String| g@) == grapheme_clusters(s@),
        r.1@.len() == r.0@.len(),
        forall|i: int| 0 <= i < r.1@.len() ==> r.1@[i] == part_start(grapheme_clusters(s@), i),
        forall|i: int| 0 <= i < r.0@.len() ==> (#[trigger] r.0@[i])@.len() > 0,
        concat(grapheme_clusters(s@)) == s@,
{
    let v = graphemes_of(s);
    let cs = crate::text::chars_of(s);
    let ghost parts = v@.map_values(|g: String| g@);
    let mut starts: Vec<usize> = Vec::new();
    let mut pos: usize = 0;
    let mut i: usize = 0;
    assert(parts.take(0) =~= Seq::<Seq<char>>::empty());
    while i < v.len()
        invariant
            i <= v@.len(),
            parts == v@.map_values(|g: String| g@),
            concat(parts) == s@,
            cs@ == s@,
            starts@.len() == i,
            forall|k: int| 0 <= k < i ==> starts@[k] == part_start(parts, k),
            pos == concat(parts.take(i as int)).len(),
        decreases v.len() - i,
    {
        proof {
            lemma_concat_push(parts, i as int);
            lemma_concat_prefix_len(parts, i + 1);
        }
        starts.push(pos);
        let w = crate::text::chars_of(v[i].as_str()).len();
        assert(parts[i as int] == v@[i as int]@);
        assert(pos + w <= cs.len());
        pos = pos + w;
        i += 1;
    }
    (v, starts)
}

/// Lemma: the parts before `i` are no longer than all of them together.
proof fn lemma_concat_prefix_len(parts: Seq<Seq<char>>, i: int)
    requires
        0 <= i <= parts.len(),
    ensures
        concat(parts.take(i)).len() <= concat(parts).len(),
    decreases parts.len() - i,
{
    if i < parts.len() {
        lemma_concat_prefix_len(parts, i + 1);
        lemma_concat_push(parts, i);
    } else {
        assert(parts.take(i) =~= parts);
    }
}

/// Deletes from `s`, in place, the hana characters in the range: `nchars`
/// of them from `from_pos` on, or all from `from_pos` on if `nchars` is -1.
pub fn delete_in_place(s: &mut String, from_pos: i64, nchars: i64)
    requires
        nchars == -1 || from_pos as usize + nchars as usize <= usize::MAX,
    ensures
        final(s)@ == select(grapheme_clusters(old(s)@), |i: int| !in_range(i, from_pos as usize as int, nchars)),
{
    let r = delete(s.as_str(), from_pos, nchars);
    *s = r;
}

/// Inserts `src` into `dst` before the hana character at `from_pos`;
/// nothing changes if there is no such character.
pub fn insert_in_place(dst: &mut String, from_pos: i64, src: &str)
    ensures
        ({
            let parts = grapheme_clusters(old(dst)@);
            let from = from_pos as usize as int;
            if from < parts.len() {
                let at = part_start(parts, from);
                final(dst)@ == old(dst)@.take(at) + src@ + old(dst)@.skip(at)
            } else {
                final(dst)@ == old(dst)@
            }
        }),
{
    let from = from_pos as usize;
    let (v, starts) = cluster_starts(dst.as_str());
    if from >= v.len() {
        return;
    }
    let ghost parts = grapheme_clusters(old(dst)@);
    let cs = crate::text::chars_of(dst.as_str());
    let at = starts[from];
    proof {
        lemma_concat_prefix_len(parts, from as int);
    }
    let mut out = String::new();
    let mut k: usize = 0;
    while k < at
        invariant
            k <= at <= cs@.len(),
            out@ == cs@.take(k as int),
        decreases at - k,
    {
        crate::text::push_char(&mut out, cs[k]);
        assert(cs@.take(k + 1) =~= cs@.take(k as int).push(cs@[k as int]));
        k += 1;
    }
    crate::text::push_str(&mut out, src);
    let tail = crate::text::string_from_chars(&cs.as_slice()[at..cs.len()]);
    crate::text::push_str(&mut out, tail.as_str());
    assert(cs@.subrange(at as int, cs@.len() as int) =~= old(dst)@.skip(at as int));
    *dst = out;
}

/// `needle` occurs in `hay` at index `j`.
pub open spec fn occurs_at(hay: Seq<char>, needle: Seq<char>, j: int) -> bool {
    0 <= j && j + needle.len() <= hay.len() && hay.subrange(j, j + needle.len()) == needle
}

/// The index of the first occurrence of `needle` in `hay`, if any.
fn find(hay: &Vec<char>, needle: &Vec<char>) -> (r: Option<usize>)
    ensures
        r matches Some(i) ==> occurs_at(hay@, needle@, i as int) && forall|j: int|
            0 <= j < i ==> !#[trigger] occurs_at(hay@, needle@, j),
        r is None ==> forall|j: int| !#[trigger] occurs_at(hay@, needle@, j),
{
    if needle.len() > hay.len() {
        return None;
    }
    let last = hay.len() - needle.len();
    let mut i: usize = 0;
    loop
        invariant
            last + needle.len() == hay.len(),
            i <= last,
            forall|j: int| 0 <= j < i ==> !#[trigger] occurs_at(hay@, needle@, j),
        decreases last - i,
    {
        let mut k: usize = 0;
        while k < needle.len() && hay[i + k] == needle[k]
            invariant
                i <= last,
                last + needle.len() == hay.len(),
                k <= needle@.len(),
                forall|m: int| 0 <= m < k ==> hay@[i + m] == needle@[m],
            decreases needle.len() - k,
        {
            k += 1;
        }
        if k == needle.len() {
            assert(hay@.subrange(i as int, i + needle@.len()) =~= needle@);
            return Some(i);
        }
        assert(hay@.subrange(i as int, i + needle@.len())[k as int] != needle@[k as int]);
        if i == last {
            assert forall|j: int| !#[trigger] occurs_at(hay@, needle@, j) by {
                if 0 <= j && j <= i {
                }
            }
            return None;
        }
        i += 1;
    }
}

/// The index of the hana character of `s` at which the first occurrence
/// of `needle` starts; -1 if `needle` does not occur in `s` or its first
/// occurrence starts inside a hana character.
pub fn index(s: &str, needle: &str) -> (r: i64)
    requires
        s@.len() <= i64::MAX,
    ensures
        r >= -1,
        r >= 0 ==> r < grapheme_clusters(s@).len() && occurs_at(s@, needle@, part_start(grapheme_clusters(s@), r as int))
            && forall|k: int| 0 <= k < part_start(grapheme_clusters(s@), r as int) ==> !#[trigger] occurs_at(s@, needle@, k),
        r == -1 ==> forall|j: int|
            #[trigger] occurs_at(s@, needle@, j) && (forall|k: int| 0 <= k < j ==> !#[trigger] occurs_at(s@, needle@, k)) ==> forall|c: int|
                0 <= c < grapheme_clusters(s@).len() ==> part_start(grapheme_clusters(s@), c) != j,
{
    let hay = crate::text::chars_of(s);
    let nd = crate::text::chars_of(needle);
    let (v, starts) = cluster_starts(s);
    let ghost parts = grapheme_clusters(s@);
    match find(&hay, &nd) {
        Some(x) => {
            assert(hay@ == s@ && nd@ == needle@);
            let mut c: usize = 0;
            while c < starts.len()
                invariant
                    starts@.len() == parts.len(),
                    parts == grapheme_clusters(s@),
                    concat(parts) == s@,
                    s@.len() <= i64::MAX,
                    occurs_at(s@, needle@, x as int),
                    forall|k: int| 0 <= k < x ==> !#[trigger] occurs_at(s@, needle@, k),
                    forall|i: int| 0 <= i < parts.len() ==> (#[trigger] parts[i]).len() > 0,
                    forall|i: int| 0 <= i < starts@.len() ==> starts@[i] == part_start(parts, i),
                    c <= starts@.len(),
                    forall|i: int| 0 <= i < c ==> starts@[i] != x,
                decreases starts.len() - c,
            {
                if starts[c] == x {
                    proof {
                        lemma_parts_bound(parts, s@);
                    }
                    return c as i64;
                }
                c += 1;
            }
            proof {
                assert forall|j: int|
                    #[trigger] occurs_at(s@, needle@, j) && (forall|k: int| 0 <= k < j ==> !#[trigger] occurs_at(s@, needle@, k))
                    implies forall|c2: int| 0 <= c2 < parts.len() ==> part_start(parts, c2) != j by {
                    if j < x {
                    } else if j > x {
                        assert(occurs_at(s@, needle@, x as int));
                    }
                    assert forall|c2: int| 0 <= c2 < parts.len() implies part_start(parts, c2) != j by {
                        assert(starts@[c2] != x);
                    }
                }
            }
            -1
        },
        None => {
            assert(hay@ == s@ && nd@ == needle@);
            -1
        },
    }
}

/// Lemma: there are no more parts than characters, when every part holds one.
proof fn lemma_parts_bound(parts: Seq<Seq<char>>, s: Seq<char>)
    requires
        concat(parts) == s,
        forall|i: int| 0 <= i < parts.len() ==> (#[trigger] parts[i]).len() > 0,
    ensures
        parts.len() <= s.len(),
    decreases parts.len(),
{
    if parts.len() > 0 {
        lemma_parts_bound(parts.drop_last(), concat(parts.drop_last()));
    }
}

/// The hana characters of `s`, each as a string.
pub fn chars(s: &str) -> (r: Vec<String>)
    ensures
        r@.map_values(|g: String| g@) == grapheme_clusters(s@),
{
    graphemes_of(s)
}

/// The code of the first `char` of `s`, or 0 if `s` is empty.
pub fn ord(s: &str) -> (r: i64)
    ensures
        s@.len() == 0 ==> r == 0,
        s@.len() > 0 ==> r == s@[0] as i64,
{
    let cs = crate::text::chars_of(s);
    if cs.len() == 0 {
        0
    } else {
        cs[0] as i64
    }
}

/// The pieces of `s[start..]` between the occurrences of `delim` (not
/// empty), looking for the next occurrence from `i` on.
pub open spec fn split_from(s: Seq<char>, delim: Seq<char>, start: int, i: int) -> Seq<Seq<char>>
    recommends
        delim.len() > 0,
        0 <= start <= i,
    decreases s.len() - i,
{
    if delim.len() == 0 || i + delim.len() > s.len() {
        seq![s.subrange(start, s.len() as int)]
    } else if s.subrange(i, i + delim.len()) == delim {
        seq![s.subrange(start, i)] + split_from(s, delim, i + delim.len(), i + delim.len())
    } else {
        split_from(s, delim, start, i + 1)
    }
}

/// The pieces of `s` between the occurrences of `delim`, taken from left to
/// right without overlap, as `str::split` gives them; an empty `delim`
/// splits before and after every character.
pub open spec fn split_spec(s: Seq<char>, delim: Seq<char>) -> Seq<Seq<char>> {
    if delim.len() == 0 {
        seq![Seq::<char>::empty()] + Seq::new(s.len(), |i: int| seq![s[i]]) + seq![Seq::<char>::empty()]
    } else {
        split_from(s, delim, 0, 0)
    }
}

/// Splits `s` at each occurrence of `delim` (see `split_spec`).
pub fn split(s: &str, delim: &str) -> (r: Vec<String>)
    ensures
        r@.map_values(|p: String| p@) == split_spec(s@, delim@),
{
    let cs = crate::text::chars_of(s);
    let d = crate::text::chars_of(delim);
    let mut out: Vec<String> = Vec::new();
    if d.len() == 0 {
        out.push(String::new());
        let mut i: usize = 0;
        while i < cs.len()
            invariant
                i <= cs@.len(),
                cs@ == s@,
                out@.map_values(|p: String| p@) == seq![Seq::<char>::empty()] + Seq::new(
                    i as nat,
                    |k: int| seq![cs@[k]],
                ),
            decreases cs.len() - i,
        {
            let piece = crate::text::string_from_chars(&cs.as_slice()[i..i + 1]);
            assert(cs@.subrange(i as int, i + 1) =~= seq![cs@[i as int]]);
            let ghost before = out@.map_values(|p: String| p@);
            out.push(piece);
            assert(out@.map_values(|p: String| p@) =~= before.push(seq![cs@[i as int]]));
            assert(Seq::new((i + 1) as nat, |k: int| seq![cs@[k]]) =~= Seq::new(i as nat, |k: int| seq![cs@[k]]).push(
                seq![cs@[i as int]],
            ));
            assert(seq![Seq::<char>::empty()] + Seq::new((i + 1) as nat, |k: int| seq![cs@[k]]) =~= (seq![
                Seq::<char>::empty(),
            ] + Seq::new(i as nat, |k: int| seq![cs@[k]])).push(seq![cs@[i as int]]));
            i += 1;
        }
        let ghost before = out@.map_values(|p: String| p@);
        out.push(String::new());
        assert(out@.map_values(|p: String| p@) =~= before.push(Seq::<char>::empty()));
        assert(out@.map_values(|p: String| p@) =~= split_spec(s@, delim@));
        return out;
    }
    let n = cs.len();
    let dl = d.len();
    let mut start: usize = 0;
    let mut i: usize = 0;
    while dl <= n && i <= n - dl
        invariant
            cs@ == s@,
            d@ == delim@,
            n == cs@.len(),
            dl == d@.len(),
            dl > 0,
            start <= i <= n,
            split_spec(s@, delim@) == out@.map_values(|p: String| p@) + split_from(cs@, d@, start as int, i as int),
        decreases n - i,
    {
        let mut k: usize = 0;
        while k < dl && cs[i + k] == d[k]
            invariant
                i + dl <= n == cs@.len(),
                dl == d@.len(),
                k <= dl,
                forall|m: int| 0 <= m < k ==> cs@[i + m] == d@[m],
            decreases dl - k,
        {
            k += 1;
        }
        if k == dl {
            assert(cs@.subrange(i as int, i + dl) =~= d@);
            let piece = crate::text::string_from_chars(&cs.as_slice()[start..i]);
            let ghost before = out@.map_values(|p: String| p@);
            out.push(piece);
            assert(out@.map_values(|p: String| p@) =~= before.push(cs@.subrange(start as int, i as int)));
            assert(seq![cs@.subrange(start as int, i as int)] + split_from(cs@, d@, (i + dl) as int, (i + dl) as int)
                =~= split_from(cs@, d@, start as int, i as int));
            assert(before + split_from(cs@, d@, start as int, i as int) =~= before.push(
                cs@.subrange(start as int, i as int),
            ) + split_from(cs@, d@, (i + dl) as int, (i + dl) as int));
            i = i + dl;
            start = i;
        } else {
            assert(cs@.subrange(i as int, i + dl)[k as int] != d@[k as int]);
            i = i + 1;
        }
    }
    let piece = crate::text::string_from_chars(&cs.as_slice()[start..n]);
    let ghost before = out@.map_values(|p: String| p@);
    out.push(piece);
    assert(out@.map_values(|p: String| p@) =~= before.push(cs@.subrange(start as int, n as int)));
    assert(before + split_from(cs@, d@, start as int, i as int) =~= before.push(cs@.subrange(start as int, n as int)));
    out
}

/// The strings `parts` joined with `delim` between each two of them.
pub open spec fn join(parts: Seq<Seq<char>>, delim: Seq<char>) -> Seq<char>
    decreases parts.len(),
{
    if parts.len() == 0 {
        Seq::empty()
    } else if parts.len() == 1 {
        parts[0]
    } else {
        join(parts.drop_last(), delim) + delim + parts.last()
    }
}

/// Lemma: joining a first part with the others puts the delimiter after it.
proof fn lemma_join_front(x: Seq<char>, rest: Seq<Seq<char>>, delim: Seq<char>)
    requires
        rest.len() > 0,
    ensures
        join(seq![x] + rest, delim) == x + delim + join(rest, delim),
    decreases rest.len(),
{
    let all = seq![x] + rest;
    assert(all.len() > 1);
    if rest.len() == 1 {
        assert(all.drop_last() =~= seq![x]);
        assert(all.last() == rest[0]);
        assert(join(seq![x], delim) == x);
        assert(join(rest, delim) == rest[0]);
    } else {
        assert(all.drop_last() =~= seq![x] + rest.drop_last());
        assert(all.last() == rest.last());
        assert(join(rest, delim) == join(rest.drop_last(), delim) + delim + rest.last());
        lemma_join_front(x, rest.drop_last(), delim);
        assert(x + delim + join(rest.drop_last(), delim) + delim + rest.last() =~= x + delim + (join(
            rest.drop_last(),
            delim,
        ) + delim + rest.last()));
    }
}

/// Lemma: the pieces of `s[start..]` joined with the delimiter give it back.
proof fn lemma_split_from_join(s: Seq<char>, delim: Seq<char>, start: int, i: int)
    requires
        delim.len() > 0,
        0 <= start <= i <= s.len(),
    ensures
        split_from(s, delim, start, i).len() > 0,
        join(split_from(s, delim, start, i), delim) == s.subrange(start, s.len() as int),
    decreases s.len() - i,
{
    if i + delim.len() > s.len() {
    } else if s.subrange(i, i + delim.len()) == delim {
        let j = i + delim.len();
        lemma_split_from_join(s, delim, j, j);
        lemma_join_front(s.subrange(start, i), split_from(s, delim, j, j), delim);
        assert(s.subrange(start, i) + delim + s.subrange(j, s.len() as int) =~= s.subrange(start, s.len() as int));
    } else {
        lemma_split_from_join(s, delim, start, i + 1);
    }
}

/// Splitting a string at a delimiter and joining the pieces with the same
/// delimiter gives the string back.
pub proof fn lemma_split_join(s: Seq<char>, delim: Seq<char>)
    ensures
        join(split_spec(s, delim), delim) == s,
{
    if delim.len() == 0 {
        assert(delim =~= Seq::<char>::empty());
        let singles = Seq::new(s.len(), |i: int| seq![s[i]]);
        let parts = seq![Seq::<char>::empty()] + singles + seq![Seq::<char>::empty()];
        let front = seq![Seq::<char>::empty()] + singles;
        lemma_join_singles(s);
        assert(parts.drop_last() =~= front);
        if s.len() == 0 {
            assert(front =~= seq![Seq::<char>::empty()]);
            assert(join(front, delim) =~= s);
        } else {
            lemma_join_front(Seq::<char>::empty(), singles, delim);
            assert(Seq::<char>::empty() + delim + join(singles, delim) =~= s);
        }
        assert(parts.last() == Seq::<char>::empty());
        assert(join(parts, delim) == join(front, delim) + delim + parts.last());
        assert(join(parts, delim) =~= s);
        assert(split_spec(s, delim) == parts);
    } else {
        lemma_split_from_join(s, delim, 0, 0);
        assert(s.subrange(0, s.len() as int) =~= s);
    }
}

/// Lemma: the characters of `s`, each as a string, joined with nothing
/// between them, are `s`.
proof fn lemma_join_singles(s: Seq<char>)
    ensures
        join(Seq::new(s.len(), |i: int| seq![s[i]]), Seq::<char>::empty()) == s,
    decreases s.len(),
{
    if s.len() > 0 {
        let t = s.drop_last();
        lemma_join_singles(t);
        let p = Seq::new(s.len(), |i: int| seq![s[i]]);
        assert(p.drop_last() =~= Seq::new(t.len(), |i: int| seq![t[i]]));
        if s.len() == 1 {
            assert(p[0] == seq![s[0]]);
            assert(seq![s[0]] =~= s);
        } else {
            assert(p.last() == seq![s.last()]);
            assert(t + Seq::<char>::empty() + seq![s.last()] =~= s);
        }
    } else {
        assert(Seq::new(s.len(), |i: int| seq![s[i]]).len() == 0);
        assert(s =~= Seq::<char>::empty());
    }
}

/// Lemma: selecting the parts from `k` on, after those before `k`, gives
/// all the parts.
proof fn lemma_select_split(parts: Seq<Seq<char>>, keep: spec_fn(int) -> bool, drop: spec_fn(int) -> bool, k: int)
    requires
        forall|i: int| 0 <= i < parts.len() ==> (#[trigger] keep(i) <==> i >= k),
        forall|i: int| 0 <= i < parts.len() ==> (#[trigger] drop(i) <==> i < k),
    ensures
        select(parts, drop) + select(parts, keep) == concat(parts),
        parts.len() <= k ==> select(parts, keep) == Seq::<char>::empty(),
    decreases parts.len(),
{
    if parts.len() > 0 {
        let d = parts.drop_last();
        let n = parts.len() - 1;
        lemma_select_split(d, keep, drop, k);
        if n >= k {
            assert(select(d, drop) + (select(d, keep) + parts.last()) =~= select(d, drop) + select(d, keep)
                + parts.last());
        } else {
            assert(select(d, drop) + parts.last() + Seq::<char>::empty() =~= select(d, drop) + select(d, keep)
                + parts.last());
        }
    }
}

/// A string is what `delete(s, from, -1)` leaves of it followed by what
/// `copy(s, from, -1)` takes of it: the hana characters before `from`,
/// then those from `from` on.
pub proof fn lemma_delete_copy_rest(s: Seq<char>, from_pos: i64)
    ensures
        select(grapheme_clusters(s), |i: int| !in_range(i, from_pos as usize as int, -1i64)) + select(
            grapheme_clusters(s),
            |i: int| in_range(i, from_pos as usize as int, -1i64),
        ) == concat(grapheme_clusters(s)),
{
    lemma_select_split(
        grapheme_clusters(s),
        |i: int| in_range(i, from_pos as usize as int, -1i64),
        |i: int| !in_range(i, from_pos as usize as int, -1i64),
        from_pos as usize as int,
    );
}

/// A string is what `copy(s, 0, n)` takes of it followed by what
/// `delete(s, 0, n)` leaves of it: its first `n` hana characters, then the
/// others.
pub proof fn lemma_copy_delete_prefix(s: Seq<char>, n: i64)
    requires
        n >= 0,
    ensures
        select(grapheme_clusters(s), |i: int| in_range(i, 0usize as int, n)) + select(
            grapheme_clusters(s),
            |i: int| !in_range(i, 0usize as int, n),
        ) == concat(grapheme_clusters(s)),
{
    let keep = |i: int| !in_range(i, 0usize as int, n);
    let drop = |i: int| in_range(i, 0usize as int, n);
    assert forall|i: int| 0 <= i < grapheme_clusters(s).len() implies (#[trigger] keep(i) <==> i >= n as usize as int) by {}
    assert forall|i: int| 0 <= i < grapheme_clusters(s).len() implies (#[trigger] drop(i) <==> i < n as usize as int) by {}
    lemma_select_split(
        grapheme_clusters(s),
        |i: int| !in_range(i, 0usize as int, n),
        |i: int| in_range(i, 0usize as int, n),
        n as usize as int,
    );
}

} // verus!
