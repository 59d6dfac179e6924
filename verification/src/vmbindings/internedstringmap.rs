//! Interned strings: each string kept once, found again by its index.

use vstd::prelude::*;

use crate::compiler;

verus! {

/// Number of strings that an interned string map can index.
pub const MAX_LENGTH: usize = 65535;

/// Strings interned by the virtual machine, indexed by `u16`.
pub struct InternedStringMap {
    data: Vec<String>,
}

impl View for InternedStringMap {
    type V = Seq<Seq<char>>;

    closed spec fn view(&self) -> Seq<Seq<char>> {
        self.data@.map_values(|s: String| s@)
    }
}

/// Is a string of `nbytes` bytes left out of the map? Only strings shorter
/// than 2 bytes or of 20 bytes and more are interned.
pub open spec fn not_interned(nbytes: nat) -> bool {
    2 <= nbytes < 20
}

impl InternedStringMap {
    /// An empty map.
    pub fn new() -> (m: InternedStringMap)
        ensures
            m@ == Seq::<Seq<char>>::empty(),
    {
        InternedStringMap { data: Vec::new() }
    }

    /// The index of `s`, interning it first if it is new; `None` for the
    /// strings that are not interned.
    pub fn get_or_insert(&mut self, s: &str) -> (r: Option<u16>)
        requires
            not_interned(s.len() as nat) || old(self)@.contains(s@) || old(self)@.len() + 1 < MAX_LENGTH,
        ensures
            not_interned(s.len() as nat) ==> r is None && final(self)@ == old(self)@,
            !not_interned(s.len() as nat) && old(self)@.contains(s@) ==> final(self)@ == old(self)@ && r
                == Some(compiler::first_index(old(self)@, s@) as u16),
            !not_interned(s.len() as nat) && !old(self)@.contains(s@) ==> final(self)@ == old(self)@.push(
                s@,
            ) && r == Some(old(self)@.len() as u16),
            old(self)@.is_prefix_of(final(self)@),
            r matches Some(i) ==> final(self)@.contains(s@) && i == compiler::first_index(
                final(self)@,
                s@,
            ) as u16,
    {
        let nbytes = s.len();
        if 2 <= nbytes && nbytes < 20 {
            assert(self@.is_prefix_of(self@));
            return None;
        }
        let ghost v = self@;
        let owned = s.to_owned();
        let mut i: usize = 0;
        while i < self.data.len()
            invariant
                i <= self.data@.len(),
                v == self@,
                v.len() == self.data@.len(),
                owned@ == s@,
                !not_interned(s.len() as nat),
                forall|k: int| 0 <= k < i ==> v[k] != s@,
            decreases self.data.len() - i,
        {
            assert(v[i as int] == self.data@[i as int]@);
            if self.data[i] == owned {
                proof {
                    compiler::lemma_first_index(v, s@, i as int);
                    assert(v.is_prefix_of(self@));
                }
                return Some(i as u16);
            }
            i += 1;
        }
        assert(!v.contains(s@));
        self.data.push(owned);
        assert(self@ =~= v.push(s@));
        proof {
            lemma_intern_roundtrip(v, s@);
            assert(v =~= v.push(s@).subrange(0, v.len() as int));
        }
        Some((self.data.len() - 1) as u16)
    }

    /// The string at index `idx`.
    pub fn get(&self, idx: u16) -> (r: &String)
        requires
            idx < self@.len(),
        ensures
            r@ == self@[idx as int],
    {
        &self.data[idx as usize]
    }
}

/// Lemma: a string that occurs in `m` occurs first at `first_index(m, s)`.
proof fn lemma_first_index_found(m: Seq<Seq<char>>, s: Seq<char>)
    requires
        m.contains(s),
    ensures
        0 <= compiler::first_index(m, s) < m.len(),
        m[compiler::first_index(m, s)] == s,
    decreases m.len(),
{
    if m[0] != s {
        let k = choose|k: int| 0 <= k < m.len() && m[k] == s;
        assert(m.drop_first()[k - 1] == s);
        lemma_first_index_found(m.drop_first(), s);
    }
}

/// Interning gives back what was interned: the index that `get_or_insert`
/// returns for an interned string holds that string in the map it leaves,
/// and interning the string again returns the same index and leaves the
/// map as it is.
pub proof fn lemma_intern_roundtrip(m: Seq<Seq<char>>, s: Seq<char>)
    ensures
        m.contains(s) ==> 0 <= compiler::first_index(m, s) < m.len() && m[compiler::first_index(m, s)] == s,
        !m.contains(s) ==> m.push(s)[m.len() as int] == s && m.push(s).contains(s)
            && compiler::first_index(m.push(s), s) == m.len(),
{
    if m.contains(s) {
        lemma_first_index_found(m, s);
    } else {
        let m2 = m.push(s);
        assert(m2[m.len() as int] == s);
        assert forall|k: int| 0 <= k < m.len() implies m2[k] != s by {
            assert(m2[k] == m[k]);
        }
        compiler::lemma_first_index(m2, s, m.len() as int);
    }
}

/// Interning tells strings apart: two strings held in the map get the same
/// index from `get_or_insert` exactly when they are the same string.
pub proof fn lemma_intern_distinct(m: Seq<Seq<char>>, s1: Seq<char>, s2: Seq<char>)
    requires
        m.contains(s1),
        m.contains(s2),
        m.len() <= MAX_LENGTH,
    ensures
        (compiler::first_index(m, s1) as u16 == compiler::first_index(m, s2) as u16) <==> s1 == s2,
{
    lemma_first_index_found(m, s1);
    lemma_first_index_found(m, s2);
}

/// Lemma: a string held in `m1` keeps its first index in any map that
/// begins with `m1`.
proof fn lemma_first_index_prefix(m1: Seq<Seq<char>>, m2: Seq<Seq<char>>, s: Seq<char>)
    requires
        m1.contains(s),
        m1.is_prefix_of(m2),
    ensures
        compiler::first_index(m2, s) == compiler::first_index(m1, s),
    decreases m1.len(),
{
    assert(m2[0] == m1[0]);
    if m1[0] != s {
        let k = choose|k: int| 0 <= k < m1.len() && m1[k] == s;
        assert(m1.drop_first()[k - 1] == s);
        assert(m1.drop_first() =~= m2.drop_first().subrange(0, m1.len() - 1));
        lemma_first_index_prefix(m1.drop_first(), m2.drop_first(), s);
    }
}

/// Lemma: along a run of maps, each the beginning of the next, the first
/// map is the beginning of every later one.
proof fn lemma_run_prefix(run: Seq<Seq<Seq<char>>>, j: int)
    requires
        0 <= j < run.len(),
        forall|i: int| 0 <= i < run.len() - 1 ==> (#[trigger] run[i]).is_prefix_of(run[i + 1]),
    ensures
        run[0].is_prefix_of(run[j]),
    decreases j,
{
    if j > 0 {
        lemma_run_prefix(run, j - 1);
        assert(run[j - 1].is_prefix_of(run[j]));
        assert(run[0] =~= run[j].subrange(0, run[0].len() as int)) by {
            assert forall|k: int| 0 <= k < run[0].len() implies run[0][k] == run[j][k] by {
                assert(run[0][k] == run[j - 1][k]);
            }
        }
    }
}

/// Interning is stable over any run of calls. `run` holds the maps that a
/// run of `get_or_insert` calls goes through (each call keeps the map it is
/// given as the beginning of the map it leaves). A string that the first
/// map holds keeps its index in every later map, so interning it again
/// returns that index and leaves the map as it is; and a string that a
/// later map holds gets that same index exactly when it is the same string.
pub proof fn lemma_intern_stable(run: Seq<Seq<Seq<char>>>, j: int, s1: Seq<char>, s2: Seq<char>)
    requires
        0 <= j < run.len(),
        forall|i: int| 0 <= i < run.len() - 1 ==> (#[trigger] run[i]).is_prefix_of(run[i + 1]),
        run[0].contains(s1),
        run[j].contains(s2),
        run[j].len() <= MAX_LENGTH,
    ensures
        run[j].contains(s1),
        compiler::first_index(run[j], s1) == compiler::first_index(run[0], s1),
        (compiler::first_index(run[0], s1) as u16 == compiler::first_index(run[j], s2) as u16) <==> s1
            == s2,
{
    lemma_run_prefix(run, j);
    lemma_first_index_prefix(run[0], run[j], s1);
    let k = choose|k: int| 0 <= k < run[0].len() && run[0][k] == s1;
    assert(run[j][k] == s1);
    lemma_intern_distinct(run[j], s1, s2);
}

} // verus!
