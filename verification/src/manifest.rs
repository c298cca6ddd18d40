//! The manifest data model: a dependency declaration read from one package
//! descriptor file. Dependencies are kept as a sequence of name/version
//! entries in strictly ascending name order, so lookups are unambiguous and
//! iteration order is canonical; every stored version has been normalized on
//! the way in.

use vstd::prelude::*;
use crate::strutil::{lex_lt, str_lt, str_eq, lemma_lex_irrefl, lemma_lex_connected, lemma_lex_trans};
use crate::version::norm_spec;
use crate::version::strip_caret;

verus! {

/// One dependency declaration: a name and a normalized version string.
#[derive(Debug)]
pub struct Dep {
    pub name: String,
    pub version: String,
}

/// A package manifest: the path it was read from, and the dependencies it
/// declares.
#[derive(Debug)]
pub struct Manifest {
    pub source_path: String,
    pub deps: Vec<Dep>,
}

/// The dependency list as pairs of character sequences.
pub open spec fn entries_of(deps: Seq<Dep>) -> Seq<(Seq<char>, Seq<char>)> {
    Seq::new(deps.len(), |i: int| (deps[i].name@, deps[i].version@))
}

/// Whether some entry carries the given name.
pub open spec fn has_name(s: Seq<(Seq<char>, Seq<char>)>, k: Seq<char>) -> bool {
    exists|i: int| 0 <= i < s.len() && s[i].0 == k
}

/// The version recorded under the given name; meaningful when the name is
/// present and entry names are unique.
pub open spec fn value_of(s: Seq<(Seq<char>, Seq<char>)>, k: Seq<char>) -> Seq<char> {
    s[choose|i: int| 0 <= i < s.len() && s[i].0 == k].1
}

/// No two entries carry the same name.
pub open spec fn unique_names(s: Seq<(Seq<char>, Seq<char>)>) -> bool {
    forall|i: int, j: int|
        0 <= i < s.len() && 0 <= j < s.len() && i != j ==> s[i].0 != s[j].0
}

/// Entry names are in strictly ascending lexicographic order.
pub open spec fn sorted_strict(s: Seq<(Seq<char>, Seq<char>)>) -> bool {
    forall|i: int, j: int| 0 <= i < j < s.len() ==> lex_lt(s[i].0, s[j].0)
}

/// The mapping an entry sequence denotes.
pub open spec fn seq_map(s: Seq<(Seq<char>, Seq<char>)>) -> Map<Seq<char>, Seq<char>> {
    Map::new(|k: Seq<char>| has_name(s, k), |k: Seq<char>| value_of(s, k))
}

/// Strictly sorted entries have unique names.
pub proof fn lemma_sorted_unique(s: Seq<(Seq<char>, Seq<char>)>)
    requires
        sorted_strict(s),
    ensures
        unique_names(s),
{
    assert forall|i: int, j: int|
        0 <= i < s.len() && 0 <= j < s.len() && i != j implies s[i].0 != s[j].0 by {
        if s[i].0 == s[j].0 {
            lemma_lex_irrefl(s[i].0);
        }
    }
}

/// With unique names, the entry at a matching index is the lookup result.
pub proof fn lemma_lookup(s: Seq<(Seq<char>, Seq<char>)>, k: Seq<char>, i: int)
    requires
        unique_names(s),
        0 <= i < s.len(),
        s[i].0 == k,
    ensures
        has_name(s, k),
        value_of(s, k) == s[i].1,
{
    assert(has_name(s, k));
    let j = choose|j: int| 0 <= j < s.len() && s[j].0 == k;
    assert(j == i);
}

impl Manifest {
    /// The dependency entries, as character sequences, in stored order.
    pub open spec fn entries(self) -> Seq<(Seq<char>, Seq<char>)> {
        entries_of(self.deps@)
    }

    /// The name-to-version mapping this manifest declares.
    pub open spec fn as_map(self) -> Map<Seq<char>, Seq<char>> {
        seq_map(self.entries())
    }

    /// Well-formedness: entries strictly sorted by name, hence unique.
    pub open spec fn wf(self) -> bool {
        sorted_strict(self.entries())
    }

    /// An empty manifest for the given source path.
    pub fn new(source_path: &str) -> (m: Manifest)
        ensures
            m.wf(),
            m.entries().len() == 0,
            m.as_map() == Map::<Seq<char>, Seq<char>>::empty(),
            m.source_path@ == source_path@,
    {
        let m = Manifest { source_path: source_path.to_owned(), deps: Vec::new() };
        proof {
            assert(m.as_map() =~= Map::<Seq<char>, Seq<char>>::empty());
        }
        m
    }

    /// How many dependencies are declared.
    pub fn len(&self) -> (n: usize)
        ensures
            n == self.entries().len(),
    {
        self.deps.len()
    }

    /// Looks up the version declared for a dependency name.
    pub fn get(&self, name: &str) -> (r: Option<&String>)
        requires
            self.wf(),
        ensures
            (match r {
                Some(v) => self.as_map().contains_key(name@) && v@ == self.as_map()[name@],
                None => !self.as_map().contains_key(name@),
            }),
    {
        proof {
            lemma_sorted_unique(self.entries());
        }
        let mut i: usize = 0;
        while i < self.deps.len()
            invariant
                self.wf(),
                unique_names(self.entries()),
                i <= self.deps@.len(),
                forall|k: int| 0 <= k < i ==> self.entries()[k].0 != name@,
            decreases self.deps@.len() - i,
        {
            if str_eq(self.deps[i].name.as_str(), name) {
                proof {
                    lemma_lookup(self.entries(), name@, i as int);
                }
                return Some(&self.deps[i].version);
            }
            i = i + 1;
        }
        proof {
            assert(!has_name(self.entries(), name@));
        }
        None
    }

    /// Records a dependency: the raw version is normalized and stored under
    /// the name, replacing any earlier entry for the same name.
    pub fn insert(&mut self, name: &str, raw_version: &str)
        requires
            old(self).wf(),
        ensures
            final(self).wf(),
            final(self).as_map() == old(self).as_map().insert(name@, norm_spec(raw_version@)),
            final(self).entries().len() == old(self).entries().len() + (
            if old(self).as_map().contains_key(name@) {
                0int
            } else {
                1int
            }),
            final(self).source_path@ == old(self).source_path@,
    {
        let version: String = strip_caret(raw_version).to_owned();
        let ghost e0 = old(self).entries();
        proof {
            lemma_sorted_unique(e0);
            assert(e0 =~= self.entries());
        }
        let mut i: usize = 0;
        while i < self.deps.len() && str_lt(self.deps[i].name.as_str(), name)
            invariant
                *self == *old(self),
                e0 == self.entries(),
                i <= self.deps@.len(),
                forall|k: int| 0 <= k < i ==> lex_lt(e0[k].0, name@),
            decreases self.deps@.len() - i,
        {
            proof {
                assert(e0[i as int].0 == self.deps@[i as int].name@);
            }
            i = i + 1;
        }
        if i < self.deps.len() && str_eq(self.deps[i].name.as_str(), name) {
            let mut d = self.deps.remove(i);
            d.version = version;
            self.deps.insert(i, d);
            proof {
                let e1 = final(self).entries();
                assert(self.deps@ =~= old(self).deps@.update(i as int, self.deps@[i as int]));
                assert forall|k: int| 0 <= k < e1.len() && k != i implies e1[k] == e0[k] by {}
                assert(e1[i as int] == (name@, norm_spec(raw_version@)));
                assert forall|p: int, q: int| 0 <= p < q < e1.len() implies lex_lt(
                    e1[p].0,
                    e1[q].0,
                ) by {
                    assert(e1[p].0 == e0[p].0);
                    assert(e1[q].0 == e0[q].0);
                }
                lemma_sorted_unique(e1);
                lemma_map_replace(e0, e1, i as int, name@, norm_spec(raw_version@));
                assert(e0[i as int].0 == name@);
                assert(has_name(e0, name@));
                assert(old(self).as_map().contains_key(name@));
            }
        } else {
            proof {
                if i < self.deps@.len() {
                    lemma_lex_connected_neg(e0[i as int].0, name@);
                }
            }
            let d = Dep { name: name.to_owned(), version: version };
            self.deps.insert(i, d);
            proof {
                let e1 = final(self).entries();
                assert forall|k: int| 0 <= k < i implies e1[k] == e0[k] by {}
                assert(e1[i as int] == (name@, norm_spec(raw_version@)));
                assert forall|k: int| i < k < e1.len() implies e1[k] == e0[k - 1] by {}
                // every old name at or past the insertion point lies above `name`
                assert forall|k: int| i <= k < e0.len() implies lex_lt(name@, e0[k].0) by {
                    if k > i {
                        lemma_lex_trans(name@, e0[i as int].0, e0[k].0);
                    }
                }
                assert forall|p: int, q: int| 0 <= p < q < e1.len() implies lex_lt(
                    e1[p].0,
                    e1[q].0,
                ) by {
                    if q == i {
                        assert(lex_lt(e0[p].0, name@));
                    } else if p == i {
                        assert(lex_lt(name@, e0[q - 1].0));
                    } else if p < i && q > i {
                        lemma_lex_trans(e0[p].0, name@, e0[q - 1].0);
                    }
                }
                lemma_sorted_unique(e1);
                assert(!has_name(e0, name@)) by {
                    if has_name(e0, name@) {
                        let w = choose|w: int| 0 <= w < e0.len() && e0[w].0 == name@;
                        lemma_lex_irrefl(name@);
                    }
                }
                lemma_map_shift(e0, e1, i as int, name@, norm_spec(raw_version@));
                assert(!old(self).as_map().contains_key(name@));
            }
        }
    }
}

/// Strict order in neither direction on distinct-or-equal names: if `a` is
/// not below `b`, then either they are equal or `b` is below `a`.
proof fn lemma_lex_connected_neg(a: Seq<char>, b: Seq<char>)
    requires
        !lex_lt(a, b),
    ensures
        a == b || lex_lt(b, a),
{
    if !lex_lt(b, a) {
        lemma_lex_connected(a, b);
    }
}

/// Replacing the value at one entry turns the denoted map into an insert.
proof fn lemma_map_replace(
    e0: Seq<(Seq<char>, Seq<char>)>,
    e1: Seq<(Seq<char>, Seq<char>)>,
    i: int,
    name: Seq<char>,
    v: Seq<char>,
)
    requires
        unique_names(e0),
        unique_names(e1),
        e0.len() == e1.len(),
        0 <= i < e0.len(),
        e0[i].0 == name,
        e1[i] == (name, v),
        forall|k: int| 0 <= k < e0.len() && k != i ==> e1[k] == e0[k],
    ensures
        seq_map(e1) == seq_map(e0).insert(name, v),
{
    assert forall|k: Seq<char>| has_name(e1, k) implies seq_map(e0).insert(name, v).dom().contains(
        k,
    ) && seq_map(e1)[k] == seq_map(e0).insert(name, v)[k] by {
        let j = choose|j: int| 0 <= j < e1.len() && e1[j].0 == k;
        lemma_lookup(e1, k, j);
        if j == i {
            assert(k == name);
        } else {
            assert(e0[j].0 == k);
            lemma_lookup(e0, k, j);
            assert(k != name) by {
                if k == name {
                    assert(e0[j].0 == e0[i].0);
                }
            }
        }
    }
    assert forall|k: Seq<char>| seq_map(e0).insert(name, v).dom().contains(k) implies has_name(
        e1,
        k,
    ) by {
        if k == name {
            assert(e1[i].0 == k);
        } else {
            let j = choose|j: int| 0 <= j < e0.len() && e0[j].0 == k;
            assert(e1[j].0 == k);
        }
    }
    assert(seq_map(e1) =~= seq_map(e0).insert(name, v));
}

/// Inserting a fresh entry at a position turns the denoted map into an
/// insert of a new key.
proof fn lemma_map_shift(
    e0: Seq<(Seq<char>, Seq<char>)>,
    e1: Seq<(Seq<char>, Seq<char>)>,
    i: int,
    name: Seq<char>,
    v: Seq<char>,
)
    requires
        unique_names(e0),
        unique_names(e1),
        e1.len() == e0.len() + 1,
        0 <= i < e1.len(),
        e1[i] == (name, v),
        !has_name(e0, name),
        forall|k: int| 0 <= k < i ==> e1[k] == e0[k],
        forall|k: int| i < k < e1.len() ==> e1[k] == e0[k - 1],
    ensures
        seq_map(e1) == seq_map(e0).insert(name, v),
{
    assert forall|k: Seq<char>| has_name(e1, k) implies seq_map(e0).insert(name, v).dom().contains(
        k,
    ) && seq_map(e1)[k] == seq_map(e0).insert(name, v)[k] by {
        let j = choose|j: int| 0 <= j < e1.len() && e1[j].0 == k;
        lemma_lookup(e1, k, j);
        if j == i {
            assert(k == name);
        } else {
            let j0 = if j < i { j } else { j - 1 };
            assert(e0[j0].0 == k);
            lemma_lookup(e0, k, j0);
            assert(k != name);
        }
    }
    assert forall|k: Seq<char>| seq_map(e0).insert(name, v).dom().contains(k) implies has_name(
        e1,
        k,
    ) by {
        if k == name {
            assert(e1[i].0 == k);
        } else {
            let j = choose|j: int| 0 <= j < e0.len() && e0[j].0 == k;
            if j < i {
                assert(e1[j].0 == k);
            } else {
                assert(e1[j + 1].0 == k);
            }
        }
    }
    assert(seq_map(e1) =~= seq_map(e0).insert(name, v));
}

/// Two strictly sorted entry sequences that denote the same mapping are the
/// same sequence: a well-formed manifest's entries are determined by its
/// map.
pub proof fn lemma_sorted_entries_determined(
    a: Seq<(Seq<char>, Seq<char>)>,
    b: Seq<(Seq<char>, Seq<char>)>,
)
    requires
        sorted_strict(a),
        sorted_strict(b),
        seq_map(a) == seq_map(b),
    ensures
        a == b,
    decreases a.len(),
{
    lemma_sorted_unique(a);
    lemma_sorted_unique(b);
    if a.len() == 0 {
        if b.len() > 0 {
            assert(has_name(b, b[0].0));
            assert(seq_map(b).dom().contains(b[0].0));
            assert(has_name(a, b[0].0));
        }
        assert(a =~= b);
    } else if b.len() == 0 {
        assert(has_name(a, a[0].0));
        assert(seq_map(a).dom().contains(a[0].0));
        assert(has_name(b, a[0].0));
    } else {
        let ka = a.last().0;
        let kb = b.last().0;
        assert(has_name(a, ka)) by {
            assert(a[a.len() - 1].0 == ka);
        }
        assert(has_name(b, kb)) by {
            assert(b[b.len() - 1].0 == kb);
        }
        assert(seq_map(a).dom().contains(ka));
        assert(seq_map(b).dom().contains(kb));
        assert(has_name(b, ka));
        assert(has_name(a, kb));
        let ja = choose|j: int| 0 <= j < b.len() && b[j].0 == ka;
        let jb = choose|j: int| 0 <= j < a.len() && a[j].0 == kb;
        if ka != kb {
            assert(ja < b.len() - 1);
            assert(lex_lt(ka, kb));
            assert(jb < a.len() - 1);
            assert(lex_lt(kb, ka));
            lemma_lex_trans(ka, kb, ka);
            lemma_lex_irrefl(ka);
        }
        lemma_lookup(a, ka, a.len() - 1);
        lemma_lookup(b, kb, b.len() - 1);
        assert(seq_map(a)[ka] == a.last().1);
        assert(seq_map(b)[kb] == b.last().1);
        assert(a.last() == b.last());
        let a1 = a.drop_last();
        let b1 = b.drop_last();
        assert(forall|i: int| 0 <= i < a1.len() ==> a1[i] == a[i]);
        assert(forall|i: int| 0 <= i < b1.len() ==> b1[i] == b[i]);
        assert forall|k: Seq<char>| has_name(a1, k) implies seq_map(b1).dom().contains(k)
            && seq_map(a1)[k] == seq_map(b1)[k] by {
            let i = choose|i: int| 0 <= i < a1.len() && a1[i].0 == k;
            assert(a[i].0 == k);
            assert(k != ka);
            assert(has_name(a, k));
            assert(seq_map(a).dom().contains(k));
            assert(has_name(b, k));
            let j = choose|j: int| 0 <= j < b.len() && b[j].0 == k;
            assert(j < b.len() - 1);
            assert(b1[j].0 == k);
            assert(has_name(b1, k));
            lemma_lookup(a1, k, i);
            lemma_lookup(b1, k, j);
            lemma_lookup(a, k, i);
            lemma_lookup(b, k, j);
            assert(seq_map(a)[k] == seq_map(b)[k]);
        }
        assert forall|k: Seq<char>| has_name(b1, k) implies has_name(a1, k) by {
            let j = choose|j: int| 0 <= j < b1.len() && b1[j].0 == k;
            assert(b[j].0 == k);
            assert(k != kb);
            assert(has_name(b, k));
            assert(seq_map(b).dom().contains(k));
            assert(has_name(a, k));
            let i = choose|i: int| 0 <= i < a.len() && a[i].0 == k;
            assert(i < a.len() - 1);
            assert(a1[i].0 == k);
        }
        assert(seq_map(a1) =~= seq_map(b1));
        lemma_sorted_entries_determined(a1, b1);
        assert(a =~= b);
    }
}

/// The (unique) strictly sorted entry sequence that denotes a mapping.
pub open spec fn canon_entries(m: Map<Seq<char>, Seq<char>>) -> Seq<(Seq<char>, Seq<char>)> {
    choose|e: Seq<(Seq<char>, Seq<char>)>| sorted_strict(e) && seq_map(e) == m
}

/// A well-formed manifest's entries are the canonical entries of its map.
pub proof fn lemma_canon_entries(m: Manifest)
    requires
        m.wf(),
    ensures
        canon_entries(m.as_map()) == m.entries(),
{
    assert(sorted_strict(m.entries()) && seq_map(m.entries()) == m.as_map());
    let e = canon_entries(m.as_map());
    assert(sorted_strict(e) && seq_map(e) == m.as_map());
    lemma_sorted_entries_determined(e, m.entries());
}

} // verus!
