//! The comparator: holds a candidate manifest against the reference and
//! yields one `Mismatch` per dependency that both declare with different
//! normalized versions. The reference is authoritative only for what it
//! declares: a name absent from either side is never flagged.

use vstd::prelude::*;
use crate::manifest::{Manifest, has_name, value_of, unique_names, sorted_strict,
    lemma_sorted_unique, lemma_lookup};
use crate::strutil::{str_eq, lex_lt};

verus! {

/// One disagreement between the reference and a candidate manifest.
#[derive(Debug)]
pub struct Mismatch {
    pub dependency_name: String,
    pub expected_version: String,
    pub actual_version: String,
    pub manifest_path: String,
}

impl Mismatch {
    /// The mismatch as character sequences:
    /// (name, expected version, actual version, manifest path).
    pub open spec fn model(self) -> (Seq<char>, Seq<char>, Seq<char>, Seq<char>) {
        (self.dependency_name@, self.expected_version@, self.actual_version@, self.manifest_path@)
    }
}

/// The mismatches between a reference mapping and a candidate entry
/// sequence, in the candidate's entry order, each carrying the candidate's
/// source path.
pub open spec fn compare_spec(
    reference: Map<Seq<char>, Seq<char>>,
    cand: Seq<(Seq<char>, Seq<char>)>,
    path: Seq<char>,
) -> Seq<(Seq<char>, Seq<char>, Seq<char>, Seq<char>)>
    decreases cand.len(),
{
    if cand.len() == 0 {
        Seq::empty()
    } else {
        let rest = compare_spec(reference, cand.drop_last(), path);
        let n = cand.last().0;
        let v = cand.last().1;
        if reference.contains_key(n) && reference[n] != v {
            rest.push((n, reference[n], v, path))
        } else {
            rest
        }
    }
}

/// The models of a mismatch vector.
pub open spec fn models_of(ms: Seq<Mismatch>) -> Seq<(Seq<char>, Seq<char>, Seq<char>, Seq<char>)> {
    ms.map(|i: int, m: Mismatch| m.model())
}

/// Compares a candidate manifest against the reference manifest and returns
/// every disagreement, in the candidate's canonical (ascending-name) entry
/// order.
pub fn compare_dependencies(root: &Manifest, current: &Manifest) -> (r: Vec<Mismatch>)
    requires
        root.wf(),
        current.wf(),
    ensures
        models_of(r@) == compare_spec(root.as_map(), current.entries(), current.source_path@),
{
    let mut out: Vec<Mismatch> = Vec::new();
    let ghost cand = current.entries();
    let mut i: usize = 0;
    proof {
        assert(cand.take(0) =~= Seq::empty());
        assert(models_of(out@) =~= Seq::empty());
    }
    while i < current.deps.len()
        invariant
            root.wf(),
            current.wf(),
            cand == current.entries(),
            i <= current.deps@.len(),
            models_of(out@) == compare_spec(root.as_map(), cand.take(i as int), current.source_path@),
        decreases current.deps@.len() - i,
    {
        let name: &String = &current.deps[i].name;
        let actual: &String = &current.deps[i].version;
        proof {
            assert(cand[i as int] == (name@, actual@));
            assert(cand.take(i + 1 as int).drop_last() =~= cand.take(i as int));
            assert(cand.take(i + 1 as int).last() == cand[i as int]);
        }
        match root.get(name.as_str()) {
            Some(expected) => {
                if !str_eq(expected.as_str(), actual.as_str()) {
                    let m = Mismatch {
                        dependency_name: name.clone(),
                        expected_version: expected.clone(),
                        actual_version: actual.clone(),
                        manifest_path: current.source_path.clone(),
                    };
                    proof {
                        assert(models_of(out@.push(m)) =~= models_of(out@).push(m.model()));
                    }
                    out.push(m);
                } else {
                    proof {
                        assert(root.as_map()[name@] == actual@);
                    }
                }
            },
            None => {
            },
        }
        i = i + 1;
    }
    proof {
        assert(cand.take(current.deps@.len() as int) =~= cand);
    }
    out
}

/// A reported mismatch is sound for the reference side: its name is one the
/// reference declares, the expected version is the reference's, the name is
/// present in the candidate, the two versions differ, and it carries the
/// candidate's path.
pub open spec fn mismatch_sound(
    reference: Map<Seq<char>, Seq<char>>,
    cand: Seq<(Seq<char>, Seq<char>)>,
    path: Seq<char>,
    t: (Seq<char>, Seq<char>, Seq<char>, Seq<char>),
) -> bool {
    &&& reference.contains_key(t.0)
    &&& reference[t.0] == t.1
    &&& has_name(cand, t.0)
    &&& t.1 != t.2
    &&& t.3 == path
}

/// Every reported mismatch names a dependency that the reference declares
/// with the reported expected version, and that the candidate declares with
/// the reported (different) actual version; each carries the candidate's
/// path.
pub proof fn lemma_compare_elements(
    reference: Map<Seq<char>, Seq<char>>,
    cand: Seq<(Seq<char>, Seq<char>)>,
    path: Seq<char>,
)
    ensures
        forall|j: int|
            0 <= j < compare_spec(reference, cand, path).len() ==> mismatch_sound(
                reference,
                cand,
                path,
                #[trigger] compare_spec(reference, cand, path)[j],
            ),
    decreases cand.len(),
{
    if cand.len() > 0 {
        lemma_compare_elements(reference, cand.drop_last(), path);
        let prev = compare_spec(reference, cand.drop_last(), path);
        assert forall|j: int|
            0 <= j < compare_spec(reference, cand, path).len() implies mismatch_sound(
                reference,
                cand,
                path,
                compare_spec(reference, cand, path)[j],
            ) by {
            let t = compare_spec(reference, cand, path)[j];
            if j < prev.len() {
                assert(t == prev[j]);
                assert(mismatch_sound(reference, cand.drop_last(), path, t));
                let w = choose|w: int| 0 <= w < cand.drop_last().len() && cand.drop_last()[w].0 == t.0;
                assert(cand[w].0 == t.0);
            } else {
                assert(t.0 == cand.last().0);
                assert(cand[cand.len() - 1].0 == t.0);
            }
        }
    }
}

/// A mismatch's actual version is exactly what the candidate records under
/// the mismatch's name.
pub open spec fn actual_recorded(
    cand: Seq<(Seq<char>, Seq<char>)>,
    t: (Seq<char>, Seq<char>, Seq<char>, Seq<char>),
) -> bool {
    &&& has_name(cand, t.0)
    &&& value_of(cand, t.0) == t.2
}

/// Every reported mismatch names a dependency the candidate declares with
/// the reported actual version.
pub proof fn lemma_compare_actual(
    reference: Map<Seq<char>, Seq<char>>,
    cand: Seq<(Seq<char>, Seq<char>)>,
    path: Seq<char>,
)
    requires
        unique_names(cand),
    ensures
        forall|j: int|
            0 <= j < compare_spec(reference, cand, path).len() ==> actual_recorded(
                cand,
                #[trigger] compare_spec(reference, cand, path)[j],
            ),
    decreases cand.len(),
{
    if cand.len() > 0 {
        lemma_compare_actual(reference, cand.drop_last(), path);
        let prev = compare_spec(reference, cand.drop_last(), path);
        assert(unique_names(cand.drop_last()));
        assert forall|j: int|
            0 <= j < compare_spec(reference, cand, path).len() implies actual_recorded(
                cand,
                compare_spec(reference, cand, path)[j],
            ) by {
            let t = compare_spec(reference, cand, path)[j];
            if j < prev.len() {
                assert(t == prev[j]);
                assert(actual_recorded(cand.drop_last(), t));
                let w = choose|w: int|
                    0 <= w < cand.drop_last().len() && cand.drop_last()[w].0 == t.0;
                assert(cand[w] == cand.drop_last()[w]);
                lemma_lookup(cand, t.0, w);
            } else {
                assert(t == (cand.last().0, reference[cand.last().0], cand.last().1, path));
                lemma_lookup(cand, t.0, cand.len() - 1);
            }
        }
    }
}

/// Comparing a well-formed manifest against itself yields no mismatch.
pub proof fn lemma_compare_self_empty(m: Manifest, path: Seq<char>)
    requires
        m.wf(),
    ensures
        compare_spec(m.as_map(), m.entries(), path).len() == 0,
{
    lemma_sorted_unique(m.entries());
    lemma_compare_agreeing(m.as_map(), m.entries(), path);
}

/// A candidate whose entries all agree with the reference produces no
/// mismatch.
proof fn lemma_compare_agreeing(
    reference: Map<Seq<char>, Seq<char>>,
    cand: Seq<(Seq<char>, Seq<char>)>,
    path: Seq<char>,
)
    requires
        forall|i: int|
            0 <= i < cand.len() && reference.contains_key(#[trigger] cand[i].0)
                ==> reference[cand[i].0] == cand[i].1,
    ensures
        compare_spec(reference, cand, path).len() == 0,
    decreases cand.len(),
{
    if cand.len() > 0 {
        assert(forall|i: int|
            0 <= i < cand.drop_last().len() ==> cand.drop_last()[i] == cand[i]);
        lemma_compare_agreeing(reference, cand.drop_last(), path);
        assert(cand.last() == cand[cand.len() - 1]);
    }
}

/// Against a candidate whose entries are in ascending name order, the
/// mismatches come out in ascending name order too.
pub proof fn lemma_compare_sorted(
    reference: Map<Seq<char>, Seq<char>>,
    cand: Seq<(Seq<char>, Seq<char>)>,
    path: Seq<char>,
)
    requires
        sorted_strict(cand),
    ensures
        forall|j1: int, j2: int|
            0 <= j1 < j2 < compare_spec(reference, cand, path).len() ==> lex_lt(
                #[trigger] compare_spec(reference, cand, path)[j1].0,
                #[trigger] compare_spec(reference, cand, path)[j2].0,
            ),
    decreases cand.len(),
{
    if cand.len() > 0 {
        assert(forall|i: int|
            0 <= i < cand.drop_last().len() ==> cand.drop_last()[i] == cand[i]);
        lemma_compare_sorted(reference, cand.drop_last(), path);
        lemma_compare_elements(reference, cand.drop_last(), path);
        let prev = compare_spec(reference, cand.drop_last(), path);
        let cs = compare_spec(reference, cand, path);
        assert forall|j1: int, j2: int| 0 <= j1 < j2 < cs.len() implies lex_lt(
            cs[j1].0,
            cs[j2].0,
        ) by {
            if j2 < prev.len() {
                assert(cs[j1] == prev[j1] && cs[j2] == prev[j2]);
            } else {
                assert(cs[j2].0 == cand.last().0);
                assert(cs[j1] == prev[j1]);
                assert(mismatch_sound(reference, cand.drop_last(), path, prev[j1]));
                let w = choose|w: int|
                    0 <= w < cand.drop_last().len() && cand.drop_last()[w].0 == prev[j1].0;
                assert(cand[w].0 == prev[j1].0);
                assert(lex_lt(cand[w].0, cand[cand.len() - 1].0));
            }
        }
    }
}

/// A dependency the reference does not declare is never flagged: no
/// mismatch carries its name.
pub proof fn lemma_absent_from_reference_not_flagged(
    reference: Map<Seq<char>, Seq<char>>,
    cand: Seq<(Seq<char>, Seq<char>)>,
    path: Seq<char>,
    name: Seq<char>,
)
    requires
        !reference.contains_key(name),
    ensures
        forall|j: int|
            0 <= j < compare_spec(reference, cand, path).len()
                ==> #[trigger] compare_spec(reference, cand, path)[j].0 != name,
{
    lemma_compare_elements(reference, cand, path);
}

/// A dependency the candidate does not declare is never flagged either: no
/// mismatch carries its name.
pub proof fn lemma_absent_from_candidate_not_flagged(
    reference: Map<Seq<char>, Seq<char>>,
    cand: Seq<(Seq<char>, Seq<char>)>,
    path: Seq<char>,
    name: Seq<char>,
)
    requires
        !has_name(cand, name),
    ensures
        forall|j: int|
            0 <= j < compare_spec(reference, cand, path).len()
                ==> #[trigger] compare_spec(reference, cand, path)[j].0 != name,
{
    lemma_compare_elements(reference, cand, path);
}

} // verus!
