//! The audit orchestrator: parses the reference manifest, then parses and
//! compares every candidate against it. A failing reference is fatal; a
//! failing candidate is recorded and the audit continues, so the caller can
//! tell "no mismatches" apart from "some manifests could not be read".
//!
//! Reading files is the caller's concern: each candidate arrives as its
//! path together with its content, or `None` where the file could not be
//! read.

use vstd::prelude::*;
use crate::compare::{Mismatch, models_of, compare_dependencies};
use crate::parse::{parse_package_json, parse_ok, parsed_map_of};
use crate::report::text_mismatches;

verus! {

/// A fatal failure: the reference manifest itself was unusable.
#[derive(PartialEq, Eq, Structural, Clone, Copy, Debug)]
pub enum AuditError {
    /// The reference file could not be read at all.
    ReferenceUnreadable,
    /// The reference file was read but could not be parsed.
    ReferenceMalformed,
}

/// Why one candidate was skipped.
#[derive(PartialEq, Eq, Structural, Clone, Copy, Debug)]
pub enum CandidateErrorKind {
    /// The candidate file could not be read.
    Unreadable,
    /// The candidate file was read but could not be parsed.
    Malformed,
}

/// One skipped candidate: its path and why it was skipped.
#[derive(Debug)]
pub struct CandidateFailure {
    pub path: String,
    pub kind: CandidateErrorKind,
}

/// One candidate handed to the audit: its path, and its content where the
/// file could be read.
#[derive(Debug)]
pub struct CandidateInput {
    pub path: String,
    pub content: Option<String>,
}

/// What an audit produced: every mismatch found across the readable
/// candidates, and every candidate that had to be skipped.
#[derive(Debug)]
pub struct AuditResult {
    pub mismatches: Vec<Mismatch>,
    pub failures: Vec<CandidateFailure>,
}

/// The failure list as (path, kind) pairs.
pub open spec fn failures_of(fs: Seq<CandidateFailure>) -> Seq<(Seq<char>, CandidateErrorKind)> {
    fs.map(|i: int, f: CandidateFailure| (f.path@, f.kind))
}

/// The failures an audit owes for a candidate list, in order: one
/// `Unreadable` record per unreadable candidate, one `Malformed` record per
/// readable candidate whose text does not parse, and nothing else.
pub open spec fn expected_failures(cands: Seq<CandidateInput>) -> Seq<
    (Seq<char>, CandidateErrorKind),
>
    decreases cands.len(),
{
    if cands.len() == 0 {
        Seq::empty()
    } else {
        let rest = expected_failures(cands.drop_last());
        match cands.last().content {
            Option::None => rest.push((cands.last().path@, CandidateErrorKind::Unreadable)),
            Option::Some(c) => if !parse_ok(c@) {
                rest.push((cands.last().path@, CandidateErrorKind::Malformed))
            } else {
                rest
            },
        }
    }
}

/// The mismatches an audit owes for a candidate list, in order: the
/// concatenation, over the candidates whose text parses, of each one's
/// comparison against the reference mapping.
pub open spec fn expected_mismatches(
    reference: Map<Seq<char>, Seq<char>>,
    cands: Seq<CandidateInput>,
) -> Seq<(Seq<char>, Seq<char>, Seq<char>, Seq<char>)>
    decreases cands.len(),
{
    if cands.len() == 0 {
        Seq::empty()
    } else {
        let rest = expected_mismatches(reference, cands.drop_last());
        match cands.last().content {
            Option::Some(c) => if parse_ok(c@) {
                rest + text_mismatches(reference, c@, cands.last().path@)
            } else {
                rest
            },
            Option::None => rest,
        }
    }
}

/// Audits every candidate against the reference manifest.
///
/// The reference must be readable and parseable: a missing reference is the
/// fatal `ReferenceUnreadable`, an unparseable one the fatal
/// `ReferenceMalformed`, each exactly on those inputs, and no comparison is
/// performed in either case. Otherwise the result holds exactly the owed
/// failure records and the owed mismatches, in candidate order.
pub fn audit(
    reference_content: &Option<String>,
    reference_path: &str,
    candidates: &Vec<CandidateInput>,
) -> (r: Result<AuditResult, AuditError>)
    ensures
        (reference_content matches None) <==> r == Result::<
            AuditResult,
            AuditError,
        >::Err(AuditError::ReferenceUnreadable),
        (reference_content matches Some(c) && !parse_ok(c@)) <==> r == Result::<
            AuditResult,
            AuditError,
        >::Err(AuditError::ReferenceMalformed),
        (r matches Ok(res) ==> (reference_content matches Some(c) && parse_ok(c@) && failures_of(
            res.failures@,
        ) == expected_failures(candidates@) && models_of(res.mismatches@) == expected_mismatches(
            parsed_map_of(c@),
            candidates@,
        ))),
{
    let ref_text = match reference_content {
        Some(c) => c,
        None => {
            return Err(AuditError::ReferenceUnreadable);
        },
    };
    let reference = match parse_package_json(ref_text.as_str(), reference_path) {
        Ok(m) => m,
        Err(_) => {
            return Err(AuditError::ReferenceMalformed);
        },
    };
    let ghost ref_map = parsed_map_of(ref_text@);
    let mut mismatches: Vec<Mismatch> = Vec::new();
    let mut failures: Vec<CandidateFailure> = Vec::new();
    let mut i: usize = 0;
    proof {
        assert(candidates@.take(0) =~= Seq::<CandidateInput>::empty());
        assert(failures_of(failures@) =~= expected_failures(candidates@.take(0)));
        assert(models_of(mismatches@) =~= expected_mismatches(ref_map, candidates@.take(0)));
    }
    while i < candidates.len()
        invariant
            reference.wf(),
            reference.as_map() == ref_map,
            i <= candidates@.len(),
            failures_of(failures@) == expected_failures(candidates@.take(i as int)),
            models_of(mismatches@) == expected_mismatches(ref_map, candidates@.take(i as int)),
        decreases candidates@.len() - i,
    {
        proof {
            assert(candidates@.take(i + 1 as int).drop_last() =~= candidates@.take(i as int));
            assert(candidates@.take(i + 1 as int).last() == candidates@[i as int]);
        }
        match &candidates[i].content {
            None => {
                let f = CandidateFailure {
                    path: candidates[i].path.clone(),
                    kind: CandidateErrorKind::Unreadable,
                };
                let ghost f0 = failures@;
                failures.push(f);
                proof {
                    assert(failures_of(failures@) =~= failures_of(f0).push(
                        (candidates@[i as int].path@, CandidateErrorKind::Unreadable),
                    ));
                }
            },
            Some(content) => {
                match parse_package_json(content.as_str(), candidates[i].path.as_str()) {
                    Ok(cand) => {
                        let mut found = compare_dependencies(&reference, &cand);
                        let ghost m0 = mismatches@;
                        let ghost found0 = found@;
                        mismatches.append(&mut found);
                        proof {
                            assert(models_of(mismatches@) =~= models_of(m0) + models_of(found0));
                            assert(models_of(found0) == text_mismatches(
                                ref_map,
                                content@,
                                candidates@[i as int].path@,
                            ));
                        }
                    },
                    Err(_) => {
                        let f = CandidateFailure {
                            path: candidates[i].path.clone(),
                            kind: CandidateErrorKind::Malformed,
                        };
                        let ghost f0 = failures@;
                        failures.push(f);
                        proof {
                            assert(failures_of(failures@) =~= failures_of(f0).push(
                                (candidates@[i as int].path@, CandidateErrorKind::Malformed),
                            ));
                        }
                    },
                }
            },
        }
        i = i + 1;
    }
    proof {
        assert(candidates@.take(candidates@.len() as int) =~= candidates@);
    }
    Ok(AuditResult { mismatches, failures })
}

} // verus!
