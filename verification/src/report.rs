//! Renders a mismatch sequence into the report text: one line per
//! mismatch, carrying the dependency name, the candidate's path, the
//! expected version and the actual version.

use vstd::prelude::*;
use vstd::string::StringExecFns;
use crate::compare::{Mismatch, models_of, compare_spec, compare_dependencies};
use crate::manifest::Manifest;
use crate::parse::{parse_package_json, parse_ok, parsed_entries_of};

verus! {

/// The report line for one mismatch.
pub open spec fn render_line(t: (Seq<char>, Seq<char>, Seq<char>, Seq<char>)) -> Seq<char> {
    "Error in `"@ + t.0 + "` for package: "@ + t.3 + ". Expected: "@ + t.1 + " but got: "@ + t.2
}

/// The whole report: the lines for all mismatches, joined by newlines.
pub open spec fn render_report(ms: Seq<(Seq<char>, Seq<char>, Seq<char>, Seq<char>)>) -> Seq<char>
    decreases ms.len(),
{
    if ms.len() == 0 {
        Seq::empty()
    } else if ms.len() == 1 {
        render_line(ms[0])
    } else {
        render_report(ms.drop_last()) + "\n"@ + render_line(ms.last())
    }
}

/// Renders one mismatch into its report line.
pub fn render_mismatch_line(m: &Mismatch) -> (r: String)
    ensures
        r@ == render_line(m.model()),
{
    let mut s = String::new();
    s.append("Error in `");
    s.append(m.dependency_name.as_str());
    s.append("` for package: ");
    s.append(m.manifest_path.as_str());
    s.append(". Expected: ");
    s.append(m.expected_version.as_str());
    s.append(" but got: ");
    s.append(m.actual_version.as_str());
    s
}

/// Renders a mismatch list into the newline-joined report text.
pub fn render_mismatches(ms: &Vec<Mismatch>) -> (r: String)
    ensures
        r@ == render_report(models_of(ms@)),
{
    let mut acc = String::new();
    let ghost all = models_of(ms@);
    let mut i: usize = 0;
    proof {
        assert(all.take(0) =~= Seq::empty());
        assert(render_report(all.take(0)) =~= Seq::<char>::empty());
    }
    while i < ms.len()
        invariant
            all == models_of(ms@),
            i <= ms@.len(),
            acc@ == render_report(all.take(i as int)),
        decreases ms@.len() - i,
    {
        let line = render_mismatch_line(&ms[i]);
        proof {
            assert(all[i as int] == ms@[i as int].model());
            assert(all.take(i + 1 as int).drop_last() =~= all.take(i as int));
            assert(all.take(i + 1 as int).last() == all[i as int]);
            assert(all.take(i + 1 as int)[0] == all[0]);
        }
        if i > 0 {
            acc.append("\n");
        }
        acc.append(line.as_str());
        proof {
            if i == 0 {
                assert(acc@ =~= render_report(all.take(1)));
            }
        }
        i = i + 1;
    }
    proof {
        assert(all.take(ms@.len() as int) =~= all);
    }
    acc
}

/// The mismatches a candidate text yields against a reference mapping:
/// the comparison of the text's canonical entries, attributed to the given
/// path; meaningful when the text parses.
pub open spec fn text_mismatches(
    reference: Map<Seq<char>, Seq<char>>,
    s: Seq<char>,
    path: Seq<char>,
) -> Seq<(Seq<char>, Seq<char>, Seq<char>, Seq<char>)> {
    compare_spec(reference, parsed_entries_of(s), path)
}

/// Parses one candidate package descriptor and compares it against the
/// reference dependencies. The report text comes exactly when the
/// candidate parses and at least one mismatch exists, and is then the
/// rendering of those mismatches; `None` comes exactly when the candidate
/// does not parse or nothing disagrees.
pub fn process_each_package_json(
    package_content: &str,
    rel_path: &str,
    root: &Manifest,
) -> (r: Option<String>)
    requires
        root.wf(),
    ensures
        (r matches Some(msg)) <==> (parse_ok(package_content@) && text_mismatches(
            root.as_map(),
            package_content@,
            rel_path@,
        ).len() > 0),
        (match r {
            Some(msg) => msg@ == render_report(
                text_mismatches(root.as_map(), package_content@, rel_path@),
            ),
            None => true,
        }),
{
    let current = match parse_package_json(package_content, rel_path) {
        Ok(m) => m,
        Err(_) => {
            return None;
        },
    };
    let mismatches = compare_dependencies(root, &current);
    proof {
        assert(models_of(mismatches@).len() == mismatches@.len());
    }
    if mismatches.len() == 0 {
        return None;
    }
    let report = render_mismatches(&mismatches);
    Some(report)
}

} // verus!
