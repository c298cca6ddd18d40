//! The manifest parser: turns the text of one package descriptor into a
//! `Manifest`. The descriptor must be a JSON object with a `dependencies`
//! member that maps string keys to string values; every version value is
//! normalized before it is stored. What the text decodes to is spoken of
//! through the named results of the JSON boundary, so the contract states
//! exactly when each outcome comes and what the manifest then holds.

use vstd::prelude::*;
use crate::json::{
    json_doc_of, obj_of, member_of, obj_entries, str_of, parse_json_text, value_as_object,
    object_get, object_entries, value_as_str,
};
use crate::manifest::{Manifest, canon_entries, lemma_canon_entries};
use crate::version::norm_spec;

verus! {

/// Why a descriptor text could not be turned into a `Manifest`.
#[derive(PartialEq, Eq, Structural, Clone, Copy, Debug)]
pub enum ParseError {
    /// The text is not well-formed JSON.
    Syntax,
    /// The JSON is well-formed but not an object with a `dependencies`
    /// member mapping strings to strings.
    SchemaMismatch,
}

/// Whether the text is well-formed JSON at all.
pub open spec fn json_syntax_ok(s: Seq<char>) -> bool {
    json_doc_of(s) is Some
}

/// The dependencies object of the text: the `dependencies` member of the
/// top-level object, where the text decodes, the top level is an object,
/// the member exists and is itself an object.
pub open spec fn deps_obj_of(s: Seq<char>) -> Option<
    serde_json::Map<String, serde_json::Value>,
> {
    if json_doc_of(s) is Some && obj_of(json_doc_of(s).unwrap()) is Some && member_of(
        obj_of(json_doc_of(s).unwrap()).unwrap(),
        "dependencies"@,
    ) is Some {
        obj_of(member_of(obj_of(json_doc_of(s).unwrap()).unwrap(), "dependencies"@).unwrap())
    } else {
        None
    }
}

/// Whether the text has the required shape: a dependencies object whose
/// member values are all strings.
pub open spec fn schema_ok(s: Seq<char>) -> bool {
    &&& deps_obj_of(s) is Some
    &&& forall|i: int|
        0 <= i < obj_entries(deps_obj_of(s).unwrap()).len() ==> str_of(
            #[trigger] obj_entries(deps_obj_of(s).unwrap())[i].1,
        ) is Some
}

/// The text parses into a manifest: well-formed JSON of the right shape.
pub open spec fn parse_ok(s: Seq<char>) -> bool {
    json_syntax_ok(s) && schema_ok(s)
}

/// The raw (unnormalized) dependency pairs the text declares, in the
/// dependencies object's own order; meaningful when `schema_ok(s)`.
pub open spec fn raw_deps_of(s: Seq<char>) -> Seq<(Seq<char>, Seq<char>)> {
    Seq::new(
        obj_entries(deps_obj_of(s).unwrap()).len(),
        |i: int|
            (
                obj_entries(deps_obj_of(s).unwrap())[i].0,
                str_of(obj_entries(deps_obj_of(s).unwrap())[i].1).unwrap(),
            ),
    )
}

/// The mapping of an entry list with every value normalized; a later entry
/// for the same name wins.
pub open spec fn norm_map_of(e: Seq<(Seq<char>, Seq<char>)>) -> Map<Seq<char>, Seq<char>>
    decreases e.len(),
{
    if e.len() == 0 {
        Map::empty()
    } else {
        norm_map_of(e.drop_last()).insert(e.last().0, norm_spec(e.last().1))
    }
}

/// The mapping the text declares, with every version normalized.
pub open spec fn parsed_map_of(s: Seq<char>) -> Map<Seq<char>, Seq<char>> {
    norm_map_of(raw_deps_of(s))
}

/// The canonical (ascending-name) entries of the mapping the text declares.
pub open spec fn parsed_entries_of(s: Seq<char>) -> Seq<(Seq<char>, Seq<char>)> {
    canon_entries(parsed_map_of(s))
}

/// Parses one package descriptor. `Ok` comes exactly on well-formed JSON of
/// the required shape; the manifest then declares the text's dependencies,
/// each version normalized, under the given source path. Text that is not
/// JSON is `Syntax`; well-formed JSON of the wrong shape is
/// `SchemaMismatch`.
pub fn parse_package_json(file_content: &str, source_path: &str) -> (r: Result<
    Manifest,
    ParseError,
>)
    ensures
        (r matches Ok(m)) <==> parse_ok(file_content@),
        r == Result::<Manifest, ParseError>::Err(ParseError::Syntax) <==> !json_syntax_ok(
            file_content@,
        ),
        r == Result::<Manifest, ParseError>::Err(ParseError::SchemaMismatch) <==> (json_syntax_ok(
            file_content@,
        ) && !schema_ok(file_content@)),
        (r matches Ok(m) ==> m.wf() && m.source_path@ == source_path@ && m.as_map()
            == parsed_map_of(file_content@) && m.entries() == parsed_entries_of(file_content@)),
{
    let doc = match parse_json_text(file_content) {
        Ok(v) => v,
        Err(_) => {
            return Err(ParseError::Syntax);
        },
    };
    let top = match value_as_object(&doc) {
        Some(o) => o,
        None => {
            return Err(ParseError::SchemaMismatch);
        },
    };
    let deps_value = match object_get(top, "dependencies") {
        Some(v) => v,
        None => {
            return Err(ParseError::SchemaMismatch);
        },
    };
    let deps_object = match value_as_object(deps_value) {
        Some(o) => o,
        None => {
            return Err(ParseError::SchemaMismatch);
        },
    };
    proof {
        assert(deps_obj_of(file_content@) == Some(*deps_object));
    }
    let entries = object_entries(deps_object);
    let ghost raw = raw_deps_of(file_content@);
    let mut m = Manifest::new(source_path);
    let mut i: usize = 0;
    proof {
        assert(raw.take(0) =~= Seq::empty());
        assert(m.as_map() =~= norm_map_of(raw.take(0)));
    }
    while i < entries.len()
        invariant
            m.wf(),
            m.source_path@ == source_path@,
            i <= entries@.len(),
            entries@.len() == obj_entries(deps_obj_of(file_content@).unwrap()).len(),
            forall|k: int|
                0 <= k < entries@.len() ==> (#[trigger] entries@[k]).0@ == obj_entries(
                    deps_obj_of(file_content@).unwrap(),
                )[k].0 && entries@[k].1 == obj_entries(deps_obj_of(file_content@).unwrap())[k].1,
            deps_obj_of(file_content@) is Some,
            raw == raw_deps_of(file_content@),
            forall|k: int|
                0 <= k < i ==> str_of(
                    #[trigger] obj_entries(deps_obj_of(file_content@).unwrap())[k].1,
                ) is Some,
            m.as_map() == norm_map_of(raw.take(i as int)),
        decreases entries@.len() - i,
    {
        let raw_version = match value_as_str(&entries[i].1) {
            Some(s) => s,
            None => {
                proof {
                    assert(str_of(obj_entries(deps_obj_of(file_content@).unwrap())[i as int].1)
                        is None);
                }
                return Err(ParseError::SchemaMismatch);
            },
        };
        proof {
            assert(raw[i as int] == (entries@[i as int].0@, raw_version@));
            assert(raw.take(i + 1 as int).drop_last() =~= raw.take(i as int));
            assert(raw.take(i + 1 as int).last() == raw[i as int]);
        }
        m.insert(entries[i].0.as_str(), raw_version);
        i = i + 1;
    }
    proof {
        assert(raw.take(entries@.len() as int) =~= raw);
        assert(schema_ok(file_content@));
        lemma_canon_entries(m);
    }
    Ok(m)
}

} // verus!
