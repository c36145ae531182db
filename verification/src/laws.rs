//! Properties of the normalization and of the merged collections, stated
//! and proved once for all inputs.

use vstd::prelude::*;

use crate::collect::data_of;
use crate::collect::is_registry_file;
use crate::collect::merged_entities;
use crate::collect::norm_file_entities;
use crate::collect::seq_to_map;
use crate::collect::sorted_keys;
use crate::model;
use crate::model::is_array_ref;
use crate::model::norm_attr_map;
use crate::model::norm_attribute;
use crate::model::norm_responses;
use crate::model::norm_single;
use crate::model::norm_soft_map;
use crate::model::norm_software;
use crate::model::ref_base;
use crate::parse;
use crate::strutil::lemma_lex_irrefl;

verus! {

/// A canonical software reference written back in the long raw form.
pub open spec fn long_of(s: model::SoftwareV) -> parse::SoftwareV {
    parse::SoftwareV::Long {
        entity: s.entity,
        version: s.version,
        docs: s.docs,
        note: s.note,
        deprecated: s.deprecated,
        removed: s.removed,
    }
}

/// Normalizing an already-canonical software reference gives it back
/// unchanged.
pub proof fn lemma_software_normalize_idempotent(s: model::SoftwareV)
    ensures
        norm_software(long_of(s)) == s,
{
    assert(norm_software(long_of(s)) =~= s);
}

/// A bare version string normalizes exactly as the long form with only
/// the version set.
pub proof fn lemma_short_long_equivalent(version: Seq<char>)
    ensures
        norm_software(parse::SoftwareV::Short(version)) == norm_software(
            parse::SoftwareV::Long {
                entity: None,
                version,
                docs: None,
                note: None,
                deprecated: None,
                removed: None,
            },
        ),
{
}

/// A canonical attribute written back in its raw form.
pub open spec fn raw_of_attr(a: model::AttributeV) -> parse::AttributeV {
    parse::AttributeV {
        entity: a.entity,
        software: a.software.map(|i: int, p: (Seq<char>, model::SoftwareV)| (p.0, long_of(p.1))),
    }
}

/// Normalizing an already-canonical attribute gives it back unchanged.
pub proof fn lemma_attribute_normalize_idempotent(a: model::AttributeV)
    ensures
        norm_attribute(raw_of_attr(a)) == a,
{
    assert(norm_soft_map(raw_of_attr(a).software) =~= a.software);
    assert(norm_attribute(raw_of_attr(a)) =~= a);
}

/// A canonical value response written back as one raw inline record; a
/// reference descriptor has no inline form and maps to an empty record.
pub open spec fn single_of(r: model::ResponseV) -> parse::SingleResponseV {
    match r {
        model::ResponseV::Value { http_code, value } => parse::SingleResponseV {
            http_code,
            value: value.map(
                |i: int, p: (Seq<char>, model::AttributeV)| (p.0, raw_of_attr(p.1)),
            ),
        },
        model::ResponseV::Reference { .. } => parse::SingleResponseV {
            http_code: None,
            value: Seq::empty(),
        },
    }
}

/// Normalizing one already-canonical value response gives it back
/// unchanged.
pub proof fn lemma_single_normalize_idempotent(r: model::ResponseV)
    requires
        r is Value,
    ensures
        norm_single(single_of(r)) == r,
{
    match r {
        model::ResponseV::Value { http_code, value } => {
            assert forall|j: int| 0 <= j < value.len() implies norm_attribute(
                raw_of_attr((#[trigger] value[j]).1),
            ) == value[j].1 by {
                lemma_attribute_normalize_idempotent(value[j].1);
            }
            assert(norm_attr_map(single_of(r).value) =~= value);
            assert(norm_single(single_of(r)) =~= r);
        },
        model::ResponseV::Reference { .. } => {},
    }
}

/// Normalizing one already-canonical value response written as a single
/// inline record gives back the one-element sequence holding it.
pub proof fn lemma_inline_normalize_idempotent(r: model::ResponseV)
    requires
        r is Value,
    ensures
        norm_responses(parse::ResponseV::Inline(single_of(r))) == seq![r],
{
    lemma_single_normalize_idempotent(r);
    assert(norm_responses(parse::ResponseV::Inline(single_of(r))) =~= seq![r]);
}

/// Normalizing a list of already-canonical value responses gives back the
/// same sequence, order and status codes kept.
pub proof fn lemma_responses_normalize_idempotent(items: Seq<model::ResponseV>)
    requires
        forall|i: int| 0 <= i < items.len() ==> (#[trigger] items[i]) is Value,
    ensures
        norm_responses(
            parse::ResponseV::Multiple(items.map(|i: int, r: model::ResponseV| single_of(r))),
        ) == items,
{
    let raws = items.map(|i: int, r: model::ResponseV| single_of(r));
    assert forall|i: int| 0 <= i < items.len() implies norm_single(#[trigger] raws[i])
        == items[i] by {
        lemma_single_normalize_idempotent(items[i]);
    }
    assert(norm_responses(parse::ResponseV::Multiple(raws)) =~= items);
}

/// A canonical reference descriptor written back as a raw reference
/// string.
pub open spec fn ref_string_of(value: Seq<char>, array: bool) -> Seq<char> {
    if array {
        value + "[]"@
    } else {
        value
    }
}

/// Normalizing an already-canonical reference descriptor gives it back,
/// for entity names that do not themselves end in the array marker.
pub proof fn lemma_reference_normalize_idempotent(value: Seq<char>, array: bool)
    requires
        !is_array_ref(value),
    ensures
        norm_responses(parse::ResponseV::Reference(ref_string_of(value, array))) == seq![
            model::ResponseV::Reference { value, array },
        ],
{
    reveal_strlit("[]");
    assert("[]"@.len() == 2);
    assert("[]"@[0] == '[');
    assert("[]"@[1] == ']');
    let s = ref_string_of(value, array);
    if array {
        assert(s.len() == value.len() + 2);
        assert(s[s.len() - 2] == '[');
        assert(s[s.len() - 1] == ']');
        assert(is_array_ref(s));
        assert(ref_base(s) =~= value);
    } else {
        assert(!is_array_ref(s));
    }
    assert(norm_responses(parse::ResponseV::Reference(s)) =~= seq![
        model::ResponseV::Reference { value, array },
    ]);
}

/// Strictly sorted keys are pairwise distinct: each key holds at most one
/// entry.
pub proof fn lemma_sorted_unique<TV>(s: Seq<(Seq<char>, TV)>)
    requires
        sorted_keys(s),
    ensures
        forall|i: int, j: int| 0 <= i < j < s.len() ==> (#[trigger] s[i]).0 != (#[trigger] s[j]).0,
{
    assert forall|i: int, j: int| 0 <= i < j < s.len() implies (#[trigger] s[i]).0 != (
    #[trigger] s[j]).0 by {
        if s[i].0 == s[j].0 {
            lemma_lex_irrefl(s[i].0);
        }
    }
}

/// Of two data files declaring the same entity key, the later one's
/// definition stands in the merged entity map.
pub proof fn lemma_later_file_wins(
    f1: (Seq<char>, Seq<char>),
    f2: (Seq<char>, Seq<char>),
    site_url: Seq<char>,
    k: Seq<char>,
)
    requires
        !is_registry_file(f2.0),
        data_of(f2.1) is Some,
        seq_to_map(norm_file_entities(data_of(f2.1)->Some_0, site_url)).contains_key(k),
    ensures
        merged_entities(seq![f1, f2], site_url).contains_key(k),
        merged_entities(seq![f1, f2], site_url)[k] == seq_to_map(
            norm_file_entities(data_of(f2.1)->Some_0, site_url),
        )[k],
{
    let files = seq![f1, f2];
    assert(files.drop_last() =~= seq![f1]);
    assert(files.last() == f2);
    let m2 = seq_to_map(norm_file_entities(data_of(f2.1)->Some_0, site_url));
    assert(merged_entities(files, site_url) == merged_entities(
        seq![f1],
        site_url,
    ).union_prefer_right(m2));
}

} // verus!
