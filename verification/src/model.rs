//! Canonical (normalized) records used by every stage after parsing, and
//! the total normalization from the raw records.

use vstd::prelude::*;
use vstd::string::StrSliceExecFns;
use vstd::string::StringExecFns;

use crate::parse;
use crate::strutil::key_to_name;
use crate::strutil::title_of;

verus! {

/// A software registry entry together with its registry key.
pub struct SoftwareDef {
    pub key: String,
    pub name: String,
    pub docs: String,
}

/// A canonical software reference: only the version is required.
pub struct Software {
    pub entity: Option<String>,
    pub version: String,
    pub docs: Option<String>,
    pub note: Option<String>,
    pub deprecated: Option<String>,
    pub removed: Option<String>,
}

/// A canonical attribute.
pub struct Attribute {
    pub entity: Option<String>,
    pub software: Vec<(String, Software)>,
}

/// A canonical entity with its display name and site path filled in.
pub struct Entity {
    pub name: String,
    pub path: String,
    pub software: Vec<(String, Software)>,
    pub attributes: Vec<(String, Attribute)>,
    pub values: Vec<(String, Attribute)>,
}

/// One canonical response descriptor: a reference to an entity, or an
/// inline value record.
pub enum Response {
    Reference { value: String, array: bool },
    Value { http_code: Option<u32>, value: Vec<(String, Attribute)> },
}

/// A canonical API definition with its flat response sequence.
pub struct Api {
    pub request: String,
    pub software: Vec<(String, Software)>,
    pub params: Vec<(String, Attribute)>,
    pub responses: Vec<Response>,
}

// ---------------------------------------------------------------------
// Views.
// ---------------------------------------------------------------------

#[verifier::ext_equal]
pub ghost struct SoftwareDefV {
    pub key: Seq<char>,
    pub name: Seq<char>,
    pub docs: Seq<char>,
}

#[verifier::ext_equal]
pub ghost struct SoftwareV {
    pub entity: Option<Seq<char>>,
    pub version: Seq<char>,
    pub docs: Option<Seq<char>>,
    pub note: Option<Seq<char>>,
    pub deprecated: Option<Seq<char>>,
    pub removed: Option<Seq<char>>,
}

#[verifier::ext_equal]
pub ghost struct AttributeV {
    pub entity: Option<Seq<char>>,
    pub software: Seq<(Seq<char>, SoftwareV)>,
}

#[verifier::ext_equal]
pub ghost struct EntityV {
    pub name: Seq<char>,
    pub path: Seq<char>,
    pub software: Seq<(Seq<char>, SoftwareV)>,
    pub attributes: Seq<(Seq<char>, AttributeV)>,
    pub values: Seq<(Seq<char>, AttributeV)>,
}

#[verifier::ext_equal]
pub ghost enum ResponseV {
    Reference { value: Seq<char>, array: bool },
    Value { http_code: Option<u32>, value: Seq<(Seq<char>, AttributeV)> },
}

#[verifier::ext_equal]
pub ghost struct ApiV {
    pub request: Seq<char>,
    pub software: Seq<(Seq<char>, SoftwareV)>,
    pub params: Seq<(Seq<char>, AttributeV)>,
    pub responses: Seq<ResponseV>,
}

impl DeepView for SoftwareDef {
    type V = SoftwareDefV;

    open spec fn deep_view(&self) -> SoftwareDefV {
        SoftwareDefV { key: self.key@, name: self.name@, docs: self.docs@ }
    }
}

impl View for SoftwareDef {
    type V = SoftwareDefV;

    open spec fn view(&self) -> SoftwareDefV {
        self.deep_view()
    }
}

impl DeepView for Software {
    type V = SoftwareV;

    open spec fn deep_view(&self) -> SoftwareV {
        SoftwareV {
            entity: self.entity.deep_view(),
            version: self.version@,
            docs: self.docs.deep_view(),
            note: self.note.deep_view(),
            deprecated: self.deprecated.deep_view(),
            removed: self.removed.deep_view(),
        }
    }
}

impl View for Software {
    type V = SoftwareV;

    open spec fn view(&self) -> SoftwareV {
        self.deep_view()
    }
}

impl DeepView for Attribute {
    type V = AttributeV;

    open spec fn deep_view(&self) -> AttributeV {
        AttributeV { entity: self.entity.deep_view(), software: self.software.deep_view() }
    }
}

impl View for Attribute {
    type V = AttributeV;

    open spec fn view(&self) -> AttributeV {
        self.deep_view()
    }
}

impl DeepView for Entity {
    type V = EntityV;

    open spec fn deep_view(&self) -> EntityV {
        EntityV {
            name: self.name@,
            path: self.path@,
            software: self.software.deep_view(),
            attributes: self.attributes.deep_view(),
            values: self.values.deep_view(),
        }
    }
}

impl View for Entity {
    type V = EntityV;

    open spec fn view(&self) -> EntityV {
        self.deep_view()
    }
}

impl DeepView for Response {
    type V = ResponseV;

    open spec fn deep_view(&self) -> ResponseV {
        match self {
            Response::Reference { value, array } => ResponseV::Reference {
                value: value@,
                array: *array,
            },
            Response::Value { http_code, value } => ResponseV::Value {
                http_code: *http_code,
                value: value.deep_view(),
            },
        }
    }
}

impl View for Response {
    type V = ResponseV;

    open spec fn view(&self) -> ResponseV {
        self.deep_view()
    }
}

impl DeepView for Api {
    type V = ApiV;

    open spec fn deep_view(&self) -> ApiV {
        ApiV {
            request: self.request@,
            software: self.software.deep_view(),
            params: self.params.deep_view(),
            responses: self.responses.deep_view(),
        }
    }
}

impl View for Api {
    type V = ApiV;

    open spec fn view(&self) -> ApiV {
        self.deep_view()
    }
}

// ---------------------------------------------------------------------
// The normalization, stated over views.
// ---------------------------------------------------------------------

/// The canonical form of a raw software reference: the short form carries
/// its version and nothing else; the long form passes through unchanged.
pub open spec fn norm_software(s: parse::SoftwareV) -> SoftwareV {
    match s {
        parse::SoftwareV::Short(version) => SoftwareV {
            entity: None,
            version,
            docs: None,
            note: None,
            deprecated: None,
            removed: None,
        },
        parse::SoftwareV::Long { entity, version, docs, note, deprecated, removed } => SoftwareV {
            entity,
            version,
            docs,
            note,
            deprecated,
            removed,
        },
    }
}

pub open spec fn norm_soft_map(m: Seq<(Seq<char>, parse::SoftwareV)>) -> Seq<
    (Seq<char>, SoftwareV),
> {
    m.map(|i: int, p: (Seq<char>, parse::SoftwareV)| (p.0, norm_software(p.1)))
}

pub open spec fn norm_attribute(a: parse::AttributeV) -> AttributeV {
    AttributeV { entity: a.entity, software: norm_soft_map(a.software) }
}

pub open spec fn norm_attr_map(m: Seq<(Seq<char>, parse::AttributeV)>) -> Seq<
    (Seq<char>, AttributeV),
> {
    m.map(|i: int, p: (Seq<char>, parse::AttributeV)| (p.0, norm_attribute(p.1)))
}

/// The canonical form of one inline response record.
pub open spec fn norm_single(sr: parse::SingleResponseV) -> ResponseV {
    ResponseV::Value { http_code: sr.http_code, value: norm_attr_map(sr.value) }
}

/// True when a reference string asks for an array of the named entity.
pub open spec fn is_array_ref(s: Seq<char>) -> bool {
    s.len() >= 2 && s[s.len() - 2] == '[' && s[s.len() - 1] == ']'
}

/// The entity name of a reference string, its array suffix stripped once.
pub open spec fn ref_base(s: Seq<char>) -> Seq<char> {
    if is_array_ref(s) {
        s.subrange(0, s.len() - 2)
    } else {
        s
    }
}

/// The flat canonical response sequence of a raw response: absent becomes
/// empty, an inline record one value, a reference one reference
/// descriptor, a list one value per element in order.
pub open spec fn norm_responses(r: parse::ResponseV) -> Seq<ResponseV> {
    match r {
        parse::ResponseV::Absent => Seq::empty(),
        parse::ResponseV::Inline(sr) => seq![norm_single(sr)],
        parse::ResponseV::Reference(s) => seq![
            ResponseV::Reference { value: ref_base(s), array: is_array_ref(s) },
        ],
        parse::ResponseV::Multiple(srs) => srs.map(
            |i: int, sr: parse::SingleResponseV| norm_single(sr),
        ),
    }
}

pub open spec fn norm_api(a: parse::ApiV) -> ApiV {
    ApiV {
        request: a.request,
        software: norm_soft_map(a.software),
        params: norm_attr_map(a.params),
        responses: norm_responses(a.response),
    }
}

/// The site path of an entity page.
pub open spec fn entity_path(site_url: Seq<char>, key: Seq<char>) -> Seq<char> {
    site_url + "api-entities/"@ + key
}

/// The canonical form of a raw entity: the display name defaults to the
/// title-cased key, and the site path is computed from the base URL.
pub open spec fn norm_entity(e: parse::EntityV, site_url: Seq<char>, key: Seq<char>) -> EntityV {
    EntityV {
        name: match e.name {
            Some(n) => n,
            None => title_of(key),
        },
        path: entity_path(site_url, key),
        software: norm_soft_map(e.software),
        attributes: norm_attr_map(e.attributes),
        values: norm_attr_map(e.values),
    }
}

// ---------------------------------------------------------------------
// Executable normalization.
// ---------------------------------------------------------------------

impl Software {
    /// Normalizes one raw software reference.
    pub fn from(value: parse::Software) -> (r: Software)
        ensures
            r@ == norm_software(value@),
    {
        match value {
            parse::Software::Short(version) => Software {
                entity: None,
                version,
                docs: None,
                note: None,
                deprecated: None,
                removed: None,
            },
            parse::Software::Long { entity, version, docs, note, deprecated, removed } => Software {
                entity,
                version,
                docs,
                note,
                deprecated,
                removed,
            },
        }
    }
}

/// Normalizes every value of a raw software map, keys and order kept.
pub fn normalize_soft_map(m: Vec<(String, parse::Software)>) -> (r: Vec<(String, Software)>)
    ensures
        r.deep_view() == norm_soft_map(m.deep_view()),
{
    let ghost orig = m.deep_view();
    let mut m = m;
    let mut out: Vec<(String, Software)> = Vec::new();
    proof {
        assert(out.deep_view() + norm_soft_map(m.deep_view()) =~= norm_soft_map(orig));
    }
    while m.len() > 0
        invariant
            out.deep_view() + norm_soft_map(m.deep_view()) == norm_soft_map(orig),
        decreases m.len(),
    {
        let ghost pre_m = m.deep_view();
        let ghost pre_out = out.deep_view();
        let p = m.remove(0);
        let sw = Software::from(p.1);
        out.push((p.0, sw));
        proof {
            assert(m.deep_view() =~= pre_m.drop_first());
            assert(out.deep_view() =~= pre_out.push((pre_m[0].0, norm_software(pre_m[0].1))));
            assert(out.deep_view() + norm_soft_map(m.deep_view()) =~= norm_soft_map(orig));
        }
    }
    proof {
        assert(norm_soft_map(m.deep_view()) =~= Seq::empty());
        assert(out.deep_view() =~= norm_soft_map(orig));
    }
    out
}

impl Attribute {
    /// Normalizes one raw attribute.
    pub fn from(value: parse::Attribute) -> (r: Attribute)
        ensures
            r@ == norm_attribute(value@),
    {
        let parse::Attribute { entity, software } = value;
        Attribute { entity, software: normalize_soft_map(software) }
    }
}

/// Normalizes every value of a raw attribute map, keys and order kept.
pub fn normalize_attr_map(m: Vec<(String, parse::Attribute)>) -> (r: Vec<(String, Attribute)>)
    ensures
        r.deep_view() == norm_attr_map(m.deep_view()),
{
    let ghost orig = m.deep_view();
    let mut m = m;
    let mut out: Vec<(String, Attribute)> = Vec::new();
    proof {
        assert(out.deep_view() + norm_attr_map(m.deep_view()) =~= norm_attr_map(orig));
    }
    while m.len() > 0
        invariant
            out.deep_view() + norm_attr_map(m.deep_view()) == norm_attr_map(orig),
        decreases m.len(),
    {
        let ghost pre_m = m.deep_view();
        let ghost pre_out = out.deep_view();
        let p = m.remove(0);
        let a = Attribute::from(p.1);
        out.push((p.0, a));
        proof {
            assert(m.deep_view() =~= pre_m.drop_first());
            assert(out.deep_view() =~= pre_out.push((pre_m[0].0, norm_attribute(pre_m[0].1))));
            assert(out.deep_view() + norm_attr_map(m.deep_view()) =~= norm_attr_map(orig));
        }
    }
    proof {
        assert(norm_attr_map(m.deep_view()) =~= Seq::empty());
        assert(out.deep_view() =~= norm_attr_map(orig));
    }
    out
}

fn single_value(sr: parse::SingleResponse) -> (r: Response)
    ensures
        r@ == norm_single(sr@),
{
    let parse::SingleResponse { http_code, value } = sr;
    Response::Value { http_code, value: normalize_attr_map(value) }
}

impl Response {
    /// Collapses one raw response into its flat canonical sequence.
    pub fn from(value: parse::Response) -> (r: Vec<Response>)
        ensures
            r.deep_view() == norm_responses(value@),
    {
        match value {
            parse::Response::Absent => {
                let out: Vec<Response> = Vec::new();
                proof {
                    assert(out.deep_view() =~= norm_responses(parse::ResponseV::Absent));
                }
                out
            },
            parse::Response::Inline(sr) => {
                let ghost srv = sr@;
                let mut out: Vec<Response> = Vec::new();
                out.push(single_value(sr));
                proof {
                    assert(out.deep_view() =~= seq![norm_single(srv)]);
                }
                out
            },
            parse::Response::Reference(s) => {
                let ghost sv = s@;
                let n = s.as_str().unicode_len();
                let mut out: Vec<Response> = Vec::new();
                if n >= 2 && s.as_str().get_char(n - 2) == '[' && s.as_str().get_char(n - 1)
                    == ']' {
                    let base = s.as_str().substring_char(0, n - 2).to_owned();
                    proof {
                        assert(is_array_ref(sv));
                        assert(base@ == ref_base(sv));
                    }
                    out.push(Response::Reference { value: base, array: true });
                } else {
                    proof {
                        assert(!is_array_ref(sv));
                    }
                    out.push(Response::Reference { value: s, array: false });
                }
                proof {
                    assert(out.deep_view() =~= norm_responses(parse::ResponseV::Reference(sv)));
                }
                out
            },
            parse::Response::Multiple(srs) => {
                let ghost orig = srs.deep_view();
                let mut srs = srs;
                let mut out: Vec<Response> = Vec::new();
                proof {
                    assert(out.deep_view() + orig.map(
                        |i: int, sr: parse::SingleResponseV| norm_single(sr),
                    ) =~= orig.map(|i: int, sr: parse::SingleResponseV| norm_single(sr)));
                }
                while srs.len() > 0
                    invariant
                        out.deep_view() + srs.deep_view().map(
                            |i: int, sr: parse::SingleResponseV| norm_single(sr),
                        ) == orig.map(|i: int, sr: parse::SingleResponseV| norm_single(sr)),
                    decreases srs.len(),
                {
                    let ghost pre_m = srs.deep_view();
                    let ghost pre_out = out.deep_view();
                    let sr = srs.remove(0);
                    out.push(single_value(sr));
                    proof {
                        assert(srs.deep_view() =~= pre_m.drop_first());
                        assert(out.deep_view() =~= pre_out.push(norm_single(pre_m[0])));
                        assert(out.deep_view() + srs.deep_view().map(
                            |i: int, sr: parse::SingleResponseV| norm_single(sr),
                        ) =~= orig.map(|i: int, sr: parse::SingleResponseV| norm_single(sr)));
                    }
                }
                proof {
                    assert(srs.deep_view().map(
                        |i: int, sr: parse::SingleResponseV| norm_single(sr),
                    ) =~= Seq::empty());
                    assert(out.deep_view() =~= orig.map(
                        |i: int, sr: parse::SingleResponseV| norm_single(sr),
                    ));
                }
                out
            },
        }
    }
}

impl Api {
    /// Normalizes one raw API definition.
    pub fn from(value: parse::Api) -> (r: Api)
        ensures
            r@ == norm_api(value@),
    {
        let parse::Api { request, software, params, response } = value;
        Api {
            request,
            software: normalize_soft_map(software),
            params: normalize_attr_map(params),
            responses: Response::from(response),
        }
    }
}

impl SoftwareDef {
    /// Attaches the registry key to a parsed registry entry.
    pub fn from(key: String, software: parse::SoftwareDef) -> (r: SoftwareDef)
        ensures
            r@ == (SoftwareDefV { key: key@, name: software@.name, docs: software@.docs }),
    {
        let parse::SoftwareDef { name, docs } = software;
        SoftwareDef { key, name, docs }
    }
}

/// The normalized registry read off the parsed registry entries, order
/// kept.
pub open spec fn registry_of(s: Seq<(Seq<char>, parse::SoftwareDefV)>) -> Seq<SoftwareDefV> {
    s.map(
        |i: int, p: (Seq<char>, parse::SoftwareDefV)| SoftwareDefV {
            key: p.0,
            name: p.1.name,
            docs: p.1.docs,
        },
    )
}

/// Attaches each registry key to its entry, order kept.
pub fn registry_from(raw: Vec<(String, parse::SoftwareDef)>) -> (r: Vec<SoftwareDef>)
    ensures
        r.deep_view() == registry_of(raw.deep_view()),
{
    let ghost orig = raw.deep_view();
    let mut raw = raw;
    let mut out: Vec<SoftwareDef> = Vec::new();
    proof {
        assert(out.deep_view() + registry_of(raw.deep_view()) =~= registry_of(orig));
    }
    while raw.len() > 0
        invariant
            out.deep_view() + registry_of(raw.deep_view()) == registry_of(orig),
        decreases raw.len(),
    {
        let ghost pre_m = raw.deep_view();
        let ghost pre_out = out.deep_view();
        let p = raw.remove(0);
        out.push(SoftwareDef::from(p.0, p.1));
        proof {
            assert(raw.deep_view() =~= pre_m.drop_first());
            assert(out.deep_view() =~= pre_out.push(
                SoftwareDefV { key: pre_m[0].0, name: pre_m[0].1.name, docs: pre_m[0].1.docs },
            ));
            assert(out.deep_view() + registry_of(raw.deep_view()) =~= registry_of(orig));
        }
    }
    proof {
        assert(registry_of(raw.deep_view()) =~= Seq::empty());
        assert(out.deep_view() =~= registry_of(orig));
    }
    out
}

impl Entity {
    /// Normalizes one raw entity declared under `key`, filling in its
    /// display name and site path.
    pub fn from(entity: parse::Entity, site_url: &str, key: &str) -> (r: Entity)
        ensures
            r@ == norm_entity(entity@, site_url@, key@),
    {
        let parse::Entity { name, software, attributes, values } = entity;
        let name = match name {
            Some(n) => n,
            None => key_to_name(key),
        };
        let mut path = String::new();
        path.append(site_url);
        path.append("api-entities/");
        path.append(key);
        Entity {
            name,
            path,
            software: normalize_soft_map(software),
            attributes: normalize_attr_map(attributes),
            values: normalize_attr_map(values),
        }
    }
}

} // verus!
