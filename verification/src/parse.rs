//! Raw schema records as they stand in the input files, and the strict
//! schema reader that builds them from a TOML value tree.
//!
//! Unknown fields are rejected everywhere except inside an [`Attribute`]
//! and inside a [`SingleResponse`] payload, where every key besides the
//! reserved ones is read as a software reference, as the input format
//! allows.

use vstd::prelude::*;

use crate::strutil::str_eq;
use crate::toml_tree::TomlVal;
use crate::toml_tree::parse_toml_str;
use crate::toml_tree::toml_doc_of;

verus! {

/// A software registry entry as it stands in the registry file.
pub struct SoftwareDef {
    pub name: String,
    pub docs: String,
}

/// A software reference as written in a data file: either a bare version
/// string, or a structured record with a required `version`.
pub enum Software {
    Short(String),
    Long {
        entity: Option<String>,
        version: String,
        docs: Option<String>,
        note: Option<String>,
        deprecated: Option<String>,
        removed: Option<String>,
    },
}

/// A field of an entity, an API parameter or a response payload: an
/// optional entity link, and every other key a software reference.
pub struct Attribute {
    pub entity: Option<String>,
    pub software: Vec<(String, Software)>,
}

/// A domain object declared in a data file.
pub struct Entity {
    pub name: Option<String>,
    pub software: Vec<(String, Software)>,
    pub attributes: Vec<(String, Attribute)>,
    pub values: Vec<(String, Attribute)>,
}

/// One response shape: an optional HTTP status code and a payload of
/// named fields.
pub struct SingleResponse {
    pub http_code: Option<u32>,
    pub value: Vec<(String, Attribute)>,
}

/// The accepted shapes of an API response: absent, a single inline record,
/// a named entity reference, or an ordered list of inline records.
pub enum Response {
    Absent,
    Inline(SingleResponse),
    Reference(String),
    Multiple(Vec<SingleResponse>),
}

impl Default for Response {
    fn default() -> (r: Response)
        ensures
            r is Absent,
    {
        Response::Absent
    }
}

/// The content of one data file: entities keyed by identifier, and an
/// ordered list of API definitions.
pub struct Data {
    pub entity: Vec<(String, Entity)>,
    pub api: Vec<Api>,
}

/// An endpoint definition.
pub struct Api {
    pub request: String,
    pub software: Vec<(String, Software)>,
    pub params: Vec<(String, Attribute)>,
    pub response: Response,
}

// ---------------------------------------------------------------------
// Mathematical views of the raw records.
// ---------------------------------------------------------------------

#[verifier::ext_equal]
pub ghost struct SoftwareDefV {
    pub name: Seq<char>,
    pub docs: Seq<char>,
}

#[verifier::ext_equal]
pub ghost enum SoftwareV {
    Short(Seq<char>),
    Long {
        entity: Option<Seq<char>>,
        version: Seq<char>,
        docs: Option<Seq<char>>,
        note: Option<Seq<char>>,
        deprecated: Option<Seq<char>>,
        removed: Option<Seq<char>>,
    },
}

#[verifier::ext_equal]
pub ghost struct AttributeV {
    pub entity: Option<Seq<char>>,
    pub software: Seq<(Seq<char>, SoftwareV)>,
}

#[verifier::ext_equal]
pub ghost struct EntityV {
    pub name: Option<Seq<char>>,
    pub software: Seq<(Seq<char>, SoftwareV)>,
    pub attributes: Seq<(Seq<char>, AttributeV)>,
    pub values: Seq<(Seq<char>, AttributeV)>,
}

#[verifier::ext_equal]
pub ghost struct SingleResponseV {
    pub http_code: Option<u32>,
    pub value: Seq<(Seq<char>, AttributeV)>,
}

#[verifier::ext_equal]
pub ghost enum ResponseV {
    Absent,
    Inline(SingleResponseV),
    Reference(Seq<char>),
    Multiple(Seq<SingleResponseV>),
}

#[verifier::ext_equal]
pub ghost struct DataV {
    pub entity: Seq<(Seq<char>, EntityV)>,
    pub api: Seq<ApiV>,
}

#[verifier::ext_equal]
pub ghost struct ApiV {
    pub request: Seq<char>,
    pub software: Seq<(Seq<char>, SoftwareV)>,
    pub params: Seq<(Seq<char>, AttributeV)>,
    pub response: ResponseV,
}

impl DeepView for SoftwareDef {
    type V = SoftwareDefV;

    open spec fn deep_view(&self) -> SoftwareDefV {
        SoftwareDefV { name: self.name@, docs: self.docs@ }
    }
}

impl View for SoftwareDef {
    type V = SoftwareDefV;

    open spec fn view(&self) -> SoftwareDefV {
        self.deep_view()
    }
}

impl DeepView for Software {
    type V = SoftwareV;

    open spec fn deep_view(&self) -> SoftwareV {
        match self {
            Software::Short(v) => SoftwareV::Short(v@),
            Software::Long { entity, version, docs, note, deprecated, removed } => {
                SoftwareV::Long {
                    entity: entity.deep_view(),
                    version: version@,
                    docs: docs.deep_view(),
                    note: note.deep_view(),
                    deprecated: deprecated.deep_view(),
                    removed: removed.deep_view(),
                }
            },
        }
    }
}

impl View for Software {
    type V = SoftwareV;

    open spec fn view(&self) -> SoftwareV {
        self.deep_view()
    }
}

impl DeepView for Attribute {
    type V = AttributeV;

    open spec fn deep_view(&self) -> AttributeV {
        AttributeV { entity: self.entity.deep_view(), software: self.software.deep_view() }
    }
}

impl View for Attribute {
    type V = AttributeV;

    open spec fn view(&self) -> AttributeV {
        self.deep_view()
    }
}

impl DeepView for Entity {
    type V = EntityV;

    open spec fn deep_view(&self) -> EntityV {
        EntityV {
            name: self.name.deep_view(),
            software: self.software.deep_view(),
            attributes: self.attributes.deep_view(),
            values: self.values.deep_view(),
        }
    }
}

impl View for Entity {
    type V = EntityV;

    open spec fn view(&self) -> EntityV {
        self.deep_view()
    }
}

impl DeepView for SingleResponse {
    type V = SingleResponseV;

    open spec fn deep_view(&self) -> SingleResponseV {
        SingleResponseV { http_code: self.http_code, value: self.value.deep_view() }
    }
}

impl View for SingleResponse {
    type V = SingleResponseV;

    open spec fn view(&self) -> SingleResponseV {
        self.deep_view()
    }
}

impl DeepView for Response {
    type V = ResponseV;

    open spec fn deep_view(&self) -> ResponseV {
        match self {
            Response::Absent => ResponseV::Absent,
            Response::Inline(sr) => ResponseV::Inline(sr.deep_view()),
            Response::Reference(s) => ResponseV::Reference(s@),
            Response::Multiple(srs) => ResponseV::Multiple(srs.deep_view()),
        }
    }
}

impl View for Response {
    type V = ResponseV;

    open spec fn view(&self) -> ResponseV {
        self.deep_view()
    }
}

impl DeepView for Api {
    type V = ApiV;

    open spec fn deep_view(&self) -> ApiV {
        ApiV {
            request: self.request@,
            software: self.software.deep_view(),
            params: self.params.deep_view(),
            response: self.response.deep_view(),
        }
    }
}

impl View for Api {
    type V = ApiV;

    open spec fn view(&self) -> ApiV {
        self.deep_view()
    }
}

impl DeepView for Data {
    type V = DataV;

    open spec fn deep_view(&self) -> DataV {
        DataV { entity: self.entity.deep_view(), api: self.api.deep_view() }
    }
}

impl View for Data {
    type V = DataV;

    open spec fn view(&self) -> DataV {
        self.deep_view()
    }
}

// ---------------------------------------------------------------------
// Errors and small helpers.
// ---------------------------------------------------------------------

/// A syntax or schema violation in an input file.
#[derive(Debug)]
pub struct ParseError {
    pub msg: String,
}

impl ParseError {
    /// The human-readable description of the violation.
    pub fn message(&self) -> &String {
        &self.msg
    }
}

fn perr(m: &str) -> ParseError {
    ParseError { msg: m.to_owned() }
}

/// The string held under `k` in a table, taking the last occurrence of the
/// key; `None` where the key is missing or its last occurrence is not a
/// string.
pub open spec fn get_str_field(e: Seq<(String, TomlVal)>, k: Seq<char>) -> Option<Seq<char>>
    decreases e.len(),
{
    if e.len() == 0 {
        None
    } else if e.last().0@ == k {
        match e.last().1 {
            TomlVal::Str(s) => Some(s@),
            _ => None,
        }
    } else {
        get_str_field(e.drop_last(), k)
    }
}

// ---------------------------------------------------------------------
// Software references.
// ---------------------------------------------------------------------

pub open spec fn is_long_key(k: Seq<char>) -> bool {
    ||| k == "entity"@
    ||| k == "version"@
    ||| k == "docs"@
    ||| k == "note"@
    ||| k == "deprecated"@
    ||| k == "removed"@
}

pub open spec fn long_entry_ok(p: (String, TomlVal)) -> bool {
    is_long_key(p.0@) && p.1 is Str
}

/// A table is a well-formed long-form software reference when every entry
/// is one of the six known keys with a string value, and `version` is
/// present.
pub open spec fn long_wf(e: Seq<(String, TomlVal)>) -> bool {
    &&& forall|i: int| 0 <= i < e.len() ==> long_entry_ok(e[i])
    &&& get_str_field(e, "version"@) is Some
}

pub open spec fn spec_parse_long(e: Seq<(String, TomlVal)>) -> Option<SoftwareV> {
    if long_wf(e) {
        Some(
            SoftwareV::Long {
                entity: get_str_field(e, "entity"@),
                version: get_str_field(e, "version"@)->Some_0,
                docs: get_str_field(e, "docs"@),
                note: get_str_field(e, "note"@),
                deprecated: get_str_field(e, "deprecated"@),
                removed: get_str_field(e, "removed"@),
            },
        )
    } else {
        None
    }
}

/// What a software reference value parses to: a string is the short form,
/// a well-formed table the long form, anything else a schema violation.
pub open spec fn spec_parse_software(v: TomlVal) -> Option<SoftwareV> {
    match v {
        TomlVal::Str(s) => Some(SoftwareV::Short(s@)),
        TomlVal::Tab(e) => spec_parse_long(e@),
        _ => None,
    }
}

/// The six field names of a long-form software reference are pairwise
/// distinct character sequences.
proof fn lemma_long_keys_distinct()
    ensures
        "entity"@ != "version"@,
        "entity"@ != "docs"@,
        "entity"@ != "note"@,
        "entity"@ != "deprecated"@,
        "entity"@ != "removed"@,
        "version"@ != "docs"@,
        "version"@ != "note"@,
        "version"@ != "deprecated"@,
        "version"@ != "removed"@,
        "docs"@ != "note"@,
        "docs"@ != "deprecated"@,
        "docs"@ != "removed"@,
        "note"@ != "deprecated"@,
        "note"@ != "removed"@,
        "deprecated"@ != "removed"@,
{
    reveal_strlit("entity");
    reveal_strlit("version");
    reveal_strlit("docs");
    reveal_strlit("note");
    reveal_strlit("deprecated");
    reveal_strlit("removed");
    assert("entity"@.len() == 6);
    assert("version"@.len() == 7);
    assert("docs"@.len() == 4);
    assert("note"@.len() == 4);
    assert("deprecated"@.len() == 10);
    assert("removed"@.len() == 7);
    assert("docs"@[0] == 'd');
    assert("note"@[0] == 'n');
    assert("version"@[0] == 'v');
    assert("removed"@[0] == 'r');
}

/// Reading one more table entry changes a field lookup only where the new
/// entry carries the looked-up key.
proof fn lemma_get_str_field_push(e: Seq<(String, TomlVal)>, p: (String, TomlVal), k: Seq<char>)
    ensures
        get_str_field(e.push(p), k) == (if p.0@ == k {
            match p.1 {
                TomlVal::Str(s) => Some(s@),
                _ => None,
            }
        } else {
            get_str_field(e, k)
        }),
{
    assert(e.push(p).drop_last() =~= e);
    assert(e.push(p).last() == p);
}

fn parse_long(entries: &Vec<(String, TomlVal)>) -> (r: Result<Software, ParseError>)
    ensures
        r is Ok <==> spec_parse_long(entries@) is Some,
        r is Ok ==> r->Ok_0@ == spec_parse_long(entries@)->Some_0,
{
    let mut entity: Option<String> = None;
    let mut version: Option<String> = None;
    let mut docs: Option<String> = None;
    let mut note: Option<String> = None;
    let mut deprecated: Option<String> = None;
    let mut removed: Option<String> = None;
    let mut i: usize = 0;
    while i < entries.len()
        invariant
            i <= entries.len(),
            forall|j: int| 0 <= j < i ==> long_entry_ok(entries@[j]),
            entity.deep_view() == get_str_field(entries@.subrange(0, i as int), "entity"@),
            version.deep_view() == get_str_field(entries@.subrange(0, i as int), "version"@),
            docs.deep_view() == get_str_field(entries@.subrange(0, i as int), "docs"@),
            note.deep_view() == get_str_field(entries@.subrange(0, i as int), "note"@),
            deprecated.deep_view() == get_str_field(entries@.subrange(0, i as int), "deprecated"@),
            removed.deep_view() == get_str_field(entries@.subrange(0, i as int), "removed"@),
        decreases entries.len() - i,
    {
        let p = &entries[i];
        let s: String = match &p.1 {
            TomlVal::Str(s) => s.clone(),
            _ => {
                return Err(perr("a software reference field must be a string"));
            },
        };
        proof {
            lemma_long_keys_distinct();
            let pre = entries@.subrange(0, i as int);
            assert(entries@.subrange(0, i as int + 1) =~= pre.push(entries@[i as int]));
            lemma_get_str_field_push(pre, entries@[i as int], "entity"@);
            lemma_get_str_field_push(pre, entries@[i as int], "version"@);
            lemma_get_str_field_push(pre, entries@[i as int], "docs"@);
            lemma_get_str_field_push(pre, entries@[i as int], "note"@);
            lemma_get_str_field_push(pre, entries@[i as int], "deprecated"@);
            lemma_get_str_field_push(pre, entries@[i as int], "removed"@);
        }
        if str_eq(&p.0, "entity") {
            entity = Some(s);
        } else if str_eq(&p.0, "version") {
            version = Some(s);
        } else if str_eq(&p.0, "docs") {
            docs = Some(s);
        } else if str_eq(&p.0, "note") {
            note = Some(s);
        } else if str_eq(&p.0, "deprecated") {
            deprecated = Some(s);
        } else if str_eq(&p.0, "removed") {
            removed = Some(s);
        } else {
            return Err(perr("unknown field in a software reference"));
        }
        i = i + 1;
    }
    proof {
        assert(entries@.subrange(0, entries@.len() as int) =~= entries@);
    }
    match version {
        Some(version) => Ok(
            Software::Long { entity, version, docs, note, deprecated, removed },
        ),
        None => Err(perr("a software reference table must carry a version")),
    }
}

/// Reads one software reference value.
pub fn parse_software(v: &TomlVal) -> (r: Result<Software, ParseError>)
    ensures
        r is Ok <==> spec_parse_software(*v) is Some,
        r is Ok ==> r->Ok_0@ == spec_parse_software(*v)->Some_0,
{
    match v {
        TomlVal::Str(s) => Ok(Software::Short(s.clone())),
        TomlVal::Tab(entries) => parse_long(entries),
        _ => Err(perr("a software reference must be a string or a table")),
    }
}

// ---------------------------------------------------------------------
// Generic table lookups.
// ---------------------------------------------------------------------

/// The value held under `k` in a table, taking the last occurrence.
pub open spec fn get_field(e: Seq<(String, TomlVal)>, k: Seq<char>) -> Option<TomlVal>
    decreases e.len(),
{
    if e.len() == 0 {
        None
    } else if e.last().0@ == k {
        Some(e.last().1)
    } else {
        get_field(e.drop_last(), k)
    }
}

proof fn lemma_get_field_push(e: Seq<(String, TomlVal)>, p: (String, TomlVal), k: Seq<char>)
    ensures
        get_field(e.push(p), k) == (if p.0@ == k {
            Some(p.1)
        } else {
            get_field(e, k)
        }),
{
    assert(e.push(p).drop_last() =~= e);
    assert(e.push(p).last() == p);
}

// ---------------------------------------------------------------------
// Attributes.
// ---------------------------------------------------------------------

pub open spec fn attr_entry_ok(p: (String, TomlVal)) -> bool {
    if p.0@ == "entity"@ {
        p.1 is Str
    } else {
        spec_parse_software(p.1) is Some
    }
}

pub open spec fn attr_wf(e: Seq<(String, TomlVal)>) -> bool {
    forall|i: int| 0 <= i < e.len() ==> attr_entry_ok(e[i])
}

/// The software references of an attribute table: every entry except the
/// reserved `entity` link, in table order.
pub open spec fn soft_entries(e: Seq<(String, TomlVal)>) -> Seq<(Seq<char>, SoftwareV)>
    decreases e.len(),
{
    if e.len() == 0 {
        Seq::empty()
    } else if e.last().0@ == "entity"@ {
        soft_entries(e.drop_last())
    } else {
        soft_entries(e.drop_last()).push(
            (e.last().0@, spec_parse_software(e.last().1)->Some_0),
        )
    }
}

proof fn lemma_soft_entries_push(e: Seq<(String, TomlVal)>, p: (String, TomlVal))
    ensures
        soft_entries(e.push(p)) == (if p.0@ == "entity"@ {
            soft_entries(e)
        } else {
            soft_entries(e).push((p.0@, spec_parse_software(p.1)->Some_0))
        }),
{
    assert(e.push(p).drop_last() =~= e);
    assert(e.push(p).last() == p);
}

/// What an attribute value parses to: a table whose `entity` key is a
/// string and whose remaining keys are software references.
pub open spec fn spec_parse_attribute(v: TomlVal) -> Option<AttributeV> {
    match v {
        TomlVal::Tab(e) => if attr_wf(e@) {
            Some(AttributeV { entity: get_str_field(e@, "entity"@), software: soft_entries(e@) })
        } else {
            None
        },
        _ => None,
    }
}

/// Reads one attribute value.
pub fn parse_attribute(v: &TomlVal) -> (r: Result<Attribute, ParseError>)
    ensures
        r is Ok <==> spec_parse_attribute(*v) is Some,
        r is Ok ==> r->Ok_0@ == spec_parse_attribute(*v)->Some_0,
{
    match v {
        TomlVal::Tab(entries) => parse_attr_entries(entries),
        _ => Err(perr("an attribute must be a table")),
    }
}

fn parse_attr_entries(entries: &Vec<(String, TomlVal)>) -> (r: Result<Attribute, ParseError>)
    ensures
        r is Ok <==> attr_wf(entries@),
        r is Ok ==> r->Ok_0@ == (AttributeV {
            entity: get_str_field(entries@, "entity"@),
            software: soft_entries(entries@),
        }),
{
    let mut entity: Option<String> = None;
    let mut software: Vec<(String, Software)> = Vec::new();
    let mut i: usize = 0;
    while i < entries.len()
        invariant
            i <= entries.len(),
            forall|j: int| 0 <= j < i ==> attr_entry_ok(entries@[j]),
            entity.deep_view() == get_str_field(entries@.subrange(0, i as int), "entity"@),
            software.deep_view() == soft_entries(entries@.subrange(0, i as int)),
        decreases entries.len() - i,
    {
        let p = &entries[i];
        proof {
            let pre = entries@.subrange(0, i as int);
            assert(entries@.subrange(0, i as int + 1) =~= pre.push(entries@[i as int]));
            lemma_get_str_field_push(pre, entries@[i as int], "entity"@);
            lemma_soft_entries_push(pre, entries@[i as int]);
        }
        if str_eq(&p.0, "entity") {
            match &p.1 {
                TomlVal::Str(s) => {
                    entity = Some(s.clone());
                },
                _ => {
                    return Err(perr("the entity link of an attribute must be a string"));
                },
            }
        } else {
            let ghost pre_sw = software.deep_view();
            match parse_software(&p.1) {
                Ok(sw) => {
                    software.push((p.0.clone(), sw));
                    proof {
                        assert(software.deep_view() =~= pre_sw.push(
                            (entries@[i as int].0@, spec_parse_software(entries@[i as int].1)->Some_0),
                        ));
                    }
                },
                Err(e) => {
                    return Err(e);
                },
            }
        }
        i = i + 1;
    }
    proof {
        assert(entries@.subrange(0, entries@.len() as int) =~= entries@);
    }
    Ok(Attribute { entity, software })
}

// ---------------------------------------------------------------------
// Whole maps of software references and of attributes.
// ---------------------------------------------------------------------

pub open spec fn soft_map_wf(e: Seq<(String, TomlVal)>) -> bool {
    forall|i: int| 0 <= i < e.len() ==> spec_parse_software(#[trigger] e[i].1) is Some
}

pub open spec fn soft_map_of(e: Seq<(String, TomlVal)>) -> Seq<(Seq<char>, SoftwareV)> {
    e.map(|i: int, p: (String, TomlVal)| (p.0@, spec_parse_software(p.1)->Some_0))
}

pub open spec fn attr_map_wf(e: Seq<(String, TomlVal)>) -> bool {
    forall|i: int| 0 <= i < e.len() ==> spec_parse_attribute(#[trigger] e[i].1) is Some
}

pub open spec fn attr_map_of(e: Seq<(String, TomlVal)>) -> Seq<(Seq<char>, AttributeV)> {
    e.map(|i: int, p: (String, TomlVal)| (p.0@, spec_parse_attribute(p.1)->Some_0))
}

fn parse_soft_map(entries: &Vec<(String, TomlVal)>) -> (r: Result<
    Vec<(String, Software)>,
    ParseError,
>)
    ensures
        r is Ok <==> soft_map_wf(entries@),
        r is Ok ==> r->Ok_0.deep_view() == soft_map_of(entries@),
{
    let mut out: Vec<(String, Software)> = Vec::new();
    let mut i: usize = 0;
    while i < entries.len()
        invariant
            i <= entries.len(),
            forall|j: int| 0 <= j < i ==> spec_parse_software(#[trigger] entries@[j].1) is Some,
            out.deep_view() == soft_map_of(entries@.subrange(0, i as int)),
        decreases entries.len() - i,
    {
        let p = &entries[i];
        let ghost pre_out = out.deep_view();
        match parse_software(&p.1) {
            Ok(sw) => {
                out.push((p.0.clone(), sw));
            },
            Err(e) => {
                return Err(e);
            },
        }
        proof {
            assert(out.deep_view() =~= pre_out.push(
                (entries@[i as int].0@, spec_parse_software(entries@[i as int].1)->Some_0),
            ));
            assert(out.deep_view() =~= soft_map_of(entries@.subrange(0, i as int + 1)));
        }
        i = i + 1;
    }
    proof {
        assert(entries@.subrange(0, entries@.len() as int) =~= entries@);
    }
    Ok(out)
}

fn parse_attr_map(entries: &Vec<(String, TomlVal)>) -> (r: Result<
    Vec<(String, Attribute)>,
    ParseError,
>)
    ensures
        r is Ok <==> attr_map_wf(entries@),
        r is Ok ==> r->Ok_0.deep_view() == attr_map_of(entries@),
{
    let mut out: Vec<(String, Attribute)> = Vec::new();
    let mut i: usize = 0;
    while i < entries.len()
        invariant
            i <= entries.len(),
            forall|j: int| 0 <= j < i ==> spec_parse_attribute(#[trigger] entries@[j].1) is Some,
            out.deep_view() == attr_map_of(entries@.subrange(0, i as int)),
        decreases entries.len() - i,
    {
        let p = &entries[i];
        let ghost pre_out = out.deep_view();
        match parse_attribute(&p.1) {
            Ok(a) => {
                out.push((p.0.clone(), a));
            },
            Err(e) => {
                return Err(e);
            },
        }
        proof {
            assert(out.deep_view() =~= pre_out.push(
                (entries@[i as int].0@, spec_parse_attribute(entries@[i as int].1)->Some_0),
            ));
            assert(out.deep_view() =~= attr_map_of(entries@.subrange(0, i as int + 1)));
        }
        i = i + 1;
    }
    proof {
        assert(entries@.subrange(0, entries@.len() as int) =~= entries@);
    }
    Ok(out)
}

// ---------------------------------------------------------------------
// Entities.
// ---------------------------------------------------------------------

pub open spec fn entity_entry_ok(p: (String, TomlVal)) -> bool {
    if p.0@ == "name"@ {
        p.1 is Str
    } else if p.0@ == "software"@ {
        p.1 matches TomlVal::Tab(se) && soft_map_wf(se@)
    } else if p.0@ == "attributes"@ || p.0@ == "values"@ {
        p.1 matches TomlVal::Tab(ae) && attr_map_wf(ae@)
    } else {
        false
    }
}

pub open spec fn entity_wf(e: Seq<(String, TomlVal)>) -> bool {
    forall|i: int| 0 <= i < e.len() ==> entity_entry_ok(e[i])
}

pub open spec fn soft_field_of(e: Seq<(String, TomlVal)>, k: Seq<char>) -> Seq<
    (Seq<char>, SoftwareV),
> {
    match get_field(e, k) {
        Some(TomlVal::Tab(se)) => soft_map_of(se@),
        _ => Seq::empty(),
    }
}

pub open spec fn attr_field_of(e: Seq<(String, TomlVal)>, k: Seq<char>) -> Seq<
    (Seq<char>, AttributeV),
> {
    match get_field(e, k) {
        Some(TomlVal::Tab(ae)) => attr_map_of(ae@),
        _ => Seq::empty(),
    }
}

/// What an entity declaration parses to.
pub open spec fn spec_parse_entity(v: TomlVal) -> Option<EntityV> {
    match v {
        TomlVal::Tab(e) => if entity_wf(e@) {
            Some(
                EntityV {
                    name: get_str_field(e@, "name"@),
                    software: soft_field_of(e@, "software"@),
                    attributes: attr_field_of(e@, "attributes"@),
                    values: attr_field_of(e@, "values"@),
                },
            )
        } else {
            None
        },
        _ => None,
    }
}

/// The four field names of an entity declaration are pairwise distinct.
proof fn lemma_entity_keys_distinct()
    ensures
        "name"@ != "software"@,
        "name"@ != "attributes"@,
        "name"@ != "values"@,
        "software"@ != "attributes"@,
        "software"@ != "values"@,
        "attributes"@ != "values"@,
{
    reveal_strlit("name");
    reveal_strlit("software");
    reveal_strlit("attributes");
    reveal_strlit("values");
    assert("name"@.len() == 4);
    assert("software"@.len() == 8);
    assert("attributes"@.len() == 10);
    assert("values"@.len() == 6);
}

/// Reads one entity declaration.
pub fn parse_entity(v: &TomlVal) -> (r: Result<Entity, ParseError>)
    ensures
        r is Ok <==> spec_parse_entity(*v) is Some,
        r is Ok ==> r->Ok_0@ == spec_parse_entity(*v)->Some_0,
{
    match v {
        TomlVal::Tab(entries) => parse_entity_entries(entries),
        _ => Err(perr("an entity must be a table")),
    }
}

fn parse_entity_entries(entries: &Vec<(String, TomlVal)>) -> (r: Result<Entity, ParseError>)
    ensures
        r is Ok <==> entity_wf(entries@),
        r is Ok ==> r->Ok_0@ == (EntityV {
            name: get_str_field(entries@, "name"@),
            software: soft_field_of(entries@, "software"@),
            attributes: attr_field_of(entries@, "attributes"@),
            values: attr_field_of(entries@, "values"@),
        }),
{
    let mut name: Option<String> = None;
    let mut software: Vec<(String, Software)> = Vec::new();
    let mut attributes: Vec<(String, Attribute)> = Vec::new();
    let mut values: Vec<(String, Attribute)> = Vec::new();
    let mut i: usize = 0;
    while i < entries.len()
        invariant
            i <= entries.len(),
            forall|j: int| 0 <= j < i ==> entity_entry_ok(entries@[j]),
            name.deep_view() == get_str_field(entries@.subrange(0, i as int), "name"@),
            software.deep_view() == soft_field_of(entries@.subrange(0, i as int), "software"@),
            attributes.deep_view() == attr_field_of(
                entries@.subrange(0, i as int),
                "attributes"@,
            ),
            values.deep_view() == attr_field_of(entries@.subrange(0, i as int), "values"@),
        decreases entries.len() - i,
    {
        let p = &entries[i];
        proof {
            lemma_entity_keys_distinct();
            let pre = entries@.subrange(0, i as int);
            assert(entries@.subrange(0, i as int + 1) =~= pre.push(entries@[i as int]));
            lemma_get_str_field_push(pre, entries@[i as int], "name"@);
            lemma_get_field_push(pre, entries@[i as int], "software"@);
            lemma_get_field_push(pre, entries@[i as int], "attributes"@);
            lemma_get_field_push(pre, entries@[i as int], "values"@);
        }
        if str_eq(&p.0, "name") {
            match &p.1 {
                TomlVal::Str(s) => {
                    name = Some(s.clone());
                },
                _ => {
                    return Err(perr("the name of an entity must be a string"));
                },
            }
        } else if str_eq(&p.0, "software") {
            match &p.1 {
                TomlVal::Tab(se) => {
                    match parse_soft_map(se) {
                        Ok(sw) => {
                            software = sw;
                        },
                        Err(e) => {
                            return Err(e);
                        },
                    }
                },
                _ => {
                    return Err(perr("the software map of an entity must be a table"));
                },
            }
        } else if str_eq(&p.0, "attributes") {
            match &p.1 {
                TomlVal::Tab(ae) => {
                    match parse_attr_map(ae) {
                        Ok(am) => {
                            attributes = am;
                        },
                        Err(e) => {
                            return Err(e);
                        },
                    }
                },
                _ => {
                    return Err(perr("the attributes of an entity must be a table"));
                },
            }
        } else if str_eq(&p.0, "values") {
            match &p.1 {
                TomlVal::Tab(ae) => {
                    match parse_attr_map(ae) {
                        Ok(am) => {
                            values = am;
                        },
                        Err(e) => {
                            return Err(e);
                        },
                    }
                },
                _ => {
                    return Err(perr("the values of an entity must be a table"));
                },
            }
        } else {
            return Err(perr("unknown field in an entity"));
        }
        i = i + 1;
    }
    proof {
        assert(entries@.subrange(0, entries@.len() as int) =~= entries@);
    }
    Ok(Entity { name, software, attributes, values })
}

// ---------------------------------------------------------------------
// Responses.
// ---------------------------------------------------------------------

pub open spec fn sr_entry_ok(p: (String, TomlVal)) -> bool {
    if p.0@ == "http-code"@ {
        p.1 matches TomlVal::Integer(n) && 0 <= n <= 0xFFFFFFFF
    } else {
        spec_parse_attribute(p.1) is Some
    }
}

pub open spec fn sr_wf(e: Seq<(String, TomlVal)>) -> bool {
    forall|i: int| 0 <= i < e.len() ==> sr_entry_ok(e[i])
}

/// The payload fields of a response record: every entry except the
/// reserved `http-code`, in table order.
pub open spec fn attr_entries(e: Seq<(String, TomlVal)>) -> Seq<(Seq<char>, AttributeV)>
    decreases e.len(),
{
    if e.len() == 0 {
        Seq::empty()
    } else if e.last().0@ == "http-code"@ {
        attr_entries(e.drop_last())
    } else {
        attr_entries(e.drop_last()).push(
            (e.last().0@, spec_parse_attribute(e.last().1)->Some_0),
        )
    }
}

proof fn lemma_attr_entries_push(e: Seq<(String, TomlVal)>, p: (String, TomlVal))
    ensures
        attr_entries(e.push(p)) == (if p.0@ == "http-code"@ {
            attr_entries(e)
        } else {
            attr_entries(e).push((p.0@, spec_parse_attribute(p.1)->Some_0))
        }),
{
    assert(e.push(p).drop_last() =~= e);
    assert(e.push(p).last() == p);
}

pub open spec fn http_code_of(e: Seq<(String, TomlVal)>) -> Option<u32> {
    match get_field(e, "http-code"@) {
        Some(TomlVal::Integer(n)) => if 0 <= n <= 0xFFFFFFFF {
            Some(n as u32)
        } else {
            None
        },
        _ => None,
    }
}

/// What one inline response record parses to.
pub open spec fn spec_parse_single_response(v: TomlVal) -> Option<SingleResponseV> {
    match v {
        TomlVal::Tab(e) => if sr_wf(e@) {
            Some(SingleResponseV { http_code: http_code_of(e@), value: attr_entries(e@) })
        } else {
            None
        },
        _ => None,
    }
}

/// Reads one inline response record.
pub fn parse_single_response(v: &TomlVal) -> (r: Result<SingleResponse, ParseError>)
    ensures
        r is Ok <==> spec_parse_single_response(*v) is Some,
        r is Ok ==> r->Ok_0@ == spec_parse_single_response(*v)->Some_0,
{
    match v {
        TomlVal::Tab(entries) => parse_sr_entries(entries),
        _ => Err(perr("an inline response must be a table")),
    }
}

fn parse_sr_entries(entries: &Vec<(String, TomlVal)>) -> (r: Result<SingleResponse, ParseError>)
    ensures
        r is Ok <==> sr_wf(entries@),
        r is Ok ==> r->Ok_0@ == (SingleResponseV {
            http_code: http_code_of(entries@),
            value: attr_entries(entries@),
        }),
{
    let mut http_code: Option<u32> = None;
    let mut value: Vec<(String, Attribute)> = Vec::new();
    let mut i: usize = 0;
    while i < entries.len()
        invariant
            i <= entries.len(),
            forall|j: int| 0 <= j < i ==> sr_entry_ok(entries@[j]),
            http_code == http_code_of(entries@.subrange(0, i as int)),
            value.deep_view() == attr_entries(entries@.subrange(0, i as int)),
        decreases entries.len() - i,
    {
        let p = &entries[i];
        proof {
            let pre = entries@.subrange(0, i as int);
            assert(entries@.subrange(0, i as int + 1) =~= pre.push(entries@[i as int]));
            lemma_get_field_push(pre, entries@[i as int], "http-code"@);
            lemma_attr_entries_push(pre, entries@[i as int]);
        }
        if str_eq(&p.0, "http-code") {
            match &p.1 {
                TomlVal::Integer(n) => {
                    if *n >= 0 && *n <= 4294967295i64 {
                        http_code = Some(*n as u32);
                    } else {
                        return Err(perr("an http-code must fit an unsigned 32-bit integer"));
                    }
                },
                _ => {
                    return Err(perr("an http-code must be an integer"));
                },
            }
        } else {
            let ghost pre_val = value.deep_view();
            match parse_attribute(&p.1) {
                Ok(a) => {
                    value.push((p.0.clone(), a));
                    proof {
                        assert(value.deep_view() =~= pre_val.push(
                            (
                                entries@[i as int].0@,
                                spec_parse_attribute(entries@[i as int].1)->Some_0,
                            ),
                        ));
                    }
                },
                Err(e) => {
                    return Err(e);
                },
            }
        }
        i = i + 1;
    }
    proof {
        assert(entries@.subrange(0, entries@.len() as int) =~= entries@);
    }
    Ok(SingleResponse { http_code, value })
}

pub open spec fn resp_list_wf(items: Seq<TomlVal>) -> bool {
    forall|i: int| 0 <= i < items.len() ==> spec_parse_single_response(#[trigger] items[i]) is Some
}

pub open spec fn resp_list_of(items: Seq<TomlVal>) -> Seq<SingleResponseV> {
    items.map(|i: int, it: TomlVal| spec_parse_single_response(it)->Some_0)
}

/// What a raw response value parses to: a string is an entity reference, a
/// table an inline record, a list an ordered set of alternatives.
pub open spec fn spec_parse_response(v: TomlVal) -> Option<ResponseV> {
    match v {
        TomlVal::Str(s) => Some(ResponseV::Reference(s@)),
        TomlVal::Tab(e) => match spec_parse_single_response(v) {
            Some(sr) => Some(ResponseV::Inline(sr)),
            None => None,
        },
        TomlVal::Arr(items) => if resp_list_wf(items@) {
            Some(ResponseV::Multiple(resp_list_of(items@)))
        } else {
            None
        },
        _ => None,
    }
}

/// Reads one response value.
pub fn parse_response(v: &TomlVal) -> (r: Result<Response, ParseError>)
    ensures
        r is Ok <==> spec_parse_response(*v) is Some,
        r is Ok ==> r->Ok_0@ == spec_parse_response(*v)->Some_0,
{
    match v {
        TomlVal::Str(s) => Ok(Response::Reference(s.clone())),
        TomlVal::Tab(_) => match parse_single_response(v) {
            Ok(sr) => Ok(Response::Inline(sr)),
            Err(e) => Err(e),
        },
        TomlVal::Arr(items) => match parse_sr_list(items) {
            Ok(out) => Ok(Response::Multiple(out)),
            Err(e) => Err(e),
        },
        _ => Err(perr("a response must be a string, a table or a list of tables")),
    }
}

fn parse_sr_list(items: &Vec<TomlVal>) -> (r: Result<Vec<SingleResponse>, ParseError>)
    ensures
        r is Ok <==> resp_list_wf(items@),
        r is Ok ==> r->Ok_0.deep_view() == resp_list_of(items@),
{
    let mut out: Vec<SingleResponse> = Vec::new();
    let mut i: usize = 0;
    while i < items.len()
        invariant
            i <= items.len(),
            forall|j: int| 0 <= j < i ==> spec_parse_single_response(#[trigger] items@[j]) is Some,
            out.deep_view() == resp_list_of(items@.subrange(0, i as int)),
        decreases items.len() - i,
    {
        let ghost pre_out = out.deep_view();
        match parse_single_response(&items[i]) {
            Ok(sr) => {
                out.push(sr);
            },
            Err(e) => {
                return Err(e);
            },
        }
        proof {
            assert(out.deep_view() =~= pre_out.push(
                spec_parse_single_response(items@[i as int])->Some_0,
            ));
            assert(out.deep_view() =~= resp_list_of(items@.subrange(0, i as int + 1)));
        }
        i = i + 1;
    }
    proof {
        assert(items@.subrange(0, items@.len() as int) =~= items@);
    }
    Ok(out)
}

// ---------------------------------------------------------------------
// API definitions.
// ---------------------------------------------------------------------

pub open spec fn api_entry_ok(p: (String, TomlVal)) -> bool {
    if p.0@ == "request"@ {
        p.1 is Str
    } else if p.0@ == "software"@ {
        p.1 matches TomlVal::Tab(se) && soft_map_wf(se@)
    } else if p.0@ == "params"@ {
        p.1 matches TomlVal::Tab(ae) && attr_map_wf(ae@)
    } else if p.0@ == "response"@ {
        spec_parse_response(p.1) is Some
    } else {
        false
    }
}

pub open spec fn api_wf(e: Seq<(String, TomlVal)>) -> bool {
    &&& forall|i: int| 0 <= i < e.len() ==> api_entry_ok(e[i])
    &&& get_str_field(e, "request"@) is Some
}

pub open spec fn response_field_of(e: Seq<(String, TomlVal)>) -> ResponseV {
    match get_field(e, "response"@) {
        Some(v) => if spec_parse_response(v) is Some {
            spec_parse_response(v)->Some_0
        } else {
            ResponseV::Absent
        },
        None => ResponseV::Absent,
    }
}

/// What an API definition parses to: a required `request` string, optional
/// software and parameter maps, and an optional response.
pub open spec fn spec_parse_api(v: TomlVal) -> Option<ApiV> {
    match v {
        TomlVal::Tab(e) => if api_wf(e@) {
            Some(
                ApiV {
                    request: get_str_field(e@, "request"@)->Some_0,
                    software: soft_field_of(e@, "software"@),
                    params: attr_field_of(e@, "params"@),
                    response: response_field_of(e@),
                },
            )
        } else {
            None
        },
        _ => None,
    }
}

/// The four field names of an API definition are pairwise distinct.
proof fn lemma_api_keys_distinct()
    ensures
        "request"@ != "software"@,
        "request"@ != "params"@,
        "request"@ != "response"@,
        "software"@ != "params"@,
        "software"@ != "response"@,
        "params"@ != "response"@,
{
    reveal_strlit("request");
    reveal_strlit("software");
    reveal_strlit("params");
    reveal_strlit("response");
    assert("request"@.len() == 7);
    assert("software"@.len() == 8);
    assert("params"@.len() == 6);
    assert("response"@.len() == 8);
    assert("software"@[0] == 's');
    assert("response"@[0] == 'r');
}

/// Reads one API definition.
pub fn parse_api(v: &TomlVal) -> (r: Result<Api, ParseError>)
    ensures
        r is Ok <==> spec_parse_api(*v) is Some,
        r is Ok ==> r->Ok_0@ == spec_parse_api(*v)->Some_0,
{
    match v {
        TomlVal::Tab(entries) => parse_api_entries(entries),
        _ => Err(perr("an api definition must be a table")),
    }
}

fn parse_api_entries(entries: &Vec<(String, TomlVal)>) -> (r: Result<Api, ParseError>)
    ensures
        r is Ok <==> api_wf(entries@),
        r is Ok ==> r->Ok_0@ == (ApiV {
            request: get_str_field(entries@, "request"@)->Some_0,
            software: soft_field_of(entries@, "software"@),
            params: attr_field_of(entries@, "params"@),
            response: response_field_of(entries@),
        }),
{
    let mut request: Option<String> = None;
    let mut software: Vec<(String, Software)> = Vec::new();
    let mut params: Vec<(String, Attribute)> = Vec::new();
    let mut response: Response = Response::Absent;
    let mut i: usize = 0;
    while i < entries.len()
        invariant
            i <= entries.len(),
            forall|j: int| 0 <= j < i ==> api_entry_ok(entries@[j]),
            request.deep_view() == get_str_field(entries@.subrange(0, i as int), "request"@),
            software.deep_view() == soft_field_of(entries@.subrange(0, i as int), "software"@),
            params.deep_view() == attr_field_of(entries@.subrange(0, i as int), "params"@),
            response@ == response_field_of(entries@.subrange(0, i as int)),
        decreases entries.len() - i,
    {
        let p = &entries[i];
        proof {
            lemma_api_keys_distinct();
            let pre = entries@.subrange(0, i as int);
            assert(entries@.subrange(0, i as int + 1) =~= pre.push(entries@[i as int]));
            lemma_get_str_field_push(pre, entries@[i as int], "request"@);
            lemma_get_field_push(pre, entries@[i as int], "software"@);
            lemma_get_field_push(pre, entries@[i as int], "params"@);
            lemma_get_field_push(pre, entries@[i as int], "response"@);
        }
        if str_eq(&p.0, "request") {
            match &p.1 {
                TomlVal::Str(s) => {
                    request = Some(s.clone());
                },
                _ => {
                    return Err(perr("the request of an api definition must be a string"));
                },
            }
        } else if str_eq(&p.0, "software") {
            match &p.1 {
                TomlVal::Tab(se) => {
                    match parse_soft_map(se) {
                        Ok(sw) => {
                            software = sw;
                        },
                        Err(e) => {
                            return Err(e);
                        },
                    }
                },
                _ => {
                    return Err(perr("the software map of an api definition must be a table"));
                },
            }
        } else if str_eq(&p.0, "params") {
            match &p.1 {
                TomlVal::Tab(ae) => {
                    match parse_attr_map(ae) {
                        Ok(am) => {
                            params = am;
                        },
                        Err(e) => {
                            return Err(e);
                        },
                    }
                },
                _ => {
                    return Err(perr("the params of an api definition must be a table"));
                },
            }
        } else if str_eq(&p.0, "response") {
            match parse_response(&p.1) {
                Ok(resp) => {
                    response = resp;
                },
                Err(e) => {
                    return Err(e);
                },
            }
        } else {
            return Err(perr("unknown field in an api definition"));
        }
        i = i + 1;
    }
    proof {
        assert(entries@.subrange(0, entries@.len() as int) =~= entries@);
    }
    match request {
        Some(request) => Ok(Api { request, software, params, response }),
        None => Err(perr("an api definition must carry a request")),
    }
}

// ---------------------------------------------------------------------
// Data files.
// ---------------------------------------------------------------------

pub open spec fn ent_map_wf(e: Seq<(String, TomlVal)>) -> bool {
    forall|i: int| 0 <= i < e.len() ==> spec_parse_entity(#[trigger] e[i].1) is Some
}

pub open spec fn ent_map_of(e: Seq<(String, TomlVal)>) -> Seq<(Seq<char>, EntityV)> {
    e.map(|i: int, p: (String, TomlVal)| (p.0@, spec_parse_entity(p.1)->Some_0))
}

pub open spec fn api_list_wf(items: Seq<TomlVal>) -> bool {
    forall|i: int| 0 <= i < items.len() ==> spec_parse_api(#[trigger] items[i]) is Some
}

pub open spec fn api_list_of(items: Seq<TomlVal>) -> Seq<ApiV> {
    items.map(|i: int, it: TomlVal| spec_parse_api(it)->Some_0)
}

pub open spec fn data_entry_ok(p: (String, TomlVal)) -> bool {
    if p.0@ == "entity"@ {
        p.1 matches TomlVal::Tab(ee) && ent_map_wf(ee@)
    } else if p.0@ == "api"@ {
        p.1 matches TomlVal::Arr(aa) && api_list_wf(aa@)
    } else {
        false
    }
}

pub open spec fn data_wf(e: Seq<(String, TomlVal)>) -> bool {
    forall|i: int| 0 <= i < e.len() ==> data_entry_ok(e[i])
}

pub open spec fn entity_field_of(e: Seq<(String, TomlVal)>) -> Seq<(Seq<char>, EntityV)> {
    match get_field(e, "entity"@) {
        Some(TomlVal::Tab(ee)) => ent_map_of(ee@),
        _ => Seq::empty(),
    }
}

pub open spec fn api_field_of(e: Seq<(String, TomlVal)>) -> Seq<ApiV> {
    match get_field(e, "api"@) {
        Some(TomlVal::Arr(aa)) => api_list_of(aa@),
        _ => Seq::empty(),
    }
}

/// What a whole data file parses to.
pub open spec fn spec_parse_data(v: TomlVal) -> Option<DataV> {
    match v {
        TomlVal::Tab(e) => if data_wf(e@) {
            Some(DataV { entity: entity_field_of(e@), api: api_field_of(e@) })
        } else {
            None
        },
        _ => None,
    }
}

proof fn lemma_data_keys_distinct()
    ensures
        "entity"@ != "api"@,
{
    reveal_strlit("entity");
    reveal_strlit("api");
    assert("entity"@.len() == 6);
    assert("api"@.len() == 3);
}

fn parse_ent_map(entries: &Vec<(String, TomlVal)>) -> (r: Result<
    Vec<(String, Entity)>,
    ParseError,
>)
    ensures
        r is Ok <==> ent_map_wf(entries@),
        r is Ok ==> r->Ok_0.deep_view() == ent_map_of(entries@),
{
    let mut out: Vec<(String, Entity)> = Vec::new();
    let mut i: usize = 0;
    while i < entries.len()
        invariant
            i <= entries.len(),
            forall|j: int| 0 <= j < i ==> spec_parse_entity(#[trigger] entries@[j].1) is Some,
            out.deep_view() == ent_map_of(entries@.subrange(0, i as int)),
        decreases entries.len() - i,
    {
        let p = &entries[i];
        let ghost pre_out = out.deep_view();
        match parse_entity(&p.1) {
            Ok(en) => {
                out.push((p.0.clone(), en));
            },
            Err(e) => {
                return Err(e);
            },
        }
        proof {
            assert(out.deep_view() =~= pre_out.push(
                (entries@[i as int].0@, spec_parse_entity(entries@[i as int].1)->Some_0),
            ));
            assert(out.deep_view() =~= ent_map_of(entries@.subrange(0, i as int + 1)));
        }
        i = i + 1;
    }
    proof {
        assert(entries@.subrange(0, entries@.len() as int) =~= entries@);
    }
    Ok(out)
}

fn parse_api_list(items: &Vec<TomlVal>) -> (r: Result<Vec<Api>, ParseError>)
    ensures
        r is Ok <==> api_list_wf(items@),
        r is Ok ==> r->Ok_0.deep_view() == api_list_of(items@),
{
    let mut out: Vec<Api> = Vec::new();
    let mut i: usize = 0;
    while i < items.len()
        invariant
            i <= items.len(),
            forall|j: int| 0 <= j < i ==> spec_parse_api(#[trigger] items@[j]) is Some,
            out.deep_view() == api_list_of(items@.subrange(0, i as int)),
        decreases items.len() - i,
    {
        let ghost pre_out = out.deep_view();
        match parse_api(&items[i]) {
            Ok(a) => {
                out.push(a);
            },
            Err(e) => {
                return Err(e);
            },
        }
        proof {
            assert(out.deep_view() =~= pre_out.push(spec_parse_api(items@[i as int])->Some_0));
            assert(out.deep_view() =~= api_list_of(items@.subrange(0, i as int + 1)));
        }
        i = i + 1;
    }
    proof {
        assert(items@.subrange(0, items@.len() as int) =~= items@);
    }
    Ok(out)
}

fn parse_data_entries(entries: &Vec<(String, TomlVal)>) -> (r: Result<Data, ParseError>)
    ensures
        r is Ok <==> data_wf(entries@),
        r is Ok ==> r->Ok_0@ == (DataV {
            entity: entity_field_of(entries@),
            api: api_field_of(entries@),
        }),
{
    let mut entity: Vec<(String, Entity)> = Vec::new();
    let mut api: Vec<Api> = Vec::new();
    let mut i: usize = 0;
    while i < entries.len()
        invariant
            i <= entries.len(),
            forall|j: int| 0 <= j < i ==> data_entry_ok(entries@[j]),
            entity.deep_view() == entity_field_of(entries@.subrange(0, i as int)),
            api.deep_view() == api_field_of(entries@.subrange(0, i as int)),
        decreases entries.len() - i,
    {
        let p = &entries[i];
        proof {
            lemma_data_keys_distinct();
            let pre = entries@.subrange(0, i as int);
            assert(entries@.subrange(0, i as int + 1) =~= pre.push(entries@[i as int]));
            lemma_get_field_push(pre, entries@[i as int], "entity"@);
            lemma_get_field_push(pre, entries@[i as int], "api"@);
        }
        if str_eq(&p.0, "entity") {
            match &p.1 {
                TomlVal::Tab(ee) => {
                    match parse_ent_map(ee) {
                        Ok(em) => {
                            entity = em;
                        },
                        Err(e) => {
                            return Err(e);
                        },
                    }
                },
                _ => {
                    return Err(perr("the entity section of a data file must be a table"));
                },
            }
        } else if str_eq(&p.0, "api") {
            match &p.1 {
                TomlVal::Arr(aa) => {
                    match parse_api_list(aa) {
                        Ok(al) => {
                            api = al;
                        },
                        Err(e) => {
                            return Err(e);
                        },
                    }
                },
                _ => {
                    return Err(perr("the api section of a data file must be a list"));
                },
            }
        } else {
            return Err(perr("unknown section in a data file"));
        }
        i = i + 1;
    }
    proof {
        assert(entries@.subrange(0, entries@.len() as int) =~= entries@);
    }
    Ok(Data { entity, api })
}

// ---------------------------------------------------------------------
// The software registry file.
// ---------------------------------------------------------------------

pub open spec fn swdef_entry_ok(p: (String, TomlVal)) -> bool {
    (p.0@ == "name"@ || p.0@ == "docs"@) && p.1 is Str
}

pub open spec fn swdef_wf(e: Seq<(String, TomlVal)>) -> bool {
    &&& forall|i: int| 0 <= i < e.len() ==> swdef_entry_ok(e[i])
    &&& get_str_field(e, "name"@) is Some
    &&& get_str_field(e, "docs"@) is Some
}

pub open spec fn swdef_of(e: Seq<(String, TomlVal)>) -> SoftwareDefV {
    SoftwareDefV {
        name: get_str_field(e, "name"@)->Some_0,
        docs: get_str_field(e, "docs"@)->Some_0,
    }
}

pub open spec fn reg_entry_ok(p: (String, TomlVal)) -> bool {
    p.1 matches TomlVal::Tab(de) && swdef_wf(de@)
}

pub open spec fn reg_wf(e: Seq<(String, TomlVal)>) -> bool {
    forall|i: int| 0 <= i < e.len() ==> reg_entry_ok(e[i])
}

pub open spec fn reg_of(e: Seq<(String, TomlVal)>) -> Seq<(Seq<char>, SoftwareDefV)> {
    e.map(|i: int, p: (String, TomlVal)| (p.0@, swdef_of(p.1->Tab_0@)))
}

/// What the registry file parses to: a table of keyed entries, each with a
/// required display name and a required description.
pub open spec fn spec_parse_registry(v: TomlVal) -> Option<Seq<(Seq<char>, SoftwareDefV)>> {
    match v {
        TomlVal::Tab(e) => if reg_wf(e@) {
            Some(reg_of(e@))
        } else {
            None
        },
        _ => None,
    }
}

proof fn lemma_swdef_keys_distinct()
    ensures
        "name"@ != "docs"@,
{
    reveal_strlit("name");
    reveal_strlit("docs");
    assert("name"@[0] == 'n');
    assert("docs"@[0] == 'd');
}

fn parse_swdef_entries(entries: &Vec<(String, TomlVal)>) -> (r: Result<SoftwareDef, ParseError>)
    ensures
        r is Ok <==> swdef_wf(entries@),
        r is Ok ==> r->Ok_0@ == swdef_of(entries@),
{
    let mut name: Option<String> = None;
    let mut docs: Option<String> = None;
    let mut i: usize = 0;
    while i < entries.len()
        invariant
            i <= entries.len(),
            forall|j: int| 0 <= j < i ==> swdef_entry_ok(entries@[j]),
            name.deep_view() == get_str_field(entries@.subrange(0, i as int), "name"@),
            docs.deep_view() == get_str_field(entries@.subrange(0, i as int), "docs"@),
        decreases entries.len() - i,
    {
        let p = &entries[i];
        proof {
            lemma_swdef_keys_distinct();
            let pre = entries@.subrange(0, i as int);
            assert(entries@.subrange(0, i as int + 1) =~= pre.push(entries@[i as int]));
            lemma_get_str_field_push(pre, entries@[i as int], "name"@);
            lemma_get_str_field_push(pre, entries@[i as int], "docs"@);
        }
        let s: String = match &p.1 {
            TomlVal::Str(s) => s.clone(),
            _ => {
                return Err(perr("a registry entry field must be a string"));
            },
        };
        if str_eq(&p.0, "name") {
            name = Some(s);
        } else if str_eq(&p.0, "docs") {
            docs = Some(s);
        } else {
            return Err(perr("unknown field in a registry entry"));
        }
        i = i + 1;
    }
    proof {
        assert(entries@.subrange(0, entries@.len() as int) =~= entries@);
    }
    match (name, docs) {
        (Some(name), Some(docs)) => Ok(SoftwareDef { name, docs }),
        _ => Err(perr("a registry entry must carry a name and a docs text")),
    }
}

fn parse_reg_entries(entries: &Vec<(String, TomlVal)>) -> (r: Result<
    Vec<(String, SoftwareDef)>,
    ParseError,
>)
    ensures
        r is Ok <==> reg_wf(entries@),
        r is Ok ==> r->Ok_0.deep_view() == reg_of(entries@),
{
    let mut out: Vec<(String, SoftwareDef)> = Vec::new();
    let mut i: usize = 0;
    while i < entries.len()
        invariant
            i <= entries.len(),
            forall|j: int| 0 <= j < i ==> reg_entry_ok(entries@[j]),
            out.deep_view() == reg_of(entries@.subrange(0, i as int)),
        decreases entries.len() - i,
    {
        let p = &entries[i];
        let ghost pre_out = out.deep_view();
        match &p.1 {
            TomlVal::Tab(de) => {
                match parse_swdef_entries(de) {
                    Ok(d) => {
                        out.push((p.0.clone(), d));
                    },
                    Err(e) => {
                        return Err(e);
                    },
                }
            },
            _ => {
                return Err(perr("a registry entry must be a table"));
            },
        }
        proof {
            assert(out.deep_view() =~= pre_out.push(
                (entries@[i as int].0@, swdef_of(entries@[i as int].1->Tab_0@)),
            ));
            assert(out.deep_view() =~= reg_of(entries@.subrange(0, i as int + 1)));
        }
        i = i + 1;
    }
    proof {
        assert(entries@.subrange(0, entries@.len() as int) =~= entries@);
    }
    Ok(out)
}

// ---------------------------------------------------------------------
// Whole files.
// ---------------------------------------------------------------------

/// Reads one data file from its text: TOML syntax first, then the strict
/// schema of entities and API definitions.
pub fn parse_data_file(text: &str) -> (r: Result<Data, ParseError>)
    ensures
        toml_doc_of(text@) is None ==> r is Err,
        toml_doc_of(text@) matches Some(v) ==> ((r is Ok <==> spec_parse_data(v) is Some) && (
        r is Ok ==> r->Ok_0@ == spec_parse_data(v)->Some_0)),
{
    match parse_toml_str(text) {
        Ok(v) => match &v {
            TomlVal::Tab(entries) => parse_data_entries(entries),
            _ => Err(perr("a data file must hold a table")),
        },
        Err(msg) => Err(ParseError { msg }),
    }
}

/// Reads the software registry file from its text, keeping the entries in
/// the order the document gives them.
pub fn parse_software_file(text: &str) -> (r: Result<Vec<(String, SoftwareDef)>, ParseError>)
    ensures
        toml_doc_of(text@) is None ==> r is Err,
        toml_doc_of(text@) matches Some(v) ==> ((r is Ok <==> spec_parse_registry(v) is Some)
            && (r is Ok ==> r->Ok_0.deep_view() == spec_parse_registry(v)->Some_0)),
{
    match parse_toml_str(text) {
        Ok(v) => match &v {
            TomlVal::Tab(entries) => parse_reg_entries(entries),
            _ => Err(perr("the registry file must hold a table")),
        },
        Err(msg) => Err(ParseError { msg }),
    }
}

} // verus!
