//! Cross-reference validation: every software key mentioned anywhere must
//! be declared in the registry.

use vstd::prelude::*;
use vstd::string::StringExecFns;

use crate::collect::Collected;
use crate::model;

verus! {

/// A software key referenced somewhere but not declared in the registry.
#[derive(Debug)]
pub struct ValidationError {
    pub missing: String,
    pub context: Option<String>,
    pub field: String,
}

impl ValidationError {
    /// The failure text: the missing key, and where it was found.
    pub fn message(&self) -> (r: String)
        ensures
            self.context is Some ==> r@ == "Software '"@ + self.missing@ + "' not found for '"@
                + self.context->Some_0@ + "."@ + self.field@ + "' in software.toml"@,
            self.context is None ==> r@ == "Software '"@ + self.missing@ + "' not found for '"@
                + self.field@ + "' in software.toml"@,
    {
        let mut r = String::new();
        r.append("Software '");
        r.append(self.missing.as_str());
        r.append("' not found for '");
        match &self.context {
            Some(c) => {
                r.append(c.as_str());
                r.append(".");
                r.append(self.field.as_str());
            },
            None => {
                r.append(self.field.as_str());
            },
        }
        r.append("' in software.toml");
        r
    }
}

/// The registry declares the key `k`.
pub open spec fn registry_has(reg: Seq<model::SoftwareDefV>, k: Seq<char>) -> bool {
    exists|i: int| 0 <= i < reg.len() && (#[trigger] reg[i]).key == k
}

/// Every key of a software map is declared.
pub open spec fn soft_map_ok(
    m: Seq<(Seq<char>, model::SoftwareV)>,
    reg: Seq<model::SoftwareDefV>,
) -> bool {
    forall|i: int| 0 <= i < m.len() ==> registry_has(reg, (#[trigger] m[i]).0)
}

/// Every attribute of a map only references declared software.
pub open spec fn attrs_ok(
    ams: Seq<(Seq<char>, model::AttributeV)>,
    reg: Seq<model::SoftwareDefV>,
) -> bool {
    forall|i: int| 0 <= i < ams.len() ==> soft_map_ok((#[trigger] ams[i]).1.software, reg)
}

/// A response's payload fields only reference declared software.
pub open spec fn response_ok(r: model::ResponseV, reg: Seq<model::SoftwareDefV>) -> bool {
    match r {
        model::ResponseV::Reference { .. } => true,
        model::ResponseV::Value { value, .. } => attrs_ok(value, reg),
    }
}

/// An API definition only references declared software.
pub open spec fn api_ok(a: model::ApiV, reg: Seq<model::SoftwareDefV>) -> bool {
    &&& soft_map_ok(a.software, reg)
    &&& attrs_ok(a.params, reg)
    &&& forall|i: int| 0 <= i < a.responses.len() ==> response_ok(#[trigger] a.responses[i], reg)
}

pub open spec fn api_group_ok(apis: Seq<model::ApiV>, reg: Seq<model::SoftwareDefV>) -> bool {
    forall|i: int| 0 <= i < apis.len() ==> api_ok(#[trigger] apis[i], reg)
}

pub open spec fn apis_ok(
    groups: Seq<(Seq<char>, Seq<model::ApiV>)>,
    reg: Seq<model::SoftwareDefV>,
) -> bool {
    forall|i: int| 0 <= i < groups.len() ==> api_group_ok((#[trigger] groups[i]).1, reg)
}

/// An entity only references declared software.
pub open spec fn entity_ok(e: model::EntityV, reg: Seq<model::SoftwareDefV>) -> bool {
    &&& soft_map_ok(e.software, reg)
    &&& attrs_ok(e.attributes, reg)
    &&& attrs_ok(e.values, reg)
}

pub open spec fn entities_ok(
    es: Seq<(Seq<char>, model::EntityV)>,
    reg: Seq<model::SoftwareDefV>,
) -> bool {
    forall|i: int| 0 <= i < es.len() ==> entity_ok((#[trigger] es[i]).1, reg)
}

/// Whether the registry declares `k`.
pub fn registry_contains(software: &Vec<model::SoftwareDef>, k: &String) -> (r: bool)
    ensures
        r == registry_has(software.deep_view(), k@),
{
    let mut i: usize = 0;
    while i < software.len()
        invariant
            i <= software.len(),
            forall|j: int| 0 <= j < i ==> (#[trigger] software.deep_view()[j]).key != k@,
        decreases software.len() - i,
    {
        if software[i].key == *k {
            proof {
                assert(software.deep_view()[i as int].key == k@);
            }
            return true;
        }
        i = i + 1;
    }
    false
}

/// Checks that every key of one software map is declared; fails on the
/// first that is not, naming it, the field it stands under, and the
/// enclosing entity or API where one is given.
pub fn check_software_exists(
    software: &Vec<model::SoftwareDef>,
    context: Option<&str>,
    key: &str,
    attribute_software: &Vec<(String, model::Software)>,
) -> (r: Result<(), ValidationError>)
    ensures
        r is Ok <==> soft_map_ok(attribute_software.deep_view(), software.deep_view()),
        r matches Err(e) ==> exists|i: int|
            0 <= i < attribute_software.deep_view().len() && !registry_has(
                software.deep_view(),
                (#[trigger] attribute_software.deep_view()[i]).0,
            ) && e.missing@ == attribute_software.deep_view()[i].0 && (forall|j: int|
                0 <= j < i ==> registry_has(
                    software.deep_view(),
                    (#[trigger] attribute_software.deep_view()[j]).0,
                )),
        r matches Err(e) ==> e.field@ == key@ && (match context {
            Some(c) => e.context matches Some(c2) && c2@ == c@,
            None => e.context is None,
        }),
{
    let mut i: usize = 0;
    while i < attribute_software.len()
        invariant
            i <= attribute_software.len(),
            forall|j: int| 0 <= j < i ==> registry_has(
                software.deep_view(),
                (#[trigger] attribute_software.deep_view()[j]).0,
            ),
        decreases attribute_software.len() - i,
    {
        proof {
            assert(attribute_software.deep_view()[i as int] == attribute_software@[
                i as int
            ].deep_view());
        }
        if !registry_contains(software, &attribute_software[i].0) {
            let ctx: Option<String> = match context {
                Some(c) => Some(c.to_owned()),
                None => None,
            };
            proof {
                assert(!registry_has(
                    software.deep_view(),
                    attribute_software.deep_view()[i as int].0,
                ));
            }
            return Err(
                ValidationError {
                    missing: attribute_software[i].0.clone(),
                    context: ctx,
                    field: key.to_owned(),
                },
            );
        }
        i = i + 1;
    }
    Ok(())
}

fn check_attr_map(
    software: &Vec<model::SoftwareDef>,
    context: Option<&str>,
    ams: &Vec<(String, model::Attribute)>,
) -> (r: Result<(), ValidationError>)
    ensures
        r is Ok <==> attrs_ok(ams.deep_view(), software.deep_view()),
        r matches Err(e) ==> !registry_has(software.deep_view(), e.missing@),
    decreases ams.len(),
{
    let mut i: usize = 0;
    while i < ams.len()
        invariant
            i <= ams.len(),
            forall|j: int| 0 <= j < i ==> soft_map_ok(
                (#[trigger] ams.deep_view()[j]).1.software,
                software.deep_view(),
            ),
        decreases ams.len() - i,
    {
        let p = &ams[i];
        proof {
            assert(ams.deep_view()[i as int] == ams@[i as int].deep_view());
        }
        match check_software_exists(software, context, p.0.as_str(), &p.1.software) {
            Ok(()) => {},
            Err(e) => {
                return Err(e);
            },
        }
        proof {
            assert(soft_map_ok(ams.deep_view()[i as int].1.software, software.deep_view()));
        }
        i = i + 1;
    }
    Ok(())
}

/// Validates the whole collection against the registry: every API group
/// first (each API's own software, then its parameters, then every inline
/// response's fields), then every entity (its own software, then its
/// attributes, then its values). Fails on the first missing key.
#[verifier::loop_isolation(false)]
pub fn validate_collected(c: &Collected, software: &Vec<model::SoftwareDef>) -> (r: Result<
    (),
    ValidationError,
>)
    ensures
        r is Ok <==> apis_ok(c.apis.deep_view(), software.deep_view()) && entities_ok(
            c.entities.deep_view(),
            software.deep_view(),
        ),
        r matches Err(e) ==> !registry_has(software.deep_view(), e.missing@),
{
    let ghost reg = software.deep_view();
    let mut gi: usize = 0;
    while gi < c.apis.len()
        invariant
            gi <= c.apis.len(),
            reg == software.deep_view(),
            forall|j: int| 0 <= j < gi ==> api_group_ok((#[trigger] c.apis.deep_view()[j]).1, reg),
        decreases c.apis.len() - gi,
    {
        let group = &c.apis[gi];
        proof {
            assert(c.apis.deep_view()[gi as int] == c.apis@[gi as int].deep_view());
        }
        let mut ai: usize = 0;
        while ai < group.1.len()
            invariant
                ai <= group.1.len(),
                reg == software.deep_view(),
                forall|j: int| 0 <= j < ai ==> api_ok(#[trigger] group.1.deep_view()[j], reg),
            decreases group.1.len() - ai,
        {
            let api = &group.1[ai];
            proof {
                assert(group.1.deep_view()[ai as int] == group.1@[ai as int].deep_view());
            }
            match check_software_exists(software, None, api.request.as_str(), &api.software) {
                Ok(()) => {},
                Err(e) => {
                    proof {
                        assert(!api_ok(group.1.deep_view()[ai as int], reg));
                        assert(!api_group_ok(c.apis.deep_view()[gi as int].1, reg));
                        assert(!apis_ok(c.apis.deep_view(), reg));
                    }
                    return Err(e);
                },
            }
            match check_attr_map(software, Some(api.request.as_str()), &api.params) {
                Ok(()) => {},
                Err(e) => {
                    proof {
                        assert(!api_ok(group.1.deep_view()[ai as int], reg));
                        assert(!api_group_ok(c.apis.deep_view()[gi as int].1, reg));
                        assert(!apis_ok(c.apis.deep_view(), reg));
                    }
                    return Err(e);
                },
            }
            let mut ri: usize = 0;
            while ri < api.responses.len()
                invariant
                    ri <= api.responses.len(),
                    reg == software.deep_view(),
                    forall|j: int| 0 <= j < ri ==> response_ok(
                        #[trigger] api.responses.deep_view()[j],
                        reg,
                    ),
                decreases api.responses.len() - ri,
            {
                proof {
                    assert(api.responses.deep_view()[ri as int] == api.responses@[
                        ri as int
                    ].deep_view());
                }
                match &api.responses[ri] {
                    model::Response::Reference { .. } => {},
                    model::Response::Value { value, .. } => {
                        match check_attr_map(software, Some(api.request.as_str()), value) {
                            Ok(()) => {},
                            Err(e) => {
                                proof {
                                    assert(!response_ok(
                                        api.responses.deep_view()[ri as int],
                                        reg,
                                    ));
                                    assert(!api_ok(group.1.deep_view()[ai as int], reg));
                                    assert(!api_group_ok(c.apis.deep_view()[gi as int].1, reg));
                                    assert(!apis_ok(c.apis.deep_view(), reg));
                                }
                                return Err(e);
                            },
                        }
                    },
                }
                proof {
                    assert(response_ok(api.responses.deep_view()[ri as int], reg));
                }
                ri = ri + 1;
            }
            proof {
                assert(api_ok(group.1.deep_view()[ai as int], reg));
            }
            ai = ai + 1;
        }
        proof {
            assert(api_group_ok(c.apis.deep_view()[gi as int].1, reg));
        }
        gi = gi + 1;
    }
    let mut ei: usize = 0;
    while ei < c.entities.len()
        invariant
            ei <= c.entities.len(),
            reg == software.deep_view(),
            apis_ok(c.apis.deep_view(), reg),
            forall|j: int| 0 <= j < ei ==> entity_ok(
                (#[trigger] c.entities.deep_view()[j]).1,
                reg,
            ),
        decreases c.entities.len() - ei,
    {
        let p = &c.entities[ei];
        proof {
            assert(c.entities.deep_view()[ei as int] == c.entities@[ei as int].deep_view());
        }
        match check_software_exists(software, None, p.0.as_str(), &p.1.software) {
            Ok(()) => {},
            Err(e) => {
                proof {
                    assert(!entity_ok(c.entities.deep_view()[ei as int].1, reg));
                    assert(!entities_ok(c.entities.deep_view(), reg));
                }
                return Err(e);
            },
        }
        match check_attr_map(software, Some(p.0.as_str()), &p.1.attributes) {
            Ok(()) => {},
            Err(e) => {
                proof {
                    assert(!entity_ok(c.entities.deep_view()[ei as int].1, reg));
                    assert(!entities_ok(c.entities.deep_view(), reg));
                }
                return Err(e);
            },
        }
        match check_attr_map(software, Some(p.0.as_str()), &p.1.values) {
            Ok(()) => {},
            Err(e) => {
                proof {
                    assert(!entity_ok(c.entities.deep_view()[ei as int].1, reg));
                    assert(!entities_ok(c.entities.deep_view(), reg));
                }
                return Err(e);
            },
        }
        proof {
            assert(entity_ok(c.entities.deep_view()[ei as int].1, reg));
        }
        ei = ei + 1;
    }
    Ok(())
}

} // verus!
