//! Walks the parsed data files in order, normalizes their content, and
//! merges it into the two global collections: entities keyed by
//! identifier, API groups keyed by source path.

use vstd::prelude::*;
use vstd::string::StringExecFns;

use crate::model;
use crate::model::norm_api;
use crate::model::norm_entity;
use crate::parse;
use crate::parse::spec_parse_data;
use crate::parse::ParseError;
use crate::paths;
use crate::paths::drop_ext_of;
use crate::paths::stem_of;
use crate::strutil::lemma_lex_irrefl;
use crate::strutil::lemma_lex_total;
use crate::strutil::lemma_lex_trans;
use crate::strutil::lex_lt;
use crate::strutil::str_lt;
use crate::toml_tree::toml_doc_of;

verus! {

/// Keys strictly ascending in lexicographic order; so every key at most
/// once.
pub open spec fn sorted_keys<TV>(s: Seq<(Seq<char>, TV)>) -> bool {
    forall|i: int, j: int| 0 <= i < j < s.len() ==> lex_lt(#[trigger] s[i].0, #[trigger] s[j].0)
}

/// The association list `s` holds exactly the graph of the map `m`.
pub open spec fn represents<TV>(s: Seq<(Seq<char>, TV)>, m: Map<Seq<char>, TV>) -> bool {
    &&& forall|p: (Seq<char>, TV)| #[trigger]
        s.contains(p) ==> m.contains_key(p.0) && m[p.0] == p.1
    &&& forall|k: Seq<char>| #[trigger]
        m.contains_key(k) ==> exists|p: (Seq<char>, TV)| #[trigger] s.contains(p) && p.0 == k
}

/// The map read off an association list, later entries winning.
pub open spec fn seq_to_map<TV>(s: Seq<(Seq<char>, TV)>) -> Map<Seq<char>, TV>
    decreases s.len(),
{
    if s.len() == 0 {
        Map::empty()
    } else {
        seq_to_map(s.drop_last()).insert(s.last().0, s.last().1)
    }
}

/// Replaces the value under `key`, or inserts the pair at its ordered
/// place. The map read of the list gains exactly this binding.
fn insert_sorted<T: DeepView>(map: &mut Vec<(String, T)>, key: String, val: T)
    requires
        sorted_keys(old(map).deep_view()),
    ensures
        sorted_keys(final(map).deep_view()),
        final(map).deep_view().contains((key@, val.deep_view())),
        forall|p: (Seq<char>, T::V)| #[trigger]
            old(map).deep_view().contains(p) && p.0 != key@ ==> final(map).deep_view().contains(p),
        forall|p: (Seq<char>, T::V)| #[trigger]
            final(map).deep_view().contains(p) ==> p == (key@, val.deep_view()) || (old(
                map,
            ).deep_view().contains(p) && p.0 != key@),
{
    let ghost odv = old(map).deep_view();
    let mut pos: usize = 0;
    while pos < map.len() && str_lt(&map[pos].0, &key)
        invariant
            pos <= map.len(),
            map.deep_view() == odv,
            sorted_keys(odv),
            forall|i: int| 0 <= i < pos ==> lex_lt(#[trigger] odv[i].0, key@),
        decreases map.len() - pos,
    {
        pos = pos + 1;
    }
    proof {
        if pos < odv.len() {
            lemma_lex_total(odv[pos as int].0, key@);
        }
        assert forall|i: int| 0 <= i < odv.len() implies #[trigger] odv[i].0 != key@ || (pos
            < odv.len() && odv[pos as int].0 == key@ && i == pos) by {
            if odv[i].0 == key@ {
                if i < pos {
                    lemma_lex_irrefl(key@);
                } else if pos < odv.len() && i > pos {
                    assert(lex_lt(odv[pos as int].0, odv[i].0));
                }
            }
        }
    }
    if pos < map.len() && map[pos].0 == key {
        map.set(pos, (key, val));
        proof {
            let ndv = map.deep_view();
            assert(ndv =~= odv.update(pos as int, (key@, val.deep_view())));
            assert forall|i: int, j: int| 0 <= i < j < ndv.len() implies lex_lt(
                #[trigger] ndv[i].0,
                #[trigger] ndv[j].0,
            ) by {
                assert(ndv[i].0 == odv[i].0);
                assert(ndv[j].0 == odv[j].0);
            }
            assert(ndv[pos as int] == (key@, val.deep_view()));
            assert(ndv.contains((key@, val.deep_view())));
            assert forall|p: (Seq<char>, T::V)| #[trigger]
                odv.contains(p) && p.0 != key@ implies ndv.contains(p) by {
                let i = choose|i: int| 0 <= i < odv.len() && odv[i] == p;
                assert(ndv[i] == p);
            }
            assert forall|p: (Seq<char>, T::V)| #[trigger] ndv.contains(p) implies p == (
            key@,
            val.deep_view(),
            ) || (odv.contains(p) && p.0 != key@) by {
                let i = choose|i: int| 0 <= i < ndv.len() && ndv[i] == p;
                if i != pos {
                    assert(odv[i] == p);
                }
            }
        }
    } else {
        proof {
            if pos < odv.len() {
                lemma_lex_total(odv[pos as int].0, key@);
            }
        }
        map.insert(pos, (key, val));
        proof {
            let ndv = map.deep_view();
            assert(ndv.len() == odv.len() + 1);
            assert forall|i: int| 0 <= i < ndv.len() implies #[trigger] ndv[i] == (if i < pos {
                odv[i]
            } else if i == pos {
                (key@, val.deep_view())
            } else {
                odv[i - 1]
            }) by {}
            assert forall|i: int, j: int| 0 <= i < j < ndv.len() implies lex_lt(
                #[trigger] ndv[i].0,
                #[trigger] ndv[j].0,
            ) by {
                if i == pos && j > pos {
                    if j - 1 > pos {
                        lemma_lex_trans(key@, odv[pos as int].0, odv[j - 1].0);
                    }
                }
            }
            assert(ndv[pos as int] == (key@, val.deep_view()));
            assert(ndv.contains((key@, val.deep_view())));
            assert forall|p: (Seq<char>, T::V)| #[trigger]
                odv.contains(p) && p.0 != key@ implies ndv.contains(p) by {
                let i = choose|i: int| 0 <= i < odv.len() && odv[i] == p;
                if i < pos {
                    assert(ndv[i] == p);
                } else {
                    assert(ndv[i + 1] == p);
                }
            }
            assert forall|p: (Seq<char>, T::V)| #[trigger] ndv.contains(p) implies p == (
            key@,
            val.deep_view(),
            ) || (odv.contains(p) && p.0 != key@) by {
                let i = choose|i: int| 0 <= i < ndv.len() && ndv[i] == p;
                if i < pos {
                    assert(odv[i] == p);
                } else if i > pos {
                    assert(odv[i - 1] == p);
                }
            }
        }
    }
}

/// An association list gaining one binding represents the map gaining the
/// same binding.
proof fn lemma_represents_insert<TV>(
    olds: Seq<(Seq<char>, TV)>,
    news: Seq<(Seq<char>, TV)>,
    m: Map<Seq<char>, TV>,
    k: Seq<char>,
    v: TV,
)
    requires
        represents(olds, m),
        news.contains((k, v)),
        forall|p: (Seq<char>, TV)| #[trigger] olds.contains(p) && p.0 != k ==> news.contains(p),
        forall|p: (Seq<char>, TV)| #[trigger]
            news.contains(p) ==> p == (k, v) || (olds.contains(p) && p.0 != k),
    ensures
        represents(news, m.insert(k, v)),
{
    let mi = m.insert(k, v);
    assert forall|p: (Seq<char>, TV)| #[trigger]
        news.contains(p) implies mi.contains_key(p.0) && mi[p.0] == p.1 by {
        if p == (k, v) {
        } else {
            assert(olds.contains(p) && p.0 != k);
        }
    }
    assert forall|k2: Seq<char>| #[trigger] mi.contains_key(k2) implies exists|
        p: (Seq<char>, TV),
    | #[trigger] news.contains(p) && p.0 == k2 by {
        if k2 == k {
            assert(news.contains((k, v)) && (k, v).0 == k2);
        } else {
            assert(m.contains_key(k2));
            let p = choose|p: (Seq<char>, TV)| #[trigger] olds.contains(p) && p.0 == k2;
            assert(m[p.0] == p.1);
            assert(news.contains(p) && p.0 == k2);
        }
    }
}

// ---------------------------------------------------------------------
// What one run collects, stated over the input files.
// ---------------------------------------------------------------------

/// True of the designated registry file, which the collector skips.
pub open spec fn is_registry_file(path: Seq<char>) -> bool {
    stem_of(path) == "software"@
}

/// What a data file's text parses to, syntax and schema together.
pub open spec fn data_of(text: Seq<char>) -> Option<parse::DataV> {
    match toml_doc_of(text) {
        Some(v) => spec_parse_data(v),
        None => None,
    }
}

/// The normalized entities one parsed file contributes, keys kept.
pub open spec fn norm_file_entities(d: parse::DataV, site_url: Seq<char>) -> Seq<
    (Seq<char>, model::EntityV),
> {
    d.entity.map(|i: int, p: (Seq<char>, parse::EntityV)| (p.0, norm_entity(p.1, site_url, p.0)))
}

/// The normalized API list one parsed file contributes.
pub open spec fn norm_file_apis(d: parse::DataV) -> Seq<model::ApiV> {
    d.api.map(|i: int, a: parse::ApiV| norm_api(a))
}

/// The merged entity map after the given files, later files winning on a
/// shared key.
pub open spec fn merged_entities(files: Seq<(Seq<char>, Seq<char>)>, site_url: Seq<char>) -> Map<
    Seq<char>,
    model::EntityV,
>
    decreases files.len(),
{
    if files.len() == 0 {
        Map::empty()
    } else {
        let m = merged_entities(files.drop_last(), site_url);
        let f = files.last();
        if is_registry_file(f.0) || data_of(f.1) is None {
            m
        } else {
            m.union_prefer_right(seq_to_map(norm_file_entities(data_of(f.1)->Some_0, site_url)))
        }
    }
}

/// The API groups after the given files, keyed by the path with its
/// extension removed.
pub open spec fn merged_apis(files: Seq<(Seq<char>, Seq<char>)>) -> Map<
    Seq<char>,
    Seq<model::ApiV>,
>
    decreases files.len(),
{
    if files.len() == 0 {
        Map::empty()
    } else {
        let m = merged_apis(files.drop_last());
        let f = files.last();
        if is_registry_file(f.0) || data_of(f.1) is None {
            m
        } else {
            m.insert(drop_ext_of(f.0), norm_file_apis(data_of(f.1)->Some_0))
        }
    }
}

/// The two global collections of one run.
pub struct Collected {
    pub entities: Vec<(String, model::Entity)>,
    pub apis: Vec<(String, Vec<model::Api>)>,
}

/// Parses and normalizes every data file, in the order given, and merges
/// the results: entities keyed by identifier, sorted, later files
/// overwriting earlier ones; API groups keyed by extension-stripped path,
/// sorted, one group per file. Files whose stem is `software` are
/// skipped. Fails on the first file that does not parse.
pub fn collect(files: &Vec<(String, String)>, site_url: &str) -> (r: Result<Collected, ParseError>)
    ensures
        r is Ok <==> (forall|i: int| 0 <= i < files.deep_view().len() ==> is_registry_file(
            #[trigger] files.deep_view()[i].0,
        ) || data_of(files.deep_view()[i].1) is Some),
        r matches Ok(c) ==> sorted_keys(c.entities.deep_view()) && sorted_keys(c.apis.deep_view())
            && represents(c.entities.deep_view(), merged_entities(files.deep_view(), site_url@))
            && represents(c.apis.deep_view(), merged_apis(files.deep_view())),
{
    let ghost fdv = files.deep_view();
    let mut entities: Vec<(String, model::Entity)> = Vec::new();
    let mut apis: Vec<(String, Vec<model::Api>)> = Vec::new();
    let mut fi: usize = 0;
    proof {
        assert(fdv.subrange(0, 0) =~= Seq::<(Seq<char>, Seq<char>)>::empty());
    }
    while fi < files.len()
        invariant
            fi <= files.len(),
            fdv == files.deep_view(),
            fdv.len() == files.len(),
            forall|i: int| 0 <= i < fi ==> is_registry_file(#[trigger] fdv[i].0) || data_of(
                fdv[i].1,
            ) is Some,
            sorted_keys(entities.deep_view()),
            sorted_keys(apis.deep_view()),
            represents(entities.deep_view(), merged_entities(fdv.subrange(0, fi as int), site_url@)),
            represents(apis.deep_view(), merged_apis(fdv.subrange(0, fi as int))),
        decreases files.len() - fi,
    {
        proof {
            assert(fdv.subrange(0, fi as int + 1).drop_last() =~= fdv.subrange(0, fi as int));
            assert(fdv.subrange(0, fi as int + 1).last() == fdv[fi as int]);
        }
        let path: &String = &files[fi].0;
        let stem = paths::file_stem(path.as_str());
        let is_reg = crate::strutil::str_eq(&stem, "software");
        if !is_reg {
            match crate::parse::parse_data_file(files[fi].1.as_str()) {
                Err(e) => {
                    proof {
                        assert(fdv[fi as int].0 == files@[fi as int].0@);
                        assert(fdv[fi as int].1 == files@[fi as int].1@);
                        assert(!is_registry_file(fdv[fi as int].0));
                        assert(data_of(fdv[fi as int].1) is None);
                    }
                    let mut msg = String::new();
                    msg.append("In file: ");
                    msg.append(path.as_str());
                    msg.append(": ");
                    msg.append(e.msg.as_str());
                    return Err(ParseError { msg });
                },
                Ok(data) => {
                    let ghost dv = data_of(fdv[fi as int].1)->Some_0;
                    let parse::Data { entity, api } = data;
                    let ghost file_ents = norm_file_entities(dv, site_url@);
                    let ghost base = merged_entities(fdv.subrange(0, fi as int), site_url@);
                    proof {
                        assert(entity.deep_view() =~= dv.entity);
                        assert(base.union_prefer_right(
                            seq_to_map(file_ents.subrange(0, 0)),
                        ) =~= base);
                        assert(file_ents.subrange(0, 0) =~= Seq::<
                            (Seq<char>, model::EntityV),
                        >::empty());
                    }
                    let mut entity = entity;
                    let ghost total = dv.entity.len() as int;
                    while entity.len() > 0
                        invariant
                            sorted_keys(entities.deep_view()),
                            file_ents == norm_file_entities(dv, site_url@),
                            file_ents.len() == total,
                            entity.deep_view().len() <= total,
                            entity.deep_view() == dv.entity.skip(total - entity.deep_view().len()),
                            represents(
                                entities.deep_view(),
                                base.union_prefer_right(
                                    seq_to_map(
                                        file_ents.subrange(
                                            0,
                                            total - entity.deep_view().len() as int,
                                        ),
                                    ),
                                ),
                            ),
                        decreases entity.len(),
                    {
                        let ghost j = total - entity.deep_view().len();
                        let ghost pre_rem = entity.deep_view();
                        let ghost pre_ents = entities.deep_view();
                        let ghost pre_map = base.union_prefer_right(
                            seq_to_map(file_ents.subrange(0, j)),
                        );
                        let p = entity.remove(0);
                        let ne = model::Entity::from(p.1, site_url, p.0.as_str());
                        insert_sorted(&mut entities, p.0, ne);
                        proof {
                            assert(entity.deep_view() =~= pre_rem.drop_first());
                            assert(entity.deep_view() =~= dv.entity.skip(j + 1));
                            assert(pre_rem[0] == dv.entity[j]);
                            assert(file_ents[j] == (
                                dv.entity[j].0,
                                norm_entity(dv.entity[j].1, site_url@, dv.entity[j].0),
                            ));
                            lemma_represents_insert(
                                pre_ents,
                                entities.deep_view(),
                                pre_map,
                                file_ents[j].0,
                                file_ents[j].1,
                            );
                            assert(file_ents.subrange(0, j + 1).drop_last() =~= file_ents.subrange(
                                0,
                                j,
                            ));
                            assert(seq_to_map(file_ents.subrange(0, j + 1)) =~= seq_to_map(
                                file_ents.subrange(0, j),
                            ).insert(file_ents[j].0, file_ents[j].1));
                            assert(base.union_prefer_right(
                                seq_to_map(file_ents.subrange(0, j + 1)),
                            ) =~= pre_map.insert(file_ents[j].0, file_ents[j].1));
                        }
                    }
                    proof {
                        assert(file_ents.subrange(0, total) =~= file_ents);
                        assert(merged_entities(fdv.subrange(0, fi as int + 1), site_url@)
                            == base.union_prefer_right(seq_to_map(file_ents)));
                    }
                    // One API group per file, keyed by the stripped path.
                    let ghost file_apis = norm_file_apis(dv);
                    let mut napis: Vec<model::Api> = Vec::new();
                    proof {
                        assert(api.deep_view() =~= dv.api);
                        assert(napis.deep_view() + api.deep_view().map(
                            |i: int, a: parse::ApiV| norm_api(a),
                        ) =~= file_apis);
                    }
                    let mut api = api;
                    while api.len() > 0
                        invariant
                            napis.deep_view() + api.deep_view().map(
                                |i: int, a: parse::ApiV| norm_api(a),
                            ) == file_apis,
                        decreases api.len(),
                    {
                        let ghost pre_rem = api.deep_view();
                        let ghost pre_out = napis.deep_view();
                        let a = api.remove(0);
                        napis.push(model::Api::from(a));
                        proof {
                            assert(api.deep_view() =~= pre_rem.drop_first());
                            assert(napis.deep_view() =~= pre_out.push(norm_api(pre_rem[0])));
                            assert(napis.deep_view() + api.deep_view().map(
                                |i: int, a: parse::ApiV| norm_api(a),
                            ) =~= file_apis);
                        }
                    }
                    proof {
                        assert(api.deep_view().map(|i: int, a: parse::ApiV| norm_api(a))
                            =~= Seq::<model::ApiV>::empty());
                        assert(napis.deep_view() =~= file_apis);
                    }
                    let group_key = paths::drop_ext(path.as_str());
                    let ghost pre_apis = apis.deep_view();
                    insert_sorted(&mut apis, group_key, napis);
                    proof {
                        lemma_represents_insert(
                            pre_apis,
                            apis.deep_view(),
                            merged_apis(fdv.subrange(0, fi as int)),
                            drop_ext_of(fdv[fi as int].0),
                            file_apis,
                        );
                        assert(merged_apis(fdv.subrange(0, fi as int + 1)) == merged_apis(
                            fdv.subrange(0, fi as int),
                        ).insert(drop_ext_of(fdv[fi as int].0), file_apis));
                    }
                },
            }
        } else {
            proof {
                assert(merged_entities(fdv.subrange(0, fi as int + 1), site_url@)
                    == merged_entities(fdv.subrange(0, fi as int), site_url@));
                assert(merged_apis(fdv.subrange(0, fi as int + 1)) == merged_apis(
                    fdv.subrange(0, fi as int),
                ));
            }
        }
        fi = fi + 1;
    }
    proof {
        assert(fdv.subrange(0, fdv.len() as int) =~= fdv);
    }
    Ok(Collected { entities, apis })
}

} // verus!
