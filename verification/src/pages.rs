//! Page planning: the title, book path and navigation placement of every
//! rendered page.

use vstd::prelude::*;
use vstd::string::StrSliceExecFns;
use vstd::string::StringExecFns;

use crate::paths::file_stem;
use crate::paths::stem_of;
use crate::strutil::split_char;
use crate::strutil::split_on;
use crate::strutil::str_eq;

verus! {

/// Where a page goes: its plain title, the displayed title with its
/// nesting indent, the book path, and the ancestor section names.
pub struct PagePlan {
    pub title: String,
    pub display_title: String,
    pub path: String,
    pub parents: Vec<String>,
}

/// A group key with the data root prefix removed, where it carries one.
pub open spec fn strip_data(k: Seq<char>) -> Seq<char> {
    if k.len() >= 5 && k.subrange(0, 5) == "data/"@ {
        k.skip(5)
    } else {
        k
    }
}

/// The intermediate path segments of a group page: everything between the
/// section root and the file itself.
pub open spec fn parents_of(rel: Seq<char>) -> Seq<Seq<char>> {
    split_on(rel, '/').drop_last()
}

/// One indent step for each nesting level.
pub open spec fn indent_of(n: nat) -> Seq<char>
    decreases n,
{
    if n == 0 {
        Seq::empty()
    } else {
        indent_of((n - 1) as nat) + "&emsp;"@
    }
}

/// Plans the page of one API group from its extension-stripped source
/// path: titled by the file stem, placed under the methods section along
/// the file's directory path, the displayed title indented once per
/// nesting level.
pub fn api_page_plan(group_key: &str) -> (r: PagePlan)
    ensures
        r.title@ == stem_of(group_key@),
        r.path@ == "api-methods/"@ + strip_data(group_key@),
        r.parents.deep_view() == parents_of(strip_data(group_key@)),
        r.display_title@ == indent_of(r.parents.deep_view().len()) + stem_of(group_key@),
{
    let title = file_stem(group_key);
    let n = group_key.unicode_len();
    let rel: String = if n >= 5 {
        let head = group_key.substring_char(0, 5).to_owned();
        if str_eq(&head, "data/") {
            proof {
                assert(group_key@.subrange(5, n as int) =~= group_key@.skip(5));
            }
            group_key.substring_char(5, n).to_owned()
        } else {
            proof {
                assert(group_key@.subrange(0, n as int) =~= group_key@);
            }
            group_key.substring_char(0, n).to_owned()
        }
    } else {
        proof {
            assert(group_key@.subrange(0, n as int) =~= group_key@);
        }
        group_key.substring_char(0, n).to_owned()
    };
    let mut parents = split_char(rel.as_str(), '/');
    parents.pop();
    let mut path = String::new();
    path.append("api-methods/");
    path.append(rel.as_str());
    let mut display_title = String::new();
    let mut k: usize = 0;
    let np = parents.len();
    while k < np
        invariant
            k <= np,
            display_title@ == indent_of(k as nat),
        decreases np - k,
    {
        display_title.append("&emsp;");
        k = k + 1;
    }
    display_title.append(title.as_str());
    proof {
        assert(parents.deep_view() =~= parents_of(strip_data(group_key@)));
    }
    PagePlan { title, display_title, path, parents }
}

/// Plans the page of one entity: titled by its display name, placed flat
/// under the entities section.
pub fn entity_page_plan(entity_name: &str, key: &str) -> (r: PagePlan)
    ensures
        r.title@ == entity_name@,
        r.display_title@ == entity_name@,
        r.path@ == "api-entities/"@ + key@,
        r.parents.deep_view() == seq!["Api Entities"@],
{
    let title = entity_name.to_owned();
    let display_title = entity_name.to_owned();
    let mut path = String::new();
    path.append("api-entities/");
    path.append(key);
    let mut parents: Vec<String> = Vec::new();
    let section: &str = "Api Entities";
    parents.push(section.to_owned());
    proof {
        assert(parents.deep_view() =~= seq!["Api Entities"@]);
    }
    PagePlan { title, display_title, path, parents }
}

} // verus!
