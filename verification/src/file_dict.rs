//! The dictionary that a file declares for itself, in its `DICT` group.

use laterite_ags4_core::effective_dict::FileDict;
use vstd::prelude::*;
use vstd::string::*;

use crate::ags::{group_of, group_wf, value_at, AgsGroup, GroupView, ParsedAgs4};
use crate::text::{opt_text, same};

verus! {

/// The collection of what a file's `DICT` group declares.
#[verifier::external_type_specification]
#[verifier::external_body]
pub struct ExFileDict(laterite_ags4_core::effective_dict::FileDict);

/// The headings that a file declares, each by group and name, with their status.
pub uninterp spec fn statuses(dict: FileDict) -> Map<(Seq<char>, Seq<char>), Seq<char>>;

/// The groups that a file declares as such, with the parent that it gives them.
pub uninterp spec fn parents(dict: FileDict) -> Map<Seq<char>, Seq<char>>;

/// The headings that the first `n` rows of a `DICT` group declare. A row with a
/// group and a heading declares that heading; the first to declare it counts.
pub open spec fn declared_statuses(g: GroupView, n: int) -> Map<(Seq<char>, Seq<char>), Seq<char>>
    decreases n,
{
    if n <= 0 {
        Map::empty()
    } else {
        let before = declared_statuses(g, n - 1);
        let group = value_at(g, n - 1, "DICT_GRP"@);
        let heading = value_at(g, n - 1, "DICT_HDNG"@);
        if group.len() > 0 && heading.len() > 0 && !before.contains_key((group, heading)) {
            before.insert((group, heading), value_at(g, n - 1, "DICT_STAT"@))
        } else {
            before
        }
    }
}

/// The groups that the first `n` rows of a `DICT` group declare. A row of type
/// `GROUP` with a group declares that group; the first to declare it counts.
pub open spec fn declared_parents(g: GroupView, n: int) -> Map<Seq<char>, Seq<char>>
    decreases n,
{
    if n <= 0 {
        Map::empty()
    } else {
        let before = declared_parents(g, n - 1);
        let group = value_at(g, n - 1, "DICT_GRP"@);
        if value_at(g, n - 1, "DICT_TYPE"@) == "GROUP"@ && group.len() > 0 && !before.contains_key(
            group,
        ) {
            before.insert(group, value_at(g, n - 1, "DICT_PGRP"@))
        } else {
            before
        }
    }
}

/// The headings that a file declares in its `DICT` group, where it has one.
pub open spec fn file_statuses(file: Seq<GroupView>) -> Map<(Seq<char>, Seq<char>), Seq<char>> {
    match group_of(file, "DICT"@) {
        Some(g) => declared_statuses(g, g.rows.len() as int),
        None => Map::empty(),
    }
}

/// The groups that a file declares in its `DICT` group, where it has one.
pub open spec fn file_parents(file: Seq<GroupView>) -> Map<Seq<char>, Seq<char>> {
    match group_of(file, "DICT"@) {
        Some(g) => declared_parents(g, g.rows.len() as int),
        None => Map::empty(),
    }
}

/// Whether a row of a file's `DICT` group names a group, be it a declaration or not.
pub open spec fn dict_names(file: Seq<GroupView>, group: Seq<char>) -> bool {
    match group_of(file, "DICT"@) {
        Some(g) => exists|r: int|
            0 <= r < g.rows.len() && #[trigger] value_at(g, r, "DICT_GRP"@) == group,
        None => false,
    }
}

/// Whether a file declares anything of a group: the group itself, or a heading of
/// it.
pub open spec fn touches(
    statuses: Map<(Seq<char>, Seq<char>), Seq<char>>,
    parents: Map<Seq<char>, Seq<char>>,
    group: Seq<char>,
) -> bool {
    parents.contains_key(group) || exists|heading: Seq<char>| #[trigger]
        statuses.contains_key((group, heading))
}

/// `laterite_ags4_core::effective_dict::file_dict_of` collects what the `DICT`
/// group of a file declares; of a file without one, nothing.
#[verifier::external_body]
pub(crate) fn dict_of_group(dict: Option<&AgsGroup>) -> (r: FileDict)
    requires
        dict is Some ==> dict->Some_0@.code == "DICT"@ && group_wf(dict->Some_0@),
    ensures
        statuses(r) == match dict {
            Some(g) => declared_statuses(g@, g@.rows.len() as int),
            None => Map::empty(),
        },
        parents(r) == match dict {
            Some(g) => declared_parents(g@, g@.rows.len() as int),
            None => Map::empty(),
        },
{
    let groups = dict.iter().map(|g| (g.code.clone(), laterite_ags4_core::ags4_codec::AgsGroup {
        code: g.code.clone(),
        headings: g.headings.clone(),
        units: g.units.clone(),
        types: g.types.clone(),
        rows: g.rows.iter().map(|r| {
            g.headings.iter().map(|h| h.as_str().into()).zip(r.iter().cloned()).collect()
        }).collect(),
    })).collect();
    let order = dict.iter().map(|g| g.code.clone()).collect();
    let file = laterite_ags4_core::ags4_codec::ParsedAgs4 { groups, order };
    laterite_ags4_core::effective_dict::file_dict_of(&file)
}

/// `FileDict::parent` is the parent that the file gives a group, as it is written
/// there: none where the file does not declare the group as such.
#[verifier::external_body]
pub(crate) fn dict_parent(dict: &FileDict, group: &str) -> (r: Option<String>)
    ensures
        opt_text(r) == parents(*dict).get(group@),
{
    dict.parent(group).map(|p| p.to_string())
}

/// `FileDict::heading` is what the file declares of a heading of a group, here its
/// status: none where the file does not declare it.
#[verifier::external_body]
pub(crate) fn dict_status(dict: &FileDict, group: &str, heading: &str) -> (r: Option<String>)
    ensures
        opt_text(r) == statuses(*dict).get((group@, heading@)),
{
    dict.heading(group, heading).map(|h| h.status.clone())
}

/// `FileDict::groups` is the set of the groups that the file declares anything of.
#[verifier::external_body]
pub(crate) fn dict_touches(dict: &FileDict, group: &str) -> (r: bool)
    ensures
        r == touches(statuses(*dict), parents(*dict), group@),
{
    dict.groups().contains(group)
}

/// What a file declares in its `DICT` group.
pub fn file_dict_of(file: &ParsedAgs4) -> (r: FileDict)
    requires
        crate::ags::file_wf(file@),
    ensures
        statuses(r) == file_statuses(file@),
        parents(r) == file_parents(file@),
{
    match file.position("DICT") {
        Some(i) => {
            assert(group_wf(file@[i as int]));
            dict_of_group(Some(&file.groups[i]))
        },
        None => dict_of_group(None),
    }
}

/// The parent that a declaration gives: none where it is empty or `-`, which both
/// mean that there is none.
pub open spec fn stated_parent(parent: Option<Seq<char>>) -> Option<Seq<char>> {
    match parent {
        Some(p) => if p.len() == 0 || p == "-"@ {
            None
        } else {
            Some(p)
        },
        None => None,
    }
}

/// The parent that the file gives a group.
pub fn file_parent(dict: &FileDict, code: &str) -> (r: Option<String>)
    ensures
        opt_text(r) == stated_parent(parents(*dict).get(code@)),
{
    match dict_parent(dict, code) {
        Some(p) => {
            if p.as_str().is_empty() || same(p.as_str(), "-") {
                None
            } else {
                Some(p)
            }
        },
        None => None,
    }
}

/// A file declares a group just where a row of its `DICT` group names it and either
/// names a heading too or is of the type `GROUP`.
pub proof fn a_group_is_declared_by_a_row(file: Seq<GroupView>, group: Seq<char>)
    ensures
        match group_of(file, "DICT"@) {
            Some(d) => touches(file_statuses(file), file_parents(file), group) <==> {
                &&& group.len() > 0
                &&& exists|r: int|
                    {
                        &&& 0 <= r < d.rows.len()
                        &&& #[trigger] value_at(d, r, "DICT_GRP"@) == group
                        &&& value_at(d, r, "DICT_HDNG"@).len() > 0 || value_at(d, r, "DICT_TYPE"@)
                            == "GROUP"@
                    }
            },
            None => !touches(file_statuses(file), file_parents(file), group),
        },
{
    match group_of(file, "DICT"@) {
        Some(d) => {
            let n = d.rows.len() as int;
            lemma_parents_declared(d, n, group);
            if touches(file_statuses(file), file_parents(file), group) {
                if !file_parents(file).contains_key(group) {
                    let heading = choose|heading: Seq<char>| #[trigger]
                        file_statuses(file).contains_key((group, heading));
                    lemma_statuses_declared(d, n, group, heading);
                }
            }
            if group.len() > 0 && exists|r: int|
                {
                    &&& 0 <= r < d.rows.len()
                    &&& #[trigger] value_at(d, r, "DICT_GRP"@) == group
                    &&& value_at(d, r, "DICT_HDNG"@).len() > 0 || value_at(d, r, "DICT_TYPE"@)
                        == "GROUP"@
                } {
                let r = choose|r: int|
                    {
                        &&& 0 <= r < d.rows.len()
                        &&& #[trigger] value_at(d, r, "DICT_GRP"@) == group
                        &&& value_at(d, r, "DICT_HDNG"@).len() > 0 || value_at(d, r, "DICT_TYPE"@)
                            == "GROUP"@
                    };
                lemma_statuses_declared(d, n, group, value_at(d, r, "DICT_HDNG"@));
            }
        },
        None => {},
    }
}

proof fn lemma_parents_declared(d: GroupView, n: int, group: Seq<char>)
    ensures
        declared_parents(d, n).contains_key(group) <==> group.len() > 0 && exists|r: int|
            0 <= r < n && #[trigger] value_at(d, r, "DICT_GRP"@) == group && value_at(
                d,
                r,
                "DICT_TYPE"@,
            ) == "GROUP"@,
    decreases n,
{
    if n > 0 {
        lemma_parents_declared(d, n - 1, group);
        if declared_parents(d, n).contains_key(group) && !declared_parents(d, n - 1).contains_key(
            group,
        ) {
            assert(value_at(d, n - 1, "DICT_GRP"@) == group);
        }
    }
}

proof fn lemma_statuses_declared(d: GroupView, n: int, group: Seq<char>, heading: Seq<char>)
    ensures
        declared_statuses(d, n).contains_key((group, heading)) <==> group.len() > 0 && heading.len()
            > 0 && exists|r: int|
            0 <= r < n && #[trigger] value_at(d, r, "DICT_GRP"@) == group && value_at(
                d,
                r,
                "DICT_HDNG"@,
            ) == heading,
    decreases n,
{
    if n > 0 {
        lemma_statuses_declared(d, n - 1, group, heading);
        if declared_statuses(d, n).contains_key((group, heading)) && !declared_statuses(
            d,
            n - 1,
        ).contains_key((group, heading)) {
            assert(value_at(d, n - 1, "DICT_GRP"@) == group);
        }
    }
}

/// The first row that declares a group, or a heading, counts: its parent, or its status,
/// is what the file says, whatever rows follow.
pub proof fn the_first_declaration_counts(d: GroupView, n: int, r: int)
    requires
        0 <= r < n,
    ensures
        ({
            let group = value_at(d, r, "DICT_GRP"@);
            let heading = value_at(d, r, "DICT_HDNG"@);
            &&& group.len() > 0 && value_at(d, r, "DICT_TYPE"@) == "GROUP"@ && (forall|k: int|
                0 <= k < r ==> !(#[trigger] value_at(d, k, "DICT_GRP"@) == group && value_at(
                    d,
                    k,
                    "DICT_TYPE"@,
                ) == "GROUP"@)) ==> declared_parents(d, n).get(group) == Some(
                value_at(d, r, "DICT_PGRP"@),
            )
            &&& group.len() > 0 && heading.len() > 0 && (forall|k: int|
                0 <= k < r ==> !(#[trigger] value_at(d, k, "DICT_GRP"@) == group && value_at(
                    d,
                    k,
                    "DICT_HDNG"@,
                ) == heading)) ==> declared_statuses(d, n).get((group, heading)) == Some(
                value_at(d, r, "DICT_STAT"@),
            )
        }),
    decreases n,
{
    let group = value_at(d, r, "DICT_GRP"@);
    let heading = value_at(d, r, "DICT_HDNG"@);
    if r == n - 1 {
        lemma_parents_declared(d, n - 1, group);
        lemma_statuses_declared(d, n - 1, group, heading);
    } else {
        the_first_declaration_counts(d, n - 1, r);
    }
}

/// A parent that is declared empty or as `-` is none; any other is as it is written.
pub proof fn a_dash_is_no_parent(p: Seq<char>)
    ensures
        stated_parent(None) is None,
        stated_parent(Some(p)) == if p.len() == 0 || p == "-"@ {
            None
        } else {
            Some(p)
        },
{
}

} // verus!
