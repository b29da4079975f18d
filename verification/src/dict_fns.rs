//! The standard dictionary, over all editions or of one, and the links between its
//! groups, as tables.

use laterite_ags4_reference::dict;
use vstd::prelude::*;

use crate::cert::{edition_label, parse_edition, unknown_edition, DictVersion};
use crate::order::{increasing, increasing_list_is_unique, sorted};
use crate::registry::{
    descs_view, keys_shared, registry_groups, shared_keys, standard, standard_at, DescView,
    GroupDesc, HeadingView,
};
use crate::table::{
    column, columns_view, fits, nonempty_cell, opt_cell, option_cell, row_view, rows_view, str_cell,
    text_or_null, well_typed, Cell, CellView, ColType, Column, Table,
};
use crate::text::{join, joined, opt_text, texts, trimmed};
use crate::typing::{category, sql_name, sql_type};

verus! {

/// A heading of a dictionary. A unit or a description that is not given is empty.
#[derive(Clone, Debug, PartialEq, Eq)]
pub struct DictEntry {
    pub heading: String,
    pub status: String,
    pub ags_type: String,
    pub unit: String,
    pub desc: String,
}

/// What a dictionary says of a heading.
#[verifier::ext_equal]
pub struct DictEntryView {
    pub heading: Seq<char>,
    pub status: Seq<char>,
    pub ags_type: Seq<char>,
    pub unit: Seq<char>,
    pub desc: Seq<char>,
}

impl View for DictEntry {
    type V = DictEntryView;

    open spec fn view(&self) -> DictEntryView {
        DictEntryView {
            heading: self.heading@,
            status: self.status@,
            ags_type: self.ags_type@,
            unit: self.unit@,
            desc: self.desc@,
        }
    }
}

/// A group of a dictionary, with its headings in dictionary order.
#[derive(Clone, Debug, PartialEq, Eq)]
pub struct DictGroup {
    pub code: String,
    pub parent: Option<String>,
    pub entries: Vec<DictEntry>,
}

/// What a dictionary says of a group.
#[verifier::ext_equal]
pub struct DictGroupView {
    pub code: Seq<char>,
    pub parent: Option<Seq<char>>,
    pub entries: Seq<DictEntryView>,
}

/// What a dictionary says of a list of headings.
pub open spec fn entries_view(entries: Seq<DictEntry>) -> Seq<DictEntryView> {
    Seq::new(entries.len(), |i: int| entries[i]@)
}

impl View for DictGroup {
    type V = DictGroupView;

    open spec fn view(&self) -> DictGroupView {
        DictGroupView {
            code: self.code@,
            parent: opt_text(self.parent),
            entries: entries_view(self.entries@),
        }
    }
}

/// What a dictionary says of a list of groups.
pub open spec fn groups_view(groups: Seq<DictGroup>) -> Seq<DictGroupView> {
    Seq::new(groups.len(), |i: int| groups[i]@)
}

/// The columns of `ags_dictionary`.
pub open spec fn dictionary_columns() -> Seq<(Seq<char>, ColType)> {
    seq![
        ("group"@, ColType::Varchar),
        ("parent"@, ColType::Varchar),
        ("heading"@, ColType::Varchar),
        ("status"@, ColType::Varchar),
        ("ags_type"@, ColType::Varchar),
        ("sql_type"@, ColType::Varchar),
        ("unit"@, ColType::Varchar),
        ("description"@, ColType::Varchar),
        ("ordinal"@, ColType::BigInt),
    ]
}

/// The row of a heading in `ags_dictionary`.
pub open spec fn dictionary_row(g: DictGroupView, i: int) -> Seq<CellView> {
    let e = g.entries[i];
    seq![
        CellView::Str(g.code),
        opt_cell(g.parent),
        CellView::Str(e.heading),
        CellView::Str(e.status),
        CellView::Str(e.ags_type),
        CellView::Str(sql_name(category(e.ags_type))),
        nonempty_cell(e.unit),
        nonempty_cell(e.desc),
        CellView::Int(i as i64),
    ]
}

/// The rows of one group in `ags_dictionary`: one for each heading, in dictionary
/// order.
pub open spec fn dictionary_group_rows(g: DictGroupView) -> Seq<Seq<CellView>> {
    Seq::new(g.entries.len(), |i: int| dictionary_row(g, i))
}

/// The rows of the first `n` groups in `ags_dictionary`.
pub open spec fn dictionary_rows(groups: Seq<DictGroupView>, n: int) -> Seq<Seq<CellView>>
    decreases n,
{
    if n <= 0 {
        Seq::empty()
    } else {
        dictionary_rows(groups, n - 1) + dictionary_group_rows(groups[n - 1])
    }
}

fn entry_row(g: &DictGroup, i: usize) -> (r: Vec<Cell>)
    requires
        i < g.entries@.len(),
    ensures
        row_view(r@) == dictionary_row(g@, i as int),
{
    let e = &g.entries[i];
    let mut row: Vec<Cell> = Vec::new();
    row.push(str_cell(g.code.as_str()));
    row.push(option_cell(&g.parent));
    row.push(str_cell(e.heading.as_str()));
    row.push(str_cell(e.status.as_str()));
    row.push(str_cell(e.ags_type.as_str()));
    row.push(Cell::Str(sql_type(e.ags_type.as_str())));
    row.push(text_or_null(e.unit.as_str()));
    row.push(text_or_null(e.desc.as_str()));
    row.push(
        Cell::Int(
            #[verifier::truncate]
            (i as i64),
        ),
    );
    assert(row_view(row@) =~= dictionary_row(g@, i as int));
    row
}

/// The table of a dictionary: its headings, group by group.
pub fn dictionary_table(groups: &Vec<DictGroup>) -> (r: Table)
    ensures
        columns_view(r.columns@) == dictionary_columns(),
        rows_view(r.rows@) == dictionary_rows(groups_view(groups@), groups@.len() as int),
{
    let mut columns: Vec<Column> = Vec::new();
    columns.push(column("group", ColType::Varchar));
    columns.push(column("parent", ColType::Varchar));
    columns.push(column("heading", ColType::Varchar));
    columns.push(column("status", ColType::Varchar));
    columns.push(column("ags_type", ColType::Varchar));
    columns.push(column("sql_type", ColType::Varchar));
    columns.push(column("unit", ColType::Varchar));
    columns.push(column("description", ColType::Varchar));
    columns.push(column("ordinal", ColType::BigInt));
    assert(columns_view(columns@) =~= dictionary_columns());
    let mut rows: Vec<Vec<Cell>> = Vec::new();
    let mut n: usize = 0;
    assert(rows_view(rows@) =~= Seq::empty());
    while n < groups.len()
        invariant
            n <= groups@.len(),
            rows_view(rows@) == dictionary_rows(groups_view(groups@), n as int),
        decreases groups@.len() - n,
    {
        let g = &groups[n];
        let ghost done = rows_view(rows@);
        let ghost more = dictionary_group_rows(g@);
        assert(groups_view(groups@)[n as int] == g@);
        let mut i: usize = 0;
        assert(done + more.take(0) =~= done);
        while i < g.entries.len()
            invariant
                i <= g.entries@.len(),
                more == dictionary_group_rows(g@),
                rows_view(rows@) == done + more.take(i as int),
            decreases g.entries@.len() - i,
        {
            let row = entry_row(g, i);
            let ghost had = rows_view(rows@);
            rows.push(row);
            assert(rows_view(rows@) =~= had.push(more[i as int]));
            assert(done + more.take(i + 1) =~= (done + more.take(i as int)).push(more[i as int]));
            i = i + 1;
        }
        assert(more.take(i as int) =~= more);
        n = n + 1;
    }
    Table { columns, rows }
}

/// A text that is empty where it is not given.
pub open spec fn or_empty(t: Option<Seq<char>>) -> Seq<char> {
    match t {
        Some(s) => s,
        None => Seq::empty(),
    }
}

/// A heading of the standard dictionary, as an entry.
pub open spec fn standard_entry(h: HeadingView) -> DictEntryView {
    DictEntryView {
        heading: h.name,
        status: h.status,
        ags_type: h.ags_type,
        unit: or_empty(h.unit),
        desc: h.description,
    }
}

/// A group of the standard dictionary, as a group of entries.
pub open spec fn standard_group(d: DescView) -> DictGroupView {
    DictGroupView {
        code: d.code,
        parent: d.parent,
        entries: Seq::new(d.headings.len(), |i: int| standard_entry(d.headings[i])),
    }
}

/// The groups of the standard dictionary, as groups of entries.
pub open spec fn standard_groups(all: Seq<DescView>) -> Seq<DictGroupView> {
    Seq::new(all.len(), |i: int| standard_group(all[i]))
}

fn empty_text() -> (r: String)
    ensures
        r@ == Seq::<char>::empty(),
{
    String::new()
}

fn clone_option(t: &Option<String>) -> (r: Option<String>)
    ensures
        opt_text(r) == opt_text(*t),
{
    match t {
        Some(s) => Some(s.clone()),
        None => None,
    }
}

/// The groups of the standard dictionary, as groups of entries.
pub fn as_dictionary(all: &Vec<GroupDesc>) -> (r: Vec<DictGroup>)
    ensures
        groups_view(r@) == standard_groups(descs_view(all@)),
        r@.len() == all@.len(),
        forall|n: int|
            0 <= n < all@.len() ==> {
                &&& (#[trigger] r@[n]).code@ == all@[n].code@
                &&& opt_text(r@[n].parent) == opt_text(all@[n].parent)
                &&& r@[n].entries@.len() == all@[n].headings@.len()
            },
        forall|n: int, i: int|
            0 <= n < all@.len() && 0 <= i < all@[n].headings@.len() ==> {
                let h = all@[n].headings@[i];
                &&& (#[trigger] r@[n].entries@[i]).heading@ == h.name@
                &&& r@[n].entries@[i].status@ == h.status@
                &&& r@[n].entries@[i].ags_type@ == h.ags_type@
                &&& h.unit is Some ==> r@[n].entries@[i].unit@ == h.unit->Some_0@
                &&& h.unit is None ==> r@[n].entries@[i].unit@.len() == 0
                &&& r@[n].entries@[i].desc@ == h.description@
            },
{
    let mut out: Vec<DictGroup> = Vec::new();
    let mut n: usize = 0;
    while n < all.len()
        invariant
            n <= all@.len(),
            out@.len() == n,
            forall|k: int| 0 <= k < n ==> (#[trigger] out@[k])@ == standard_group(all@[k]@),
        decreases all@.len() - n,
    {
        let d = &all[n];
        let mut entries: Vec<DictEntry> = Vec::new();
        let mut i: usize = 0;
        while i < d.headings.len()
            invariant
                i <= d.headings@.len(),
                entries@.len() == i,
                forall|k: int|
                    0 <= k < i ==> (#[trigger] entries@[k])@ == standard_entry(d.headings@[k]@),
            decreases d.headings@.len() - i,
        {
            let h = &d.headings[i];
            let unit = match &h.unit {
                Some(u) => u.clone(),
                None => empty_text(),
            };
            let e = DictEntry {
                heading: h.name.clone(),
                status: h.status.clone(),
                ags_type: h.ags_type.clone(),
                unit,
                desc: h.description.clone(),
            };
            assert(e@ =~= standard_entry(h@));
            entries.push(e);
            i = i + 1;
        }
        let g = DictGroup { code: d.code.clone(), parent: clone_option(&d.parent), entries };
        assert(g@.entries =~= standard_group(d@).entries);
        assert(g@ =~= standard_group(d@));
        out.push(g);
        n = n + 1;
    }
    assert(groups_view(out@) =~= standard_groups(descs_view(all@)));
    proof {
        assert forall|n: int| 0 <= n < all@.len() implies {
            &&& (#[trigger] out@[n]).code@ == all@[n].code@
            &&& opt_text(out@[n].parent) == opt_text(all@[n].parent)
            &&& out@[n].entries@.len() == all@[n].headings@.len()
        } by {
            assert(out@[n]@.entries.len() == standard_group(all@[n]@).entries.len());
        }
        assert forall|n: int, i: int|
            0 <= n < all@.len() && 0 <= i < all@[n].headings@.len() implies (
        #[trigger] out@[n].entries@[i])@ == standard_entry(all@[n].headings@[i]@) by {
            assert(out@[n]@ == standard_group(all@[n]@));
            assert(out@[n]@.entries[i] == standard_group(all@[n]@).entries[i]);
        }
    }
    out
}

/// Whether a list is the standard dictionary, place by place.
pub open spec fn is_standard_list(all: Seq<DescView>) -> bool {
    forall|i: nat| #[trigger]
        standard_at(i) == if i < all.len() {
            Some(all[i as int])
        } else {
            None
        }
}

/// The groups of the standard dictionary, in its order.
pub open spec fn whole_standard() -> Seq<DescView> {
    choose|all: Seq<DescView>| is_standard_list(all)
}

proof fn lemma_whole_standard(all: Seq<DescView>)
    requires
        is_standard_list(all),
    ensures
        whole_standard() == all,
        is_standard_list(whole_standard()),
{
    let other = whole_standard();
    assert(is_standard_list(other));
    if other.len() < all.len() {
        assert(standard_at(other.len()) is None);
    } else if all.len() < other.len() {
        assert(standard_at(all.len()) is None);
    }
    assert forall|i: int| 0 <= i < all.len() implies other[i] == all[i] by {
        assert(standard_at(i as nat) == Some(all[i]));
    }
    assert(other =~= all);
}

/// What a bundled edition says of a heading.
#[derive(Clone, Debug, PartialEq, Eq)]
pub struct EditionEntry {
    pub status: String,
    pub ags_type: String,
    pub unit: String,
    pub desc: String,
}

/// The group codes of a bundled edition.
pub uninterp spec fn edition_codes(v: DictVersion) -> Set<Seq<char>>;

/// The parent that a bundled edition gives a group, as it is written there.
pub uninterp spec fn edition_parent(v: DictVersion, code: Seq<char>) -> Option<Seq<char>>;

/// The headings that a bundled edition lists for a group.
pub uninterp spec fn edition_headings(v: DictVersion, code: Seq<char>) -> Seq<Seq<char>>;

/// What a bundled edition says of a heading of a group: its status, type, unit and
/// description.
pub uninterp spec fn edition_heading(v: DictVersion, code: Seq<char>, heading: Seq<char>) -> Option<
    (Seq<char>, Seq<char>, Seq<char>, Seq<char>),
>;

/// `laterite_ags4_reference`'s `Dictionary::group_codes` lists the group codes of
/// a bundled edition, each once and in no order. Which they are is left to the
/// name.
#[verifier::external_body]
pub(crate) fn codes_of_edition(v: DictVersion) -> (r: Vec<String>)
    ensures
        texts(r@).no_duplicates(),
        forall|x: Seq<char>| #[trigger] texts(r@).contains(x) <==> edition_codes(v).contains(x),
{
    let version = match v {
        DictVersion::V4_0_3 => dict::DictVersion::V4_0_3,
        DictVersion::V4_0_4 => dict::DictVersion::V4_0_4,
        DictVersion::V4_1 => dict::DictVersion::V4_1,
        DictVersion::V4_1_1 => dict::DictVersion::V4_1_1,
        DictVersion::V4_2 => dict::DictVersion::V4_2,
    };
    dict::Dictionary::bundled(version).group_codes().map(|c| c.to_string()).collect()
}

/// `laterite_ags4_reference`'s `Dictionary::group` finds a group of a bundled
/// edition, here the parent that it gives. Which that is is left to the name.
#[verifier::external_body]
pub(crate) fn parent_in_edition(v: DictVersion, code: &str) -> (r: Option<String>)
    ensures
        opt_text(r) == edition_parent(v, code@),
{
    let version = match v {
        DictVersion::V4_0_3 => dict::DictVersion::V4_0_3,
        DictVersion::V4_0_4 => dict::DictVersion::V4_0_4,
        DictVersion::V4_1 => dict::DictVersion::V4_1,
        DictVersion::V4_1_1 => dict::DictVersion::V4_1_1,
        DictVersion::V4_2 => dict::DictVersion::V4_2,
    };
    dict::Dictionary::bundled(version).group(code).map(|g| g.parent.to_string())
}

/// `laterite_ags4_reference`'s `Dictionary::group_headings` lists the headings of
/// a group of a bundled edition, in dictionary order. Which they are is left to
/// the name.
#[verifier::external_body]
pub(crate) fn headings_in_edition(v: DictVersion, code: &str) -> (r: Vec<String>)
    ensures
        texts(r@) == edition_headings(v, code@),
{
    let version = match v {
        DictVersion::V4_0_3 => dict::DictVersion::V4_0_3,
        DictVersion::V4_0_4 => dict::DictVersion::V4_0_4,
        DictVersion::V4_1 => dict::DictVersion::V4_1,
        DictVersion::V4_1_1 => dict::DictVersion::V4_1_1,
        DictVersion::V4_2 => dict::DictVersion::V4_2,
    };
    dict::Dictionary::bundled(version).group_headings(code).iter().map(|h| h.to_string()).collect()
}

/// `laterite_ags4_reference`'s `Dictionary::heading` finds a heading of a group of
/// a bundled edition. What the edition says of it is left to the name.
#[verifier::external_body]
pub(crate) fn heading_in_edition(v: DictVersion, code: &str, heading: &str) -> (r: Option<EditionEntry>)
    ensures
        match r {
            Some(e) => edition_heading(v, code@, heading@) == Some(
                (e.status@, e.ags_type@, e.unit@, e.desc@),
            ),
            None => edition_heading(v, code@, heading@) is None,
        },
{
    let version = match v {
        DictVersion::V4_0_3 => dict::DictVersion::V4_0_3,
        DictVersion::V4_0_4 => dict::DictVersion::V4_0_4,
        DictVersion::V4_1 => dict::DictVersion::V4_1,
        DictVersion::V4_1_1 => dict::DictVersion::V4_1_1,
        DictVersion::V4_2 => dict::DictVersion::V4_2,
    };
    dict::Dictionary::bundled(version).heading(code, heading).map(|h| EditionEntry {
        status: h.status.to_string(),
        ags_type: h.ags_type.to_string(),
        unit: h.unit.to_string(),
        desc: h.desc.to_string(),
    })
}

/// A heading of a group of a bundled edition, as an entry: all but its name is
/// empty where the edition says nothing of it.
pub open spec fn edition_entry(
    heading: Seq<char>,
    said: Option<(Seq<char>, Seq<char>, Seq<char>, Seq<char>)>,
) -> DictEntryView {
    match said {
        Some((status, ags_type, unit, desc)) => DictEntryView {
            heading,
            status,
            ags_type,
            unit,
            desc,
        },
        None => DictEntryView {
            heading,
            status: Seq::empty(),
            ags_type: Seq::empty(),
            unit: Seq::empty(),
            desc: Seq::empty(),
        },
    }
}

/// A heading of a group of a bundled edition, as an entry.
pub fn entry_of(heading: String, said: Option<EditionEntry>) -> (r: DictEntry)
    ensures
        r@ == edition_entry(
            heading@,
            match said {
                Some(e) => Some((e.status@, e.ags_type@, e.unit@, e.desc@)),
                None => None,
            },
        ),
        r.heading@ == heading@,
        match said {
            Some(e) => {
                &&& r.status@ == e.status@
                &&& r.ags_type@ == e.ags_type@
                &&& r.unit@ == e.unit@
                &&& r.desc@ == e.desc@
            },
            None => {
                &&& r.status@.len() == 0
                &&& r.ags_type@.len() == 0
                &&& r.unit@.len() == 0
                &&& r.desc@.len() == 0
            },
        },
{
    match said {
        Some(e) => DictEntry {
            heading,
            status: e.status,
            ags_type: e.ags_type,
            unit: e.unit,
            desc: e.desc,
        },
        None => DictEntry {
            heading,
            status: empty_text(),
            ags_type: empty_text(),
            unit: empty_text(),
            desc: empty_text(),
        },
    }
}

/// A text that is not given where it is empty.
pub open spec fn unless_empty(t: Option<Seq<char>>) -> Option<Seq<char>> {
    match t {
        Some(s) => if s.len() == 0 {
            None
        } else {
            Some(s)
        },
        None => None,
    }
}

/// A group of a bundled edition, as a group of entries.
pub open spec fn edition_group(v: DictVersion, code: Seq<char>) -> DictGroupView {
    DictGroupView {
        code,
        parent: unless_empty(edition_parent(v, code)),
        entries: Seq::new(
            edition_headings(v, code).len(),
            |i: int|
                edition_entry(
                    edition_headings(v, code)[i],
                    edition_heading(v, code, edition_headings(v, code)[i]),
                ),
        ),
    }
}

fn group_in_edition(v: DictVersion, code: &String) -> (r: DictGroup)
    ensures
        r@ == edition_group(v, code@),
{
    let parent = match parent_in_edition(v, code.as_str()) {
        Some(p) => if p.as_str().is_empty() {
            None
        } else {
            Some(p)
        },
        None => None,
    };
    let headings = headings_in_edition(v, code.as_str());
    let ghost names = edition_headings(v, code@);
    let mut entries: Vec<DictEntry> = Vec::new();
    let mut i: usize = 0;
    while i < headings.len()
        invariant
            i <= headings@.len(),
            names == texts(headings@),
            entries@.len() == i,
            forall|k: int|
                0 <= k < i ==> (#[trigger] entries@[k])@ == edition_entry(
                    names[k],
                    edition_heading(v, code@, names[k]),
                ),
        decreases headings@.len() - i,
    {
        let said = heading_in_edition(v, code.as_str(), headings[i].as_str());
        entries.push(entry_of(headings[i].clone(), said));
        i = i + 1;
    }
    let g = DictGroup { code: code.clone(), parent, entries };
    assert(g@.entries =~= edition_group(v, code@).entries);
    assert(g@ =~= edition_group(v, code@));
    g
}

/// Whether a list holds just the texts of a set, in order.
pub open spec fn lists_in_order(list: Seq<Seq<char>>, set: Set<Seq<char>>) -> bool {
    &&& increasing(list)
    &&& forall|x: Seq<char>| #[trigger] list.contains(x) <==> set.contains(x)
}

/// The texts of a set, in order.
pub open spec fn in_order(set: Set<Seq<char>>) -> Seq<Seq<char>> {
    choose|list: Seq<Seq<char>>| lists_in_order(list, set)
}

/// A bundled edition as a dictionary: its groups in the order of their codes.
pub open spec fn edition_dictionary(v: DictVersion) -> Seq<DictGroupView> {
    let list = in_order(edition_codes(v));
    Seq::new(list.len(), |i: int| edition_group(v, list[i]))
}

fn edition_groups(v: DictVersion) -> (r: Vec<DictGroup>)
    ensures
        lists_in_order(in_order(edition_codes(v)), edition_codes(v)),
        groups_view(r@) == edition_dictionary(v),
{
    let list = sorted(codes_of_edition(v));
    proof {
        assert(lists_in_order(texts(list@), edition_codes(v)));
        let other = in_order(edition_codes(v));
        assert(lists_in_order(other, edition_codes(v)));
        assert forall|x: Seq<char>| #[trigger] other.contains(x) <==> texts(list@).contains(x) by {
        }
        increasing_list_is_unique(other, texts(list@));
    }
    let mut out: Vec<DictGroup> = Vec::new();
    let mut i: usize = 0;
    while i < list.len()
        invariant
            i <= list@.len(),
            texts(list@) == in_order(edition_codes(v)),
            out@.len() == i,
            forall|k: int| 0 <= k < i ==> (#[trigger] out@[k])@ == edition_group(v, list@[k]@),
        decreases list@.len() - i,
    {
        out.push(group_in_edition(v, &list[i]));
        i = i + 1;
    }
    assert(groups_view(out@) =~= edition_dictionary(v));
    out
}

/// Whether `r` is the table of the given dictionary.
pub open spec fn is_dictionary(r: Result<Table, String>, groups: Seq<DictGroupView>) -> bool {
    &&& r is Ok
    &&& columns_view(r->Ok_0.columns@) == dictionary_columns()
    &&& rows_view(r->Ok_0.rows@) == dictionary_rows(groups, groups.len() as int)
}

/// `ags_dictionary([edition])`: the standard dictionary over all editions, or the
/// one of the given edition.
pub fn ags_dictionary(edition: Option<&str>) -> (r: Result<Table, String>)
    ensures
        match edition {
            None => is_standard_list(whole_standard()) && is_dictionary(
                r,
                standard_groups(whole_standard()),
            ),
            Some(e) => if exists|v: DictVersion| trimmed(e@) == #[trigger] edition_label(v) {
                exists|v: DictVersion|
                    {
                        &&& trimmed(e@) == #[trigger] edition_label(v)
                        &&& lists_in_order(in_order(edition_codes(v)), edition_codes(v))
                        &&& is_dictionary(r, edition_dictionary(v))
                    }
            } else {
                r is Err && r->Err_0@ == unknown_edition(trimmed(e@))
            },
        },
        edition is None ==> {
            let all = whole_standard();
            &&& r is Ok
            &&& forall|i: nat| #[trigger]
                standard_at(i) == if i < all.len() {
                    Some(all[i as int])
                } else {
                    None
                }
            &&& rows_view(r->Ok_0.rows@) == dictionary_rows(standard_groups(all), all.len() as int)
        },
        edition is Some && r is Ok ==> exists|v: DictVersion|
            {
                let codes = in_order(#[trigger] edition_codes(v));
                &&& trimmed(edition->Some_0@) == edition_label(v)
                &&& increasing(codes)
                &&& forall|x: Seq<char>| #[trigger]
                    codes.contains(x) <==> edition_codes(v).contains(x)
                &&& rows_view(r->Ok_0.rows@) == dictionary_rows(
                    edition_dictionary(v),
                    codes.len() as int,
                )
            },
{
    match edition {
        Some(e) => match parse_edition(e) {
            Ok(v) => {
                let groups = edition_groups(v);
                assert(groups_view(groups@).len() == groups@.len());
                Ok(dictionary_table(&groups))
            },
            Err(m) => Err(m),
        },
        None => {
            let all = registry_groups();
            proof {
                let list = descs_view(all@);
                assert forall|i: nat| #[trigger] standard_at(i) == if i < list.len() {
                    Some(list[i as int])
                } else {
                    None
                } by {
                }
                lemma_whole_standard(list);
            }
            let groups = as_dictionary(&all);
            assert(groups_view(groups@).len() == groups@.len());
            Ok(dictionary_table(&groups))
        },
    }
}

/// Every row of `ags_dictionary` has a cell for each column, and each cell fits
/// its column.
pub proof fn dictionary_is_well_typed(groups: Seq<DictGroupView>, n: int)
    ensures
        well_typed(dictionary_columns(), dictionary_rows(groups, n)),
    decreases n,
{
    if n > 0 {
        dictionary_is_well_typed(groups, n - 1);
        let before = dictionary_rows(groups, n - 1);
        let more = dictionary_group_rows(groups[n - 1]);
        let all = dictionary_rows(groups, n);
        let columns = dictionary_columns();
        assert forall|r: int| 0 <= r < all.len() implies {
            &&& (#[trigger] all[r]).len() == columns.len()
            &&& forall|c: int| 0 <= c < columns.len() ==> fits(#[trigger] all[r][c], columns[c].1)
        } by {
            if r < before.len() {
                assert(all[r] == before[r]);
            } else {
                assert(all[r] == more[r - before.len()]);
            }
        }
    }
}

/// The columns of `ags_relationships`.
pub open spec fn links_columns() -> Seq<(Seq<char>, ColType)> {
    seq![
        ("child"@, ColType::Varchar),
        ("parent"@, ColType::Varchar),
        ("shared_keys"@, ColType::Varchar),
    ]
}

/// The row of a link: a group, its parent, and the key headings that they share.
pub open spec fn link_row(code: Seq<char>, parent: Seq<char>, keys: Seq<Seq<char>>) -> Seq<CellView> {
    seq![CellView::Str(code), CellView::Str(parent), CellView::Str(joined(keys, ","@))]
}

/// The rows of the links of the first `n` groups, of which `keys` says what each
/// shares with its parent: one row for each that has a parent.
pub open spec fn links_rows(all: Seq<DescView>, keys: Seq<Seq<Seq<char>>>, n: int) -> Seq<
    Seq<CellView>,
>
    decreases n,
{
    if n <= 0 {
        Seq::empty()
    } else {
        let d = all[n - 1];
        match d.parent {
            Some(p) => links_rows(all, keys, n - 1).push(link_row(d.code, p, keys[n - 1])),
            None => links_rows(all, keys, n - 1),
        }
    }
}

/// The row of a link.
pub fn link(code: &str, parent: &str, keys: &Vec<String>) -> (r: Vec<Cell>)
    ensures
        row_view(r@) == link_row(code@, parent@, texts(keys@)),
{
    let mut row: Vec<Cell> = Vec::new();
    row.push(str_cell(code));
    row.push(str_cell(parent));
    row.push(Cell::Str(join(keys, ",")));
    assert(row_view(row@) =~= link_row(code@, parent@, texts(keys@)));
    row
}

/// What each list of names holds.
pub open spec fn name_lists(lists: Seq<Vec<String>>) -> Seq<Seq<Seq<char>>> {
    Seq::new(lists.len(), |i: int| texts(lists[i]@))
}

/// The table of the links of a list of groups, of which `keys` says what each shares
/// with its parent.
pub fn links_table(all: &Vec<GroupDesc>, keys: &Vec<Vec<String>>) -> (r: Table)
    requires
        keys@.len() == all@.len(),
    ensures
        columns_view(r.columns@) == links_columns(),
        rows_view(r.rows@) == links_rows(descs_view(all@), name_lists(keys@), all@.len() as int),
{
    let mut columns: Vec<Column> = Vec::new();
    columns.push(column("child", ColType::Varchar));
    columns.push(column("parent", ColType::Varchar));
    columns.push(column("shared_keys", ColType::Varchar));
    assert(columns_view(columns@) =~= links_columns());
    let ghost list = descs_view(all@);
    let ghost shared = name_lists(keys@);
    let mut rows: Vec<Vec<Cell>> = Vec::new();
    let mut n: usize = 0;
    assert(rows_view(rows@) =~= Seq::empty());
    while n < all.len()
        invariant
            n <= all@.len(),
            keys@.len() == all@.len(),
            list == descs_view(all@),
            shared == name_lists(keys@),
            rows_view(rows@) == links_rows(list, shared, n as int),
        decreases all@.len() - n,
    {
        let d = &all[n];
        assert(list[n as int] == d@);
        match &d.parent {
            Some(p) => {
                let ghost had = rows_view(rows@);
                let row = link(d.code.as_str(), p.as_str(), &keys[n]);
                let ghost made = row_view(row@);
                rows.push(row);
                assert(rows_view(rows@) =~= had.push(made));
            },
            None => {},
        }
        n = n + 1;
    }
    Table { columns, rows }
}

/// What each group of a list shares with its parent.
pub open spec fn all_shared(all: Seq<DescView>) -> Seq<Seq<Seq<char>>> {
    Seq::new(all.len(), |i: int| keys_shared(all[i]))
}

/// `ags_relationships()`: the links between the groups of the standard dictionary.
pub fn ags_relationships() -> (r: Table)
    ensures
        is_standard_list(whole_standard()),
        forall|i: nat| #[trigger]
            standard_at(i) == if i < whole_standard().len() {
                Some(whole_standard()[i as int])
            } else {
                None
            },
        columns_view(r.columns@) == links_columns(),
        rows_view(r.rows@) == links_rows(
            whole_standard(),
            all_shared(whole_standard()),
            whole_standard().len() as int,
        ),
{
    let all = registry_groups();
    let ghost list = descs_view(all@);
    proof {
        assert forall|i: nat| #[trigger] standard_at(i) == if i < list.len() {
            Some(list[i as int])
        } else {
            None
        } by {
        }
        lemma_whole_standard(list);
    }
    let mut keys: Vec<Vec<String>> = Vec::new();
    let mut n: usize = 0;
    while n < all.len()
        invariant
            n <= all@.len(),
            forall|i: int| 0 <= i < all@.len() ==> standard((#[trigger] all@[i])@.code) == Some(all@[i]@),
            keys@.len() == n,
            forall|k: int| 0 <= k < n ==> texts((#[trigger] keys@[k])@) == keys_shared(all@[k]@),
        decreases all@.len() - n,
    {
        keys.push(shared_keys(all[n].code.as_str()));
        n = n + 1;
    }
    assert(name_lists(keys@) =~= all_shared(list));
    links_table(&all, &keys)
}

/// Every row of `ags_relationships` has a cell for each column, and each cell fits
/// its column.
pub proof fn links_are_well_typed(all: Seq<DescView>, keys: Seq<Seq<Seq<char>>>, n: int)
    ensures
        well_typed(links_columns(), links_rows(all, keys, n)),
    decreases n,
{
    if n > 0 {
        links_are_well_typed(all, keys, n - 1);
        let before = links_rows(all, keys, n - 1);
        let rows = links_rows(all, keys, n);
        let columns = links_columns();
        assert forall|r: int| 0 <= r < rows.len() implies {
            &&& (#[trigger] rows[r]).len() == columns.len()
            &&& forall|c: int| 0 <= c < columns.len() ==> fits(#[trigger] rows[r][c], columns[c].1)
        } by {
            if r < before.len() {
                assert(rows[r] == before[r]);
            }
        }
    }
}

proof fn lemma_dictionary_row(groups: Seq<DictGroupView>, all: int, n: int, i: int)
    requires
        0 <= n < all <= groups.len(),
        0 <= i < groups[n].entries.len(),
    ensures
        dictionary_rows(groups, n + 1).len() == dictionary_rows(groups, n).len()
            + groups[n].entries.len(),
        dictionary_rows(groups, n).len() + i < dictionary_rows(groups, all).len(),
        dictionary_rows(groups, all)[dictionary_rows(groups, n).len() + i] == dictionary_row(
            groups[n],
            i,
        ),
    decreases all,
{
    if n < all - 1 {
        lemma_dictionary_row(groups, all - 1, n, i);
    }
}

/// The rows of `ags_dictionary` for a list of the standard dictionary's groups: group by
/// group and heading by heading, in dictionary order, each with the group's code and
/// parent and the heading's name, status, type, SQL type, unit, description and place.
/// The unit is null only where none is given or it is empty, and the description only
/// where it is empty.
pub proof fn a_standard_heading_is_shown_as_it_is(all: Seq<DescView>, n: int, i: int)
    requires
        0 <= n < all.len(),
        0 <= i < all[n].headings.len(),
    ensures
        ({
            let groups = standard_groups(all);
            let d = all[n];
            let h = d.headings[i];
            let at = dictionary_rows(groups, n).len() + i;
            let rows = dictionary_rows(groups, all.len() as int);
            let row = rows[at];
            &&& groups.len() == all.len()
            &&& dictionary_rows(groups, 0).len() == 0
            &&& dictionary_rows(groups, n + 1).len() == dictionary_rows(groups, n).len()
                + d.headings.len()
            &&& at < rows.len()
            &&& row.len() == 9
            &&& row[0] == CellView::Str(d.code)
            &&& row[1] == match d.parent {
                Some(p) => CellView::Str(p),
                None => CellView::Null,
            }
            &&& row[2] == CellView::Str(h.name)
            &&& row[3] == CellView::Str(h.status)
            &&& row[4] == CellView::Str(h.ags_type)
            &&& row[5] == CellView::Str(sql_name(category(h.ags_type)))
            &&& row[6] == if h.unit is Some && h.unit->Some_0.len() > 0 {
                CellView::Str(h.unit->Some_0)
            } else {
                CellView::Null
            }
            &&& row[7] == if h.description.len() > 0 {
                CellView::Str(h.description)
            } else {
                CellView::Null
            }
            &&& row[8] == CellView::Int(i as i64)
        }),
{
    lemma_dictionary_row(standard_groups(all), all.len() as int, n, i);
}

/// The rows of `ags_dictionary` for a bundled edition: the groups in the order of their
/// codes, and each heading that the edition lists, in its order, with what the edition
/// says of it; the rest of the row is empty or null where it says nothing.
pub proof fn an_edition_heading_is_shown_as_it_is(v: DictVersion, n: int, i: int)
    requires
        0 <= n < in_order(edition_codes(v)).len(),
        0 <= i < edition_headings(v, in_order(edition_codes(v))[n]).len(),
    ensures
        ({
            let groups = edition_dictionary(v);
            let code = in_order(edition_codes(v))[n];
            let name = edition_headings(v, code)[i];
            let at = dictionary_rows(groups, n).len() + i;
            let rows = dictionary_rows(groups, groups.len() as int);
            let row = rows[at];
            &&& groups.len() == in_order(edition_codes(v)).len()
            &&& dictionary_rows(groups, n + 1).len() == dictionary_rows(groups, n).len()
                + edition_headings(v, code).len()
            &&& at < rows.len()
            &&& row.len() == 9
            &&& row[0] == CellView::Str(code)
            &&& row[1] == if edition_parent(v, code) is Some && edition_parent(v, code)->Some_0.len()
                > 0 {
                CellView::Str(edition_parent(v, code)->Some_0)
            } else {
                CellView::Null
            }
            &&& row[2] == CellView::Str(name)
            &&& row[8] == CellView::Int(i as i64)
            &&& match edition_heading(v, code, name) {
                Some((status, ags_type, unit, desc)) => {
                    &&& row[3] == CellView::Str(status)
                    &&& row[4] == CellView::Str(ags_type)
                    &&& row[5] == CellView::Str(sql_name(category(ags_type)))
                    &&& unit.len() > 0 ==> row[6] == CellView::Str(unit)
                    &&& unit.len() == 0 ==> row[6] is Null
                    &&& desc.len() > 0 ==> row[7] == CellView::Str(desc)
                    &&& desc.len() == 0 ==> row[7] is Null
                },
                None => {
                    &&& row[3] == CellView::Str(Seq::<char>::empty())
                    &&& row[4] == CellView::Str(Seq::<char>::empty())
                    &&& row[6] is Null
                    &&& row[7] is Null
                },
            }
        }),
{
    lemma_dictionary_row(
        edition_dictionary(v),
        edition_dictionary(v).len() as int,
        n,
        i,
    );
}

proof fn lemma_link_row(all: Seq<DescView>, keys: Seq<Seq<Seq<char>>>, upto: int, n: int)
    requires
        0 <= n < upto <= all.len(),
        all[n].parent is Some,
    ensures
        links_rows(all, keys, n).len() < links_rows(all, keys, upto).len(),
        links_rows(all, keys, upto)[links_rows(all, keys, n).len() as int] == link_row(
            all[n].code,
            all[n].parent->Some_0,
            keys[n],
        ),
    decreases upto,
{
    if n < upto - 1 {
        lemma_link_row(all, keys, upto - 1, n);
    }
}

/// The rows of `ags_relationships`: one for each group that has a parent, in dictionary
/// order, with the group's code, its parent's and the key headings that the two share,
/// joined by commas; and none for a group that has no parent.
pub proof fn a_link_joins_a_group_to_its_parent(all: Seq<DescView>, n: int)
    requires
        0 <= n < all.len(),
    ensures
        ({
            let keys = all_shared(all);
            let rows = links_rows(all, keys, all.len() as int);
            let at = links_rows(all, keys, n).len() as int;
            match all[n].parent {
                Some(p) => {
                    &&& at < rows.len()
                    &&& rows[at].len() == 3
                    &&& rows[at][0] == CellView::Str(all[n].code)
                    &&& rows[at][1] == CellView::Str(p)
                    &&& rows[at][2] == CellView::Str(joined(keys_shared(all[n]), ","@))
                    &&& links_rows(all, keys, n + 1).len() == at + 1
                },
                None => links_rows(all, keys, n + 1).len() == at,
            }
        }),
        links_rows(all, all_shared(all), 0).len() == 0,
{
    if all[n].parent is Some {
        lemma_link_row(all, all_shared(all), all.len() as int, n);
    }
}

/// The columns of `ags_dictionary` and of `ags_relationships` by name, in their order.
pub proof fn dictionary_columns_by_name()
    ensures
        dictionary_columns().map_values(|c: (Seq<char>, ColType)| c.0) == seq![
            "group"@,
            "parent"@,
            "heading"@,
            "status"@,
            "ags_type"@,
            "sql_type"@,
            "unit"@,
            "description"@,
            "ordinal"@,
        ],
        links_columns().map_values(|c: (Seq<char>, ColType)| c.0) == seq![
            "child"@,
            "parent"@,
            "shared_keys"@,
        ],
{
}

} // verus!
