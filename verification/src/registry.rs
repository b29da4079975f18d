//! The standard dictionary of groups, and the content-addressed keys that it gives
//! rows.

use vstd::prelude::*;

use crate::text::{opt_text, texts, trimmed};

verus! {

/// A heading of the standard dictionary.
#[derive(Clone, Debug, PartialEq, Eq)]
pub struct HeadingDesc {
    pub name: String,
    pub status: String,
    pub is_key: bool,
    pub ags_type: String,
    pub unit: Option<String>,
    pub description: String,
}

/// What is said of a heading.
#[verifier::ext_equal]
pub struct HeadingView {
    pub name: Seq<char>,
    pub status: Seq<char>,
    pub is_key: bool,
    pub ags_type: Seq<char>,
    pub unit: Option<Seq<char>>,
    pub description: Seq<char>,
}

impl View for HeadingDesc {
    type V = HeadingView;

    open spec fn view(&self) -> HeadingView {
        HeadingView {
            name: self.name@,
            status: self.status@,
            is_key: self.is_key,
            ags_type: self.ags_type@,
            unit: opt_text(self.unit),
            description: self.description@,
        }
    }
}

/// A group of the standard dictionary: its parent, where it has one, and its
/// headings in dictionary order.
#[derive(Clone, Debug, PartialEq, Eq)]
pub struct GroupDesc {
    pub code: String,
    pub parent: Option<String>,
    pub headings: Vec<HeadingDesc>,
}

/// What is said of a group.
#[verifier::ext_equal]
pub struct DescView {
    pub code: Seq<char>,
    pub parent: Option<Seq<char>>,
    pub headings: Seq<HeadingView>,
}

/// What is said of a list of headings.
pub open spec fn headings_view(headings: Seq<HeadingDesc>) -> Seq<HeadingView> {
    Seq::new(headings.len(), |i: int| headings[i]@)
}

impl View for GroupDesc {
    type V = DescView;

    open spec fn view(&self) -> DescView {
        DescView {
            code: self.code@,
            parent: opt_text(self.parent),
            headings: headings_view(self.headings@),
        }
    }
}

/// What is said of a list of groups.
pub open spec fn descs_view(groups: Seq<GroupDesc>) -> Seq<DescView> {
    Seq::new(groups.len(), |i: int| groups[i]@)
}

/// What is said of an optional group.
pub open spec fn opt_desc(desc: Option<GroupDesc>) -> Option<DescView> {
    match desc {
        Some(d) => Some(d@),
        None => None,
    }
}

/// The group that the standard dictionary has under a code.
pub uninterp spec fn standard(code: Seq<char>) -> Option<DescView>;

/// The group at a place of the standard dictionary.
pub uninterp spec fn standard_at(place: nat) -> Option<DescView>;

/// `laterite_ags4_reference`'s `Registry::get` finds a group of the standard
/// dictionary by its code. The dictionary is fixed; what it says of which group is
/// left to the name. Whether a heading is a key comes from `Heading::is_key`.
#[verifier::external_body]
pub(crate) fn registry_get(code: &str) -> (r: Option<GroupDesc>)
    ensures
        opt_desc(r) == standard(code@),
        r is Some ==> r->Some_0@.code == code@,
{
    laterite_ags4_core::registry::registry().get(code).map(|g| GroupDesc {
        code: g.code.clone(),
        parent: g.parent.clone(),
        headings: g.headings.iter().map(|h| HeadingDesc {
            name: h.name.clone(),
            status: h.status.clone(),
            is_key: h.is_key(),
            ags_type: h.ags_type.clone(),
            unit: h.unit.clone(),
            description: h.description.clone(),
        }).collect(),
    })
}

/// `laterite_ags4_reference`'s `Registry::iter` goes through the groups of the
/// standard dictionary, in a fixed order and each under its own code. Which they
/// are is left to the name.
#[verifier::external_body]
pub(crate) fn registry_groups() -> (r: Vec<GroupDesc>)
    ensures
        forall|i: nat| #[trigger]
            standard_at(i) == if i < r@.len() {
                Some(r@[i as int]@)
            } else {
                None
            },
        forall|i: int|
            0 <= i < r@.len() ==> standard((#[trigger] r@[i])@.code) == Some(r@[i]@),
{
    laterite_ags4_core::registry::registry().iter().map(|g| GroupDesc {
        code: g.code.clone(),
        parent: g.parent.clone(),
        headings: g.headings.iter().map(|h| HeadingDesc {
            name: h.name.clone(),
            status: h.status.clone(),
            is_key: h.is_key(),
            ags_type: h.ags_type.clone(),
            unit: h.unit.clone(),
            description: h.description.clone(),
        }).collect(),
    }).collect()
}

/// The value that a row gives for a heading, without the whitespace around it:
/// empty where the row has no such heading.
pub open spec fn key_value(headings: Seq<Seq<char>>, row: Seq<Seq<char>>, name: Seq<char>) -> Seq<
    char,
> {
    if headings.contains(name) {
        trimmed(row[headings.index_of(name)])
    } else {
        Seq::empty()
    }
}

/// The keys of a row: the name of each key heading of a dictionary group, in
/// dictionary order, with the row's value for it.
pub open spec fn key_chain(
    dict: Seq<HeadingView>,
    headings: Seq<Seq<char>>,
    row: Seq<Seq<char>>,
) -> Seq<(Seq<char>, Seq<char>)>
    decreases dict.len(),
{
    if dict.len() == 0 {
        Seq::empty()
    } else {
        let rest = key_chain(dict.drop_last(), headings, row);
        if dict.last().is_key {
            rest.push((dict.last().name, key_value(headings, row, dict.last().name)))
        } else {
            rest
        }
    }
}

/// Whether a character is a digit of a number in base 16, in small letters.
pub open spec fn is_hex(c: char) -> bool {
    '0' <= c <= '9' || 'a' <= c <= 'f'
}

/// Whether a text is a UUID of version 8: 36 characters, hyphens between the five
/// groups of digits, and the version and the variant at their places.
pub open spec fn is_uuid8(s: Seq<char>) -> bool {
    &&& s.len() == 36
    &&& forall|i: int|
        0 <= i < 36 ==> if i == 8 || i == 13 || i == 18 || i == 23 {
            #[trigger] s[i] == '-'
        } else {
            is_hex(s[i])
        }
    &&& s[14] == '8'
    &&& s[19] == '8' || s[19] == '9' || s[19] == 'a' || s[19] == 'b'
}

/// The identifier of the row of a group that has the given keys.
pub uninterp spec fn content_id(code: Seq<char>, chain: Seq<(Seq<char>, Seq<char>)>) -> Seq<char>;

/// The identifier of a row of a standard group.
pub open spec fn own_id(desc: DescView, headings: Seq<Seq<char>>, row: Seq<Seq<char>>) -> Seq<char> {
    content_id(desc.code, key_chain(desc.headings, headings, row))
}

/// The identifier of the row that a row of a standard group belongs to: none
/// where the group has no parent in the dictionary.
pub open spec fn parent_id(
    desc: DescView,
    headings: Seq<Seq<char>>,
    row: Seq<Seq<char>>,
) -> Option<Seq<char>> {
    match desc.parent {
        Some(p) => match standard(p) {
            Some(parent) => Some(content_id(p, key_chain(parent.headings, headings, row))),
            None => None,
        },
        None => None,
    }
}

/// `laterite_ags4_reference::keychain::group_row_ids` makes the identifiers of the
/// rows of a group: of each row's keys, and of its parent's keys as the row
/// repeats them, each the `content_id` of the group and the keys. There are none
/// for a group that the standard dictionary lacks. Each is a UUID of version 8. How a
/// group and its keys are hashed is left to the name `content_id`.
#[verifier::external_body]
pub(crate) fn group_row_ids(code: &str, headings: &Vec<String>, rows: &Vec<Vec<String>>) -> (r: Vec<
    (String, Option<String>),
>)
    requires
        texts(headings@).no_duplicates(),
        forall|i: int| 0 <= i < rows@.len() ==> (#[trigger] rows@[i])@.len() == headings@.len(),
    ensures
        match standard(code@) {
            Some(desc) => {
                &&& r@.len() == rows@.len()
                &&& forall|i: int|
                    0 <= i < r@.len() ==> {
                        &&& (#[trigger] r@[i]).0@ == content_id(
                            desc.code,
                            key_chain(desc.headings, texts(headings@), texts(rows@[i]@)),
                        )
                        &&& opt_text(r@[i].1) == parent_id(
                            desc,
                            texts(headings@),
                            texts(rows@[i]@),
                        )
                        &&& is_uuid8(r@[i].0@)
                        &&& r@[i].1 is Some ==> is_uuid8(r@[i].1->Some_0@)
                    }
            },
            None => r@.len() == 0,
        },
{
    let reg = laterite_ags4_core::registry::registry();
    laterite_ags4_core::keychain::group_row_ids(reg, code, headings, rows.len(), |c, r| {
        Some(rows[r][c].as_str())
    })
}

/// The values of a list of cells, each a heading, its unit, its type and a value.
pub open spec fn cells_view(cells: Seq<(&str, &str, &str, &str)>) -> Seq<
    (Seq<char>, Seq<char>, Seq<char>, Seq<char>),
> {
    Seq::new(cells.len(), |i: int| (cells[i].0@, cells[i].1@, cells[i].2@, cells[i].3@))
}

/// The fingerprint of a row of a group, from its headings, units, types and
/// values.
pub uninterp spec fn value_hash(
    code: Seq<char>,
    cells: Seq<(Seq<char>, Seq<char>, Seq<char>, Seq<char>)>,
) -> Seq<char>;

/// `laterite_ags4_reference::keychain::content_hash` fingerprints a row's values,
/// from the group and the cells alone. It is a UUID of version 8. How the values are
/// hashed is left to the name.
#[verifier::external_body]
pub(crate) fn content_hash(code: &str, cells: &Vec<(&str, &str, &str, &str)>) -> (r: String)
    ensures
        r@ == value_hash(code@, cells_view(cells@)),
        is_uuid8(r@),
{
    laterite_ags4_core::keychain::content_hash(code, cells).to_string()
}

/// The names of the key headings of a dictionary group, in dictionary order.
pub open spec fn key_names(headings: Seq<HeadingView>) -> Seq<Seq<char>>
    decreases headings.len(),
{
    if headings.len() == 0 {
        Seq::empty()
    } else if headings.last().is_key {
        key_names(headings.drop_last()).push(headings.last().name)
    } else {
        key_names(headings.drop_last())
    }
}

/// Those of the names that stand in the list.
pub open spec fn only_in(names: Seq<Seq<char>>, list: Seq<Seq<char>>) -> Seq<Seq<char>>
    decreases names.len(),
{
    if names.len() == 0 {
        Seq::empty()
    } else if list.contains(names.last()) {
        only_in(names.drop_last(), list).push(names.last())
    } else {
        only_in(names.drop_last(), list)
    }
}

/// The key headings that a standard group shares with its parent, in the parent's
/// order: none where it has no parent in the dictionary.
pub open spec fn keys_shared(desc: DescView) -> Seq<Seq<char>> {
    match desc.parent {
        Some(p) => match standard(p) {
            Some(parent) => only_in(key_names(parent.headings), key_names(desc.headings)),
            None => Seq::empty(),
        },
        None => Seq::empty(),
    }
}

proof fn lemma_only_in(names: Seq<Seq<char>>, list: Seq<Seq<char>>, x: Seq<char>)
    ensures
        only_in(names, list).contains(x) <==> names.contains(x) && list.contains(x),
    decreases names.len(),
{
    if names.len() == 0 {
        assert(!only_in(names, list).contains(x));
        assert(!names.contains(x));
    } else {
        let rest = names.drop_last();
        let kept = only_in(rest, list);
        lemma_only_in(rest, list, x);
        assert(names =~= rest.push(names.last()));
        assert(names.contains(x) <==> rest.contains(x) || x == names.last()) by {
            if rest.contains(x) {
                let i = choose|i: int| 0 <= i < rest.len() && rest[i] == x;
                assert(names[i] == x);
            }
            if names.contains(x) {
                let i = choose|i: int| 0 <= i < names.len() && names[i] == x;
                if i < rest.len() {
                    assert(rest[i] == x);
                }
            }
        }
        if list.contains(names.last()) {
            let more = kept.push(names.last());
            if kept.contains(x) {
                let i = choose|i: int| 0 <= i < kept.len() && kept[i] == x;
                assert(more[i] == x);
            }
            if x == names.last() {
                assert(more[kept.len() as int] == x);
            }
            if more.contains(x) {
                let i = choose|i: int| 0 <= i < more.len() && more[i] == x;
                if i < kept.len() {
                    assert(kept[i] == x);
                }
            }
        }
    }
}

/// The keys that a group shares with its parent are just the key headings of both.
pub proof fn shared_keys_are_keys_of_both(desc: DescView, parent: DescView, name: Seq<char>)
    requires
        desc.parent is Some,
        standard(desc.parent->Some_0) == Some(parent),
    ensures
        keys_shared(desc).contains(name) <==> key_names(parent.headings).contains(name)
            && key_names(desc.headings).contains(name),
{
    lemma_only_in(key_names(parent.headings), key_names(desc.headings), name);
}

/// `laterite_ags4_reference::keychain::shared_keys` lists the key headings that a
/// group shares with its parent.
#[verifier::external_body]
pub(crate) fn shared_keys(code: &str) -> (r: Vec<String>)
    requires
        standard(code@) is Some,
    ensures
        texts(r@) == keys_shared(standard(code@)->Some_0),
{
    let reg = laterite_ags4_core::registry::registry();
    reg.get(code).map(|g| laterite_ags4_core::keychain::shared_keys(reg, g)).unwrap_or_default()
}

/// The keys of a row are taken from the key headings of its dictionary group and no
/// others, each once and in dictionary order; and the key headings are those that the
/// dictionary says are keys.
pub proof fn a_chain_takes_the_key_headings(
    dict: Seq<HeadingView>,
    headings: Seq<Seq<char>>,
    row: Seq<Seq<char>>,
    name: Seq<char>,
)
    ensures
        key_chain(dict, headings, row).len() == key_names(dict).len(),
        forall|k: int|
            0 <= k < key_names(dict).len() ==> (#[trigger] key_chain(dict, headings, row)[k])
                == (key_names(dict)[k], key_value(headings, row, key_names(dict)[k])),
        key_names(dict).contains(name) <==> exists|k: int|
            0 <= k < dict.len() && (#[trigger] dict[k]).is_key && dict[k].name == name,
    decreases dict.len(),
{
    if dict.len() > 0 {
        let rest = dict.drop_last();
        let names = key_names(rest);
        a_chain_takes_the_key_headings(rest, headings, row, name);
        if dict.last().is_key {
            let all = key_names(dict);
            assert(all == names.push(dict.last().name));
            if all.contains(name) && !names.contains(name) {
                let j = choose|j: int| 0 <= j < all.len() && all[j] == name;
                if j < names.len() {
                    assert(names[j] == name);
                }
                assert(dict[dict.len() - 1].name == name);
            }
            if names.contains(name) {
                let j = choose|j: int| 0 <= j < names.len() && names[j] == name;
                assert(all[j] == name);
            }
            assert(all[names.len() as int] == dict.last().name);
        }
        if exists|k: int| 0 <= k < rest.len() && (#[trigger] rest[k]).is_key && rest[k].name
            == name {
            let k = choose|k: int|
                0 <= k < rest.len() && (#[trigger] rest[k]).is_key && rest[k].name == name;
            assert(dict[k].is_key && dict[k].name == name);
        }
        if exists|k: int| 0 <= k < dict.len() && (#[trigger] dict[k]).is_key && dict[k].name
            == name {
            let k = choose|k: int|
                0 <= k < dict.len() && (#[trigger] dict[k]).is_key && dict[k].name == name;
            if k < rest.len() {
                assert(rest[k].is_key && rest[k].name == name);
            }
        }
    }
}

/// Those of the names that stand in a list keep their order, and the others go.
pub proof fn only_the_listed_names_stay(
    names: Seq<Seq<char>>,
    list: Seq<Seq<char>>,
    next: Seq<char>,
)
    ensures
        only_in(Seq::empty(), list).len() == 0,
        list.contains(next) ==> only_in(names.push(next), list) == only_in(names, list).push(next),
        !list.contains(next) ==> only_in(names.push(next), list) == only_in(names, list),
{
    assert(names.push(next).drop_last() =~= names);
}

} // verus!
