//! A parsed AGS4 file: its groups in file order, and the codec that reads them.

use vstd::prelude::*;

use crate::text::{same, texts};

verus! {

/// One group of a file: its headings, the units and types that the file gives
/// for them, and its data rows, each with one value for each heading.
#[derive(Clone, Debug, PartialEq, Eq)]
pub struct AgsGroup {
    pub code: String,
    pub headings: Vec<String>,
    pub units: Vec<String>,
    pub types: Vec<String>,
    pub rows: Vec<Vec<String>>,
}

/// What a group holds.
#[verifier::ext_equal]
pub struct GroupView {
    pub code: Seq<char>,
    pub headings: Seq<Seq<char>>,
    pub units: Seq<Seq<char>>,
    pub types: Seq<Seq<char>>,
    pub rows: Seq<Seq<Seq<char>>>,
}

/// The values of a list of data rows.
pub open spec fn grid(rows: Seq<Vec<String>>) -> Seq<Seq<Seq<char>>> {
    Seq::new(rows.len(), |i: int| texts(rows[i]@))
}

impl View for AgsGroup {
    type V = GroupView;

    open spec fn view(&self) -> GroupView {
        GroupView {
            code: self.code@,
            headings: texts(self.headings@),
            units: texts(self.units@),
            types: texts(self.types@),
            rows: grid(self.rows@),
        }
    }
}

/// Whether no heading occurs twice and each row has one value for each heading.
pub open spec fn group_wf(g: GroupView) -> bool {
    &&& g.headings.no_duplicates()
    &&& forall|r: int| 0 <= r < g.rows.len() ==> (#[trigger] g.rows[r]).len() == g.headings.len()
}

/// A parsed file: its groups in file order.
#[derive(Clone, Debug, PartialEq, Eq)]
pub struct ParsedAgs4 {
    pub groups: Vec<AgsGroup>,
}

impl View for ParsedAgs4 {
    type V = Seq<GroupView>;

    open spec fn view(&self) -> Seq<GroupView> {
        Seq::new(self.groups@.len(), |i: int| self.groups@[i]@)
    }
}

/// The codes of the groups of a file, in file order.
pub open spec fn codes(file: Seq<GroupView>) -> Seq<Seq<char>> {
    Seq::new(file.len(), |i: int| file[i].code)
}

/// Whether each group is well formed and no code occurs twice.
pub open spec fn file_wf(file: Seq<GroupView>) -> bool {
    &&& codes(file).no_duplicates()
    &&& forall|i: int| 0 <= i < file.len() ==> group_wf(#[trigger] file[i])
}

/// The group of the given code, where the file has one.
pub open spec fn group_of(file: Seq<GroupView>, code: Seq<char>) -> Option<GroupView>
    decreases file.len(),
{
    if file.len() == 0 {
        None
    } else if file[0].code == code {
        Some(file[0])
    } else {
        group_of(file.drop_first(), code)
    }
}

/// What is known of a parse: the file, or the text of the error.
pub open spec fn parse_view(r: Result<ParsedAgs4, String>) -> Result<Seq<GroupView>, Seq<char>> {
    match r {
        Ok(file) => Ok(file@),
        Err(e) => Err(e@),
    }
}

/// What the AGS4 codec makes of a file's bytes.
pub uninterp spec fn codec(bytes: Seq<u8>) -> Result<Seq<GroupView>, Seq<char>>;

/// `laterite_ags4_core::ags4_codec::read_ags4_bytes` reads a file from its bytes
/// alone. It keeps the first group of a code and refuses a repeated heading and
/// a row with more values than headings, and gives a shorter row empty values:
/// so what it returns is well formed. Which groups it finds in which bytes, and
/// what it says of bytes that it refuses, is left to its name.
#[verifier::external_body]
pub(crate) fn read_ags4_bytes(bytes: &[u8]) -> (r: Result<ParsedAgs4, String>)
    ensures
        parse_view(r) == codec(bytes@),
        r is Ok ==> file_wf(r->Ok_0@),
{
    let p = laterite_ags4_core::ags4_codec::read_ags4_bytes(bytes).map_err(|e| e.to_string())?;
    let groups = p.order.iter().map(|c| &p.groups[c]).map(|g| AgsGroup {
        code: g.code.clone(),
        headings: g.headings.clone(),
        units: g.units.clone(),
        types: g.types.clone(),
        rows: g.rows.iter()
            .map(|r| g.headings.iter().map(|h| r[h.as_str()].clone()).collect())
            .collect(),
    });
    Ok(ParsedAgs4 { groups: groups.collect() })
}

/// `laterite_ags4_core::index::parse_group_slice`, over the whole of `bytes`,
/// runs the codec on them and picks the group of the given code. It fails where
/// the codec does, and where the codec finds no such group.
#[verifier::external_body]
pub(crate) fn parse_group_slice(bytes: &[u8], code: &str) -> (r: Option<AgsGroup>)
    ensures
        match r {
            Some(g) => codec(bytes@) is Ok && group_of(codec(bytes@)->Ok_0, code@) == Some(g@)
                && group_wf(g@) && g@.code == code@,
            None => codec(bytes@) is Err || group_of(codec(bytes@)->Ok_0, code@) is None,
        },
{
    let span = (0, bytes.len() as u64);
    let g = laterite_ags4_core::index::parse_group_slice(bytes, span, code).ok()?;
    let rows = g.rows.iter()
        .map(|r| g.headings.iter().map(|h| r[h.as_str()].clone()).collect())
        .collect();
    Some(AgsGroup { code: g.code, headings: g.headings, units: g.units, types: g.types, rows })
}

/// The value under `heading` of the row `r` of a group: empty where the group
/// has no such heading.
pub open spec fn value_at(g: GroupView, r: int, heading: Seq<char>) -> Seq<char> {
    if g.headings.contains(heading) {
        g.rows[r][g.headings.index_of(heading)]
    } else {
        Seq::empty()
    }
}

impl ParsedAgs4 {
    /// The place of the group of the given code.
    pub fn position(&self, code: &str) -> (r: Option<usize>)
        ensures
            match r {
                Some(i) => i < self.groups@.len() && group_of(self@, code@) == Some(
                    self.groups@[i as int]@,
                ) && self.groups@[i as int]@.code == code@,
                None => group_of(self@, code@) is None,
            },
    {
        let mut i: usize = 0;
        assert(self@.skip(0) =~= self@);
        while i < self.groups.len()
            invariant
                i <= self.groups@.len(),
                group_of(self@, code@) == group_of(self@.skip(i as int), code@),
            decreases self.groups@.len() - i,
        {
            if same(self.groups[i].code.as_str(), code) {
                return Some(i);
            }
            assert(self@.skip(i as int).drop_first() =~= self@.skip(i + 1));
            i = i + 1;
        }
        None
    }

    /// The group of the given code, where the file has one.
    pub fn get(&self, code: &str) -> (r: Option<&AgsGroup>)
        ensures
            match r {
                Some(g) => group_of(self@, code@) == Some(g@),
                None => group_of(self@, code@) is None,
            },
    {
        match self.position(code) {
            Some(i) => Some(&self.groups[i]),
            None => None,
        }
    }

    /// The codes of the groups, in file order.
    pub fn order(&self) -> (r: Vec<String>)
        ensures
            texts(r@) == codes(self@),
    {
        let mut out: Vec<String> = Vec::new();
        let mut i: usize = 0;
        while i < self.groups.len()
            invariant
                i <= self.groups@.len(),
                out@.len() == i,
                forall|j: int| 0 <= j < i ==> (#[trigger] out@[j])@ == self.groups@[j].code@,
            decreases self.groups@.len() - i,
        {
            out.push(self.groups[i].code.clone());
            i = i + 1;
        }
        assert(texts(out@) =~= codes(self@));
        out
    }
}

/// The group of each code that the order of a well-formed file names is the one
/// at that place: nothing named is missing, and no group hides another.
pub proof fn every_code_names_its_group(file: Seq<GroupView>, i: int)
    requires
        file_wf(file),
        0 <= i < file.len(),
    ensures
        group_of(file, codes(file)[i]) == Some(file[i]),
    decreases file.len(),
{
    if i > 0 {
        let rest = file.drop_first();
        assert(codes(file)[0] != codes(file)[i]);
        assert forall|a: int, b: int| 0 <= a < rest.len() && 0 <= b < rest.len() && a != b implies
            codes(rest)[a] != codes(rest)[b] by {
            assert(codes(file)[a + 1] != codes(file)[b + 1]);
        }
        assert forall|k: int| 0 <= k < rest.len() implies group_wf(#[trigger] rest[k]) by {
            assert(group_wf(file[k + 1]));
        }
        every_code_names_its_group(rest, i - 1);
    }
}

/// The group of a code is one of the file's that has the code, the first of them, and
/// there is none just where no group of the file has it.
pub proof fn a_code_finds_its_first_group(file: Seq<GroupView>, code: Seq<char>)
    ensures
        match group_of(file, code) {
            Some(g) => exists|i: int|
                {
                    &&& 0 <= i < file.len()
                    &&& #[trigger] file[i] == g
                    &&& g.code == code
                    &&& forall|j: int| 0 <= j < i ==> (#[trigger] file[j]).code != code
                },
            None => forall|j: int| 0 <= j < file.len() ==> (#[trigger] file[j]).code != code,
        },
    decreases file.len(),
{
    if file.len() > 0 && file[0].code != code {
        let rest = file.drop_first();
        a_code_finds_its_first_group(rest, code);
        match group_of(rest, code) {
            Some(g) => {
                let i = choose|i: int|
                    {
                        &&& 0 <= i < rest.len()
                        &&& #[trigger] rest[i] == g
                        &&& g.code == code
                        &&& forall|j: int| 0 <= j < i ==> (#[trigger] rest[j]).code != code
                    };
                assert(file[i + 1] == g);
                assert forall|j: int| 0 <= j < i + 1 implies (#[trigger] file[j]).code != code by {
                    if j > 0 {
                        assert(rest[j - 1] == file[j]);
                    }
                }
            },
            None => {
                assert forall|j: int| 0 <= j < file.len() implies (#[trigger] file[j]).code
                    != code by {
                    if j > 0 {
                        assert(rest[j - 1] == file[j]);
                    }
                }
            },
        }
    } else if file.len() > 0 {
        assert(file[0] == group_of(file, code)->Some_0);
    }
}

/// The value under a heading is the one at the heading's place in the row, and empty
/// where the group has no such heading. The codes of a file are those of its groups, one
/// by one.
pub proof fn a_value_stands_under_its_heading(
    file: Seq<GroupView>,
    n: int,
    r: int,
    i: int,
    heading: Seq<char>,
)
    requires
        file_wf(file),
        0 <= n < file.len(),
        0 <= i < file[n].headings.len(),
    ensures
        value_at(file[n], r, file[n].headings[i]) == file[n].rows[r][i],
        (forall|j: int| 0 <= j < file[n].headings.len() ==> file[n].headings[j] != heading)
            ==> value_at(file[n], r, heading).len() == 0,
        codes(file).len() == file.len(),
        codes(file)[n] == file[n].code,
{
    let g = file[n];
    assert(group_wf(g));
    assert(g.headings.contains(g.headings[i]));
    let k = g.headings.index_of(g.headings[i]);
    assert(g.headings[k] == g.headings[i]);
    assert(k == i);
    if forall|j: int| 0 <= j < g.headings.len() ==> g.headings[j] != heading {
        assert(!g.headings.contains(heading));
    }
}

} // verus!
