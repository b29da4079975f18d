//! The `.ags.idx` certificate: the file beside a source file that says where each
//! group's bytes are, and who found the file clean.

use laterite_ags4_core::index::TierCoverage;
use vstd::prelude::*;
use vstd::string::*;
use vstd::utf8::encode_utf8;

use crate::ags::{codec, group_of, group_wf, parse_group_slice, AgsGroup, GroupView};
use crate::file_dict::dict_names;
use crate::read_ags::Binding;
use crate::registry::{registry_get, standard};
use crate::text::{same, texts, trim, trimmed};

verus! {

/// The path of the certificate of a source file: its sibling.
pub fn idx_path_for(path: &str) -> (r: String)
    ensures
        r@ == path@ + ".idx"@,
{
    let mut s = path.to_owned();
    s.append(".idx");
    s
}

/// Two source files never share a certificate.
pub proof fn certificates_are_not_shared(a: Seq<char>, b: Seq<char>)
    ensures
        a + ".idx"@ == b + ".idx"@ <==> a == b,
{
    if a + ".idx"@ == b + ".idx"@ {
        assert((a + ".idx"@).len() == a.len() + ".idx"@.len());
        assert((b + ".idx"@).len() == b.len() + ".idx"@.len());
        assert((a + ".idx"@).take(a.len() as int) =~= a);
        assert((b + ".idx"@).take(b.len() as int) =~= b);
    }
}

/// A bundled edition of the standard dictionary.
#[derive(Clone, Copy, Debug, PartialEq, Eq, Structural)]
pub enum DictVersion {
    V4_0_3,
    V4_0_4,
    V4_1,
    V4_1_1,
    V4_2,
}

/// What an edition is called.
pub open spec fn edition_label(v: DictVersion) -> Seq<char> {
    match v {
        DictVersion::V4_0_3 => "4.0.3"@,
        DictVersion::V4_0_4 => "4.0.4"@,
        DictVersion::V4_1 => "4.1"@,
        DictVersion::V4_1_1 => "4.1.1"@,
        DictVersion::V4_2 => "4.2"@,
    }
}

impl DictVersion {
    /// What this edition is called.
    pub fn as_str(self) -> (r: &'static str)
        ensures
            r@ == edition_label(self),
            r@ == match self {
                DictVersion::V4_0_3 => "4.0.3"@,
                DictVersion::V4_0_4 => "4.0.4"@,
                DictVersion::V4_1 => "4.1"@,
                DictVersion::V4_1_1 => "4.1.1"@,
                DictVersion::V4_2 => "4.2"@,
            },
    {
        match self {
            DictVersion::V4_0_3 => "4.0.3",
            DictVersion::V4_0_4 => "4.0.4",
            DictVersion::V4_1 => "4.1",
            DictVersion::V4_1_1 => "4.1.1",
            DictVersion::V4_2 => "4.2",
        }
    }
}

/// What is said of a label that no bundled edition has.
pub open spec fn unknown_edition(label: Seq<char>) -> Seq<char> {
    "unknown edition '"@ + label + "'; expected one of 4.0.3, 4.0.4, 4.1, 4.1.1, 4.2"@
}

/// The bundled edition that a label names, whatever whitespace is around it.
pub fn parse_edition(s: &str) -> (r: Result<DictVersion, String>)
    ensures
        match r {
            Ok(v) => trimmed(s@) == edition_label(v),
            Err(e) => (forall|v: DictVersion| trimmed(s@) != #[trigger] edition_label(v)) && e@
                == unknown_edition(trimmed(s@)),
        },
        r is Err ==> r->Err_0@ == "unknown edition '"@ + trimmed(s@)
            + "'; expected one of 4.0.3, 4.0.4, 4.1, 4.1.1, 4.2"@,
        trimmed(s@) == "4.0.3"@ ==> r == Ok::<DictVersion, String>(DictVersion::V4_0_3),
        trimmed(s@) == "4.0.4"@ ==> r == Ok::<DictVersion, String>(DictVersion::V4_0_4),
        trimmed(s@) == "4.1"@ ==> r == Ok::<DictVersion, String>(DictVersion::V4_1),
        trimmed(s@) == "4.1.1"@ ==> r == Ok::<DictVersion, String>(DictVersion::V4_1_1),
        trimmed(s@) == "4.2"@ ==> r == Ok::<DictVersion, String>(DictVersion::V4_2),
{
    proof {
        a_label_names_one_edition(DictVersion::V4_0_3, DictVersion::V4_0_4);
        a_label_names_one_edition(DictVersion::V4_0_3, DictVersion::V4_1);
        a_label_names_one_edition(DictVersion::V4_0_3, DictVersion::V4_1_1);
        a_label_names_one_edition(DictVersion::V4_0_3, DictVersion::V4_2);
        a_label_names_one_edition(DictVersion::V4_0_4, DictVersion::V4_1);
        a_label_names_one_edition(DictVersion::V4_0_4, DictVersion::V4_1_1);
        a_label_names_one_edition(DictVersion::V4_0_4, DictVersion::V4_2);
        a_label_names_one_edition(DictVersion::V4_1, DictVersion::V4_1_1);
        a_label_names_one_edition(DictVersion::V4_1, DictVersion::V4_2);
        a_label_names_one_edition(DictVersion::V4_1_1, DictVersion::V4_2);
    }
    let label = trim(s);
    if same(label, "4.0.3") {
        return Ok(DictVersion::V4_0_3);
    }
    if same(label, "4.0.4") {
        return Ok(DictVersion::V4_0_4);
    }
    if same(label, "4.1") {
        return Ok(DictVersion::V4_1);
    }
    if same(label, "4.1.1") {
        return Ok(DictVersion::V4_1_1);
    }
    if same(label, "4.2") {
        return Ok(DictVersion::V4_2);
    }
    let mut m = "unknown edition '".to_owned();
    m.append(label);
    m.append("'; expected one of 4.0.3, 4.0.4, 4.1, 4.1.1, 4.2");
    Err(m)
}

/// No two editions are called the same, so a label names one edition at most.
pub proof fn a_label_names_one_edition(a: DictVersion, b: DictVersion)
    ensures
        edition_label(a) == edition_label(b) <==> a == b,
{
    reveal_strlit("4.0.3");
    reveal_strlit("4.0.4");
    reveal_strlit("4.1");
    reveal_strlit("4.1.1");
    reveal_strlit("4.2");
    assert("4.0.3"@ != "4.0.4"@) by {
        assert("4.0.3"@[4] != "4.0.4"@[4]);
    }
    assert("4.0.3"@ != "4.1.1"@) by {
        assert("4.0.3"@[2] != "4.1.1"@[2]);
    }
    assert("4.0.4"@ != "4.1.1"@) by {
        assert("4.0.4"@[2] != "4.1.1"@[2]);
    }
    assert("4.1"@ != "4.2"@) by {
        assert("4.1"@[2] != "4.2"@[2]);
    }
    assert("4.1"@.len() == "4.2"@.len() == 3);
    assert("4.0.3"@.len() == "4.0.4"@.len() == 5);
    assert("4.1.1"@.len() == 5);
}

/// What a certificate records of the check behind it: when it was, the edition, how
/// that was chosen, the encoding, and what was counted of each tier, where it was
/// looked for.
#[derive(Clone, Debug, PartialEq, Eq)]
pub struct Verdict {
    pub checked_at: String,
    pub edition: String,
    pub how: String,
    pub encoding: String,
    pub errors: Option<u32>,
    pub warnings: Option<u32>,
    pub fyi: Option<u32>,
}

/// What a record of a check says.
#[verifier::ext_equal]
pub struct VerdictView {
    pub checked_at: Seq<char>,
    pub edition: Seq<char>,
    pub how: Seq<char>,
    pub encoding: Seq<char>,
    pub errors: Option<u32>,
    pub warnings: Option<u32>,
    pub fyi: Option<u32>,
}

impl View for Verdict {
    type V = VerdictView;

    open spec fn view(&self) -> VerdictView {
        VerdictView {
            checked_at: self.checked_at@,
            edition: self.edition@,
            how: self.how@,
            encoding: self.encoding@,
            errors: self.errors,
            warnings: self.warnings,
            fyi: self.fyi,
        }
    }
}

/// A certificate: the size of its source file, the byte spans of each group, the
/// groups in file order, the groups that the file declares for itself, where that
/// was looked at, and the record of the check.
#[derive(Clone, Debug, PartialEq, Eq)]
pub struct Sidecar {
    pub size: u64,
    pub groups: Vec<(String, Vec<(u64, u64)>)>,
    pub order: Vec<String>,
    pub defines: Option<Vec<String>>,
    pub verdict: Verdict,
}

/// What an index says of its file.
#[verifier::ext_equal]
pub struct IndexView {
    pub size: u64,
    pub groups: Map<Seq<char>, Seq<(u64, u64)>>,
    pub order: Seq<Seq<char>>,
    pub defines: Option<Seq<Seq<char>>>,
}

/// What a certificate says.
#[verifier::ext_equal]
pub struct SidecarView {
    pub index: IndexView,
    pub verdict: VerdictView,
}

/// The spans that a list gives each code.
pub open spec fn span_map(list: Seq<(String, Vec<(u64, u64)>)>) -> Map<Seq<char>, Seq<(u64, u64)>>
    decreases list.len(),
{
    if list.len() == 0 {
        Map::empty()
    } else {
        span_map(list.drop_last()).insert(list.last().0@, list.last().1@)
    }
}

impl View for Sidecar {
    type V = SidecarView;

    open spec fn view(&self) -> SidecarView {
        SidecarView {
            index: IndexView {
                size: self.size,
                groups: span_map(self.groups@),
                order: texts(self.order@),
                defines: match self.defines {
                    Some(d) => Some(texts(d@)),
                    None => None,
                },
            },
            verdict: self.verdict@,
        }
    }
}

impl Sidecar {
    /// No code is listed twice.
    pub open spec fn wf(&self) -> bool {
        forall|i: int, j: int|
            0 <= i < j < self.groups@.len() ==> (#[trigger] self.groups@[i]).0@ != (
            #[trigger] self.groups@[j]).0@
    }
}

/// The certificate that bytes hold.
pub uninterp spec fn certificate(json: Seq<u8>) -> Option<SidecarView>;

/// What is known of an optional certificate.
pub open spec fn opt_sidecar(s: Option<Sidecar>) -> Option<SidecarView> {
    match s {
        Some(s) => Some(s@),
        None => None,
    }
}

/// `laterite_ags4_core::index::Sidecar::from_json` reads a certificate, and
/// refuses one that does not parse or is of an unknown version. Which bytes hold
/// which certificate is left to the name. A code has its spans in one place.
#[verifier::external_body]
pub(crate) fn sidecar_from_json(json: &[u8]) -> (r: Option<Sidecar>)
    ensures
        opt_sidecar(r) == certificate(json@),
        r is Some ==> r->Some_0.wf(),
{
    let s = laterite_ags4_core::index::Sidecar::from_json(json).ok()?;
    let tier = |t| match t {
        TierCoverage::Measured { count } => Some(count),
        TierCoverage::NotMeasured => None,
    };
    let (groups, v) = (s.groups.into_iter().collect(), s.validation);
    let (edition, how) = (v.edition.edition().into(), v.edition.resolution().as_str().into());
    let (errors, warnings, fyi) = (tier(v.errors), tier(v.warnings), tier(v.fyi));
    let verdict = Verdict { checked_at: v.checked_at, edition, how, encoding: v.encoding, errors, warnings, fyi };
    Some(Sidecar { size: s.file.size, groups, order: s.order, defines: s.defines, verdict })
}

/// The certificate beside a source file, from its bytes where it was there and
/// could be read. A broken certificate is no certificate, never an error.
pub fn load_sidecar(json: Option<&[u8]>) -> (r: Option<Sidecar>)
    ensures
        opt_sidecar(r) == match json {
            Some(bytes) => certificate(bytes@),
            None => None,
        },
        r is Some ==> r->Some_0.wf(),
{
    match json {
        Some(bytes) => sidecar_from_json(bytes),
        None => None,
    }
}

proof fn lemma_span_listed(list: Seq<(String, Vec<(u64, u64)>)>, code: Seq<char>, i: int)
    requires
        0 <= i < list.len(),
        list[i].0@ == code,
        forall|a: int, b: int|
            0 <= a < b < list.len() ==> (#[trigger] list[a]).0@ != (#[trigger] list[b]).0@,
    ensures
        span_map(list).contains_key(code),
        span_map(list)[code] == list[i].1@,
    decreases list.len(),
{
    let rest = list.drop_last();
    if i < list.len() - 1 {
        assert(list[i].0@ != list[list.len() - 1].0@);
        assert forall|a: int, b: int| 0 <= a < b < rest.len() implies (#[trigger] rest[a]).0@ != (
        #[trigger] rest[b]).0@ by {
            assert(list[a].0@ != list[b].0@);
        }
        lemma_span_listed(rest, code, i);
    }
}

proof fn lemma_span_unlisted(list: Seq<(String, Vec<(u64, u64)>)>, code: Seq<char>)
    requires
        forall|i: int| 0 <= i < list.len() ==> (#[trigger] list[i]).0@ != code,
    ensures
        !span_map(list).contains_key(code),
    decreases list.len(),
{
    if list.len() > 0 {
        let rest = list.drop_last();
        assert(list[list.len() - 1].0@ != code);
        assert forall|i: int| 0 <= i < rest.len() implies (#[trigger] rest[i]).0@ != code by {
            assert(list[i].0@ != code);
        }
        lemma_span_unlisted(rest, code);
    }
}

/// The one span that may be read for a group: none where the certificate has no
/// span of it, or more than one.
pub open spec fn only_span(s: IndexView, group: Seq<char>) -> Option<(u64, u64)> {
    if s.groups.contains_key(group) && s.groups[group].len() == 1 {
        Some(s.groups[group][0])
    } else {
        None
    }
}

/// The one span that may be read for a group. A group that the file declares more
/// than once is not in one place, and reading one of its spans would pass for the
/// whole of it.
pub fn sliceable_span(sidecar: &Sidecar, group: &str) -> (r: Option<(u64, u64)>)
    requires
        sidecar.wf(),
    ensures
        r == only_span(sidecar@.index, group@),
{
    let mut i: usize = 0;
    while i < sidecar.groups.len()
        invariant
            i <= sidecar.groups@.len(),
            sidecar.wf(),
            forall|j: int| 0 <= j < i ==> (#[trigger] sidecar.groups@[j]).0@ != group@,
        decreases sidecar.groups@.len() - i,
    {
        if same(sidecar.groups[i].0.as_str(), group) {
            proof {
                lemma_span_listed(sidecar.groups@, group@, i as int);
            }
            let spans = &sidecar.groups[i].1;
            if spans.len() == 1 {
                return Some(spans[0]);
            }
            return None;
        }
        i = i + 1;
    }
    proof {
        lemma_span_unlisted(sidecar.groups@, group@);
    }
    None
}

/// The bytes to read for a group of a file of the given size: none where the size
/// is not the certificate's, where no one span may be read, or where the span is
/// not within the file.
pub open spec fn slice_of(s: IndexView, size: u64, group: Seq<char>) -> Option<(u64, u64)> {
    match only_span(s, group) {
        Some((start, end)) => if s.size == size && start <= end <= size {
            Some((start, end))
        } else {
            None
        },
        None => None,
    }
}

/// The bytes to read for a group of a file of the given size.
pub fn slice_plan(sidecar: &Sidecar, size: u64, group: &str) -> (r: Option<(u64, u64)>)
    requires
        sidecar.wf(),
    ensures
        r == slice_of(sidecar@.index, size, group@),
{
    if sidecar.size != size {
        return None;
    }
    match sliceable_span(sidecar, group) {
        Some((start, end)) => {
            if end < start || end > size {
                return None;
            }
            Some((start, end))
        },
        None => None,
    }
}

/// A range of bytes on its way in: what has come, and how much is wanted.
pub struct SliceRead {
    pub buf: Vec<u8>,
    pub want: u64,
}

impl SliceRead {
    /// No more has come than is wanted.
    pub open spec fn wf(&self) -> bool {
        self.buf@.len() <= self.want
    }

    /// Nothing has come yet of the range `start..end`.
    pub fn new(start: u64, end: u64) -> (r: SliceRead)
        requires
            start <= end,
        ensures
            r.wf(),
            r.buf@ == Seq::<u8>::empty(),
            r.want == end - start,
    {
        SliceRead { buf: Vec::new(), want: end - start }
    }

    /// How much is still to come.
    pub fn missing(&self) -> (r: u64)
        requires
            self.wf(),
        ensures
            r == self.want - self.buf@.len(),
    {
        self.want - self.buf.len() as u64
    }

    /// Takes in what one read gave, no more than was missing. A read that gives
    /// nothing ends a range that is not complete: `false`, the range is short.
    pub fn feed(&mut self, chunk: &[u8]) -> (r: bool)
        requires
            old(self).wf(),
            old(self).buf@.len() + chunk@.len() <= old(self).want,
        ensures
            final(self).wf(),
            final(self).want == old(self).want,
            final(self).buf@ == old(self).buf@ + chunk@,
            r == (chunk@.len() > 0 || old(self).buf@.len() == old(self).want),
    {
        let complete = self.buf.len() as u64 == self.want;
        self.buf.extend_from_slice(chunk);
        assert(self.buf@ =~= old(self).buf@ + chunk@);
        chunk.len() > 0 || complete
    }
}

/// Whether a certificate says that its file declares a group for itself.
pub open spec fn says_declared(s: IndexView, group: Seq<char>) -> bool {
    s.defines is Some && s.defines->Some_0.contains(group)
}

/// How the group of a slice is bound: by the standard dictionary where that has
/// it, else by the file's own where the certificate says that it declares it.
pub open spec fn slice_binding(s: IndexView, group: Seq<char>) -> Option<Binding> {
    if standard(group) is Some {
        Some(Binding::Keyed)
    } else if says_declared(s, group) {
        Some(Binding::Unkeyed)
    } else {
        None
    }
}

fn lists(names: &Vec<String>, name: &str) -> (r: bool)
    ensures
        r == texts(names@).contains(name@),
{
    let mut i: usize = 0;
    while i < names.len()
        invariant
            i <= names@.len(),
            forall|j: int| 0 <= j < i ==> (#[trigger] names@[j])@ != name@,
        decreases names@.len() - i,
    {
        if same(names[i].as_str(), name) {
            assert(texts(names@)[i as int] == name@);
            return true;
        }
        i = i + 1;
    }
    assert forall|j: int| 0 <= j < texts(names@).len() implies texts(names@)[j] != name@ by {
        assert(names@[j]@ != name@);
    }
    false
}

/// How the group of a slice is bound, from what the standard dictionary and the
/// certificate say of it. `None` sends the reader to the whole file.
pub fn bind_slice(in_standard: bool, defines: &Option<Vec<String>>, group: &str) -> (r: Option<Binding>)
    ensures
        r == if in_standard {
            Some(Binding::Keyed)
        } else if defines is Some && texts(defines->Some_0@).contains(group@) {
            Some(Binding::Unkeyed)
        } else {
            None
        },
{
    if in_standard {
        return Some(Binding::Keyed);
    }
    match defines {
        Some(d) => {
            if lists(d, group) {
                Some(Binding::Unkeyed)
            } else {
                None
            }
        },
        None => None,
    }
}

/// What a read by certificate answers, from the bytes that were read: the group
/// that the codec finds in them, where they are the bytes to read, and how it is
/// bound. `None` sends the reader to the whole file.
pub open spec fn sliced(s: IndexView, size: u64, bytes: Seq<u8>, group: Seq<char>) -> Option<
    (GroupView, Binding),
> {
    match slice_of(s, size, group) {
        Some((start, end)) => if bytes.len() == end - start && codec(bytes) is Ok {
            match (group_of(codec(bytes)->Ok_0, group), slice_binding(s, group)) {
                (Some(g), Some(binding)) => Some((g, binding)),
                _ => None,
            }
        } else {
            None
        },
        None => None,
    }
}

/// The group that the certificate leads to, and how it is bound, from the bytes
/// that were read for it. `None` sends the reader to the whole file.
pub fn sliced_group(sidecar: &Sidecar, size: u64, bytes: &[u8], group: &str) -> (r: Option<
    (AgsGroup, Binding),
>)
    requires
        sidecar.wf(),
    ensures
        match r {
            Some((g, binding)) => sliced(sidecar@.index, size, bytes@, group@) == Some((g@, binding))
                && group_wf(g@) && (binding == Binding::Keyed ==> standard(group@) is Some),
            None => sliced(sidecar@.index, size, bytes@, group@) is None,
        },
{
    let (start, end) = match slice_plan(sidecar, size, group) {
        Some(span) => span,
        None => {
            return None;
        },
    };
    if bytes.len() as u64 != end - start {
        return None;
    }
    match parse_group_slice(bytes, group) {
        Some(g) => {
            let in_standard = registry_get(group).is_some();
            match bind_slice(in_standard, &sidecar.defines, group) {
                Some(binding) => Some((g, binding)),
                None => None,
            }
        },
        None => None,
    }
}

/// A section's bytes without the end of their last line.
pub open spec fn unended(section: Seq<u8>) -> Seq<u8> {
    let line = if section.len() > 0 && section.last() == 0x0A {
        section.drop_last()
    } else {
        section
    };
    if line.len() > 0 && line.last() == 0x0D {
        line.drop_last()
    } else {
        line
    }
}

/// Whether a section's bytes end in a row tag whose quote is left open. The codec
/// closes it where the next section begins, and so reads the tag in the file that it
/// does not read in the section alone.
pub open spec fn ends_in_open_tag(section: Seq<u8>) -> bool {
    ||| encode_utf8("\"GROUP"@).is_suffix_of(unended(section))
    ||| encode_utf8("\"HEADING"@).is_suffix_of(unended(section))
    ||| encode_utf8("\"UNIT"@).is_suffix_of(unended(section))
    ||| encode_utf8("\"TYPE"@).is_suffix_of(unended(section))
    ||| encode_utf8("\"DATA"@).is_suffix_of(unended(section))
}

/// Whether the section of a code stands alone in its file: it is the only one of the
/// code, no other code is the same but for whitespace around it, and it is the last
/// section of the file or does not end in an open tag.
pub open spec fn stands_alone(s: IndexView, bytes: Seq<u8>, code: Seq<char>) -> bool {
    &&& only_span(s, code) is Some
    &&& forall|other: Seq<char>| #[trigger]
        s.groups.contains_key(other) && trimmed(other) == code ==> other == code
    &&& {
        let (start, end) = only_span(s, code)->Some_0;
        end == bytes.len() || !ends_in_open_tag(bytes.subrange(start as int, end as int))
    }
}

/// Whether an index says of a file that the codec reads what is there: a group that
/// the codec finds in its section, where that stands alone, is the group that it finds
/// in the file; and a group that the file is said to declare is named by the file's
/// own dictionary, where the section of that stands alone.
pub open spec fn faithful(s: IndexView, bytes: Seq<u8>) -> bool {
    codec(bytes) is Ok ==> {
        &&& forall|code: Seq<char>| #[trigger]
            stands_alone(s, bytes, code) ==> {
                let (start, end) = only_span(s, code)->Some_0;
                let part = codec(bytes.subrange(start as int, end as int));
                part is Ok && group_of(part->Ok_0, code) is Some ==> group_of(
                    codec(bytes)->Ok_0,
                    code,
                ) == group_of(part->Ok_0, code)
            }
        &&& stands_alone(s, bytes, "DICT"@) ==> forall|code: Seq<char>| #[trigger]
            says_declared(s, code) && trimmed(code) == code ==> dict_names(
                codec(bytes)->Ok_0,
                code,
            )
    }
}

/// Whether a certificate answers, for its file's bytes, a request for the findings
/// of some tiers, under a forced edition or none, in an encoding.
pub uninterp spec fn vouched(
    json: Seq<u8>,
    bytes: Seq<u8>,
    warnings: bool,
    fyi: bool,
    forced: Option<Seq<char>>,
    encoding: Seq<char>,
) -> bool;

/// `laterite_ags4_core::index::Sidecar::decide` says whether a certificate stands
/// in for a run of this engine: whether it was minted by the same engine for just
/// these bytes, under the same edition and encoding, and found the tiers that are
/// asked for clean. One that does not parse, or is for a file of another size,
/// never does. How bytes are told apart is left to the name.
#[verifier::external_body]
pub(crate) fn vouches(
    json: &[u8],
    bytes: &[u8],
    warnings: bool,
    fyi: bool,
    forced: Option<&str>,
    encoding: &str,
) -> (r: bool)
    ensures
        r == vouched(
            json@,
            bytes@,
            warnings,
            fyi,
            match forced {
                Some(e) => Some(e@),
                None => None,
            },
            encoding@,
        ),
        r ==> certificate(json@) is Some && certificate(json@)->Some_0.index.size == bytes@.len(),
{
    let question = laterite_ags4_core::index::Question {
        want_warnings: warnings,
        want_fyi: fyi,
        forced_edition: forced.map(|e| e.to_string()),
        encoding: encoding.to_string(),
        custom_dict: None,
    };
    let engine = laterite_ags4_core::index::EngineId {
        validator: laterite_ags4_core::index::ENGINE_IDENTITY.to_string(),
        fingerprint: laterite_ags4_validator::ENGINE_FINGERPRINT.to_string(),
        compat: None,
    };
    laterite_ags4_core::index::Sidecar::from_json(json).is_ok_and(|s| {
        matches!(s.decide(bytes, &question, &engine), laterite_ags4_core::index::Decision::Vouched)
    })
}

/// Whether a certificate, where there is one, says that a file has no errors: for
/// just these bytes, read as UTF-8, under the forced edition or none.
pub fn clean_verdict_certified(json: Option<&[u8]>, bytes: &[u8], forced: Option<&str>) -> (r: bool)
    ensures
        r == match json {
            Some(j) => vouched(
                j@,
                bytes@,
                false,
                false,
                match forced {
                    Some(e) => Some(e@),
                    None => None,
                },
                "UTF-8"@,
            ),
            None => false,
        },
{
    match json {
        Some(j) => vouches(j, bytes, false, false, forced, "UTF-8"),
        None => false,
    }
}

/// A certificate whose size is not the file's leads nowhere: whatever it says of
/// its groups, the whole file is read.
pub proof fn a_stale_certificate_serves_nothing(
    s: IndexView,
    size: u64,
    bytes: Seq<u8>,
    group: Seq<char>,
)
    requires
        s.size != size,
    ensures
        sliced(s, size, bytes, group) is None,
{
}

/// A group that the file declares more than once, or not at all, is read from the
/// whole file.
pub proof fn a_redeclared_group_is_not_sliced(
    s: IndexView,
    size: u64,
    bytes: Seq<u8>,
    group: Seq<char>,
)
    requires
        s.groups.contains_key(group) ==> s.groups[group].len() != 1,
    ensures
        only_span(s, group) is None,
        sliced(s, size, bytes, group) is None,
{
}

/// What is read by certificate lies within the file.
pub proof fn a_slice_is_within_its_file(s: IndexView, size: u64, group: Seq<char>)
    requires
        slice_of(s, size, group) is Some,
    ensures
        slice_of(s, size, group)->Some_0.0 <= slice_of(s, size, group)->Some_0.1 <= size,
        s.groups[group] == seq![slice_of(s, size, group)->Some_0],
{
    assert(s.groups[group] =~= seq![slice_of(s, size, group)->Some_0]);
}

/// A range is read for a group just where the certificate is for a file of this size and
/// has one span of the group, which lies within the file: then that span.
pub proof fn a_range_is_the_one_span_of_its_group(
    s: IndexView,
    size: u64,
    group: Seq<char>,
    start: u64,
    end: u64,
)
    ensures
        slice_of(s, size, group) == Some((start, end)) <==> {
            &&& s.size == size
            &&& s.groups.contains_key(group)
            &&& s.groups[group] == seq![(start, end)]
            &&& start <= end <= size
        },
{
    if s.groups.contains_key(group) && s.groups[group].len() == 1 {
        assert(s.groups[group] =~= seq![s.groups[group][0]]);
    }
    if s.groups[group] == seq![(start, end)] {
        assert(s.groups[group][0] == (start, end));
    }
}

/// A read by certificate answers with the group that the codec finds in the range: keyed
/// where the standard dictionary has the group, unkeyed where the certificate lists it
/// among the groups that the file declares, and not at all otherwise.
pub proof fn a_slice_is_answered_by_its_own_bytes(
    s: IndexView,
    size: u64,
    bytes: Seq<u8>,
    group: Seq<char>,
    g: GroupView,
    binding: Binding,
)
    ensures
        sliced(s, size, bytes, group) == Some((g, binding)) <==> {
            &&& s.size == size
            &&& s.groups.contains_key(group)
            &&& s.groups[group].len() == 1
            &&& s.groups[group][0].0 <= s.groups[group][0].1 <= size
            &&& bytes.len() == s.groups[group][0].1 - s.groups[group][0].0
            &&& codec(bytes) is Ok
            &&& group_of(codec(bytes)->Ok_0, group) == Some(g)
            &&& if standard(group) is Some {
                binding == Binding::Keyed
            } else {
                &&& binding == Binding::Unkeyed
                &&& s.defines is Some
                &&& s.defines->Some_0.contains(group)
            }
        },
{
}

} // verus!
