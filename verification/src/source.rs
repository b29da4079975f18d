//! From a path to a parsed file: the limits on what is read, the encoding that it
//! is read in, and the parse kept in the cache.

use std::sync::Arc;

use vstd::prelude::*;
use vstd::string::*;

use crate::ags::{codec, file_wf, parse_view, read_ags4_bytes, GroupView, ParsedAgs4};
use crate::cache::{get_or_try_insert, kept_under, taken_in, used, Cache, KeyView};
use crate::table::storable;
use crate::text::{
    a_number_reads_back, decimal, decimal_text, parse_unsigned, same, signed_decimal, signed_text,
    trim, trimmed, unsigned_value,
};

verus! {

/// The limit on a file's size where none is set: 4 GiB.
pub const DEFAULT_MAX_FILE_BYTES: u64 = 4_294_967_296;

/// The most that is reserved for a file before any of it has arrived: 16 MiB.
pub const INITIAL_RESERVE_BYTES: u64 = 16_777_216;

/// How much of a file is read at a time: 1 MiB.
pub const READ_CHUNK_BYTES: usize = 1_048_576;

/// The limit that a setting asks for: the number of bytes that it writes, or the
/// default where there is no setting or it writes no number that fits.
pub open spec fn limit_of(setting: Option<Seq<char>>) -> int {
    match setting {
        Some(s) => match unsigned_value(trimmed(s)) {
            Some(n) => if n <= u64::MAX {
                n as int
            } else {
                DEFAULT_MAX_FILE_BYTES as int
            },
            None => DEFAULT_MAX_FILE_BYTES as int,
        },
        None => DEFAULT_MAX_FILE_BYTES as int,
    }
}

/// The limit that the setting in the environment asks for.
pub fn max_file_bytes(setting: Option<&str>) -> (r: u64)
    ensures
        r == limit_of(
            match setting {
                Some(s) => Some(s@),
                None => None,
            },
        ),
{
    match setting {
        Some(s) => match parse_unsigned(trim(s)) {
            Some(n) => n,
            None => DEFAULT_MAX_FILE_BYTES,
        },
        None => DEFAULT_MAX_FILE_BYTES,
    }
}

/// Refuses a path that holds a NUL, which no filesystem can be asked for.
pub fn check_path(path: &str) -> (r: Result<(), String>)
    ensures
        match r {
            Ok(()) => !path@.contains('\0'),
            Err(e) => path@.contains('\0') && e@ == "read_ags: path '"@ + path@
                + "' contains an interior NUL byte"@,
        },
{
    if storable(path) {
        return Ok(());
    }
    let mut m = "read_ags: path '".to_owned();
    m.append(path);
    m.append("' contains an interior NUL byte");
    Err(m)
}

/// The message for a path that does not open.
pub fn cannot_open(path: &str) -> (r: String)
    ensures
        r@ == "read_ags: cannot open '"@ + path@ + "'"@,
{
    let mut m = "read_ags: cannot open '".to_owned();
    m.append(path);
    m.append("'");
    m
}

/// The size of an opened file, from what the filesystem reports: a negative
/// report is an error, and so is a size over the limit.
pub fn check_size(path: &str, reported: i64, max: u64) -> (r: Result<u64, String>)
    ensures
        match r {
            Ok(size) => 0 <= reported <= max && size == reported,
            Err(e) => if reported < 0 {
                e@ == "read_ags: cannot determine the size of '"@ + path@
                    + "' (filesystem returned "@ + signed_decimal(reported as int) + ")"@
            } else {
                reported > max && e@ == "read_ags: '"@ + path@ + "' reports "@ + decimal(
                    reported as nat,
                ) + " bytes, over the "@ + decimal(max as nat)
                    + "-byte limit (raise LATERITE_AGS_MAX_FILE_BYTES if this is a genuine file)"@
            },
        },
{
    if reported < 0 {
        let mut m = "read_ags: cannot determine the size of '".to_owned();
        m.append(path);
        m.append("' (filesystem returned ");
        m.append(signed_text(reported).as_str());
        m.append(")");
        return Err(m);
    }
    let size: u64 = reported as u64;
    if size > max {
        let mut m = "read_ags: '".to_owned();
        m.append(path);
        m.append("' reports ");
        m.append(decimal_text(size).as_str());
        m.append(" bytes, over the ");
        m.append(decimal_text(max).as_str());
        m.append("-byte limit (raise LATERITE_AGS_MAX_FILE_BYTES if this is a genuine file)");
        return Err(m);
    }
    Ok(size)
}

/// How much of a buffer one read has filled, from the count that the filesystem
/// gives: a negative count is an error.
pub fn read_count(count: i64) -> (r: Result<usize, String>)
    ensures
        match r {
            Ok(n) => count >= 0 && n == count as usize,
            Err(e) => count < 0 && e@ == "read_ags: read error"@,
        },
{
    if count < 0 {
        Err("read_ags: read error".to_owned())
    } else {
        Ok(
            #[verifier::truncate]
            (count as usize),
        )
    }
}

/// What has been read of a file so far, and the limit on it.
pub struct Slurp {
    pub buf: Vec<u8>,
    pub max: u64,
}

impl Slurp {
    /// What has been read is within the limit.
    pub open spec fn wf(&self) -> bool {
        self.buf@.len() <= self.max
    }

    /// Nothing read yet. Room is reserved for a file of the reported size, up to
    /// a bound: the report is not trusted for more.
    pub fn new(size: u64, max: u64) -> (r: Slurp)
        ensures
            r.wf(),
            r.buf@ == Seq::<u8>::empty(),
            r.max == max,
    {
        let reserve: u64 = if size < INITIAL_RESERVE_BYTES {
            size
        } else {
            INITIAL_RESERVE_BYTES
        };
        Slurp { buf: Vec::with_capacity(reserve as usize), max }
    }

    /// Takes in what one read gave: `Ok(false)` where that is nothing, the end of
    /// the file, and an error where it would go over the limit.
    pub fn feed(&mut self, path: &str, chunk: &[u8]) -> (r: Result<bool, String>)
        requires
            old(self).wf(),
        ensures
            final(self).wf(),
            final(self).max == old(self).max,
            match r {
                Ok(more) => {
                    &&& more == (chunk@.len() > 0)
                    &&& old(self).buf@.len() + chunk@.len() <= old(self).max
                    &&& final(self).buf@ == old(self).buf@ + chunk@
                },
                Err(e) => {
                    &&& old(self).buf@.len() + chunk@.len() > old(self).max
                    &&& final(self).buf@ == old(self).buf@
                    &&& e@ == "read_ags: '"@ + path@ + "' exceeds the "@ + decimal(
                        old(self).max as nat,
                    )
                        + "-byte limit while reading (raise LATERITE_AGS_MAX_FILE_BYTES if this is a genuine file)"@
                },
            },
    {
        if chunk.len() == 0 {
            assert(self.buf@ + chunk@ =~= self.buf@);
            return Ok(false);
        }
        if self.buf.len() as u128 + chunk.len() as u128 > self.max as u128 {
            let mut m = "read_ags: '".to_owned();
            m.append(path);
            m.append("' exceeds the ");
            m.append(decimal_text(self.max).as_str());
            m.append(
                "-byte limit while reading (raise LATERITE_AGS_MAX_FILE_BYTES if this is a genuine file)",
            );
            return Err(m);
        }
        self.buf.extend_from_slice(chunk);
        assert(self.buf@ =~= old(self).buf@ + chunk@);
        Ok(true)
    }

    /// The whole file, once its end has been reached: an error where less came
    /// than was reported.
    pub fn finish(self, path: &str, size: u64) -> (r: Result<Vec<u8>, String>)
        ensures
            match r {
                Ok(buf) => self.buf@.len() >= size && buf == self.buf,
                Err(e) => self.buf@.len() < size && e@ == "read_ags: short read on '"@ + path@
                    + "' (got "@ + decimal(self.buf@.len()) + " of "@ + decimal(size as nat)
                    + " bytes); the file may have changed underfoot — retry"@,
            },
    {
        if (self.buf.len() as u64) < size {
            let mut m = "read_ags: short read on '".to_owned();
            m.append(path);
            m.append("' (got ");
            m.append(decimal_text(self.buf.len() as u64).as_str());
            m.append(" of ");
            m.append(decimal_text(size).as_str());
            m.append(" bytes); the file may have changed underfoot — retry");
            return Err(m);
        }
        Ok(self.buf)
    }
}

/// What feeding the chunks one after the other leaves read: `None` where one of
/// them would go over the limit.
pub open spec fn fed(chunks: Seq<Seq<u8>>, max: nat) -> Option<Seq<u8>>
    decreases chunks.len(),
{
    if chunks.len() == 0 {
        Some(Seq::empty())
    } else {
        match fed(chunks.drop_last(), max) {
            Some(b) => if b.len() + chunks.last().len() <= max {
                Some(b + chunks.last())
            } else {
                None
            },
            None => None,
        }
    }
}

/// All chunks, one after the other.
pub open spec fn in_one(chunks: Seq<Seq<u8>>) -> Seq<u8>
    decreases chunks.len(),
{
    if chunks.len() == 0 {
        Seq::empty()
    } else {
        in_one(chunks.drop_last()) + chunks.last()
    }
}

/// How a file is cut into reads does not matter: what is read is the whole of it
/// where that is within the limit, and nothing where it is not.
pub proof fn chunking_does_not_matter(chunks: Seq<Seq<u8>>, max: nat)
    ensures
        fed(chunks, max) == if in_one(chunks).len() <= max {
            Some(in_one(chunks))
        } else {
            None
        },
    decreases chunks.len(),
{
    if chunks.len() > 0 {
        chunking_does_not_matter(chunks.drop_last(), max);
    }
}

/// The encoding that a label names.
pub uninterp spec fn label_encoding(label: Seq<char>) -> Option<Seq<char>>;

/// `encoding_rs::Encoding::for_label` finds the encoding that a WHATWG label
/// names, here by its name. The labels are left to the name of this function.
#[verifier::external_body]
pub(crate) fn encoding_for_label(label: &str) -> (r: Option<String>)
    ensures
        crate::text::opt_text(r) == label_encoding(label@),
{
    encoding_rs::Encoding::for_label(label.as_bytes()).map(|e| e.name().to_string())
}

/// What decoding makes of bytes, in the encoding that a label names.
pub uninterp spec fn decoding(bytes: Seq<u8>, label: Seq<char>) -> Option<Seq<char>>;

/// Whether there is room to decode so many bytes, whatever the encoding makes of them.
pub open spec fn decodable(len: nat) -> bool {
    6 * len + 128 <= isize::MAX
}

/// Whether there is room to decode so many bytes.
pub fn can_decode(len: usize) -> (r: bool)
    ensures
        r == decodable(len as nat),
{
    len <= (isize::MAX as usize - 128) / 6
}

/// `encoding_rs::Encoding::decode` makes text of bytes: a byte order mark is
/// taken off, and what is no text becomes the replacement character, so it never
/// fails where the label names an encoding. It panics where its buffer cannot be had:
/// three bytes for each byte and some few more, twice that where the buffer has to
/// grow, which `decodable` makes room for. What the text is, is left to the name.
#[verifier::external_body]
pub(crate) fn decode(bytes: &[u8], label: &str) -> (r: Option<String>)
    requires
        decodable(bytes@.len()),
    ensures
        crate::text::opt_text(r) == decoding(bytes@, label@),
        r is Some <==> label_encoding(label@) is Some,
{
    let encoding = encoding_rs::Encoding::for_label(label.as_bytes())?;
    Some(encoding.decode(bytes).0.into_owned())
}

/// The encoding to read in: the one that the label names, UTF-8 where there is
/// no label.
pub fn resolve_encoding(label: Option<&str>) -> (r: Result<String, String>)
    ensures
        match label {
            None => r is Ok && r->Ok_0@ == "UTF-8"@,
            Some(l) => resolved_label(l@, label_encoding(l@), r),
        },
        label is Some && label_encoding(label->Some_0@) is Some ==> r is Ok && r->Ok_0@
            == label_encoding(label->Some_0@)->Some_0,
        label is Some && label_encoding(label->Some_0@) is None ==> r is Err,
{
    match label {
        None => Ok("UTF-8".to_owned()),
        Some(l) => named_encoding(l, encoding_for_label(l)),
    }
}

/// Whether `r` is the answer for a label that names the given encoding.
pub open spec fn resolved_label(
    label: Seq<char>,
    named: Option<Seq<char>>,
    r: Result<String, String>,
) -> bool {
    match named {
        Some(name) => r is Ok && r->Ok_0@ == name,
        None => r is Err && r->Err_0@ == "unknown encoding '"@ + label
            + "'; expected a WHATWG label such as 'utf-8' or 'windows-1252'"@,
    }
}

/// The encoding that a label names, or an error for a label that names none.
pub fn named_encoding(label: &str, named: Option<String>) -> (r: Result<String, String>)
    ensures
        resolved_label(label@, crate::text::opt_text(named), r),
        match named {
            Some(name) => r is Ok && r->Ok_0@ == name@,
            None => r is Err && r->Err_0@ == "unknown encoding '"@ + label@
                + "'; expected a WHATWG label such as 'utf-8' or 'windows-1252'"@,
        },
{
    match named {
        Some(name) => Ok(name),
        None => {
            let mut m = "unknown encoding '".to_owned();
            m.append(label);
            m.append("'; expected a WHATWG label such as 'utf-8' or 'windows-1252'");
            Err(m)
        },
    }
}

/// What a read of a file answers, from what the codec made of its bytes.
pub open spec fn answered(path: Seq<char>, read: Result<Seq<GroupView>, Seq<char>>) -> Result<
    Seq<GroupView>,
    Seq<char>,
> {
    match read {
        Ok(file) => Ok(file),
        Err(e) => Err(
            "read_ags: '"@ + path + "' did not parse as AGS4 ("@ + e
                + "); the file may be invalid — validate/repair it first"@,
        ),
    }
}

/// The parsed file, or an error that points to validation and repair.
pub fn answer(path: &str, read: Result<ParsedAgs4, String>) -> (r: Result<ParsedAgs4, String>)
    ensures
        parse_view(r) == answered(path@, parse_view(read)),
        r is Ok ==> r == read,
        match read {
            Ok(file) => r == read,
            Err(e) => r is Err && r->Err_0@ == "read_ags: '"@ + path@ + "' did not parse as AGS4 ("@
                + e@ + "); the file may be invalid — validate/repair it first"@,
        },
{
    match read {
        Ok(file) => Ok(file),
        Err(e) => {
            let mut m = "read_ags: '".to_owned();
            m.append(path);
            m.append("' did not parse as AGS4 (");
            m.append(e.as_str());
            m.append("); the file may be invalid — validate/repair it first");
            Err(m)
        },
    }
}

/// What the codec makes of a file's bytes in an encoding: of the bytes as they
/// are where that is UTF-8, and of the decoded text otherwise.
pub open spec fn codec_in(bytes: Seq<u8>, encoding: Seq<char>) -> Result<
    Seq<GroupView>,
    Seq<char>,
> {
    if encoding == "UTF-8"@ {
        codec(bytes)
    } else {
        match decoding(bytes, encoding) {
            Some(text) => codec(vstd::utf8::encode_utf8(text)),
            None => Err("the encoding '"@ + encoding + "' is not known"@),
        }
    }
}

/// Parses a file's bytes in the given encoding.
pub fn parse_source(path: &str, bytes: &[u8], encoding: &str) -> (r: Result<ParsedAgs4, String>)
    requires
        encoding@ != "UTF-8"@ ==> decodable(bytes@.len()),
    ensures
        parse_view(r) == answered(path@, codec_in(bytes@, encoding@)),
        encoding@ == "UTF-8"@ ==> parse_view(r) == answered(path@, codec(bytes@)),
        encoding@ != "UTF-8"@ && decoding(bytes@, encoding@) is Some ==> parse_view(r) == answered(
            path@,
            codec(vstd::utf8::encode_utf8(decoding(bytes@, encoding@)->Some_0)),
        ),
        encoding@ != "UTF-8"@ && decoding(bytes@, encoding@) is None ==> r is Err,
        r is Ok ==> file_wf(r->Ok_0@),
{
    if same(encoding, "UTF-8") {
        return answer(path, read_ags4_bytes(bytes));
    }
    match decode(bytes, encoding) {
        Some(text) => answer(path, read_ags4_bytes(text.as_str().as_bytes())),
        None => {
            let mut m = "the encoding '".to_owned();
            m.append(encoding);
            m.append("' is not known");
            answer(path, Err(m))
        },
    }
}

/// Whether `r` is what comes of reading a file with `read` and parsing it.
pub open spec fn built<F: FnOnce() -> Result<Vec<u8>, String>>(
    read: F,
    path: Seq<char>,
    encoding: Seq<char>,
    r: Result<ParsedAgs4, String>,
) -> bool {
    exists|got: Result<Vec<u8>, String>| #[trigger]
        read.ensures((), got) && match got {
            Ok(bytes) => parse_view(r) == answered(path, codec_in(bytes@, encoding)) && (r is Ok
                ==> file_wf(r->Ok_0@)),
            Err(e) => r == Err::<ParsedAgs4, String>(e),
        }
}

/// The parsed file at a path, by its size and encoding: from the cache where it
/// is kept, and otherwise read with `read`, parsed and taken in. An error of
/// either is handed on and nothing is kept.
pub fn read_parsed<F>(
    cache: &mut Cache,
    path: &str,
    size: u64,
    encoding: &str,
    read: F,
) -> (r: Result<Arc<ParsedAgs4>, String>) where F: FnOnce() -> Result<Vec<u8>, String>
    requires
        old(cache).wf(),
        read.requires(()),
        encoding@ != "UTF-8"@ ==> forall|got: Result<Vec<u8>, String>| #[trigger]
            read.ensures((), got) && got is Ok ==> decodable(got->Ok_0@.len()),
    ensures
        final(cache).wf(),
        final(cache).cap() == old(cache).cap(),
        ({
            let key = KeyView { path: path@, size, encoding: encoding@ };
            let kept = old(cache).kept();
            let hit = kept_under(kept, key);
            if old(cache).cap() != 0 && hit is Some {
                &&& r is Ok
                &&& *r->Ok_0 == hit->Some_0
                &&& final(cache).kept() == used(kept, key, hit->Some_0)
            } else {
                match r {
                    Ok(p) => {
                        &&& built(read, path@, encoding@, Ok(*p))
                        &&& final(cache).kept() == if old(cache).cap() == 0 {
                            kept
                        } else {
                            taken_in(kept, key, *p, old(cache).cap() as nat)
                        }
                    },
                    Err(e) => {
                        &&& built(read, path@, encoding@, Err(e))
                        &&& final(cache).kept() == kept
                    },
                }
            }
        }),
        r is Ok && (old(cache).cap() == 0 || kept_under(
            old(cache).kept(),
            (KeyView { path: path@, size, encoding: encoding@ }),
        ) is None) ==> exists|bytes: Vec<u8>|
            {
                &&& #[trigger] read.ensures((), Ok(bytes))
                &&& encoding@ == "UTF-8"@ ==> codec(bytes@) == Ok::<Seq<GroupView>, Seq<char>>(
                    (*r->Ok_0)@,
                )
                &&& encoding@ != "UTF-8"@ ==> decoding(bytes@, encoding@) is Some && codec(
                    vstd::utf8::encode_utf8(decoding(bytes@, encoding@)->Some_0),
                ) == Ok::<Seq<GroupView>, Seq<char>>((*r->Ok_0)@)
            },
{
    let build = || -> (r: Result<ParsedAgs4, String>)
        ensures
            built(read, path@, encoding@, r),
        {
            match read() {
                Ok(bytes) => parse_source(path, bytes.as_slice(), encoding),
                Err(e) => Err(e),
            }
        };
    get_or_try_insert(cache, path, size, encoding, build)
}

/// A file in another encoding reads as the text that the decoder of just that encoding
/// gives for its bytes, in UTF-8: the same groups, or the same error. A file in UTF-8 is
/// read as it is.
pub proof fn a_decoded_file_reads_as_its_text(
    path: Seq<char>,
    bytes: Seq<u8>,
    encoding: Seq<char>,
    text: Seq<char>,
)
    requires
        encoding != "UTF-8"@,
        decoding(bytes, encoding) == Some(text),
    ensures
        answered(path, codec_in(bytes, encoding)) == match codec(vstd::utf8::encode_utf8(text)) {
            Ok(file) => Ok(file),
            Err(e) => Err(
                "read_ags: '"@ + path + "' did not parse as AGS4 ("@ + e
                    + "); the file may be invalid — validate/repair it first"@,
            ),
        },
        codec_in(bytes, encoding) == codec_in(vstd::utf8::encode_utf8(text), "UTF-8"@),
        codec_in(bytes, "UTF-8"@) == codec(bytes),
{
}

/// What is built for a path is what the codec makes of just the bytes that were read, in
/// just the encoding that was asked for; an error is the reader's own, or says that the
/// file did not parse.
pub proof fn what_is_built_is_what_was_read<F: FnOnce() -> Result<Vec<u8>, String>>(
    read: F,
    path: Seq<char>,
    encoding: Seq<char>,
    r: Result<ParsedAgs4, String>,
)
    requires
        built(read, path, encoding, r),
    ensures
        exists|got: Result<Vec<u8>, String>| #[trigger]
            read.ensures((), got) && match got {
                Err(e) => r == Err::<ParsedAgs4, String>(e),
                Ok(bytes) => {
                    let text = decoding(bytes@, encoding);
                    let parsed = if encoding == "UTF-8"@ {
                        codec(bytes@)
                    } else {
                        codec(vstd::utf8::encode_utf8(text->Some_0))
                    };
                    if encoding != "UTF-8"@ && text is None {
                        r is Err
                    } else {
                        match parsed {
                            Ok(file) => r is Ok && r->Ok_0@ == file,
                            Err(e) => r is Err && r->Err_0@ == "read_ags: '"@ + path
                                + "' did not parse as AGS4 ("@ + e
                                + "); the file may be invalid — validate/repair it first"@,
                        }
                    }
                },
            },
{
    let got = choose|got: Result<Vec<u8>, String>| #[trigger]
        read.ensures((), got) && match got {
            Ok(bytes) => parse_view(r) == answered(path, codec_in(bytes@, encoding)) && (r is Ok
                ==> file_wf(r->Ok_0@)),
            Err(e) => r == Err::<ParsedAgs4, String>(e),
        };
    assert(read.ensures((), got));
}

/// Two files, in two encodings, that decode to the same text read alike.
pub proof fn same_text_reads_alike(
    path: Seq<char>,
    a: Seq<u8>,
    b: Seq<u8>,
    encoding: Seq<char>,
    other: Seq<char>,
)
    requires
        encoding != "UTF-8"@,
        other != "UTF-8"@,
        decoding(a, encoding) is Some,
        decoding(a, encoding) == decoding(b, other),
    ensures
        answered(path, codec_in(a, encoding)) == answered(path, codec_in(b, other)),
{
}

/// What the codec makes of a file is handed on as it is; what it says of a file that it
/// refuses is told with the path, and where to turn.
pub proof fn an_answer_is_the_codecs(
    path: Seq<char>,
    file: Seq<GroupView>,
    e: Seq<char>,
)
    ensures
        answered(path, Ok::<Seq<GroupView>, Seq<char>>(file)) == Ok::<Seq<GroupView>, Seq<char>>(file),
        answered(path, Err::<Seq<GroupView>, Seq<char>>(e)) == Err::<Seq<GroupView>, Seq<char>>(
            "read_ags: '"@ + path + "' did not parse as AGS4 ("@ + e
                + "); the file may be invalid — validate/repair it first"@,
        ),
{
}

/// A setting that writes a number is the limit, so far as the number fits; without one,
/// and with any text that writes none, the limit is 4 GiB.
pub proof fn a_number_sets_the_limit(n: nat, text: Seq<char>)
    ensures
        n <= u64::MAX ==> limit_of(Some(decimal(n))) == n,
        n > u64::MAX ==> limit_of(Some(decimal(n))) == 4_294_967_296,
        unsigned_value(trimmed(text)) is None ==> limit_of(Some(text)) == 4_294_967_296,
        trimmed(text) == decimal(n) ==> limit_of(Some(text)) == limit_of(Some(decimal(n))),
        limit_of(None) == 4_294_967_296,
{
    a_number_reads_back(n);
}

} // verus!
