//! The WRS container: a flat sequence of records, each a 13-byte name, two
//! big-endian sizes and a compressed payload.

use crate::lzss::{decode, decode_spec, DecodeError, Outcome};
use crate::params::LzssParams;
use crate::text::{chars_of, join_path};
use vstd::prelude::*;
use vstd::string::{StrSliceExecFns, StringExecFns};
use vstd::utf8::{decode_utf8, valid_utf8};

verus! {

/// Length of the name field of a record.
pub const NAME_LEN: usize = 13;

/// Length of a record header: the name and the two sizes.
pub const HEADER_LEN: usize = 21;

/// Why an extraction failed.
#[derive(Debug, Clone, Copy, PartialEq, Eq, Structural)]
pub enum ExtractError {
    /// The record at `offset` declares more payload than the archive holds.
    CorruptArchive { offset: usize },
    /// The compressed payload ended after `produced` bytes.
    ShortDecode { produced: usize },
    /// The payload decodes to more than the declared size.
    OutputOverflow,
    /// Reading the archive or writing a file failed.
    Io,
}

impl ExtractError {
    /// Whether the error ends the extraction of the whole archive. Decode
    /// errors concern one entry only; the scan goes on behind it.
    pub open spec fn is_structural(self) -> bool {
        self is CorruptArchive || self is Io
    }

    /// Whether the error ends the extraction of the whole archive.
    pub fn aborts_archive(&self) -> (r: bool)
        ensures
            r == self.is_structural(),
    {
        match self {
            ExtractError::CorruptArchive { .. } => true,
            ExtractError::Io => true,
            ExtractError::ShortDecode { .. } => false,
            ExtractError::OutputOverflow => false,
        }
    }

    /// The decoder's error as an extraction error.
    pub open spec fn of_decode(e: DecodeError) -> ExtractError {
        match e {
            DecodeError::ShortDecode { produced } => ExtractError::ShortDecode { produced },
            DecodeError::OutputOverflow => ExtractError::OutputOverflow,
        }
    }

    /// The decoder's error as an extraction error.
    pub fn from_decode(e: DecodeError) -> (r: ExtractError)
        ensures
            r == Self::of_decode(e),
            !r.is_structural(),
    {
        match e {
            DecodeError::ShortDecode { produced } => ExtractError::ShortDecode { produced },
            DecodeError::OutputOverflow => ExtractError::OutputOverflow,
        }
    }
}

/// A record header as the contracts speak of it.
pub struct EntryModel {
    pub name: Seq<char>,
    pub compressed_size: nat,
    pub uncompressed_size: nat,
    pub payload_offset: nat,
}

/// One record of an archive: its name, its two sizes, and where its
/// payload starts.
#[derive(Debug, Clone)]
pub struct ArchiveEntry {
    /// The name field without its NUL padding.
    pub name: String,
    /// Number of payload bytes as stored.
    pub compressed_size: u32,
    /// Number of bytes the payload decodes to.
    pub uncompressed_size: u32,
    /// Offset of the payload in the archive.
    pub payload_offset: usize,
}

impl ArchiveEntry {
    /// The path of the file the entry is extracted to: its name in the
    /// directory `output_dir`.
    pub fn output_path(&self, output_dir: &str) -> (path: String)
        ensures
            path@ == output_dir@ + "/"@ + self.name@,
    {
        join_path(output_dir, self.name.as_str())
    }
}

impl View for ArchiveEntry {
    type V = EntryModel;

    open spec fn view(&self) -> EntryModel {
        EntryModel {
            name: self.name@,
            compressed_size: self.compressed_size as nat,
            uncompressed_size: self.uncompressed_size as nat,
            payload_offset: self.payload_offset as nat,
        }
    }
}

/// The number that four bytes hold in big-endian order.
pub open spec fn be_u32(b: Seq<u8>) -> nat
    recommends
        b.len() == 4,
{
    (b[0] as nat) * 0x100_0000 + (b[1] as nat) * 0x1_0000 + (b[2] as nat) * 0x100 + (b[3] as nat)
}

/// The characters that a lossy UTF-8 decoding of `bytes` gives: valid
/// sequences decode to their characters, every maximal invalid part to one
/// replacement character.
pub uninterp spec fn utf8_lossy(bytes: Seq<u8>) -> Seq<char>;

/// The text that the bytes of a name spell: their characters where they
/// are valid UTF-8, and what a lossy decoding makes of them where not.
pub open spec fn name_text(bytes: Seq<u8>) -> Seq<char> {
    if valid_utf8(bytes) {
        decode_utf8(bytes)
    } else {
        utf8_lossy(bytes)
    }
}

/// `s` without the NUL characters at its end.
pub open spec fn without_trailing_nuls(s: Seq<char>) -> Seq<char>
    decreases s.len(),
{
    if s.len() > 0 && s.last() == '\0' {
        without_trailing_nuls(s.drop_last())
    } else {
        s
    }
}

/// The file name that a raw name field stands for.
pub open spec fn entry_name_spec(raw: Seq<u8>) -> Seq<char> {
    without_trailing_nuls(name_text(raw))
}

/// The header that starts at `off`.
pub open spec fn header_at(data: Seq<u8>, off: nat) -> EntryModel {
    let at = off as int;
    EntryModel {
        name: entry_name_spec(data.subrange(at, at + NAME_LEN)),
        compressed_size: be_u32(data.subrange(at + NAME_LEN, at + NAME_LEN + 4)),
        uncompressed_size: be_u32(data.subrange(at + NAME_LEN + 4, at + HEADER_LEN)),
        payload_offset: off + HEADER_LEN as nat,
    }
}

/// Number of archive bytes a record takes: header and payload.
pub open spec fn record_len(e: EntryModel) -> nat {
    HEADER_LEN as nat + e.compressed_size
}

/// What the parser finds at an offset.
pub enum Scan {
    /// No further record: the archive ends here, or fewer bytes than a
    /// header are left.
    End,
    /// A header whose payload the archive does not hold.
    Corrupt,
    /// A whole record.
    Entry(EntryModel),
}

/// What the parser finds at `off`.
pub open spec fn scan(data: Seq<u8>, off: nat) -> Scan {
    if off + HEADER_LEN > data.len() {
        Scan::End
    } else if off + HEADER_LEN + header_at(data, off).compressed_size > data.len() {
        Scan::Corrupt
    } else {
        Scan::Entry(header_at(data, off))
    }
}

/// The records of an archive from an offset on.
pub struct Listing {
    /// The whole records, in stream order.
    pub entries: Seq<EntryModel>,
    /// Where the scan stopped.
    pub end: nat,
    /// Whether it stopped at a record whose payload is cut off.
    pub corrupt: bool,
}

/// The records of `data` from `off` on.
pub open spec fn list_from(data: Seq<u8>, off: nat) -> Listing
    decreases data.len() - off,
{
    match scan(data, off) {
        Scan::End => Listing { entries: Seq::empty(), end: off, corrupt: false },
        Scan::Corrupt => Listing { entries: Seq::empty(), end: off, corrupt: true },
        Scan::Entry(e) => {
            let rest = list_from(data, off + record_len(e));
            Listing { entries: seq![e] + rest.entries, end: rest.end, corrupt: rest.corrupt }
        },
    }
}

/// Sum of the sizes of some records.
pub open spec fn total_len(entries: Seq<EntryModel>) -> nat
    decreases entries.len(),
{
    if entries.len() == 0 {
        0
    } else {
        record_len(entries[0]) + total_len(entries.drop_first())
    }
}

/// Lossy UTF-8 decoding by `String::from_utf8_lossy`. Two things are
/// taken on trust: that the result is a function of the bytes alone, named
/// [`utf8_lossy`], and that valid UTF-8 decodes to the characters it
/// encodes.
#[verifier::external_body]
fn decode_utf8_lossy(bytes: &[u8]) -> (s: String)
    ensures
        s@ == utf8_lossy(bytes@),
        valid_utf8(bytes@) ==> s@ == decode_utf8(bytes@),
{
    String::from_utf8_lossy(bytes).into_owned()
}

/// `s` without the NUL characters at its end.
pub fn strip_trailing_nuls(s: &str) -> (r: String)
    ensures
        r@ == without_trailing_nuls(s@),
{
    let chars = chars_of(s);
    let mut n: usize = chars.len();
    assert(s@.take(n as int) =~= s@);
    while n > 0 && chars[n - 1] == '\0'
        invariant
            chars@ == s@,
            n <= s@.len(),
            without_trailing_nuls(s@) == without_trailing_nuls(s@.take(n as int)),
        decreases n,
    {
        assert(s@.take(n as int).drop_last() =~= s@.take(n - 1));
        n -= 1;
    }
    String::from_str(s.substring_char(0, n))
}

/// The file name that the raw name field of a record stands for: decoded
/// lossily, without its NUL padding.
pub fn entry_name(raw: &[u8]) -> (r: String)
    ensures
        r@ == entry_name_spec(raw@),
{
    let decoded = decode_utf8_lossy(raw);
    strip_trailing_nuls(decoded.as_str())
}

/// Reads the big-endian number at `at`.
fn read_be_u32(data: &[u8], at: usize) -> (v: u32)
    requires
        at + 4 <= data@.len(),
    ensures
        v == be_u32(data@.subrange(at as int, at + 4)),
{
    let b0: u32 = data[at] as u32;
    let b1: u32 = data[at + 1] as u32;
    let b2: u32 = data[at + 2] as u32;
    let b3: u32 = data[at + 3] as u32;
    assert(((b0 << 24u32) | (b1 << 16u32) | (b2 << 8u32) | b3) == b0 * 0x100_0000 + b1 * 0x1_0000
        + b2 * 0x100 + b3) by (bit_vector)
        requires
            b0 < 256,
            b1 < 256,
            b2 < 256,
            b3 < 256,
    ;
    (b0 << 24u32) | (b1 << 16u32) | (b2 << 8u32) | b3
}

/// The parser's position in an archive: the offset of the next record,
/// which only [`ArchiveCursor::next_entry`] moves, and only forward.
#[derive(Debug, Clone, Copy)]
pub struct ArchiveCursor {
    offset: usize,
}

impl ArchiveCursor {
    /// The offset of the next record.
    pub closed spec fn pos(self) -> usize {
        self.offset
    }

    /// A cursor at the start of an archive.
    pub fn new() -> (c: ArchiveCursor)
        ensures
            c.pos() == 0,
    {
        ArchiveCursor { offset: 0 }
    }

    /// The offset of the next record.
    pub fn offset(&self) -> (r: usize)
        ensures
            r == self.pos(),
    {
        self.offset
    }

    /// Reads the record at the cursor and moves behind it.
    ///
    /// `Ok(None)` at the end of the archive, where fewer bytes than a header
    /// are left; `CorruptArchive` where a header declares more payload than
    /// is left. In both cases the cursor stays.
    pub fn next_entry(&mut self, data: &[u8]) -> (r: Result<Option<ArchiveEntry>, ExtractError>)
        ensures
            match scan(data@, old(self).pos() as nat) {
                Scan::End => r matches Ok(None) && final(self).pos() == old(self).pos(),
                Scan::Corrupt => r == Err::<Option<ArchiveEntry>, ExtractError>(
                    ExtractError::CorruptArchive { offset: old(self).pos() },
                ) && final(self).pos() == old(self).pos(),
                Scan::Entry(e) => r matches Ok(Some(entry)) && entry@ == e && final(self).pos()
                    == old(self).pos() + record_len(e),
            },
    {
        let off: usize = self.offset;
        if off > data.len() || data.len() - off < HEADER_LEN {
            return Ok(None);
        }
        let compressed_size: u32 = read_be_u32(data, off + NAME_LEN);
        let uncompressed_size: u32 = read_be_u32(data, off + NAME_LEN + 4);
        let payload_offset: usize = off + HEADER_LEN;
        if compressed_size as usize > data.len() - payload_offset {
            return Err(ExtractError::CorruptArchive { offset: off });
        }
        let name = entry_name(&data[off..off + NAME_LEN]);
        self.offset = payload_offset + compressed_size as usize;
        Ok(Some(ArchiveEntry { name, compressed_size, uncompressed_size, payload_offset }))
    }
}

/// What the payload of an entry decodes to. An entry without payload
/// stands for an empty file, whatever size it declares.
pub open spec fn entry_outcome(data: Seq<u8>, e: EntryModel, p: LzssParams) -> Outcome {
    if e.compressed_size == 0 {
        Outcome::Complete(Seq::empty())
    } else {
        decode_spec(
            p,
            data.subrange(
                e.payload_offset as int,
                (e.payload_offset + e.compressed_size) as int,
            ),
            e.uncompressed_size,
        )
    }
}

/// An extraction result `res` reports the outcome `o`.
pub open spec fn extracted(res: Result<Vec<u8>, ExtractError>, o: Outcome) -> bool {
    match o {
        Outcome::Complete(b) => res matches Ok(v) && v@ == b,
        Outcome::Short(b) => res == Err::<Vec<u8>, ExtractError>(
            ExtractError::ShortDecode { produced: b.len() as usize },
        ),
        Outcome::Overflow(_) => res == Err::<Vec<u8>, ExtractError>(ExtractError::OutputOverflow),
    }
}

/// Decodes the payload of `entry`, a record of the archive `data`.
///
/// Fails with `CorruptArchive` when `data` does not hold the payload, and
/// with the decoder's error when the payload does not decode to the size
/// the entry declares.
pub fn extract_entry(data: &[u8], entry: &ArchiveEntry, params: &LzssParams) -> (res: Result<
    Vec<u8>,
    ExtractError,
>)
    ensures
        entry@.payload_offset + entry@.compressed_size > data@.len() ==> res == Err::<
            Vec<u8>,
            ExtractError,
        >(ExtractError::CorruptArchive { offset: entry.payload_offset }),
        entry@.payload_offset + entry@.compressed_size <= data@.len() ==> extracted(
            res,
            entry_outcome(data@, entry@, *params),
        ),
        res matches Ok(bytes) ==> bytes@.len() == if entry.compressed_size == 0 {
            0
        } else {
            entry.uncompressed_size as nat
        },
{
    let start: usize = entry.payload_offset;
    let size: usize = entry.compressed_size as usize;
    if start > data.len() || size > data.len() - start {
        return Err(ExtractError::CorruptArchive { offset: start });
    }
    if size == 0 {
        return Ok(Vec::new());
    }
    match decode(&data[start..start + size], entry.uncompressed_size as usize, params) {
        Ok(bytes) => Ok(bytes),
        Err(e) => Err(ExtractError::from_decode(e)),
    }
}

/// The records of an archive, in stream order.
///
/// Fails with `CorruptArchive`, at the offset of the record, when a header
/// declares more payload than is left.
pub fn parse_archive(data: &[u8]) -> (res: Result<Vec<ArchiveEntry>, ExtractError>)
    ensures
        list_from(data@, 0).corrupt ==> res == Err::<Vec<ArchiveEntry>, ExtractError>(
            ExtractError::CorruptArchive { offset: list_from(data@, 0).end as usize },
        ),
        !list_from(data@, 0).corrupt ==> (res matches Ok(entries) && entries@.map_values(
            |e: ArchiveEntry| e@,
        ) == list_from(data@, 0).entries),
{
    let mut cursor = ArchiveCursor::new();
    let mut entries: Vec<ArchiveEntry> = Vec::new();
    let ghost whole = list_from(data@, 0);
    assert(entries@.map_values(|e: ArchiveEntry| e@) + whole.entries =~= whole.entries);
    loop
        invariant
            whole == list_from(data@, 0),
            cursor.pos() <= data@.len(),
            whole.entries == entries@.map_values(|e: ArchiveEntry| e@) + list_from(
                data@,
                cursor.pos() as nat,
            ).entries,
            whole.end == list_from(data@, cursor.pos() as nat).end,
            whole.corrupt == list_from(data@, cursor.pos() as nat).corrupt,
        decreases data@.len() - cursor.pos(),
    {
        let ghost done = entries@.map_values(|e: ArchiveEntry| e@);
        let ghost rest = list_from(data@, cursor.pos() as nat);
        match cursor.next_entry(data) {
            Ok(Some(entry)) => {
                entries.push(entry);
                proof {
                    let next = list_from(data@, cursor.pos() as nat);
                    assert(entries@.map_values(|e: ArchiveEntry| e@) =~= done.push(entry@));
                    assert(done.push(entry@) + next.entries =~= done + rest.entries);
                }
            },
            Ok(None) => {
                assert(done + rest.entries =~= done);
                return Ok(entries);
            },
            Err(e) => {
                return Err(e);
            },
        }
    }
}

/// One file of an extraction: its name, and its bytes or the reason it
/// has none.
#[derive(Debug)]
pub struct ExtractedFile {
    pub name: String,
    pub result: Result<Vec<u8>, ExtractError>,
}

/// What the extraction of an archive gave.
#[derive(Debug)]
pub struct Extraction {
    /// One item for each whole record, in stream order.
    pub files: Vec<ExtractedFile>,
    /// Number of files that were decoded.
    pub extracted: usize,
    /// Number of files that were not.
    pub failed: usize,
    /// The error that ended the scan, if one did.
    pub error: Option<ExtractError>,
    /// Number of archive bytes the whole records take.
    pub consumed: usize,
}

/// Number of entries that decode completely.
pub open spec fn complete_count(data: Seq<u8>, entries: Seq<EntryModel>, p: LzssParams) -> nat
    decreases entries.len(),
{
    if entries.len() == 0 {
        0
    } else {
        complete_count(data, entries.drop_last(), p) + if entry_outcome(data, entries.last(), p)
            is Complete {
            1nat
        } else {
            0nat
        }
    }
}

/// `x` is the extraction of the archive `data`.
pub open spec fn extraction_of(x: Extraction, data: Seq<u8>, p: LzssParams) -> bool {
    let whole = list_from(data, 0);
    &&& x.files@.len() == whole.entries.len()
    &&& forall|i: int|
        0 <= i < whole.entries.len() ==> {
            &&& (#[trigger] x.files@[i]).name@ == whole.entries[i].name
            &&& extracted(x.files@[i].result, entry_outcome(data, whole.entries[i], p))
        }
    &&& x.extracted == complete_count(data, whole.entries, p)
    &&& x.extracted + x.failed == whole.entries.len()
    &&& x.error == if whole.corrupt {
        Some(ExtractError::CorruptArchive { offset: whole.end as usize })
    } else {
        None
    }
    &&& x.consumed == whole.end
    &&& x.consumed == total_len(whole.entries)
    &&& x.consumed <= data.len()
    &&& x.error is None ==> data.len() - x.consumed < HEADER_LEN
}

/// Extracts every entry of the archive `data`.
///
/// An entry that does not decode is reported in its place and the scan
/// goes on; a record whose payload is cut off ends it.
pub fn extract_archive(data: &[u8], params: &LzssParams) -> (x: Extraction)
    ensures
        extraction_of(x, data@, *params),
{
    let mut cursor = ArchiveCursor::new();
    let mut files: Vec<ExtractedFile> = Vec::new();
    let mut extracted_count: usize = 0;
    let mut failed_count: usize = 0;
    let ghost whole = list_from(data@, 0);
    let ghost mut done: Seq<EntryModel> = Seq::empty();
    assert(done + whole.entries =~= whole.entries);
    proof {
        lemma_records_tile(data@, 0);
    }
    loop
        invariant
            whole == list_from(data@, 0),
            cursor.pos() <= data@.len(),
            whole.entries == done + list_from(data@, cursor.pos() as nat).entries,
            whole.end == list_from(data@, cursor.pos() as nat).end,
            whole.corrupt == list_from(data@, cursor.pos() as nat).corrupt,
            whole.end == total_len(whole.entries),
            whole.end <= data@.len(),
            !whole.corrupt ==> data@.len() - whole.end < HEADER_LEN,
            files@.len() == done.len(),
            HEADER_LEN * done.len() <= cursor.pos(),
            forall|i: int|
                0 <= i < done.len() ==> {
                    &&& (#[trigger] files@[i]).name@ == done[i].name
                    &&& extracted(files@[i].result, entry_outcome(data@, done[i], *params))
                },
            extracted_count == complete_count(data@, done, *params),
            extracted_count + failed_count == done.len(),
        decreases data@.len() - cursor.pos(),
    {
        let ghost rest = list_from(data@, cursor.pos() as nat);
        match cursor.next_entry(data) {
            Ok(Some(entry)) => {
                let result = extract_entry(data, &entry, params);
                let ghost before = done;
                proof {
                    done = done.push(entry@);
                    let next = list_from(data@, cursor.pos() as nat);
                    assert(done + next.entries =~= before + rest.entries);
                    assert(done.drop_last() =~= before);
                }
                if result.is_ok() {
                    extracted_count += 1;
                } else {
                    failed_count += 1;
                }
                files.push(ExtractedFile { name: entry.name, result });
            },
            Ok(None) => {
                assert(done + rest.entries =~= done);
                return Extraction {
                    files,
                    extracted: extracted_count,
                    failed: failed_count,
                    error: None,
                    consumed: cursor.offset(),
                };
            },
            Err(e) => {
                assert(done + rest.entries =~= done);
                return Extraction {
                    files,
                    extracted: extracted_count,
                    failed: failed_count,
                    error: Some(e),
                    consumed: cursor.offset(),
                };
            },
        }
    }
}

/// Record advancement: the sizes of the whole records from `off` on add up
/// to the distance the scan covers, and a scan that does not end at a
/// cut-off record leaves fewer bytes than a header behind it. So the
/// record sizes of an archive add up to its length exactly when nothing
/// trails its last record.
pub proof fn lemma_records_tile(data: Seq<u8>, off: nat)
    requires
        off <= data.len(),
    ensures
        off + total_len(list_from(data, off).entries) == list_from(data, off).end,
        list_from(data, off).end <= data.len(),
        !list_from(data, off).corrupt ==> data.len() - list_from(data, off).end < HEADER_LEN,
    decreases data.len() - off,
{
    match scan(data, off) {
        Scan::Entry(e) => {
            lemma_records_tile(data, off + record_len(e));
            let rest = list_from(data, off + record_len(e));
            assert((seq![e] + rest.entries).drop_first() =~= rest.entries);
        },
        _ => {},
    }
}

/// The sizes of the records of an archive add up to its length, where the
/// scan meets no cut-off record and nothing trails the last record. (An
/// archive may end in fewer bytes than a header takes; they belong to no
/// record.)
pub proof fn lemma_record_sizes_fill_archive(data: Seq<u8>)
    requires
        !list_from(data, 0).corrupt,
        list_from(data, 0).end == data.len(),
    ensures
        total_len(list_from(data, 0).entries) == data.len(),
{
    lemma_records_tile(data, 0);
}

/// Records lie back to back: the payload of the record at index `i`
/// starts a header behind the sizes of the records before it, and lies
/// within the archive.
pub proof fn lemma_records_are_contiguous(data: Seq<u8>, off: nat, i: int)
    requires
        off <= data.len(),
        0 <= i < list_from(data, off).entries.len(),
    ensures
        list_from(data, off).entries[i].payload_offset == off + total_len(
            list_from(data, off).entries.take(i),
        ) + HEADER_LEN,
        list_from(data, off).entries[i].payload_offset + list_from(
            data,
            off,
        ).entries[i].compressed_size <= data.len(),
    decreases i,
{
    let entries = list_from(data, off).entries;
    match scan(data, off) {
        Scan::Entry(e) => {
            let rest = list_from(data, off + record_len(e));
            if i > 0 {
                lemma_records_are_contiguous(data, off + record_len(e), i - 1);
                assert(entries.take(i).drop_first() =~= rest.entries.take(i - 1));
            } else {
                assert(entries.take(0) =~= Seq::<EntryModel>::empty());
            }
        },
        _ => {},
    }
}

} // verus!
