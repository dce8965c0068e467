//! Locating the index of a 3TZ archive (a ZIP file whose last central
//! directory entry is the index `@3dtilesIndex1@`). The search alternates
//! reads of the archive with decisions; `IndexLocator` makes the decisions,
//! and its caller performs each read it asks for and hands back the bytes.
use vstd::prelude::*;
use crate::bytes_le::{
    bytes_at, has_bytes_at, le16_at, le32_at, le64_at, read_u16_le, read_u32_le, read_u64_le,
    copy_range, lemma_le64_bounds, lemma_le16_bounds,
};
use crate::archive_index::{ArchiveIndex, raw_entry, record_count};

verus! {

/// End of central directory signature `PK\x05\x06`.
pub open spec fn eocd_sig() -> Seq<u8> {
    seq![0x50u8, 0x4bu8, 0x05u8, 0x06u8]
}

/// Central directory entry signature `PK\x01\x02`.
pub open spec fn cd_entry_sig() -> Seq<u8> {
    seq![0x50u8, 0x4bu8, 0x01u8, 0x02u8]
}

/// Local file header signature `PK\x03\x04`.
pub open spec fn lfh_sig() -> Seq<u8> {
    seq![0x50u8, 0x4bu8, 0x03u8, 0x04u8]
}

/// Zip64 end of central directory locator signature `PK\x06\x07`.
pub open spec fn zip64_locator_sig() -> Seq<u8> {
    seq![0x50u8, 0x4bu8, 0x06u8, 0x07u8]
}

/// Zip64 end of central directory record signature `PK\x06\x06`.
pub open spec fn zip64_record_sig() -> Seq<u8> {
    seq![0x50u8, 0x4bu8, 0x06u8, 0x06u8]
}

/// The name of the index entry, `@3dtilesIndex1@`.
pub open spec fn index_filename() -> Seq<u8> {
    seq![
        0x40u8, 0x33u8, 0x64u8, 0x74u8, 0x69u8, 0x6cu8, 0x65u8, 0x73u8, 0x49u8, 0x6eu8, 0x64u8,
        0x65u8, 0x78u8, 0x31u8, 0x40u8,
    ]
}

/// The largest footer searched for the end of central directory: the
/// longest ZIP comment plus the 22-byte record.
pub open spec fn max_footer_len() -> int {
    65535int + 22int
}

/// The most bytes read from the end of the central directory to find its
/// last entry.
pub open spec fn max_cd_tail_len() -> int {
    65536int + 46int
}

/// Why an archive's index could not be located.
#[derive(Clone, Debug, PartialEq, Eq)]
pub enum ArchiveError {
    /// No end of central directory signature in the footer.
    EocdNotFound,
    /// The end of central directory record is cut short.
    EocdTooShort,
    /// No central directory entry signature in the central directory tail.
    LastCdEntryNotFound,
    /// The last central directory entry is shorter than its fixed part.
    LastCdEntryTooShort,
    /// The last central directory entry is shorter than its name and extra
    /// field.
    IncompleteCdEntry,
    /// The last entry is not the index; holds the name found.
    UnexpectedIndexFile(Vec<u8>),
    /// The local file header of the index is missing or has a bad signature.
    InvalidLocalFileHeader,
    /// A record shorter than the fields read from it, or offsets that do not
    /// fit in 64 bits.
    Malformed,
}

/// An archive error as a mathematical value.
pub enum ArchiveErrorView {
    EocdNotFound,
    EocdTooShort,
    LastCdEntryNotFound,
    LastCdEntryTooShort,
    IncompleteCdEntry,
    UnexpectedIndexFile(Seq<u8>),
    InvalidLocalFileHeader,
    Malformed,
}

impl View for ArchiveError {
    type V = ArchiveErrorView;

    open spec fn view(&self) -> ArchiveErrorView {
        match self {
            ArchiveError::EocdNotFound => ArchiveErrorView::EocdNotFound,
            ArchiveError::EocdTooShort => ArchiveErrorView::EocdTooShort,
            ArchiveError::LastCdEntryNotFound => ArchiveErrorView::LastCdEntryNotFound,
            ArchiveError::LastCdEntryTooShort => ArchiveErrorView::LastCdEntryTooShort,
            ArchiveError::IncompleteCdEntry => ArchiveErrorView::IncompleteCdEntry,
            ArchiveError::UnexpectedIndexFile(n) => ArchiveErrorView::UnexpectedIndexFile(n@),
            ArchiveError::InvalidLocalFileHeader => ArchiveErrorView::InvalidLocalFileHeader,
            ArchiveError::Malformed => ArchiveErrorView::Malformed,
        }
    }
}

/// What the locator waits for.
#[derive(Clone, Copy, Debug, PartialEq, Eq, Structural)]
pub enum LocatorStage {
    /// The last `footer_len` bytes of the archive.
    Footer { footer_len: u64 },
    /// The 20 bytes before the end of central directory record.
    Zip64Locator { cd_size: u64, cd_offset: u64 },
    /// The 56-byte zip64 end of central directory record.
    Zip64Record { cd_size: u64, cd_offset: u64 },
    /// The tail of the central directory.
    CentralDirectory,
    /// The 30-byte local file header of the index.
    LocalHeader { data_size: u64, header_offset: u64 },
    /// The index data.
    IndexData,
    /// Nothing: the search is over.
    Done,
}

/// What the locator asks its caller to do next.
pub enum LocatorAction {
    /// Read the last `length` bytes of the archive.
    ReadFromEnd { length: u64 },
    /// Read `length` bytes from `offset`.
    ReadRange { offset: u64, length: u64 },
    /// The index was found.
    Finished(ArchiveIndex),
    /// The archive has no readable index.
    Failed(ArchiveError),
}

/// An action as a mathematical value; a found index is given by its raw
/// bytes.
pub enum ActionView {
    ReadFromEnd(u64),
    ReadRange(u64, u64),
    Finished(Seq<u8>),
    Failed(ArchiveErrorView),
}

/// Whether an index is the one read from `raw`.
pub open spec fn index_from_raw(idx: ArchiveIndex, raw: Seq<u8>) -> bool {
    &&& idx.entries@.len() == record_count(raw.len())
    &&& forall|k: int|
        0 <= k < idx.entries@.len() ==> (#[trigger] idx.entries@[k].path_md5@, idx.entries@[
            k
        ].offset as int) == raw_entry(raw, k)
}

/// Whether an action is the one a view describes.
pub open spec fn action_is(a: LocatorAction, v: ActionView) -> bool {
    match (a, v) {
        (LocatorAction::ReadFromEnd { length }, ActionView::ReadFromEnd(l)) => length == l,
        (LocatorAction::ReadRange { offset, length }, ActionView::ReadRange(o, l)) => offset == o
            && length == l,
        (LocatorAction::Finished(idx), ActionView::Finished(raw)) => index_from_raw(idx, raw),
        (LocatorAction::Failed(e), ActionView::Failed(ev)) => e@ == ev,
        _ => false,
    }
}

/// The last position at or before `p` where `pat` occurs in `s`.
pub open spec fn rfind_from(s: Seq<u8>, pat: Seq<u8>, p: int) -> Option<int>
    decreases p + 1,
{
    if p < 0 {
        None
    } else if bytes_at(s, p, pat) {
        Some(p)
    } else {
        rfind_from(s, pat, p - 1)
    }
}

/// The last position where `pat` occurs in `s`.
pub open spec fn rfind(s: Seq<u8>, pat: Seq<u8>) -> Option<int> {
    rfind_from(s, pat, s.len() - pat.len())
}

/// A step that ends the search with an error.
pub open spec fn fail(e: ArchiveErrorView) -> (LocatorStage, ActionView) {
    (LocatorStage::Done, ActionView::Failed(e))
}

/// Asking for the tail of the central directory: at most
/// `max_cd_tail_len()` bytes ending where the directory ends.
pub open spec fn cd_request(cd_size: int, cd_offset: int) -> (LocatorStage, ActionView) {
    let len = if cd_size < max_cd_tail_len() {
        cd_size
    } else {
        max_cd_tail_len()
    };
    if cd_offset + cd_size > u64::MAX {
        fail(ArchiveErrorView::Malformed)
    } else {
        (LocatorStage::CentralDirectory, ActionView::ReadRange(
            (cd_offset + cd_size - len) as u64,
            len as u64,
        ))
    }
}

/// The first step: read the footer.
pub open spec fn spec_start(file_size: u64) -> (LocatorStage, ActionView) {
    let footer_len = if file_size < max_footer_len() {
        file_size
    } else {
        max_footer_len() as u64
    };
    (LocatorStage::Footer { footer_len }, ActionView::ReadFromEnd(footer_len))
}

/// The footer read: find the last end of central directory record, take
/// the central directory's size and offset from it, and look for a zip64
/// locator right before it when there is room for one.
pub open spec fn on_footer(file_size: u64, footer_len: u64, f: Seq<u8>) -> (
    LocatorStage,
    ActionView,
) {
    match rfind(f, eocd_sig()) {
        None => fail(ArchiveErrorView::EocdNotFound),
        Some(p) => if f.len() - p < 22 {
            fail(ArchiveErrorView::EocdTooShort)
        } else {
            let cd_size = le32_at(f, p + 12);
            let cd_offset = le32_at(f, p + 16);
            let eocd_pos = file_size - (footer_len - p);
            if eocd_pos >= 20 {
                (
                    LocatorStage::Zip64Locator { cd_size: cd_size as u64, cd_offset: cd_offset as u64 },
                    ActionView::ReadRange((eocd_pos - 20) as u64, 20),
                )
            } else {
                cd_request(cd_size, cd_offset)
            }
        },
    }
}

/// The zip64 locator read: when its signature is there, read the zip64
/// record it points to; otherwise keep the 32-bit values.
pub open spec fn on_zip64_locator(cd_size: u64, cd_offset: u64, l: Seq<u8>) -> (
    LocatorStage,
    ActionView,
) {
    if l.len() < 4 {
        fail(ArchiveErrorView::Malformed)
    } else if l.subrange(0, 4) == zip64_locator_sig() {
        if l.len() < 16 {
            fail(ArchiveErrorView::Malformed)
        } else {
            (
                LocatorStage::Zip64Record { cd_size, cd_offset },
                ActionView::ReadRange(le64_at(l, 8) as u64, 56),
            )
        }
    } else {
        cd_request(cd_size as int, cd_offset as int)
    }
}

/// The zip64 record read: when its signature is there, its 64-bit size and
/// offset of the central directory replace the 32-bit ones.
pub open spec fn on_zip64_record(cd_size: u64, cd_offset: u64, r: Seq<u8>) -> (
    LocatorStage,
    ActionView,
) {
    if r.len() < 4 {
        fail(ArchiveErrorView::Malformed)
    } else if r.subrange(0, 4) == zip64_record_sig() {
        if r.len() < 56 {
            fail(ArchiveErrorView::Malformed)
        } else {
            cd_request(le64_at(r, 40), le64_at(r, 48))
        }
    } else {
        cd_request(cd_size as int, cd_offset as int)
    }
}

/// Data size and header offset once the zip64 values of an extra field at
/// `idx` are applied: each is present only when its 32-bit field is all
/// ones (the uncompressed size first, then the compressed size, then the
/// header offset).
pub open spec fn zip64_values(ef: Seq<u8>, idx: int, c: u32, u: u32, h: u32) -> Option<(int, int)> {
    let i1 = if u == 0xFFFFFFFFu32 {
        idx + 8
    } else {
        idx
    };
    if c == 0xFFFFFFFFu32 && i1 + 8 > ef.len() {
        None
    } else {
        let size = if c == 0xFFFFFFFFu32 {
            le64_at(ef, i1)
        } else {
            c as int
        };
        let i2 = if c == 0xFFFFFFFFu32 {
            i1 + 8
        } else {
            i1
        };
        if h == 0xFFFFFFFFu32 && i2 + 8 > ef.len() {
            None
        } else {
            let off = if h == 0xFFFFFFFFu32 {
                le64_at(ef, i2)
            } else {
                h as int
            };
            Some((size, off))
        }
    }
}

/// Walks the extra fields from `i` for the zip64 field (tag 1); without
/// one, or at a field that runs past the end, the 32-bit values stand.
pub open spec fn scan_extra(ef: Seq<u8>, i: int, c: u32, u: u32, h: u32) -> Option<(int, int)>
    decreases ef.len() - i,
{
    if i < 0 || i + 4 > ef.len() {
        Some((c as int, h as int))
    } else {
        let tag = le16_at(ef, i);
        let size = le16_at(ef, i + 2);
        if i + 4 + size > ef.len() {
            Some((c as int, h as int))
        } else if tag == 1 {
            zip64_values(ef, i + 4, c, u, h)
        } else {
            scan_extra(ef, i + 4 + size, c, u, h)
        }
    }
}

/// The central directory tail read: its last entry must be the index; take
/// the index's size and local header offset from it.
pub open spec fn on_central_directory(c: Seq<u8>) -> (LocatorStage, ActionView) {
    match rfind(c, cd_entry_sig()) {
        None => fail(ArchiveErrorView::LastCdEntryNotFound),
        Some(p) => {
            let e = c.skip(p);
            if e.len() < 46 {
                fail(ArchiveErrorView::LastCdEntryTooShort)
            } else {
                let fl = le16_at(e, 28);
                let el = le16_at(e, 30);
                if e.len() < 46 + fl + el {
                    fail(ArchiveErrorView::IncompleteCdEntry)
                } else if e.subrange(46, 46 + fl) != index_filename() {
                    fail(ArchiveErrorView::UnexpectedIndexFile(e.subrange(46, 46 + fl)))
                } else {
                    match scan_extra(
                        e.subrange(46 + fl, 46 + fl + el),
                        0,
                        le32_at(e, 20) as u32,
                        le32_at(e, 24) as u32,
                        le32_at(e, 42) as u32,
                    ) {
                        None => fail(ArchiveErrorView::Malformed),
                        Some((size, off)) => (
                            LocatorStage::LocalHeader {
                                data_size: size as u64,
                                header_offset: off as u64,
                            },
                            ActionView::ReadRange(off as u64, 30),
                        ),
                    }
                }
            }
        },
    }
}

/// The local file header read: the index data follows the header, its name
/// and its extra field.
pub open spec fn on_local_header(data_size: u64, header_offset: u64, h: Seq<u8>) -> (
    LocatorStage,
    ActionView,
) {
    if h.len() < 30 || h.subrange(0, 4) != lfh_sig() {
        fail(ArchiveErrorView::InvalidLocalFileHeader)
    } else {
        let start = header_offset + 30 + le16_at(h, 26) + le16_at(h, 28);
        if start > u64::MAX {
            fail(ArchiveErrorView::Malformed)
        } else {
            (LocatorStage::IndexData, ActionView::ReadRange(start as u64, data_size))
        }
    }
}

/// One step of the search: what the locator does with the bytes it asked
/// for in `stage`.
pub open spec fn spec_step(file_size: u64, stage: LocatorStage, bytes: Seq<u8>) -> (
    LocatorStage,
    ActionView,
) {
    match stage {
        LocatorStage::Footer { footer_len } => on_footer(file_size, footer_len, bytes),
        LocatorStage::Zip64Locator { cd_size, cd_offset } => on_zip64_locator(
            cd_size,
            cd_offset,
            bytes,
        ),
        LocatorStage::Zip64Record { cd_size, cd_offset } => on_zip64_record(
            cd_size,
            cd_offset,
            bytes,
        ),
        LocatorStage::CentralDirectory => on_central_directory(bytes),
        LocatorStage::LocalHeader { data_size, header_offset } => on_local_header(
            data_size,
            header_offset,
            bytes,
        ),
        LocatorStage::IndexData => (LocatorStage::Done, ActionView::Finished(bytes)),
        LocatorStage::Done => fail(ArchiveErrorView::Malformed),
    }
}

/// The search for the index of one archive.
pub struct IndexLocator {
    /// Size in bytes of the archive.
    pub file_size: u64,
    /// What the locator waits for.
    pub stage: LocatorStage,
}

/// Whether a locator is in a state it can be in.
pub open spec fn locator_wf(l: IndexLocator) -> bool {
    match l.stage {
        LocatorStage::Footer { footer_len } => footer_len <= l.file_size,
        _ => true,
    }
}

fn sig(a: u8, b: u8, c: u8, d: u8) -> (r: [u8; 4])
    ensures
        r@ == seq![a, b, c, d],
{
    let r = [a, b, c, d];
    assert(r@ =~= seq![a, b, c, d]);
    r
}

/// The last position where `pat` occurs in `s`.
fn find_last(s: &[u8], pat: &[u8]) -> (r: Option<usize>)
    requires
        pat@.len() > 0,
    ensures
        match r {
            Some(p) => rfind(s@, pat@) == Some(p as int) && bytes_at(s@, p as int, pat@),
            None => rfind(s@, pat@) is None,
        },
{
    let n = s.len();
    let m = pat.len();
    if m > n {
        assert(rfind_from(s@, pat@, n - m) is None);
        return None;
    }
    let mut p: usize = n - m + 1;
    while p > 0
        invariant
            n == s@.len(),
            m == pat@.len(),
            m <= n,
            p <= n - m + 1,
            rfind(s@, pat@) == rfind_from(s@, pat@, p - 1),
        decreases p,
    {
        if has_bytes_at(s, p - 1, pat) {
            return Some(p - 1);
        }
        p = p - 1;
    }
    None
}

fn cd_request_exec(cd_size: u64, cd_offset: u64) -> (r: (LocatorStage, LocatorAction))
    ensures
        r.0 == cd_request(cd_size as int, cd_offset as int).0,
        action_is(r.1, cd_request(cd_size as int, cd_offset as int).1),
{
    let len: u64 = if cd_size < 65582 {
        cd_size
    } else {
        65582
    };
    if cd_offset > u64::MAX - cd_size {
        return (LocatorStage::Done, LocatorAction::Failed(ArchiveError::Malformed));
    }
    (LocatorStage::CentralDirectory, LocatorAction::ReadRange {
        offset: cd_offset + cd_size - len,
        length: len,
    })
}

fn zip64_values_exec(ef: &[u8], idx: usize, c: u32, u: u32, h: u32) -> (r: Option<(u64, u64)>)
    requires
        idx <= ef@.len(),
    ensures
        match r {
            Some((s, o)) => zip64_values(ef@, idx as int, c, u, h) == Some((s as int, o as int)),
            None => zip64_values(ef@, idx as int, c, u, h) is None,
        },
{
    let n = ef.len();
    let mut i = idx;
    if u == 0xFFFFFFFFu32 {
        if n - i < 8 {
            // The uncompressed size runs past the end; a compressed size or
            // header offset after it would too.
            if c == 0xFFFFFFFFu32 {
                return None;
            }
            if h == 0xFFFFFFFFu32 {
                return None;
            }
            return Some((c as u64, h as u64));
        }
        i = i + 8;
    }
    let mut size = c as u64;
    if c == 0xFFFFFFFFu32 {
        if n - i < 8 {
            return None;
        }
        size = read_u64_le(ef, i);
        proof {
            lemma_le64_bounds(ef@, i as int);
        }
        i = i + 8;
    }
    let mut off = h as u64;
    if h == 0xFFFFFFFFu32 {
        if n - i < 8 {
            return None;
        }
        off = read_u64_le(ef, i);
    }
    Some((size, off))
}

fn scan_extra_exec(ef: &[u8], c: u32, u: u32, h: u32) -> (r: Option<(u64, u64)>)
    ensures
        match r {
            Some((s, o)) => scan_extra(ef@, 0, c, u, h) == Some((s as int, o as int)),
            None => scan_extra(ef@, 0, c, u, h) is None,
        },
{
    let n = ef.len();
    let mut i: usize = 0;
    while i <= n && n - i >= 4
        invariant
            n == ef@.len(),
            scan_extra(ef@, 0, c, u, h) == scan_extra(ef@, i as int, c, u, h),
        decreases n - i,
    {
        let tag = read_u16_le(ef, i);
        let size = read_u16_le(ef, i + 2) as usize;
        if n - i - 4 < size {
            return Some((c as u64, h as u64));
        }
        if tag == 1 {
            return zip64_values_exec(ef, i + 4, c, u, h);
        }
        i = i + 4 + size;
    }
    Some((c as u64, h as u64))
}

impl IndexLocator {
    /// Starts a search in an archive of `file_size` bytes; the first action
    /// reads its footer.
    pub fn new(file_size: u64) -> (r: (IndexLocator, LocatorAction))
        ensures
            r.0.file_size == file_size,
            locator_wf(r.0),
            r.0.stage == spec_start(file_size).0,
            action_is(r.1, spec_start(file_size).1),
    {
        let footer_len: u64 = if file_size < 65557 {
            file_size
        } else {
            65557
        };
        (
            IndexLocator { file_size, stage: LocatorStage::Footer { footer_len } },
            LocatorAction::ReadFromEnd { length: footer_len },
        )
    }

    /// Takes the bytes read for the last action and gives the next action.
    pub fn on_bytes(&mut self, bytes: &[u8]) -> (r: LocatorAction)
        requires
            locator_wf(*old(self)),
            bytes@.len() <= isize::MAX,
            old(self).stage matches LocatorStage::Footer { footer_len } ==> bytes@.len()
                <= footer_len,
        ensures
            final(self).file_size == old(self).file_size,
            locator_wf(*final(self)),
            final(self).stage == spec_step(old(self).file_size, old(self).stage, bytes@).0,
            action_is(r, spec_step(old(self).file_size, old(self).stage, bytes@).1),
    {
        let (stage, action) = match self.stage {
            LocatorStage::Footer { footer_len } => self.footer(footer_len, bytes),
            LocatorStage::Zip64Locator { cd_size, cd_offset } => Self::zip64_locator(
                cd_size,
                cd_offset,
                bytes,
            ),
            LocatorStage::Zip64Record { cd_size, cd_offset } => Self::zip64_record(
                cd_size,
                cd_offset,
                bytes,
            ),
            LocatorStage::CentralDirectory => Self::central_directory(bytes),
            LocatorStage::LocalHeader { data_size, header_offset } => Self::local_header(
                data_size,
                header_offset,
                bytes,
            ),
            LocatorStage::IndexData => (
                LocatorStage::Done,
                LocatorAction::Finished(ArchiveIndex::from_raw_bytes(bytes)),
            ),
            LocatorStage::Done => (LocatorStage::Done, LocatorAction::Failed(ArchiveError::Malformed)),
        };
        self.stage = stage;
        action
    }

    fn footer(&self, footer_len: u64, f: &[u8]) -> (r: (LocatorStage, LocatorAction))
        requires
            footer_len <= self.file_size,
            f@.len() <= footer_len,
        ensures
            r.0 == on_footer(self.file_size, footer_len, f@).0,
            action_is(r.1, on_footer(self.file_size, footer_len, f@).1),
    {
        let s = sig(0x50, 0x4b, 0x05, 0x06);
        let p = match find_last(f, s.as_slice()) {
            None => return (LocatorStage::Done, LocatorAction::Failed(ArchiveError::EocdNotFound)),
            Some(p) => p,
        };
        if f.len() - p < 22 {
            return (LocatorStage::Done, LocatorAction::Failed(ArchiveError::EocdTooShort));
        }
        let cd_size = read_u32_le(f, p + 12) as u64;
        let cd_offset = read_u32_le(f, p + 16) as u64;
        let eocd_pos = self.file_size - (footer_len - p as u64);
        if eocd_pos >= 20 {
            (
                LocatorStage::Zip64Locator { cd_size, cd_offset },
                LocatorAction::ReadRange { offset: eocd_pos - 20, length: 20 },
            )
        } else {
            cd_request_exec(cd_size, cd_offset)
        }
    }

    fn zip64_locator(cd_size: u64, cd_offset: u64, l: &[u8]) -> (r: (LocatorStage, LocatorAction))
        ensures
            r.0 == on_zip64_locator(cd_size, cd_offset, l@).0,
            action_is(r.1, on_zip64_locator(cd_size, cd_offset, l@).1),
    {
        if l.len() < 4 {
            return (LocatorStage::Done, LocatorAction::Failed(ArchiveError::Malformed));
        }
        let s = sig(0x50, 0x4b, 0x06, 0x07);
        if has_bytes_at(l, 0, s.as_slice()) {
            if l.len() < 16 {
                return (LocatorStage::Done, LocatorAction::Failed(ArchiveError::Malformed));
            }
            let off = read_u64_le(l, 8);
            (
                LocatorStage::Zip64Record { cd_size, cd_offset },
                LocatorAction::ReadRange { offset: off, length: 56 },
            )
        } else {
            cd_request_exec(cd_size, cd_offset)
        }
    }

    fn zip64_record(cd_size: u64, cd_offset: u64, r: &[u8]) -> (res: (LocatorStage, LocatorAction))
        ensures
            res.0 == on_zip64_record(cd_size, cd_offset, r@).0,
            action_is(res.1, on_zip64_record(cd_size, cd_offset, r@).1),
    {
        if r.len() < 4 {
            return (LocatorStage::Done, LocatorAction::Failed(ArchiveError::Malformed));
        }
        let s = sig(0x50, 0x4b, 0x06, 0x06);
        if has_bytes_at(r, 0, s.as_slice()) {
            if r.len() < 56 {
                return (LocatorStage::Done, LocatorAction::Failed(ArchiveError::Malformed));
            }
            cd_request_exec(read_u64_le(r, 40), read_u64_le(r, 48))
        } else {
            cd_request_exec(cd_size, cd_offset)
        }
    }

    fn central_directory(c: &[u8]) -> (r: (LocatorStage, LocatorAction))
        ensures
            r.0 == on_central_directory(c@).0,
            action_is(r.1, on_central_directory(c@).1),
    {
        let s = sig(0x50, 0x4b, 0x01, 0x02);
        let p = match find_last(c, s.as_slice()) {
            None => return (
                LocatorStage::Done,
                LocatorAction::Failed(ArchiveError::LastCdEntryNotFound),
            ),
            Some(p) => p,
        };
        let e = vstd::slice::slice_subrange(c, p, c.len());
        assert(e@ =~= c@.skip(p as int));
        let n = e.len();
        if n < 46 {
            return (LocatorStage::Done, LocatorAction::Failed(ArchiveError::LastCdEntryTooShort));
        }
        let fl = read_u16_le(e, 28) as usize;
        let el = read_u16_le(e, 30) as usize;
        if n < 46 + fl + el {
            return (LocatorStage::Done, LocatorAction::Failed(ArchiveError::IncompleteCdEntry));
        }
        let name = copy_range(e, 46, 46 + fl);
        let expected = index_name();
        if !(name.len() == 15 && has_bytes_at(name.as_slice(), 0, expected.as_slice())) {
            proof {
                if name@.len() == 15 {
                    assert(name@.subrange(0, 15) =~= name@);
                }
            }
            return (
                LocatorStage::Done,
                LocatorAction::Failed(ArchiveError::UnexpectedIndexFile(name)),
            );
        }
        proof {
            assert(name@.subrange(0, 15) =~= name@);
        }
        let compressed = read_u32_le(e, 20);
        let uncompressed = read_u32_le(e, 24);
        let header = read_u32_le(e, 42);
        let ef = vstd::slice::slice_subrange(e, 46 + fl, 46 + fl + el);
        match scan_extra_exec(ef, compressed, uncompressed, header) {
            None => (LocatorStage::Done, LocatorAction::Failed(ArchiveError::Malformed)),
            Some((size, off)) => (
                LocatorStage::LocalHeader { data_size: size, header_offset: off },
                LocatorAction::ReadRange { offset: off, length: 30 },
            ),
        }
    }

    fn local_header(data_size: u64, header_offset: u64, h: &[u8]) -> (r: (
        LocatorStage,
        LocatorAction,
    ))
        ensures
            r.0 == on_local_header(data_size, header_offset, h@).0,
            action_is(r.1, on_local_header(data_size, header_offset, h@).1),
    {
        let s = sig(0x50, 0x4b, 0x03, 0x04);
        if h.len() < 30 || !has_bytes_at(h, 0, s.as_slice()) {
            return (LocatorStage::Done, LocatorAction::Failed(ArchiveError::InvalidLocalFileHeader));
        }
        let n = read_u16_le(h, 26) as u64;
        let m = read_u16_le(h, 28) as u64;
        if header_offset > u64::MAX - 30 - n - m {
            return (LocatorStage::Done, LocatorAction::Failed(ArchiveError::Malformed));
        }
        (
            LocatorStage::IndexData,
            LocatorAction::ReadRange { offset: header_offset + 30 + n + m, length: data_size },
        )
    }
}

/// Why a member of an archive cannot be read.
#[derive(Clone, Copy, Debug, PartialEq, Eq, Structural)]
pub enum MemberError {
    /// The local file header is short or has a bad signature.
    InvalidLocalFileHeader,
    /// The member is compressed; only stored members are read.
    Compressed,
    /// The member's data would start past the largest offset.
    Malformed,
}

/// Where a stored member's bytes lie, from its 30-byte local file header
/// read at `header_offset`: right after the header, its name and its extra
/// field, for as many bytes as its compressed size says.
pub open spec fn spec_member_range(header_offset: u64, h: Seq<u8>) -> Result<(u64, u64), MemberError> {
    if h.len() < 30 || h.subrange(0, 4) != lfh_sig() {
        Err(MemberError::InvalidLocalFileHeader)
    } else if le16_at(h, 8) != 0 {
        Err(MemberError::Compressed)
    } else {
        let start = header_offset + 30 + le16_at(h, 26) + le16_at(h, 28);
        if start > u64::MAX {
            Err(MemberError::Malformed)
        } else {
            Ok((start as u64, le32_at(h, 18) as u64))
        }
    }
}

/// The offset and length of a stored member's bytes, from its local file
/// header read at `header_offset`.
pub fn member_range(header_offset: u64, header: &[u8]) -> (r: Result<(u64, u64), MemberError>)
    ensures
        r == spec_member_range(header_offset, header@),
{
    let s = sig(0x50, 0x4b, 0x03, 0x04);
    if header.len() < 30 || !has_bytes_at(header, 0, s.as_slice()) {
        return Err(MemberError::InvalidLocalFileHeader);
    }
    if read_u16_le(header, 8) != 0 {
        return Err(MemberError::Compressed);
    }
    let n = read_u16_le(header, 26) as u64;
    let m = read_u16_le(header, 28) as u64;
    if header_offset > u64::MAX - 30 - n - m {
        return Err(MemberError::Malformed);
    }
    Ok((header_offset + 30 + n + m, read_u32_le(header, 18) as u64))
}

fn index_name() -> (r: Vec<u8>)
    ensures
        r@ == index_filename(),
{
    let mut v: Vec<u8> = Vec::new();
    v.push(0x40u8);
    v.push(0x33u8);
    v.push(0x64u8);
    v.push(0x74u8);
    v.push(0x69u8);
    v.push(0x6cu8);
    v.push(0x65u8);
    v.push(0x73u8);
    v.push(0x49u8);
    v.push(0x6eu8);
    v.push(0x64u8);
    v.push(0x65u8);
    v.push(0x78u8);
    v.push(0x31u8);
    v.push(0x40u8);
    assert(v@ =~= index_filename());
    v
}

/// How many stages a locator can still pass through.
pub open spec fn stages_left(stage: LocatorStage) -> nat {
    match stage {
        LocatorStage::Footer { .. } => 6,
        LocatorStage::Zip64Locator { .. } => 5,
        LocatorStage::Zip64Record { .. } => 4,
        LocatorStage::CentralDirectory => 3,
        LocatorStage::LocalHeader { .. } => 2,
        LocatorStage::IndexData => 1,
        LocatorStage::Done => 0,
    }
}

/// The search always moves on: each read the locator asks for takes it to
/// a later stage, whatever bytes the previous read gave, so a search ends
/// (with the index found or an error) after at most six reads, and once
/// it has ended the locator is done.
pub proof fn lemma_locator_moves_on(file_size: u64, stage: LocatorStage, bytes: Seq<u8>)
    ensures
        (spec_step(file_size, stage, bytes).1 is ReadFromEnd || spec_step(file_size, stage, bytes).1 is ReadRange)
            ==> stages_left(spec_step(file_size, stage, bytes).0) < stages_left(stage),
        (spec_step(file_size, stage, bytes).1 is Finished || spec_step(file_size, stage, bytes).1 is Failed)
            ==> spec_step(file_size, stage, bytes).0 == LocatorStage::Done,
{
}

/// The index is read right after its own local file header: from the
/// local header read at `header_offset`, the locator asks for `data_size`
/// bytes starting past that 30-byte header, its file name and its extra
/// field, and for nothing when the header is short or not a local file
/// header.
pub proof fn lemma_index_read_after_local_header(
    file_size: u64,
    data_size: u64,
    header_offset: u64,
    h: Seq<u8>,
)
    ensures
        spec_step(file_size, LocatorStage::LocalHeader { data_size, header_offset }, h).1 matches ActionView::ReadRange(
            offset,
            length,
        ) ==> {
            &&& h.len() >= 30
            &&& h.subrange(0, 4) == lfh_sig()
            &&& offset >= header_offset + 30
            &&& offset == header_offset + 30 + le16_at(h, 26) + le16_at(h, 28)
            &&& length == data_size
        },
        (h.len() < 30 || h.subrange(0, 4) != lfh_sig()) ==> spec_step(
            file_size,
            LocatorStage::LocalHeader { data_size, header_offset },
            h,
        ).1 == ActionView::Failed(ArchiveErrorView::InvalidLocalFileHeader),
        (h.len() >= 30 && h.subrange(0, 4) == lfh_sig() && header_offset + 30 + le16_at(h, 26)
            + le16_at(h, 28) <= u64::MAX) ==> spec_step(
            file_size,
            LocatorStage::LocalHeader { data_size, header_offset },
            h,
        ).1 is ReadRange,
{
    if h.len() >= 30 {
        lemma_le16_bounds(h, 26);
        lemma_le16_bounds(h, 28);
    }
}

proof fn lemma_rfind_from_bounds(s: Seq<u8>, pat: Seq<u8>, p: int)
    ensures
        rfind_from(s, pat, p) matches Some(q) ==> 0 <= q <= p,
    decreases p + 1,
{
    if p >= 0 && !bytes_at(s, p, pat) {
        lemma_rfind_from_bounds(s, pat, p - 1);
    }
}

/// Where the search reads. It starts with the archive's last bytes, at
/// most the largest footer. The zip64 locator is read as the 20 bytes
/// that end right where the end of central directory record begins, and
/// the zip64 record as 56 bytes where the locator points. The central
/// directory is read from its end backwards, never more of it than the
/// largest entry the index can have; and the index's local file header as
/// 30 bytes at the offset its central directory entry gives, which is the
/// offset the locator then reads the header from.
pub proof fn lemma_locator_reads(file_size: u64, stage: LocatorStage, bytes: Seq<u8>)
    requires
        stage matches LocatorStage::Footer { footer_len } ==> footer_len <= file_size && bytes.len()
            <= footer_len,
    ensures
        spec_start(file_size).1 is ReadFromEnd,
        spec_start(file_size).1->ReadFromEnd_0 <= file_size,
        spec_start(file_size).1->ReadFromEnd_0 <= max_footer_len(),
        file_size <= max_footer_len() ==> spec_start(file_size).1->ReadFromEnd_0 == file_size,
        ({
            let (st, act) = spec_step(file_size, stage, bytes);
            &&& (stage is Footer && act is ReadRange && st is Zip64Locator) ==> (act->ReadRange_1 == 20 && (rfind(
                bytes,
                eocd_sig(),
            ) is Some) && act->ReadRange_0 + 20 == file_size - stage->footer_len + rfind(bytes, eocd_sig()).unwrap())
            &&& (stage is Zip64Locator && act is ReadRange && st is Zip64Record) ==> (act->ReadRange_1 == 56
                && act->ReadRange_0 == le64_at(bytes, 8) && bytes.subrange(0, 4) == zip64_locator_sig())
            &&& (stage is Footer || stage is Zip64Locator || stage is Zip64Record) ==> (act is ReadRange
                ==> (st is Zip64Locator || st is Zip64Record || st is CentralDirectory))
            &&& st is CentralDirectory ==> (act is ReadRange && act->ReadRange_1 <= max_cd_tail_len())
            &&& (stage is CentralDirectory && act is ReadRange) ==> (act->ReadRange_1 == 30 && st is LocalHeader
                && st->header_offset == act->ReadRange_0)
        }),
{
    if stage is Footer {
        if let Some(p) = rfind(bytes, eocd_sig()) {
            lemma_rfind_from_bounds(bytes, eocd_sig(), bytes.len() - eocd_sig().len());
        }
    }
}

/// The central directory is read from its end: the read ends exactly where
/// the directory ends, and takes the whole directory when it is no larger
/// than the largest tail read.
pub proof fn lemma_cd_request_ends_with_directory(cd_size: int, cd_offset: int)
    requires
        0 <= cd_size,
        0 <= cd_offset,
    ensures
        cd_request(cd_size, cd_offset).1 matches ActionView::ReadRange(o, l) ==> o + l == cd_offset
            + cd_size && l <= cd_size && l <= max_cd_tail_len() && (cd_size <= max_cd_tail_len()
            ==> o == cd_offset),
        cd_offset + cd_size <= u64::MAX ==> cd_request(cd_size, cd_offset).1 is ReadRange,
{
}

} // verus!
