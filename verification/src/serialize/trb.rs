//! TRB: a journaled container for incrementally trained models.
//!
//! A file is a base segment followed by any number of update segments:
//!
//! ```text
//! "TRB1" | header length (u64) | header JSON | zeros to a multiple of 8
//!        | base blob | CRC-32 of the blob (u32)
//! then, per update:
//! length of what follows (u64) | header length (u64) | header JSON and zeros
//!        | update blob | CRC-32 of the blob (u32)
//! ```
//!
//! All integers are little-endian, and every blob starts at a multiple of 8 in
//! the file. Appending never rewrites earlier bytes, an update that was cut
//! short or whose lengths contradict each other is ignored, and a blob whose
//! checksum does not match is never handed out.

use crate::serialize::bytes::{
    le_bytes, le_value, lemma_byte_ranges, lemma_le_value_bound, push_le, read_le,
};
use vstd::prelude::*;

verus! {

/// The four bytes that every TRB file starts with: "TRB1".
pub const TRB_MAGIC: [u8; 4] = [84, 82, 66, 49];

/// Current format version.
pub const FORMAT_VERSION: u32 = 1;

/// Blobs start at multiples of this many bytes in a file.
pub const RKYV_ALIGNMENT: usize = 8;

/// Metadata stored as JSON at the start of the file.
#[derive(Debug)]
pub struct TrbHeader {
    /// Format version for compatibility checking.
    pub format_version: u32,
    /// Kind of model stored, such as "universal" or "gbdt".
    pub model_type: String,
    /// Unix timestamp of the file's creation.
    pub created_at: u64,
    /// Boosting mode, such as "PureTree" or "LinearThenTree".
    pub boosting_mode: String,
    /// Number of features in the model.
    pub num_features: usize,
    /// Size of the base blob in bytes.
    pub base_blob_size: u64,
    /// Free-form description.
    pub metadata: String,
}

/// What an update segment carries.
#[derive(Debug, Clone, Copy, PartialEq, Eq, Structural)]
pub enum UpdateType {
    /// Linear model weights.
    Linear,
    /// Additional trees.
    Trees,
    /// Preprocessor state.
    Preprocessor,
    /// A full model that replaces what came before.
    Snapshot,
}

/// Metadata of an update segment.
#[derive(Debug)]
pub struct TrbUpdateHeader {
    /// What the segment carries.
    pub update_type: UpdateType,
    /// Unix timestamp of the update's creation.
    pub created_at: u64,
    /// Number of rows that the update was trained on.
    pub rows_trained: usize,
    /// Free-form description.
    pub description: String,
}

/// A segment of a TRB file.
#[allow(inconsistent_fields)]
#[derive(Debug)]
pub enum TrbSegment {
    /// The base model.
    Base { header: TrbHeader, blob: Vec<u8> },
    /// An update.
    Update { header: TrbUpdateHeader, blob: Vec<u8> },
}

/// Why a TRB file cannot be read.
#[derive(Debug)]
pub enum TrbError {
    /// The file ends inside the magic bytes.
    TooSmallForFormat,
    /// The file starts with other bytes than the magic ones.
    InvalidMagic { got: [u8; 4] },
    /// The file ends inside the header length.
    TooSmallForHeaderSize,
    /// The file ends inside the header.
    TooSmallForHeader,
    /// The file ends inside the base blob or its checksum.
    TruncatedBase,
    /// The base blob does not have the checksum that is stored behind it.
    BaseCrcMismatch { stored: u32, computed: u32 },
}

impl Clone for TrbHeader {
    fn clone(&self) -> (copy: Self)
        ensures
            copy == *self,
    {
        TrbHeader {
            format_version: self.format_version,
            model_type: self.model_type.clone(),
            created_at: self.created_at,
            boosting_mode: self.boosting_mode.clone(),
            num_features: self.num_features,
            base_blob_size: self.base_blob_size,
            metadata: self.metadata.clone(),
        }
    }
}

impl Clone for TrbUpdateHeader {
    fn clone(&self) -> (copy: Self)
        ensures
            copy == *self,
    {
        TrbUpdateHeader {
            update_type: self.update_type,
            created_at: self.created_at,
            rows_trained: self.rows_trained,
            description: self.description.clone(),
        }
    }
}

/// How many zeros bring `pos` to the next multiple of 8.
pub open spec fn padding(pos: nat) -> nat {
    ((8 - pos % 8) % 8) as nat
}

/// `n` zero bytes.
pub open spec fn zeros(n: nat) -> Seq<u8> {
    Seq::new(n, |i: int| 0u8)
}

/// The bytes of a base segment whose checksum field holds `crc`.
pub open spec fn base_image(json: Seq<u8>, blob: Seq<u8>, crc: u32) -> Seq<u8> {
    TRB_MAGIC@ + le_bytes(json.len(), 8) + json + zeros(padding(12 + json.len())) + blob + le_bytes(crc as nat, 4)
}

/// The length of the header, with the zeros behind it, of an update whose
/// segment starts at `at`: the blob behind it starts at a multiple of 8.
pub open spec fn padded_len(at: nat, json: Seq<u8>) -> nat {
    json.len() + padding(at + 16 + json.len())
}

/// The bytes of an update segment that starts at `at` in its file and whose
/// checksum field holds `crc`.
pub open spec fn update_image(at: nat, json: Seq<u8>, blob: Seq<u8>, crc: u32) -> Seq<u8> {
    le_bytes(12 + padded_len(at, json) + blob.len(), 8) + le_bytes(padded_len(at, json), 8) + json + zeros(
        padding(at + 16 + json.len()),
    ) + blob + le_bytes(crc as nat, 4)
}

/// The CRC-32 checksum of a byte sequence, as `crc32fast::hash` computes it.
pub uninterp spec fn crc32(data: Seq<u8>) -> u32;

/// Whether two byte sequences are of one length and differ in exactly one byte.
pub open spec fn one_byte_apart(a: Seq<u8>, b: Seq<u8>) -> bool {
    exists|i: int| 0 <= i < a.len() && a[i] != b[i] && b == #[trigger] a.update(i, b[i])
}

/// Calls `crc32fast::hash`. The claims are that the checksum depends on the
/// bytes alone, and that it differs where exactly one byte does: with every byte
/// the register becomes `CRC32_TABLE[0][low byte ^ byte] ^ (register >> 8)`, and
/// as no two entries of that table have the same high byte, registers that
/// differ before the same byte differ behind it, and so do registers behind
/// different bytes. Which number comes out for given bytes is not stated.
#[verifier::external_body]
fn crc32_of(data: &[u8]) -> (crc: u32)
    ensures
        crc == crc32(data@),
        forall|other: Seq<u8>| #[trigger] one_byte_apart(data@, other) ==> crc != crc32(other),
{
    crc32fast::hash(data)
}

/// How many zero bytes bring `current_pos` to the next multiple of 8.
pub fn alignment_padding(current_pos: usize) -> (zeros: usize)
    ensures
        zeros == padding(current_pos as nat),
        zeros < 8,
        (current_pos + zeros) % 8 == 0,
{
    let remainder: usize = current_pos % RKYV_ALIGNMENT;
    if remainder == 0 {
        0
    } else {
        RKYV_ALIGNMENT - remainder
    }
}

fn push_zeros(out: &mut Vec<u8>, count: usize)
    ensures
        final(out)@ == old(out)@ + zeros(count as nat),
{
    let mut i: usize = 0;
    let ghost start = out@;
    while i < count
        invariant
            i <= count,
            out@ == start + zeros(i as nat),
        decreases count - i,
    {
        out.push(0u8);
        i = i + 1;
        assert(out@ =~= start + zeros(i as nat));
    }
}

fn push_bytes(out: &mut Vec<u8>, data: &[u8])
    ensures
        final(out)@ == old(out)@ + data@,
{
    let total: usize = data.len();
    let mut i: usize = 0;
    let ghost start = out@;
    while i < total
        invariant
            i <= total,
            total == data@.len(),
            out@ == start + data@.take(i as int),
        decreases total - i,
    {
        out.push(data[i]);
        i = i + 1;
        assert(out@ =~= start + data@.take(i as int));
    }
    assert(data@.take(total as int) =~= data@);
}

/// Lays out a base segment with a given checksum.
pub fn base_segment(header_json: &[u8], base_blob: &[u8], crc: u32) -> (image: Vec<u8>)
    requires
        header_json@.len() + base_blob@.len() + 24 <= usize::MAX,
    ensures
        image@ == base_image(header_json@, base_blob@, crc),
{
    let mut image: Vec<u8> = Vec::new();
    push_bytes(&mut image, &TRB_MAGIC);
    push_le(&mut image, header_json.len() as u64, 8);
    push_bytes(&mut image, header_json);
    let zeros: usize = alignment_padding(12 + header_json.len());
    push_zeros(&mut image, zeros);
    push_bytes(&mut image, base_blob);
    push_le(&mut image, crc as u64, 4);
    image
}

/// Lays out an update segment that starts at `at` in its file, with a given
/// checksum.
pub fn update_segment(at: usize, header_json: &[u8], update_blob: &[u8], crc: u32) -> (image: Vec<u8>)
    requires
        at + header_json@.len() + update_blob@.len() + 28 <= usize::MAX,
    ensures
        image@ == update_image(at as nat, header_json@, update_blob@, crc),
{
    let zeros: usize = alignment_padding(at + 16 + header_json.len());
    let padded: usize = header_json.len() + zeros;
    let total: usize = 8 + padded + update_blob.len() + 4;
    let mut image: Vec<u8> = Vec::new();
    push_le(&mut image, total as u64, 8);
    push_le(&mut image, padded as u64, 8);
    push_bytes(&mut image, header_json);
    push_zeros(&mut image, zeros);
    push_bytes(&mut image, update_blob);
    push_le(&mut image, crc as u64, 4);
    image
}

/// The bytes of a new file: the base segment with the blob's own checksum.
pub fn encode_base(header_json: &[u8], base_blob: &[u8]) -> (image: Vec<u8>)
    requires
        header_json@.len() + base_blob@.len() + 24 <= usize::MAX,
    ensures
        image@ == base_image(header_json@, base_blob@, crc32(base_blob@)),
{
    let crc: u32 = crc32_of(base_blob);
    base_segment(header_json, base_blob, crc)
}

/// The bytes to append for an update to a file of `at` bytes: its segment with
/// the blob's own checksum.
pub fn encode_update(at: usize, header_json: &[u8], update_blob: &[u8]) -> (image: Vec<u8>)
    requires
        at + header_json@.len() + update_blob@.len() + 28 <= usize::MAX,
    ensures
        image@ == update_image(at as nat, header_json@, update_blob@, crc32(update_blob@)),
{
    let crc: u32 = crc32_of(update_blob);
    update_segment(at, header_json, update_blob, crc)
}

impl TrbHeader {
    /// The header as it is written with a base blob: its size field says how
    /// long the blob is, the rest is kept.
    pub fn for_blob(self, base_blob: &[u8]) -> (stamped: TrbHeader)
        ensures
            stamped == (TrbHeader { base_blob_size: base_blob@.len() as u64, ..self }),
            stamped.base_blob_size == base_blob@.len(),
    {
        TrbHeader {
            format_version: self.format_version,
            model_type: self.model_type,
            created_at: self.created_at,
            boosting_mode: self.boosting_mode,
            num_features: self.num_features,
            base_blob_size: base_blob.len() as u64,
            metadata: self.metadata,
        }
    }
}

/// How many bytes of `bytes` are left once the zeros at its end are cut off.
pub open spec fn trimmed_len(bytes: Seq<u8>) -> nat
    decreases bytes.len(),
{
    if bytes.len() == 0 {
        0
    } else if bytes.last() != 0 {
        bytes.len()
    } else {
        trimmed_len(bytes.drop_last())
    }
}

/// The header length that a file states.
pub open spec fn header_len(file: Seq<u8>) -> nat {
    le_value(file.subrange(4, 12))
}

/// Whether a file starts with the magic bytes and holds its whole header.
pub open spec fn has_header(file: Seq<u8>) -> bool {
    &&& file.len() >= 12
    &&& file.take(4) == TRB_MAGIC@
    &&& 12 + header_len(file) <= file.len()
}

/// Where the base blob of a file starts.
pub open spec fn base_offset(file: Seq<u8>) -> nat {
    12 + header_len(file) + padding(12 + header_len(file))
}

/// Where the update segments of a file start, given the size of its base blob.
pub open spec fn updates_offset(file: Seq<u8>, blob_size: nat) -> nat {
    base_offset(file) + blob_size + 4
}

/// Finds the header JSON of a file: the range of its bytes.
pub fn locate_header(file: &[u8]) -> (found: Result<(usize, usize), TrbError>)
    ensures
        match found {
            Ok((start, end)) => {
                &&& has_header(file@)
                &&& start == 12
                &&& end == 12 + header_len(file@)
            },
            Err(TrbError::TooSmallForFormat) => file@.len() < 4,
            Err(TrbError::InvalidMagic { got }) => {
                &&& file@.len() >= 4
                &&& file@.take(4) != TRB_MAGIC@
                &&& got@ == file@.take(4)
            },
            Err(TrbError::TooSmallForHeaderSize) => 4 <= file@.len() < 12 && file@.take(4) == TRB_MAGIC@,
            Err(TrbError::TooSmallForHeader) => {
                &&& file@.len() >= 12
                &&& file@.take(4) == TRB_MAGIC@
                &&& 12 + header_len(file@) > file@.len()
            },
            Err(_) => false,
        },
{
    let total: usize = file.len();
    if total < 4 {
        return Err(TrbError::TooSmallForFormat);
    }
    let got: [u8; 4] = [file[0], file[1], file[2], file[3]];
    assert(got@ =~= file@.take(4));
    if got[0] != TRB_MAGIC[0] || got[1] != TRB_MAGIC[1] || got[2] != TRB_MAGIC[2] || got[3] != TRB_MAGIC[3] {
        return Err(TrbError::InvalidMagic { got });
    }
    assert(file@.take(4) =~= TRB_MAGIC@);
    if total < 12 {
        return Err(TrbError::TooSmallForHeaderSize);
    }
    let size: u64 = read_le(file, 4, 8);
    if size > (total - 12) as u64 {
        return Err(TrbError::TooSmallForHeader);
    }
    Ok((12, 12 + size as usize))
}

/// Where the parts of one update segment lie in a file. A part is missing when
/// the lengths in the segment put it where it cannot be.
#[derive(Debug, Clone, Copy)]
pub struct UpdateFrame {
    /// Where the segment starts.
    pub start: usize,
    /// Where the next segment starts.
    pub end: usize,
    /// The header JSON without the zeros behind it; missing when the header
    /// would reach past the end of the file.
    pub json: Option<(usize, usize)>,
    /// The blob, with its checksum behind it; missing when the segment is too
    /// short for its header and a checksum.
    pub blob: Option<(usize, usize)>,
}

/// The length that the segment at `pos` states for what follows that field.
pub open spec fn frame_total(file: Seq<u8>, pos: int) -> nat {
    le_value(file.subrange(pos, pos + 8))
}

/// The header length that the segment at `pos` states.
pub open spec fn frame_header_len(file: Seq<u8>, pos: int) -> nat {
    le_value(file.subrange(pos + 8, pos + 16))
}

/// Whether a whole segment starts at `pos`.
pub open spec fn frame_complete(file: Seq<u8>, pos: int) -> bool {
    &&& pos + 8 <= file.len()
    &&& pos + 8 + frame_total(file, pos) <= file.len()
}

/// Where the parts of the segment at `pos` lie.
pub open spec fn frame_at(file: Seq<u8>, pos: int) -> UpdateFrame {
    let total = frame_total(file, pos);
    let header = frame_header_len(file, pos);
    let readable = pos + 16 <= file.len() && pos + 16 + header <= file.len();
    UpdateFrame {
        start: pos as usize,
        end: (pos + 8 + total) as usize,
        json: if readable {
            Some(
                (
                    (pos + 16) as usize,
                    (pos + 16 + trimmed_len(file.subrange(pos + 16, pos + 16 + header))) as usize,
                ),
            )
        } else {
            None
        },
        blob: if readable && 12 + header <= total {
            Some(((pos + 16 + header) as usize, (pos + 4 + total) as usize))
        } else {
            None
        },
    }
}

/// The whole segments from `pos` on, each where the one before it ends. The
/// first place where no whole segment starts ends the list.
pub open spec fn frames_from(file: Seq<u8>, pos: int) -> Seq<UpdateFrame>
    decreases file.len() - pos,
{
    if 0 <= pos < file.len() && frame_complete(file, pos) {
        seq![frame_at(file, pos)] + frames_from(file, pos + 8 + frame_total(file, pos))
    } else {
        Seq::empty()
    }
}

/// Cuts the zeros at the end of `file[start..end]` off: where the rest ends.
fn trim_end(file: &[u8], start: usize, end: usize) -> (trimmed: usize)
    requires
        start <= end <= file@.len(),
    ensures
        trimmed == start + trimmed_len(file@.subrange(start as int, end as int)),
        start <= trimmed <= end,
{
    let mut at: usize = end;
    while at > start && file[at - 1] == 0
        invariant
            start <= at <= end <= file@.len(),
            trimmed_len(file@.subrange(start as int, end as int)) == trimmed_len(
                file@.subrange(start as int, at as int),
            ),
        decreases at,
    {
        assert(file@.subrange(start as int, at as int).drop_last() =~= file@.subrange(start as int, at - 1));
        at = at - 1;
    }
    at
}

/// Lays the segment at `pos` open.
fn frame_of(file: &[u8], pos: usize, total: usize) -> (frame: UpdateFrame)
    requires
        pos + 8 + total <= file@.len(),
        total == frame_total(file@, pos as int),
    ensures
        frame == frame_at(file@, pos as int),
{
    let len: usize = file.len();
    let end: usize = pos + 8 + total;
    if len - pos < 16 {
        return UpdateFrame { start: pos, end, json: None, blob: None };
    }
    let header: u64 = read_le(file, pos + 8, 8);
    if header > (len - pos - 16) as u64 {
        return UpdateFrame { start: pos, end, json: None, blob: None };
    }
    let size: usize = header as usize;
    let json_end: usize = trim_end(file, pos + 16, pos + 16 + size);
    let blob: Option<(usize, usize)> = if total >= 12 && size <= total - 12 {
        Some((pos + 16 + size, pos + 4 + total))
    } else {
        None
    };
    UpdateFrame { start: pos, end, json: Some((pos + 16, json_end)), blob }
}

/// Walks the update segments of a file from `first` on and lays each whole one
/// open. A segment that the file does not hold to its end, and what follows
/// it, is left out.
pub fn scan_frames(file: &[u8], first: usize) -> (frames: Vec<UpdateFrame>)
    ensures
        frames@ == frames_from(file@, first as int),
{
    let len: usize = file.len();
    let mut frames: Vec<UpdateFrame> = Vec::new();
    let mut pos: usize = first;
    let mut done: bool = false;
    while pos < len && !done
        invariant
            len == file@.len(),
            done ==> frames@ == frames_from(file@, first as int),
            !done ==> frames@ + frames_from(file@, pos as int) == frames_from(file@, first as int),
        decreases len - pos, (if done { 0int } else { 1int }),
    {
        if len - pos < 8 {
            done = true;
            assert(frames@ =~= frames@ + frames_from(file@, pos as int));
        } else {
            let total: u64 = read_le(file, pos, 8);
            if total > (len - pos - 8) as u64 {
                done = true;
                assert(frames@ =~= frames@ + frames_from(file@, pos as int));
            } else {
                let ghost before = frames@;
                let frame: UpdateFrame = frame_of(file, pos, total as usize);
                frames.push(frame);
                let ghost next = pos + 8 + total;
                assert(before + frames_from(file@, pos as int) =~= frames@ + frames_from(file@, next));
                pos = pos + 8 + total as usize;
            }
        }
    }
    if !done {
        assert(frames@ =~= frames@ + frames_from(file@, pos as int));
    }
    frames
}

/// The bytes of a range of a file.
pub open spec fn part(file: Seq<u8>, range: (usize, usize)) -> Seq<u8> {
    file.subrange(range.0 as int, range.1 as int)
}

/// The checksum that is stored behind a blob.
pub open spec fn stored_crc(file: Seq<u8>, blob: (usize, usize)) -> u32 {
    le_value(file.subrange(blob.1 as int, blob.1 + 4)) as u32
}

/// Whether the blob in a range of a file is one byte apart from one that has the
/// checksum stored behind it: one byte of it was changed after it was written.
pub open spec fn one_byte_changed(file: Seq<u8>, blob: (usize, usize)) -> bool {
    exists|written: Seq<u8>| #[trigger]
        one_byte_apart(part(file, blob), written) && stored_crc(file, blob) == crc32(written)
}

/// The parsed header of segment `i`, if there is one.
pub open spec fn header_given(headers: Seq<Option<TrbUpdateHeader>>, i: int) -> Option<TrbUpdateHeader> {
    if 0 <= i < headers.len() {
        headers[i]
    } else {
        None
    }
}

/// The updates of a file from segment `i` on. `headers` holds what the header
/// JSON of each segment parsed to, `computed` the checksum of each blob.
///
/// A segment without a parsed header is passed over, and so is one whose lengths
/// contradict each other. A blob that does not have its stored checksum ends the
/// list.
pub open spec fn replay(
    file: Seq<u8>,
    frames: Seq<UpdateFrame>,
    headers: Seq<Option<TrbUpdateHeader>>,
    computed: Seq<u32>,
    i: int,
) -> Seq<(TrbUpdateHeader, Seq<u8>)>
    decreases frames.len() - i,
{
    if i < 0 || i >= frames.len() {
        Seq::empty()
    } else if frames[i].json is None {
        replay(file, frames, headers, computed, i + 1)
    } else {
        match header_given(headers, i) {
            None => replay(file, frames, headers, computed, i + 1),
            Some(header) => match frames[i].blob {
                None => replay(file, frames, headers, computed, i + 1),
                Some(blob) => if stored_crc(file, blob) != computed[i] {
                    Seq::empty()
                } else {
                    seq![(header, part(file, blob))] + replay(file, frames, headers, computed, i + 1)
                },
            },
        }
    }
}

/// The checksum of each frame's blob; 0 where the blob is missing.
pub open spec fn blob_crcs(file: Seq<u8>, frames: Seq<UpdateFrame>) -> Seq<u32> {
    frames.map_values(
        |frame: UpdateFrame| match frame.blob {
            Some(blob) => crc32(part(file, blob)),
            None => 0u32,
        },
    )
}

/// Updates with their blobs as sequences.
pub open spec fn updates_view(updates: Seq<(TrbUpdateHeader, Vec<u8>)>) -> Seq<(TrbUpdateHeader, Seq<u8>)> {
    updates.map_values(|update: (TrbUpdateHeader, Vec<u8>)| (update.0, update.1@))
}

/// Whether the parts of a frame lie inside a file.
pub open spec fn frame_fits(file: Seq<u8>, frame: UpdateFrame) -> bool {
    &&& frame.start < frame.end <= file.len()
    &&& frame.json matches Some(json) ==> json.0 <= json.1 <= file.len()
    &&& frame.blob matches Some(blob) ==> frame.json is Some && blob.0 <= blob.1 && blob.1 + 4 <= file.len()
}

/// Trimming never lengthens.
pub proof fn lemma_trimmed_len(bytes: Seq<u8>)
    ensures
        trimmed_len(bytes) <= bytes.len(),
    decreases bytes.len(),
{
    if bytes.len() > 0 && bytes.last() == 0 {
        lemma_trimmed_len(bytes.drop_last());
    }
}

/// Every frame of a file lies inside it.
pub proof fn lemma_frames_fit(file: Seq<u8>, pos: int)
    requires
        file.len() <= usize::MAX,
    ensures
        forall|i: int| 0 <= i < frames_from(file, pos).len() ==> frame_fits(file, #[trigger] frames_from(file, pos)[i]),
    decreases file.len() - pos,
{
    if 0 <= pos < file.len() && frame_complete(file, pos) {
        let next = pos + 8 + frame_total(file, pos);
        let header = frame_header_len(file, pos);
        lemma_frames_fit(file, next);
        if pos + 16 <= file.len() && pos + 16 + header <= file.len() {
            lemma_trimmed_len(file.subrange(pos + 16, pos + 16 + header));
        }
        let frames = frames_from(file, pos);
        assert forall|i: int| 0 <= i < frames.len() implies frame_fits(file, #[trigger] frames[i]) by {
            if i > 0 {
                assert(frames[i] == frames_from(file, next)[i - 1]);
            }
        }
    }
}

/// A replay reads only what belongs to its frames.
pub proof fn lemma_replay_reads(
    file: Seq<u8>,
    frames: Seq<UpdateFrame>,
    headers: Seq<Option<TrbUpdateHeader>>,
    other_headers: Seq<Option<TrbUpdateHeader>>,
    computed: Seq<u32>,
    other_computed: Seq<u32>,
    from: int,
)
    requires
        0 <= from <= frames.len(),
        forall|i: int|
            0 <= i < frames.len() ==> #[trigger] header_given(headers, i) == header_given(other_headers, i)
                && computed[i] == other_computed[i],
    ensures
        replay(file, frames, headers, computed, from) == replay(file, frames, other_headers, other_computed, from),
    decreases frames.len() - from,
{
    if from < frames.len() {
        lemma_replay_reads(file, frames, headers, other_headers, computed, other_computed, from + 1);
        assert(header_given(headers, from) == header_given(other_headers, from));
    }
}

/// A blob that fails its checksum ends a replay.
pub proof fn lemma_chain_breaks(
    file: Seq<u8>,
    frames: Seq<UpdateFrame>,
    headers: Seq<Option<TrbUpdateHeader>>,
    computed: Seq<u32>,
    bad: int,
    from: int,
)
    requires
        0 <= from <= bad < frames.len(),
        frames[bad].json is Some,
        frames[bad].blob is Some,
        header_given(headers, bad) is Some,
        stored_crc(file, frames[bad].blob->0) != computed[bad],
    ensures
        replay(file, frames, headers, computed, from) == replay(file, frames.take(bad), headers, computed, from),
    decreases bad - from,
{
    if from < bad {
        lemma_chain_breaks(file, frames, headers, computed, bad, from + 1);
        assert(frames.take(bad)[from] == frames[from]);
    }
}

/// A copy of `file[start..end]`.
fn copy_range(file: &[u8], start: usize, end: usize) -> (copy: Vec<u8>)
    requires
        start <= end <= file@.len(),
    ensures
        copy@ == file@.subrange(start as int, end as int),
{
    let mut copy: Vec<u8> = Vec::new();
    let mut i: usize = start;
    while i < end
        invariant
            start <= i <= end <= file@.len(),
            copy@ == file@.subrange(start as int, i as int),
        decreases end - i,
    {
        copy.push(file[i]);
        i = i + 1;
        assert(copy@ =~= file@.subrange(start as int, i as int));
    }
    copy
}

/// Replays the update segments of a file from `first` on, given what each
/// segment's header parsed to and the checksum of each segment's blob.
pub fn replay_updates(
    file: &[u8],
    first: usize,
    headers: &[Option<TrbUpdateHeader>],
    computed: &[u32],
) -> (updates: Vec<(TrbUpdateHeader, Vec<u8>)>)
    requires
        computed@.len() == frames_from(file@, first as int).len(),
    ensures
        updates_view(updates@) == replay(file@, frames_from(file@, first as int), headers@, computed@, 0),
{
    let frames: Vec<UpdateFrame> = scan_frames(file, first);
    let size: usize = file.len();
    let count: usize = frames.len();
    let given: usize = headers.len();
    let mut updates: Vec<(TrbUpdateHeader, Vec<u8>)> = Vec::new();
    let mut i: usize = 0;
    let ghost whole = replay(file@, frames@, headers@, computed@, 0);
    proof {
        lemma_frames_fit(file@, first as int);
        assert(updates_view(updates@) + whole =~= whole);
    }
    while i < count
        invariant
            i <= count == frames@.len(),
            frames@ == frames_from(file@, first as int),
            size == file@.len(),
            given == headers@.len(),
            computed@.len() == count,
            forall|j: int| 0 <= j < count ==> frame_fits(file@, #[trigger] frames@[j]),
            whole == replay(file@, frames@, headers@, computed@, 0),
            updates_view(updates@) + replay(file@, frames@, headers@, computed@, i as int) == whole,
        decreases count - i,
    {
        let frame: UpdateFrame = frames[i];
        let ghost rest = replay(file@, frames@, headers@, computed@, i + 1);
        assert(frame_fits(file@, frame));
        assert(updates_view(updates@) + Seq::empty() =~= updates_view(updates@));
        if frame.json.is_some() && i < given {
            if let Some(header) = &headers[i] {
                match frame.blob {
                    None => {},
                    Some((start, end)) => {
                        proof {
                            lemma_le_value_bound(file@.subrange(end as int, end + 4));
                            lemma_byte_ranges();
                        }
                        let stored: u32 = read_le(file, end, 4) as u32;
                        if stored != computed[i] {
                            return updates;
                        }
                        let ghost before = updates_view(updates@);
                        let blob: Vec<u8> = copy_range(file, start, end);
                        let ghost entry = (*header, blob@);
                        updates.push((header.clone(), blob));
                        proof {
                            assert(updates_view(updates@) =~= before + seq![entry]);
                            assert(before + (seq![entry] + rest) =~= (before + seq![entry]) + rest);
                        }
                    },
                }
            }
        }
        i = i + 1;
    }
    assert(updates_view(updates@) + Seq::empty() =~= updates_view(updates@));
    updates
}

/// The outcome of reading the base blob at `offset`, where `computed` is the
/// checksum of the bytes that make up the blob.
pub open spec fn base_read(file: Seq<u8>, offset: nat, size: nat, computed: u32) -> Result<Seq<u8>, TrbError> {
    let end = (offset + size) as int;
    let stored = le_value(file.subrange(end, end + 4)) as u32;
    if end + 4 > file.len() {
        Err(TrbError::TruncatedBase)
    } else if stored != computed {
        Err(TrbError::BaseCrcMismatch { stored, computed })
    } else {
        Ok(file.subrange(offset as int, end))
    }
}

/// Compares the stored checksum of a base blob with the computed one.
pub fn check_base_crc(stored: u32, computed: u32) -> (checked: Result<(), TrbError>)
    ensures
        checked == (if stored == computed {
            Ok::<(), TrbError>(())
        } else {
            Err(TrbError::BaseCrcMismatch { stored, computed })
        }),
{
    if stored != computed {
        Err(TrbError::BaseCrcMismatch { stored, computed })
    } else {
        Ok(())
    }
}

/// A reader over the bytes of a TRB file, whether they were read into memory
/// or mapped.
pub struct TrbReader<'a> {
    bytes: &'a [u8],
    header: TrbHeader,
    base_blob_offset: usize,
}

impl<'a> TrbReader<'a> {
    /// The bytes that the reader works on.
    pub closed spec fn file(&self) -> Seq<u8> {
        self.bytes@
    }

    /// The parsed header.
    pub closed spec fn parsed_header(&self) -> TrbHeader {
        self.header
    }

    /// Whether the reader stands on a file that holds its header.
    pub closed spec fn wf(&self) -> bool {
        &&& has_header(self.bytes@)
        &&& self.base_blob_offset == base_offset(self.bytes@)
    }

    /// The size of the base blob that the header states.
    pub open spec fn blob_size(&self) -> nat {
        self.parsed_header().base_blob_size as nat
    }

    /// The base blob's bytes, or nothing where the file does not hold them all.
    pub open spec fn base_bytes(&self) -> Seq<u8> {
        self.file().subrange(
            base_offset(self.file()) as int,
            (base_offset(self.file()) + self.blob_size()) as int,
        )
    }

    /// Where the base blob lies.
    pub open spec fn base_range(&self) -> (usize, usize) {
        (base_offset(self.file()) as usize, (base_offset(self.file()) + self.blob_size()) as usize)
    }

    /// Whether the file holds the base blob and its checksum.
    pub open spec fn holds_base(&self) -> bool {
        base_offset(self.file()) + self.blob_size() + 4 <= self.file().len()
    }

    /// The update segments.
    pub open spec fn frames(&self) -> Seq<UpdateFrame> {
        frames_from(self.file(), updates_offset(self.file(), self.blob_size()) as int)
    }

    /// The updates, given what each segment's header parsed to.
    pub open spec fn updates(&self, headers: Seq<Option<TrbUpdateHeader>>) -> Seq<(TrbUpdateHeader, Seq<u8>)> {
        replay(self.file(), self.frames(), headers, blob_crcs(self.file(), self.frames()), 0)
    }

    /// The updates in the first `k` segments.
    pub open spec fn updates_before(&self, headers: Seq<Option<TrbUpdateHeader>>, k: int) -> Seq<
        (TrbUpdateHeader, Seq<u8>),
    > {
        let frames = self.frames().take(k);
        replay(self.file(), frames, headers, blob_crcs(self.file(), frames), 0)
    }

    /// Opens the bytes of a TRB file. `header` is what the JSON that
    /// [`locate_header`] finds was parsed to.
    pub fn open(bytes: &'a [u8], header: TrbHeader) -> (opened: Result<TrbReader<'a>, TrbError>)
        requires
            bytes@.len() + 8 <= usize::MAX,
        ensures
            match opened {
                Ok(reader) => {
                    &&& has_header(bytes@)
                    &&& reader.wf()
                    &&& reader.file() == bytes@
                    &&& reader.parsed_header() == header
                },
                Err(TrbError::TooSmallForFormat) => bytes@.len() < 4,
                Err(TrbError::InvalidMagic { got }) => {
                    &&& bytes@.len() >= 4
                    &&& bytes@.take(4) != TRB_MAGIC@
                    &&& got@ == bytes@.take(4)
                },
                Err(TrbError::TooSmallForHeaderSize) => 4 <= bytes@.len() < 12 && bytes@.take(4) == TRB_MAGIC@,
                Err(TrbError::TooSmallForHeader) => {
                    &&& bytes@.len() >= 12
                    &&& bytes@.take(4) == TRB_MAGIC@
                    &&& 12 + header_len(bytes@) > bytes@.len()
                },
                Err(_) => false,
            },
    {
        match locate_header(bytes) {
            Err(error) => Err(error),
            Ok((_, end)) => {
                let base_blob_offset: usize = end + alignment_padding(end);
                Ok(TrbReader { bytes, header, base_blob_offset })
            },
        }
    }

    /// The parsed header.
    pub fn header(&self) -> (header: &TrbHeader)
        ensures
            *header == self.parsed_header(),
    {
        &self.header
    }

    /// How many bytes the reader works on.
    pub fn mapped_size(&self) -> (size: usize)
        ensures
            size == self.file().len(),
    {
        self.bytes.len()
    }

    /// Where the base blob starts.
    pub fn base_blob_offset(&self) -> (offset: usize)
        requires
            self.wf(),
        ensures
            offset == base_offset(self.file()),
            offset % 8 == 0,
    {
        proof {
            lemma_base_offset_aligned(self.file());
        }
        self.base_blob_offset
    }

    /// The bytes of the base blob, once they have the stored checksum.
    pub fn base_blob_bytes(&self) -> (blob: Result<&'a [u8], TrbError>)
        requires
            self.wf(),
        ensures
            match (
                blob,
                base_read(self.file(), base_offset(self.file()), self.blob_size(), crc32(self.base_bytes())),
            ) {
                (Ok(bytes), Ok(expected)) => bytes@ == expected,
                (Err(error), Err(expected)) => error == expected,
                _ => false,
            },
            self.holds_base() && one_byte_changed(self.file(), self.base_range()) ==> blob matches Err(
                TrbError::BaseCrcMismatch { .. },
            ),
    {
        let total: usize = self.bytes.len();
        let offset: usize = self.base_blob_offset;
        let size: u64 = self.header.base_blob_size;
        if offset > total || total - offset < 4 || size > (total - offset - 4) as u64 {
            return Err(TrbError::TruncatedBase);
        }
        let end: usize = offset + size as usize;
        let blob: &'a [u8] = vstd::slice::slice_subrange(self.bytes, offset, end);
        proof {
            lemma_le_value_bound(self.bytes@.subrange(end as int, end + 4));
            lemma_byte_ranges();
        }
        let stored: u32 = read_le(self.bytes, end, 4) as u32;
        let computed: u32 = crc32_of(blob);
        match check_base_crc(stored, computed) {
            Err(error) => Err(error),
            Ok(()) => Ok(blob),
        }
    }

    /// A copy of the base blob, once it has the stored checksum.
    pub fn read_base_blob(&self) -> (blob: Result<Vec<u8>, TrbError>)
        requires
            self.wf(),
        ensures
            match (
                blob,
                base_read(self.file(), base_offset(self.file()), self.blob_size(), crc32(self.base_bytes())),
            ) {
                (Ok(bytes), Ok(expected)) => bytes@ == expected,
                (Err(error), Err(expected)) => error == expected,
                _ => false,
            },
            self.holds_base() && one_byte_changed(self.file(), self.base_range()) ==> blob matches Err(
                TrbError::BaseCrcMismatch { .. },
            ),
    {
        match self.base_blob_bytes() {
            Err(error) => Err(error),
            Ok(blob) => {
                let copy: Vec<u8> = copy_range(blob, 0, blob.len());
                assert(blob@.subrange(0, blob@.len() as int) =~= blob@);
                Ok(copy)
            },
        }
    }

    /// Lays the update segments open, so that their headers can be parsed.
    pub fn update_frames(&self) -> (frames: Vec<UpdateFrame>)
        requires
            self.wf(),
        ensures
            frames@ == self.frames(),
            forall|i: int| 0 <= i < frames@.len() ==> frame_fits(self.file(), #[trigger] frames@[i]),
    {
        let total: usize = self.bytes.len();
        proof {
            lemma_frames_fit(self.file(), updates_offset(self.file(), self.blob_size()) as int);
        }
        match self.updates_start() {
            None => Vec::new(),
            Some(first) => scan_frames(self.bytes, first),
        }
    }

    /// Where the update segments start; `None` past the end of the file.
    fn updates_start(&self) -> (start: Option<usize>)
        requires
            self.wf(),
        ensures
            match start {
                Some(first) => first == updates_offset(self.file(), self.blob_size()),
                None => updates_offset(self.file(), self.blob_size()) > self.file().len(),
            },
    {
        let total: usize = self.bytes.len();
        let offset: usize = self.base_blob_offset;
        let size: u64 = self.header.base_blob_size;
        if offset > total || total - offset < 4 || size > (total - offset - 4) as u64 {
            None
        } else {
            Some(offset + size as usize + 4)
        }
    }

    /// The valid updates in order, given what each segment's header parsed to.
    ///
    /// Segments without a parsed header or whose lengths contradict each other
    /// are passed over; a segment that is cut short or whose blob fails its
    /// checksum ends the list. None of this is an error.
    pub fn iter_updates(
        &self,
        headers: &[Option<TrbUpdateHeader>],
    ) -> (updates: Result<Vec<(TrbUpdateHeader, Vec<u8>)>, TrbError>)
        requires
            self.wf(),
        ensures
            updates is Ok,
            updates_view(updates->Ok_0@) == self.updates(headers@),
            forall|k: int|
                0 <= k < self.frames().len() && header_given(headers@, k) is Some && (
                #[trigger] self.frames()[k]).blob is Some && one_byte_changed(
                    self.file(),
                    self.frames()[k].blob->0,
                ) ==> updates_view(updates->Ok_0@) == self.updates_before(headers@, k),
    {
        let total: usize = self.bytes.len();
        let first: usize = match self.updates_start() {
            None => {
                let none: Vec<(TrbUpdateHeader, Vec<u8>)> = Vec::new();
                assert(updates_view(none@) =~= Seq::empty());
                return Ok(none);
            },
            Some(first) => first,
        };
        let frames: Vec<UpdateFrame> = scan_frames(self.bytes, first);
        let count: usize = frames.len();
        let mut computed: Vec<u32> = Vec::new();
        let mut i: usize = 0;
        proof {
            lemma_frames_fit(self.file(), first as int);
        }
        while i < count
            invariant
                i <= count == frames@.len(),
                frames@ == self.frames(),
                forall|j: int| 0 <= j < count ==> frame_fits(self.file(), #[trigger] frames@[j]),
                computed@ == blob_crcs(self.file(), frames@).take(i as int),
                forall|j: int|
                    0 <= j < i && (#[trigger] frames@[j]).blob is Some && one_byte_changed(
                        self.file(),
                        frames@[j].blob->0,
                    ) ==> stored_crc(self.file(), frames@[j].blob->0) != computed@[j],
            decreases count - i,
        {
            let frame: UpdateFrame = frames[i];
            assert(frame_fits(self.file(), frame));
            let crc: u32 = match frame.blob {
                Some((start, end)) => crc32_of(vstd::slice::slice_subrange(self.bytes, start, end)),
                None => 0,
            };
            computed.push(crc);
            i = i + 1;
            assert(computed@ =~= blob_crcs(self.file(), frames@).take(i as int));
        }
        assert(computed@ =~= blob_crcs(self.file(), frames@));
        proof {
            assert forall|k: int|
                0 <= k < frames@.len() && header_given(headers@, k) is Some && (#[trigger] frames@[k]).blob is Some
                    && one_byte_changed(self.file(), frames@[k].blob->0) implies self.updates(headers@)
                == self.updates_before(headers@, k) by {
                let earlier = frames@.take(k);
                assert(frame_fits(self.file(), frames@[k]));
                lemma_chain_breaks(self.file(), frames@, headers@, computed@, k, 0);
                lemma_replay_reads(
                    self.file(),
                    earlier,
                    headers@,
                    headers@,
                    computed@,
                    blob_crcs(self.file(), earlier),
                    0,
                );
            }
        }
        Ok(replay_updates(self.bytes, first, headers, &computed))
    }

    /// The base segment and the valid updates behind it.
    pub fn load_all_segments(
        &self,
        headers: &[Option<TrbUpdateHeader>],
    ) -> (segments: Result<Vec<TrbSegment>, TrbError>)
        requires
            self.wf(),
        ensures
            match base_read(self.file(), base_offset(self.file()), self.blob_size(), crc32(self.base_bytes())) {
                Err(error) => segments == Err::<Vec<TrbSegment>, TrbError>(error),
                Ok(base) => {
                    let updates = self.updates(headers@);
                    &&& segments is Ok
                    &&& segments->Ok_0@.len() == 1 + updates.len()
                    &&& segments->Ok_0@[0] matches TrbSegment::Base { header, blob }
                    &&& header == self.parsed_header()
                    &&& blob@ == base
                    &&& forall|i: int| 0 <= i < updates.len() ==> segment_is(#[trigger] segments->Ok_0@[i + 1], updates[i])
                },
            },
    {
        let base: Vec<u8> = match self.read_base_blob() {
            Err(error) => {
                return Err(error);
            },
            Ok(blob) => blob,
        };
        let updates: Vec<(TrbUpdateHeader, Vec<u8>)> = match self.iter_updates(headers) {
            Err(error) => {
                return Err(error);
            },
            Ok(updates) => updates,
        };
        let count: usize = updates.len();
        let ghost listed = updates_view(updates@);
        let ghost base_bytes = base@;
        let mut segments: Vec<TrbSegment> = Vec::new();
        segments.push(TrbSegment::Base { header: self.header.clone(), blob: base });
        let mut i: usize = 0;
        while i < count
            invariant
                i <= count == updates@.len(),
                listed == updates_view(updates@),
                segments@.len() == 1 + i,
                segments@[0] matches TrbSegment::Base { header, blob } && header == self.parsed_header() && blob@ == base_bytes,
                forall|j: int| 0 <= j < i ==> segment_is(#[trigger] segments@[j + 1], listed[j]),
            decreases count - i,
        {
            let ghost before = segments@;
            let header: TrbUpdateHeader = updates[i].0.clone();
            let blob: Vec<u8> = copy_range(&updates[i].1, 0, updates[i].1.len());
            assert(blob@ =~= updates@[i as int].1@);
            segments.push(TrbSegment::Update { header, blob });
            assert(segment_is(segments@[i + 1], listed[i as int]));
            assert forall|j: int| 0 <= j < i + 1 implies segment_is(#[trigger] segments@[j + 1], listed[j]) by {
                if j < i {
                    assert(segments@[j + 1] == before[j + 1]);
                }
            }
            i = i + 1;
        }
        Ok(segments)
    }
}

/// Whether a segment is a given update.
pub open spec fn segment_is(segment: TrbSegment, update: (TrbUpdateHeader, Seq<u8>)) -> bool {
    segment matches TrbSegment::Update { header, blob } && header == update.0 && blob@ == update.1
}

/// The base blob starts at a multiple of 8.
pub proof fn lemma_base_offset_aligned(file: Seq<u8>)
    ensures
        base_offset(file) % 8 == 0,
{
}

} // verus!
