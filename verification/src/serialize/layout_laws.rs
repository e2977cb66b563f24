//! What stands where in a file, byte by byte.

use crate::serialize::bytes::{le_bytes, le_value, lemma_le_bytes_len};
use crate::serialize::trb::{
    base_image, base_read, frame_at, frame_complete, frames_from, has_header, header_len, padded_len, padding, replay,
    segment_is, trimmed_len, update_image, TrbError, TrbSegment, TrbUpdateHeader, UpdateFrame, TRB_MAGIC,
};
use crate::text::{decimal, hexadecimal};
use vstd::arithmetic::power::pow;
use vstd::prelude::*;

verus! {

/// Numbers are written with their least byte first: each byte counts 256 times as
/// much as the one before it.
pub proof fn law_least_byte_first(value: nat, width: nat, i: int)
    requires
        0 <= i < width,
    ensures
        le_bytes(value, width).len() == width,
        le_bytes(value, width)[i] == (value as int / pow(256, i as nat)) % 256,
    decreases width,
{
    lemma_le_bytes_len(value, width);
    vstd::arithmetic::power::lemma_pow0(256);
    if i > 0 {
        law_least_byte_first(value / 256, (width - 1) as nat, i - 1);
        let rest = le_bytes(value / 256, (width - 1) as nat);
        assert(le_bytes(value, width)[i] == rest[i - 1]);
        let p = pow(256, (i - 1) as nat);
        vstd::arithmetic::power::lemma_pow_positive(256, (i - 1) as nat);
        reveal(pow);
        assert(pow(256, i as nat) == 256 * p);
        vstd::arithmetic::div_mod::lemma_div_denominator(value as int, 256, p);
    } else {
        assert(le_bytes(value, width)[0] == (value % 256) as u8);
        assert(value as int / 1 == value);
    }
}

/// Numbers are read that way too: a byte in front counts once, and what follows
/// it 256 times.
pub proof fn law_reading_starts_at_the_least_byte(first: u8, rest: Seq<u8>)
    ensures
        le_value(Seq::<u8>::empty()) == 0,
        le_value(seq![first]) == first,
        le_value(seq![first] + rest) == first + 256 * le_value(rest),
{
    assert((seq![first] + rest).drop_first() =~= rest);
    assert(seq![first].drop_first() =~= Seq::<u8>::empty());
    assert(le_value(Seq::<u8>::empty()) == 0);
}

/// Where blobs start: at the next multiple of 8, less than 8 bytes further on.
pub proof fn law_padding_reaches_the_next_multiple(pos: nat)
    ensures
        (pos + padding(pos)) % 8 == 0,
        padding(pos) < 8,
        pos % 8 == 0 ==> padding(pos) == 0,
{
}

/// A file begins with the letters TRB1 and the length of its header in 8 bytes.
/// The header follows, then zeros up to a multiple of 8, the blob, and the
/// checksum in 4 bytes.
pub proof fn law_layout_of_the_base(json: Seq<u8>, blob: Seq<u8>, crc: u32, i: int)
    ensures
        ({
            let image = base_image(json, blob, crc);
            let start = 12 + json.len() + padding(12 + json.len());
            &&& image.len() == start + blob.len() + 4
            &&& start % 8 == 0 && start < 12 + json.len() + 8
            &&& image[0] == 'T' as u8 && image[1] == 'R' as u8 && image[2] == 'B' as u8 && image[3] == '1' as u8
            &&& 0 <= i < 8 ==> image[4 + i] == (json.len() as int / pow(256, i as nat)) % 256
            &&& 0 <= i < json.len() ==> image[12 + i] == json[i]
            &&& 12 + json.len() <= i < start ==> image[i] == 0
            &&& 0 <= i < blob.len() ==> image[start + i] == blob[i]
            &&& 0 <= i < 4 ==> image[start + blob.len() + i] == (crc as int / pow(256, i as nat)) % 256
        }),
{
    lemma_le_bytes_len(json.len(), 8);
    lemma_le_bytes_len(crc as nat, 4);
    if 0 <= i < 8 {
        law_least_byte_first(json.len(), 8, i);
    }
    if 0 <= i < 4 {
        law_least_byte_first(crc as nat, 4, i);
    }
    assert(TRB_MAGIC@[0] == 84 && TRB_MAGIC@[1] == 82 && TRB_MAGIC@[2] == 66 && TRB_MAGIC@[3] == 49);
    assert('T' as u8 == 84 && 'R' as u8 == 82 && 'B' as u8 == 66 && '1' as u8 == 49);
}

/// An update begins with the number of bytes that follow and the length of its
/// header with the zeros behind it, each in 8 bytes. The header follows, then the
/// zeros that bring the blob to a multiple of 8 in the file, the blob, and the
/// checksum in 4 bytes.
pub proof fn law_layout_of_an_update(at: nat, json: Seq<u8>, blob: Seq<u8>, crc: u32, i: int)
    ensures
        ({
            let image = update_image(at, json, blob, crc);
            let header = padded_len(at, json);
            let total = image.len() - 8;
            let start = 16 + header;
            &&& image.len() == start + blob.len() + 4
            &&& (at + start) % 8 == 0
            &&& json.len() <= header < json.len() + 8
            &&& 0 <= i < 8 ==> image[i] == (total / pow(256, i as nat)) % 256
            &&& 0 <= i < 8 ==> image[8 + i] == (header as int / pow(256, i as nat)) % 256
            &&& 0 <= i < json.len() ==> image[16 + i] == json[i]
            &&& 16 + json.len() <= i < start ==> image[i] == 0
            &&& 0 <= i < blob.len() ==> image[start + i] == blob[i]
            &&& 0 <= i < 4 ==> image[start + blob.len() + i] == (crc as int / pow(256, i as nat)) % 256
        }),
{
    let header = padded_len(at, json);
    lemma_le_bytes_len(12 + header + blob.len(), 8);
    lemma_le_bytes_len(header, 8);
    lemma_le_bytes_len(crc as nat, 4);
    if 0 <= i < 8 {
        law_least_byte_first(12 + header + blob.len(), 8, i);
        law_least_byte_first(header, 8, i);
    }
    if 0 <= i < 4 {
        law_least_byte_first(crc as nat, 4, i);
    }
}

/// Which files have a header: those that begin with the letters and are long
/// enough for the length, and for as many bytes as it says.
pub proof fn law_files_with_a_header(file: Seq<u8>)
    ensures
        has_header(file) <==> {
            &&& file.len() >= 12
            &&& file[0] == 84 && file[1] == 82 && file[2] == 66 && file[3] == 49
            &&& le_value(file.subrange(4, 12)) + 12 <= file.len()
        },
        header_len(file) == le_value(file.subrange(4, 12)),
{
    assert(TRB_MAGIC@[0] == 84 && TRB_MAGIC@[1] == 82 && TRB_MAGIC@[2] == 66 && TRB_MAGIC@[3] == 49);
    if file.len() >= 12 && file[0] == 84 && file[1] == 82 && file[2] == 66 && file[3] == 49 {
        assert(file.take(4) =~= TRB_MAGIC@);
    }
    if file.len() >= 12 && file.take(4) == TRB_MAGIC@ {
        assert(file[0] == file.take(4)[0] && file[1] == file.take(4)[1] && file[2] == file.take(4)[2] && file[3]
            == file.take(4)[3]);
    }
}

/// Trimming takes the zeros off the end and nothing else.
pub proof fn law_trimming_takes_zeros_off(bytes: Seq<u8>, i: int)
    ensures
        trimmed_len(bytes) <= bytes.len(),
        trimmed_len(bytes) > 0 ==> bytes[trimmed_len(bytes) - 1] != 0,
        trimmed_len(bytes) <= i < bytes.len() ==> bytes[i] == 0,
    decreases bytes.len(),
{
    if bytes.len() > 0 && bytes.last() == 0 {
        law_trimming_takes_zeros_off(bytes.drop_last(), i);
    }
}

/// What is read of an update: it ends as many bytes behind its first field as
/// that says, its header follows the second one, its blob follows the header and
/// leaves 4 bytes for the checksum.
pub proof fn law_fields_of_an_update(file: Seq<u8>, pos: int)
    requires
        0 <= pos,
        frame_complete(file, pos),
        file.len() <= usize::MAX,
    ensures
        ({
            let total = le_value(file.subrange(pos, pos + 8));
            let header = le_value(file.subrange(pos + 8, pos + 16));
            let frame = frame_at(file, pos);
            &&& pos + 8 + total <= file.len()
            &&& frame.start == pos
            &&& frame.end == pos + 8 + total
            &&& frame.json is Some <==> pos + 16 <= file.len() && pos + 16 + header <= file.len()
            &&& frame.json is Some ==> (frame.json->0).0 == pos + 16 && (frame.json->0).1 == pos + 16 + trimmed_len(
                file.subrange(pos + 16, pos + 16 + header),
            )
            &&& frame.blob is Some <==> frame.json is Some && header + 12 <= total
            &&& frame.blob is Some ==> (frame.blob->0).0 == pos + 16 + header && (frame.blob->0).1 == frame.end - 4
        }),
{
    let header = le_value(file.subrange(pos + 8, pos + 16));
    if pos + 16 <= file.len() && pos + 16 + header <= file.len() {
        law_trimming_takes_zeros_off(file.subrange(pos + 16, pos + 16 + header), 0);
    }
}

/// Updates are read one behind the other until one is not complete.
pub proof fn law_updates_follow_each_other(file: Seq<u8>, pos: int)
    requires
        0 <= pos,
    ensures
        pos + 8 > file.len() ==> frames_from(file, pos).len() == 0,
        pos + 8 <= file.len() && pos + 8 + le_value(file.subrange(pos, pos + 8)) > file.len() ==> frames_from(
            file,
            pos,
        ).len() == 0,
        pos + 8 <= file.len() && pos + 8 + le_value(file.subrange(pos, pos + 8)) <= file.len() ==> frames_from(file, pos)
            == seq![frame_at(file, pos)] + frames_from(file, pos + 8 + le_value(file.subrange(pos, pos + 8))),
{
}

/// An update whose header cannot be read, or that has no room for a blob, is
/// passed over; one whose checksum is right is given with its header and its
/// blob, before those behind it; one whose checksum is wrong ends the list.
pub proof fn law_updates_are_given_in_order(
    file: Seq<u8>,
    frames: Seq<UpdateFrame>,
    headers: Seq<Option<TrbUpdateHeader>>,
    computed: Seq<u32>,
    i: int,
)
    requires
        0 <= i < frames.len(),
    ensures
        ({
            let behind = replay(file, frames, headers, computed, i + 1);
            let header = if i < headers.len() {
                headers[i]
            } else {
                None
            };
            let frame = frames[i];
            let given = replay(file, frames, headers, computed, i);
            &&& frame.json is None || header is None || frame.blob is None ==> given == behind
            &&& frame.json is Some && header is Some && frame.blob is Some ==> {
                let blob = frame.blob->0;
                let stored = le_value(file.subrange(blob.1 as int, blob.1 + 4)) as u32;
                &&& stored == computed[i] ==> given == seq![
                    (header->0, file.subrange(blob.0 as int, blob.1 as int)),
                ] + behind
                &&& stored != computed[i] ==> given.len() == 0
            }
        }),
{
}

/// The base is read when it is there with its checksum and the checksum is
/// right; otherwise what is wrong is told.
pub proof fn law_base_is_checked(file: Seq<u8>, offset: nat, size: nat, computed: u32)
    ensures
        ({
            let read = base_read(file, offset, size, computed);
            let end = (offset + size) as int;
            let stored = le_value(file.subrange(end, end + 4)) as u32;
            &&& end + 4 > file.len() ==> read == Err::<Seq<u8>, TrbError>(TrbError::TruncatedBase)
            &&& end + 4 <= file.len() && stored != computed ==> read == Err::<Seq<u8>, TrbError>(
                TrbError::BaseCrcMismatch { stored, computed },
            )
            &&& end + 4 <= file.len() && stored == computed ==> read == Ok::<Seq<u8>, TrbError>(
                file.subrange(offset as int, end),
            )
        }),
{
}

/// A segment is an update with its header and its blob.
pub proof fn law_segments_hold_updates(segment: TrbSegment, update: (TrbUpdateHeader, Seq<u8>))
    requires
        segment_is(segment, update),
    ensures
        segment matches TrbSegment::Update { header, blob } && header == update.0 && blob@ == update.1,
{
}

/// What is told of a file that cannot be read.
pub proof fn law_texts_of_errors(error: TrbError)
    ensures
        error is TooSmallForFormat ==> error.text() == "File too small for TRB format"@,
        error is TooSmallForHeaderSize ==> error.text() == "File too small for header size"@,
        error is TooSmallForHeader ==> error.text() == "File too small for header"@,
        error is TruncatedBase ==> error.text() == "File truncated: missing base blob or CRC"@,
        error matches TrbError::InvalidMagic { got } ==> error.text()
            == "Invalid TRB magic: expected [84, 82, 66, 49], got "@ + ("["@ + decimal(got@[0] as nat) + ", "@ + decimal(
            got@[1] as nat,
        ) + ", "@ + decimal(got@[2] as nat) + ", "@ + decimal(got@[3] as nat) + "]"@),
        error matches TrbError::BaseCrcMismatch { stored, computed } ==> error.text()
            == "Base blob CRC mismatch: stored=0x"@ + hexadecimal(stored as nat) + ", computed=0x"@ + hexadecimal(
            computed as nat,
        ),
{
}

} // verus!
