//! What the TRB format promises as a whole: reads give back writes, appending
//! keeps what is there, and a crash or a flipped byte costs no earlier segment.

use crate::serialize::bytes::{
    byte_range, le_bytes, le_value, lemma_byte_ranges, lemma_le_bytes_len, lemma_le_round_trip,
};
use crate::serialize::trb::{
    base_image, base_offset, base_read, blob_crcs, crc32, frame_at, frame_complete, frame_fits, frame_header_len,
    frame_total, frames_from, has_header, header_given, header_len, lemma_chain_breaks, lemma_frames_fit,
    lemma_replay_reads, one_byte_apart, one_byte_changed, padded_len, padding, part, replay, stored_crc, trimmed_len,
    update_image, updates_offset, zeros, TrbError, TrbUpdateHeader, UpdateFrame, TRB_MAGIC,
};
use vstd::prelude::*;

verus! {

/// Whether a length can be written in the format's eight-byte fields.
pub open spec fn fits_u64(len: nat) -> bool {
    len < byte_range(8)
}

/// A base segment gives back the header JSON and the blob that were written,
/// whatever was appended behind it, and the updates start right behind it.
pub proof fn law_base_round_trip(json: Seq<u8>, blob: Seq<u8>, appended: Seq<u8>)
    requires
        fits_u64(json.len()),
    ensures
        ({
            let file = base_image(json, blob, crc32(blob)) + appended;
            &&& has_header(file)
            &&& header_len(file) == json.len()
            &&& file.subrange(12, 12 + json.len() as int) == json
            &&& file.subrange(base_offset(file) as int, (base_offset(file) + blob.len()) as int) == blob
            &&& base_read(file, base_offset(file), blob.len(), crc32(blob)) == Ok::<Seq<u8>, TrbError>(blob)
            &&& updates_offset(file, blob.len()) == base_image(json, blob, crc32(blob)).len()
        }),
{
    let crc = crc32(blob);
    let image = base_image(json, blob, crc);
    let file = image + appended;
    let pad = padding(12 + json.len());
    lemma_le_bytes_len(json.len(), 8);
    lemma_le_bytes_len(crc as nat, 4);
    lemma_le_round_trip(json.len(), 8);
    lemma_byte_ranges();
    lemma_le_round_trip(crc as nat, 4);
    assert(file.take(4) =~= TRB_MAGIC@);
    assert(file.subrange(4, 12) =~= le_bytes(json.len(), 8));
    assert(file.subrange(12, 12 + json.len() as int) =~= json);
    let start = base_offset(file) as int;
    let end = start + blob.len();
    assert(file.subrange(start, end) =~= blob);
    assert(file.subrange(end, end + 4) =~= le_bytes(crc as nat, 4));
}

/// Any change of the base blob or of its checksum that makes the two disagree
/// is reported with both checksums, and no blob is handed out.
pub proof fn law_base_corruption_is_reported(file: Seq<u8>, offset: nat, size: nat)
    requires
        offset + size + 4 <= file.len(),
    ensures
        ({
            let blob = file.subrange(offset as int, (offset + size) as int);
            let stored = le_value(file.subrange((offset + size) as int, offset + size + 4int)) as u32;
            let read = base_read(file, offset, size, crc32(blob));
            &&& read is Ok <==> stored == crc32(blob)
            &&& read is Ok ==> read->Ok_0 == blob
            &&& read is Err ==> read->Err_0 == TrbError::BaseCrcMismatch {
                stored,
                computed: crc32(blob),
            }
        }),
{
}

/// Whether the bytes from `pos` on are whole update segments without gaps,
/// each long enough for its header and its checksum.
pub open spec fn tiled(file: Seq<u8>, pos: int) -> bool
    decreases file.len() - pos,
{
    ||| pos == file.len()
    ||| {
        &&& 0 <= pos < file.len()
        &&& frame_complete(file, pos)
        &&& 12 + frame_header_len(file, pos) <= frame_total(file, pos)
        &&& tiled(file, pos + 8 + frame_total(file, pos))
    }
}

/// Bytes behind a segment do not change how it reads.
proof fn lemma_frame_extends(file: Seq<u8>, more: Seq<u8>, pos: int)
    requires
        0 <= pos,
        frame_complete(file, pos),
        12 + frame_header_len(file, pos) <= frame_total(file, pos),
    ensures
        frame_complete(file + more, pos),
        frame_total(file + more, pos) == frame_total(file, pos),
        frame_header_len(file + more, pos) == frame_header_len(file, pos),
        frame_at(file + more, pos) == frame_at(file, pos),
{
    let header = frame_header_len(file, pos);
    assert((file + more).subrange(pos, pos + 8) =~= file.subrange(pos, pos + 8));
    assert((file + more).subrange(pos + 8, pos + 16) =~= file.subrange(pos + 8, pos + 16));
    assert((file + more).subrange(pos + 16, pos + 16 + header) =~= file.subrange(pos + 16, pos + 16 + header));
}

/// Bytes behind whole segments only add to the list of segments.
proof fn lemma_frames_extend(file: Seq<u8>, more: Seq<u8>, pos: int)
    requires
        0 <= pos,
        tiled(file, pos),
    ensures
        frames_from(file + more, pos) == frames_from(file, pos) + frames_from(file + more, file.len() as int),
    decreases file.len() - pos,
{
    if pos == file.len() {
        assert(frames_from(file, pos) =~= Seq::empty());
        assert(frames_from(file + more, pos) =~= Seq::empty() + frames_from(file + more, file.len() as int));
    } else {
        let next = pos + 8 + frame_total(file, pos);
        lemma_frame_extends(file, more, pos);
        lemma_frames_extend(file, more, next);
        assert(frames_from(file + more, pos) =~= frames_from(file, pos) + frames_from(
            file + more,
            file.len() as int,
        ));
    }
}

/// Whole segments behind whole segments are whole segments.
proof fn lemma_tiled_extends(file: Seq<u8>, more: Seq<u8>, pos: int)
    requires
        0 <= pos,
        tiled(file, pos),
        tiled(file + more, file.len() as int),
    ensures
        tiled(file + more, pos),
    decreases file.len() - pos,
{
    if pos != file.len() {
        lemma_frame_extends(file, more, pos);
        lemma_tiled_extends(file, more, pos + 8 + frame_total(file, pos));
    }
}

/// A segment that fills a file from `at` to its end is the last one.
proof fn lemma_last_frame(file: Seq<u8>, at: int)
    requires
        0 <= at < file.len(),
        frame_complete(file, at),
        at + 8 + frame_total(file, at) == file.len(),
        12 + frame_header_len(file, at) <= frame_total(file, at),
    ensures
        frames_from(file, at) == seq![frame_at(file, at)],
        tiled(file, at),
{
    assert(frames_from(file, file.len() as int) =~= Seq::empty());
    assert(frames_from(file, at) =~= seq![frame_at(file, at)]);
    assert(tiled(file, file.len() as int));
}

/// Cutting off the zeros behind a sequence that ends in a non-zero byte (or is
/// empty) leaves that sequence.
proof fn lemma_trim_padding(json: Seq<u8>, count: nat)
    requires
        json.len() > 0 ==> json.last() != 0,
    ensures
        trimmed_len(json + zeros(count)) == json.len(),
    decreases count,
{
    let padded = json + zeros(count);
    if count == 0 {
        assert(padded =~= json);
    } else {
        assert(padded.drop_last() =~= json + zeros((count - 1) as nat));
        lemma_trim_padding(json, (count - 1) as nat);
    }
}

/// Whether the update segment at `at` reads as `json`, `blob` and `crc` and
/// takes `size` bytes.
pub open spec fn update_stands_at(
    file: Seq<u8>,
    at: int,
    size: int,
    json: Seq<u8>,
    blob: Seq<u8>,
    crc: u32,
) -> bool {
    &&& size == 20 + padded_len(at as nat, json) + blob.len()
    &&& at + size <= file.len()
    &&& frame_total(file, at) == size - 8
    &&& frame_header_len(file, at) == padded_len(at as nat, json)
    &&& file.subrange(at + 16, at + 16 + padded_len(at as nat, json)) == json + zeros(padding(at as nat + 16 + json.len()))
    &&& file.subrange(at + 16 + padded_len(at as nat, json), at + size - 4) == blob
    &&& le_value(file.subrange(at + size - 4, at + size)) == crc
}

/// What stands at the end of a file after an update was appended to it.
proof fn lemma_appended_update(file: Seq<u8>, json: Seq<u8>, blob: Seq<u8>, crc: u32)
    requires
        fits_u64(12 + padded_len(file.len(), json) + blob.len()),
    ensures
        update_stands_at(
            file + update_image(file.len(), json, blob, crc),
            file.len() as int,
            update_image(file.len(), json, blob, crc).len() as int,
            json,
            blob,
            crc,
        ),
{
    let image = update_image(file.len(), json, blob, crc);
    let whole = file + image;
    let at = file.len() as int;
    let total = 12 + padded_len(file.len(), json) + blob.len();
    lemma_le_bytes_len(total, 8);
    lemma_le_bytes_len(padded_len(file.len(), json), 8);
    lemma_le_bytes_len(crc as nat, 4);
    lemma_le_round_trip(total, 8);
    lemma_le_round_trip(padded_len(file.len(), json), 8);
    lemma_byte_ranges();
    lemma_le_round_trip(crc as nat, 4);
    assert(whole.subrange(at, at + 8) =~= le_bytes(total, 8));
    assert(whole.subrange(at + 8, at + 16) =~= le_bytes(padded_len(file.len(), json), 8));
    assert(whole.subrange(at + 16, at + 16 + padded_len(file.len(), json)) =~= json + zeros(padding(file.len() + 16 + json.len())));
    assert(whole.subrange(at + 16 + padded_len(file.len(), json), at + image.len() - 4) =~= blob);
    assert(whole.subrange(at + image.len() - 4, at + image.len()) =~= le_bytes(crc as nat, 4));
}

/// How an update segment is laid open.
proof fn lemma_update_frame(file: Seq<u8>, at: int, size: int, json: Seq<u8>, blob: Seq<u8>, crc: u32)
    requires
        0 <= at,
        update_stands_at(file, at, size, json, blob, crc),
        json.len() > 0 ==> json.last() != 0,
        file.len() <= usize::MAX,
    ensures
        frame_complete(file, at),
        frame_reads_as(file, frame_at(file, at), json, blob, crc),
        frame_at(file, at).start == at,
        frame_at(file, at).end == at + size,
{
    let zeroed = json + zeros(padding(at as nat + 16 + json.len()));
    lemma_trim_padding(json, padding(at as nat + 16 + json.len()));
    assert(file.subrange(at + 16, at + 16 + json.len()) =~= zeroed.take(json.len() as int));
    assert(zeroed.take(json.len() as int) =~= json);
}

/// Whether a frame gives `json` and `blob`, with `crc` stored behind the blob
/// and the blob at a multiple of 8 in the file.
pub open spec fn frame_reads_as(file: Seq<u8>, frame: UpdateFrame, json: Seq<u8>, blob: Seq<u8>, crc: u32) -> bool {
    &&& frame.json is Some && part(file, frame.json->0) == json
    &&& frame.blob is Some && part(file, frame.blob->0) == blob
    &&& stored_crc(file, frame.blob->0) == crc
    &&& (frame.blob->0).0 % 8 == 0
}

/// Appending an update to a file of whole segments keeps every segment that is
/// there and adds exactly one: the new segment reads as the header JSON and
/// the blob that were written, with the checksum that was stored, and its blob
/// starts at a multiple of 8 in the file.
pub proof fn law_append_adds_one_update(file: Seq<u8>, first: int, json: Seq<u8>, blob: Seq<u8>, crc: u32)
    requires
        0 <= first,
        tiled(file, first),
        json.len() > 0 ==> json.last() != 0,
        file.len() + json.len() + blob.len() + 28 <= usize::MAX,
    ensures
        ({
            let longer = file + update_image(file.len(), json, blob, crc);
            let added = frame_at(longer, file.len() as int);
            &&& frames_from(longer, first) == frames_from(file, first).push(added)
            &&& tiled(longer, first)
            &&& added.start == file.len()
            &&& added.end == longer.len()
            &&& frame_reads_as(longer, added, json, blob, crc)
        }),
{
    lemma_byte_ranges();
    lemma_appended_update(file, json, blob, crc);
    lemma_update_image_len(file.len(), json, blob, crc);
    lemma_append(file, update_image(file.len(), json, blob, crc), first, json, blob, crc);
}

proof fn lemma_append(file: Seq<u8>, image: Seq<u8>, first: int, json: Seq<u8>, blob: Seq<u8>, crc: u32)
    requires
        0 <= first,
        tiled(file, first),
        json.len() > 0 ==> json.last() != 0,
        (file + image).len() <= usize::MAX,
        update_stands_at(file + image, file.len() as int, image.len() as int, json, blob, crc),
    ensures
        frames_from(file + image, first) == frames_from(file, first).push(frame_at(file + image, file.len() as int)),
        tiled(file + image, first),
        frame_at(file + image, file.len() as int).start == file.len(),
        frame_at(file + image, file.len() as int).end == (file + image).len(),
        frame_reads_as(file + image, frame_at(file + image, file.len() as int), json, blob, crc),
{
    let at = file.len() as int;
    lemma_update_frame(file + image, at, image.len() as int, json, blob, crc);
    lemma_last_frame(file + image, at);
    lemma_frames_extend(file, image, first);
    lemma_tiled_extends(file, image, first);
    assert(frames_from(file + image, first) =~= frames_from(file, first).push(frame_at(file + image, at)));
}

/// An update that was cut short anywhere is ignored: the file has the same
/// segments, and gives the same updates, as before the update was begun.
pub proof fn law_truncated_update_is_ignored(
    file: Seq<u8>,
    first: int,
    json: Seq<u8>,
    blob: Seq<u8>,
    crc: u32,
    written: int,
)
    requires
        0 <= first,
        tiled(file, first),
        fits_u64(json.len() + blob.len() + 28),
        0 <= written < update_image(file.len(), json, blob, crc).len(),
        file.len() <= usize::MAX,
    ensures
        ({
            let cut = file + update_image(file.len(), json, blob, crc).take(written);
            let frames = frames_from(file, first);
            &&& frames_from(cut, first) == frames
            &&& forall|headers: Seq<Option<TrbUpdateHeader>>| #[trigger]
                replay(cut, frames, headers, blob_crcs(cut, frames), 0) == replay(
                    file,
                    frames,
                    headers,
                    blob_crcs(file, frames),
                    0,
                )
        }),
{
    lemma_appended_update(file, json, blob, crc);
    lemma_truncated(file, update_image(file.len(), json, blob, crc), first, written);
    lemma_frames_fit(file, first);
    let rest = update_image(file.len(), json, blob, crc).take(written);
    let frames = frames_from(file, first);
    assert forall|headers: Seq<Option<TrbUpdateHeader>>| #[trigger]
        replay(file + rest, frames, headers, blob_crcs(file + rest, frames), 0) == replay(
            file,
            frames,
            headers,
            blob_crcs(file, frames),
            0,
        ) by {
        lemma_replay_extends(file, rest, frames, headers, 0);
    }
}

/// Bytes behind the segments do not change the updates that they give.
proof fn lemma_replay_extends(
    file: Seq<u8>,
    more: Seq<u8>,
    frames: Seq<UpdateFrame>,
    headers: Seq<Option<TrbUpdateHeader>>,
    from: int,
)
    requires
        0 <= from <= frames.len(),
        forall|i: int| 0 <= i < frames.len() ==> frame_fits(file, #[trigger] frames[i]),
    ensures
        replay(file + more, frames, headers, blob_crcs(file + more, frames), from) == replay(
            file,
            frames,
            headers,
            blob_crcs(file, frames),
            from,
        ),
    decreases frames.len() - from,
{
    if from < frames.len() {
        lemma_replay_extends(file, more, frames, headers, from + 1);
        assert(frame_fits(file, frames[from]));
        if let Some(blob) = frames[from].blob {
            assert(part(file + more, blob) =~= part(file, blob));
            assert((file + more).subrange(blob.1 as int, blob.1 + 4) =~= file.subrange(blob.1 as int, blob.1 + 4));
        }
    }
}

proof fn lemma_truncated(file: Seq<u8>, image: Seq<u8>, first: int, written: int)
    requires
        0 <= first,
        tiled(file, first),
        frame_total(file + image, file.len() as int) == image.len() - 8,
        0 <= written < image.len(),
    ensures
        frames_from(file + image.take(written), first) == frames_from(file, first),
{
    let cut = image.take(written);
    let at = file.len() as int;
    let shorter = file + cut;
    lemma_frames_extend(file, cut, first);
    if written >= 8 {
        assert(shorter.subrange(at, at + 8) =~= (file + image).subrange(at, at + 8));
    }
    assert(frames_from(shorter, at) =~= Seq::empty());
    assert(frames_from(file, first) + Seq::empty() =~= frames_from(file, first));
}

/// A blob that fails its checksum ends the list of updates: what is read is
/// what a file would give that ended before it, whatever comes behind.
pub proof fn law_corrupt_update_breaks_the_chain(
    file: Seq<u8>,
    frames: Seq<UpdateFrame>,
    headers: Seq<Option<TrbUpdateHeader>>,
    computed: Seq<u32>,
    bad: int,
)
    requires
        0 <= bad < frames.len(),
        frames[bad].json is Some,
        frames[bad].blob is Some,
        header_given(headers, bad) is Some,
        stored_crc(file, frames[bad].blob->0) != computed[bad],
    ensures
        replay(file, frames, headers, computed, 0) == replay(file, frames.take(bad), headers, computed, 0),
{
    lemma_chain_breaks(file, frames, headers, computed, bad, 0);
}

/// The bytes of a file with a base segment and updates appended in order, each
/// given by its header JSON and its blob.
#[verifier::opaque]
pub open spec fn journal(json: Seq<u8>, blob: Seq<u8>, updates: Seq<(Seq<u8>, Seq<u8>)>) -> Seq<u8>
    decreases updates.len(),
{
    if updates.len() == 0 {
        base_image(json, blob, crc32(blob))
    } else {
        journal(json, blob, updates.drop_last()) + update_image(
            journal(json, blob, updates.drop_last()).len(),
            updates.last().0,
            updates.last().1,
            crc32(updates.last().1),
        )
    }
}

/// Whether header JSON can stand in front of padding: it does not end in a
/// zero byte.
pub open spec fn header_texts_ok(updates: Seq<(Seq<u8>, Seq<u8>)>) -> bool {
    forall|i: int| 0 <= i < updates.len() && (#[trigger] updates[i]).0.len() > 0 ==> updates[i].0.last() != 0
}

/// Updates stand behind the base segment.
proof fn lemma_journal_starts_with_base(json: Seq<u8>, blob: Seq<u8>, updates: Seq<(Seq<u8>, Seq<u8>)>) -> (appended:
    Seq<u8>)
    ensures
        journal(json, blob, updates) == base_image(json, blob, crc32(blob)) + appended,
    decreases updates.len(),
{
    reveal(journal);
    let base = base_image(json, blob, crc32(blob));
    if updates.len() == 0 {
        lemma_add_empty(base);
        Seq::empty()
    } else {
        let before = lemma_journal_starts_with_base(json, blob, updates.drop_last());
        let earlier = journal(json, blob, updates.drop_last());
        let image = update_image(earlier.len(), updates.last().0, updates.last().1, crc32(updates.last().1));
        lemma_add_assoc(base, before, image);
        before + image
    }
}

proof fn lemma_add_assoc(a: Seq<u8>, b: Seq<u8>, c: Seq<u8>)
    ensures
        (a + b) + c == a + (b + c),
{
    assert((a + b) + c =~= a + (b + c));
}

proof fn lemma_add_empty(a: Seq<u8>)
    ensures
        a == a + Seq::<u8>::empty(),
{
    assert(a =~= a + Seq::<u8>::empty());
}

/// Bytes behind a file do not change what its frames give.
proof fn lemma_frame_reads_extend(
    file: Seq<u8>,
    more: Seq<u8>,
    frame: UpdateFrame,
    json: Seq<u8>,
    blob: Seq<u8>,
    crc: u32,
)
    requires
        frame_fits(file, frame),
        frame_reads_as(file, frame, json, blob, crc),
    ensures
        frame_reads_as(file + more, frame, json, blob, crc),
{
    let longer = file + more;
    assert(part(longer, frame.json->0) =~= part(file, frame.json->0));
    assert(part(longer, frame.blob->0) =~= part(file, frame.blob->0));
    let end = (frame.blob->0).1 as int;
    assert(longer.subrange(end, end + 4) =~= file.subrange(end, end + 4));
}

/// The frames of a journal are its updates.
proof fn lemma_journal_frames(json: Seq<u8>, blob: Seq<u8>, updates: Seq<(Seq<u8>, Seq<u8>)>)
    requires
        fits_u64(json.len()),
        header_texts_ok(updates),
        journal(json, blob, updates).len() <= usize::MAX,
    ensures
        ({
            let file = journal(json, blob, updates);
            let first = base_image(json, blob, crc32(blob)).len() as int;
            let frames = frames_from(file, first);
            &&& first <= file.len()
            &&& tiled(file, first)
            &&& frames.len() == updates.len()
            &&& forall|i: int|
                0 <= i < updates.len() ==> frame_reads_as(
                    file,
                    #[trigger] frames[i],
                    updates[i].0,
                    updates[i].1,
                    crc32(updates[i].1),
                )
        }),
    decreases updates.len(),
{
    reveal(journal);
    let file = journal(json, blob, updates);
    let base = base_image(json, blob, crc32(blob));
    let first = base.len() as int;
    if updates.len() == 0 {
        assert(frames_from(file, first) =~= Seq::empty());
    } else {
        let earlier = updates.drop_last();
        let before = journal(json, blob, earlier);
        let last = updates.last();
        let image = update_image(before.len(), last.0, last.1, crc32(last.1));
        assert forall|i: int| 0 <= i < earlier.len() && (#[trigger] earlier[i]).0.len() > 0 implies earlier[i].0.last()
            != 0 by {
            assert(earlier[i] == updates[i]);
        }
        lemma_journal_frames(json, blob, earlier);
        lemma_frames_fit(before, first);
        lemma_update_image_len(before.len(), last.0, last.1, crc32(last.1));
        assert(updates[updates.len() - 1] == last);
        lemma_byte_ranges();
        lemma_appended_update(before, last.0, last.1, crc32(last.1));
        lemma_journal_step(before, image, first, earlier, last);
        assert(earlier.push(last) =~= updates);
    }
}

proof fn lemma_update_image_len(at: nat, json: Seq<u8>, blob: Seq<u8>, crc: u32)
    ensures
        update_image(at, json, blob, crc).len() == 20 + padded_len(at, json) + blob.len(),
{
    lemma_le_bytes_len(12 + padded_len(at, json) + blob.len(), 8);
    lemma_le_bytes_len(padded_len(at, json), 8);
    lemma_le_bytes_len(crc as nat, 4);
}

proof fn lemma_journal_step(
    before: Seq<u8>,
    image: Seq<u8>,
    first: int,
    earlier: Seq<(Seq<u8>, Seq<u8>)>,
    last: (Seq<u8>, Seq<u8>),
)
    requires
        0 <= first <= before.len(),
        tiled(before, first),
        frames_from(before, first).len() == earlier.len(),
        forall|i: int|
            0 <= i < earlier.len() ==> frame_fits(before, #[trigger] frames_from(before, first)[i]) && frame_reads_as(
                before,
                frames_from(before, first)[i],
                earlier[i].0,
                earlier[i].1,
                crc32(earlier[i].1),
            ),
        last.0.len() > 0 ==> last.0.last() != 0,
        before.len() + image.len() <= usize::MAX,
        update_stands_at(before + image, before.len() as int, image.len() as int, last.0, last.1, crc32(last.1)),
    ensures
        ({
            let frames = frames_from(before + image, first);
            let updates = earlier.push(last);
            &&& tiled(before + image, first)
            &&& frames.len() == updates.len()
            &&& forall|i: int|
                0 <= i < updates.len() ==> frame_reads_as(
                    before + image,
                    #[trigger] frames[i],
                    updates[i].0,
                    updates[i].1,
                    crc32(updates[i].1),
                )
        }),
{
    let frames = frames_from(before + image, first);
    let updates = earlier.push(last);
    lemma_append(before, image, first, last.0, last.1, crc32(last.1));
    assert forall|i: int| 0 <= i < updates.len() implies frame_reads_as(
        before + image,
        #[trigger] frames[i],
        updates[i].0,
        updates[i].1,
        crc32(updates[i].1),
    ) by {
        if i < earlier.len() {
            assert(frames[i] == frames_from(before, first)[i]);
            lemma_frame_reads_extend(before, image, frames[i], earlier[i].0, earlier[i].1, crc32(earlier[i].1));
        }
    }
}

/// Updates as they are read back: each with what its header parsed to.
pub open spec fn given_updates(updates: Seq<(Seq<u8>, Seq<u8>)>, headers: Seq<TrbUpdateHeader>) -> Seq<
    (TrbUpdateHeader, Seq<u8>),
> {
    Seq::new(updates.len(), |i: int| (headers[i], updates[i].1))
}

/// Reading a file gives back everything that was written to it: the header
/// JSON, the base blob, and every appended update in order, each with its
/// header and its blob.
pub proof fn law_journal_round_trip(
    json: Seq<u8>,
    blob: Seq<u8>,
    updates: Seq<(Seq<u8>, Seq<u8>)>,
    headers: Seq<TrbUpdateHeader>,
)
    requires
        fits_u64(json.len()),
        header_texts_ok(updates),
        journal(json, blob, updates).len() <= usize::MAX,
        headers.len() == updates.len(),
    ensures
        ({
            let file = journal(json, blob, updates);
            let frames = frames_from(file, updates_offset(file, blob.len()) as int);
            let parsed = headers.map_values(|header: TrbUpdateHeader| Some(header));
            &&& has_header(file)
            &&& file.subrange(12, 12 + header_len(file) as int) == json
            &&& base_read(file, base_offset(file), blob.len(), crc32(blob)) == Ok::<Seq<u8>, TrbError>(blob)
            &&& frames.len() == updates.len()
            &&& forall|i: int| 0 <= i < updates.len() ==> part(file, (#[trigger] frames[i]).json->0) == updates[i].0
            &&& replay(file, frames, parsed, blob_crcs(file, frames), 0) == given_updates(updates, headers)
        }),
{
    let file = journal(json, blob, updates);
    let appended = lemma_journal_starts_with_base(json, blob, updates);
    law_base_round_trip(json, blob, appended);
    lemma_journal_frames(json, blob, updates);
    lemma_replay_all(file, frames_from(file, updates_offset(file, blob.len()) as int), updates, headers, 0);
    let all = given_updates(updates, headers);
    assert(all.skip(0) =~= all);
}

proof fn lemma_replay_all(
    file: Seq<u8>,
    frames: Seq<UpdateFrame>,
    updates: Seq<(Seq<u8>, Seq<u8>)>,
    headers: Seq<TrbUpdateHeader>,
    from: int,
)
    requires
        0 <= from <= updates.len(),
        frames.len() == updates.len() == headers.len(),
        forall|i: int|
            0 <= i < updates.len() ==> frame_reads_as(
                file,
                #[trigger] frames[i],
                updates[i].0,
                updates[i].1,
                crc32(updates[i].1),
            ),
    ensures
        replay(
            file,
            frames,
            headers.map_values(|header: TrbUpdateHeader| Some(header)),
            blob_crcs(file, frames),
            from,
        ) == given_updates(updates, headers).skip(from),
    decreases updates.len() - from,
{
    let all = given_updates(updates, headers);
    if from == updates.len() {
        assert(all.skip(from) =~= Seq::empty());
    } else {
        lemma_replay_all(file, frames, updates, headers, from + 1);
        assert(frame_reads_as(file, frames[from], updates[from].0, updates[from].1, crc32(updates[from].1)));
        assert(all.skip(from) =~= seq![all[from]] + all.skip(from + 1));
    }
}

/// What a file gives that starts with a journal and whose segments behind it
/// give nothing.
proof fn lemma_journal_then_nothing(
    json: Seq<u8>,
    blob: Seq<u8>,
    updates: Seq<(Seq<u8>, Seq<u8>)>,
    headers: Seq<TrbUpdateHeader>,
    parsed: Seq<Option<TrbUpdateHeader>>,
    computed: Seq<u32>,
    tail: Seq<u8>,
)
    requires
        fits_u64(json.len()),
        header_texts_ok(updates),
        journal(json, blob, updates).len() <= usize::MAX,
        headers.len() == updates.len(),
        forall|i: int| 0 <= i < headers.len() ==> #[trigger] header_given(parsed, i) == Some(headers[i]),
        ({
            let file = journal(json, blob, updates) + tail;
            let frames = frames_from(
                journal(json, blob, updates),
                base_image(json, blob, crc32(blob)).len() as int,
            );
            forall|i: int|
                0 <= i < frames.len() ==> #[trigger] computed[i] == blob_crcs(file, frames)[i]
        }),
    ensures
        ({
            let file = journal(json, blob, updates) + tail;
            let frames = frames_from(
                journal(json, blob, updates),
                base_image(json, blob, crc32(blob)).len() as int,
            );
            &&& has_header(file)
            &&& file.subrange(12, 12 + header_len(file) as int) == json
            &&& base_read(file, base_offset(file), blob.len(), crc32(blob)) == Ok::<Seq<u8>, TrbError>(blob)
            &&& updates_offset(file, blob.len()) == base_image(json, blob, crc32(blob)).len()
            &&& frames.len() == updates.len()
            &&& forall|i: int|
                0 <= i < frames.len() ==> (#[trigger] frames[i]).json is Some && frames[i].blob is Some
            &&& replay(file, frames, parsed, computed, 0) == given_updates(updates, headers)
        }),
{
    let whole = journal(json, blob, updates);
    let file = whole + tail;
    let first = base_image(json, blob, crc32(blob)).len() as int;
    let frames = frames_from(whole, first);
    let appended = lemma_journal_starts_with_base(json, blob, updates);
    lemma_add_assoc(base_image(json, blob, crc32(blob)), appended, tail);
    law_base_round_trip(json, blob, appended + tail);
    lemma_journal_frames(json, blob, updates);
    lemma_frames_fit(whole, first);
    let known = headers.map_values(|header: TrbUpdateHeader| Some(header));
    lemma_replay_reads(file, frames, parsed, known, computed, blob_crcs(file, frames), 0);
    lemma_replay_extends(whole, tail, frames, known, 0);
    lemma_replay_all(whole, frames, updates, headers, 0);
    assert(given_updates(updates, headers).skip(0) =~= given_updates(updates, headers));
    assert forall|i: int| 0 <= i < frames.len() implies (#[trigger] frames[i]).json is Some
        && frames[i].blob is Some by {
        assert(frame_reads_as(whole, frames[i], updates[i].0, updates[i].1, crc32(updates[i].1)));
    }
}

/// A journal starts with the journals of its first updates.
proof fn lemma_journal_prefix(json: Seq<u8>, blob: Seq<u8>, updates: Seq<(Seq<u8>, Seq<u8>)>, k: int)
    requires
        0 <= k <= updates.len(),
    ensures
        journal(json, blob, updates.take(k)).len() <= journal(json, blob, updates).len(),
        journal(json, blob, updates).take(journal(json, blob, updates.take(k)).len() as int) == journal(
            json,
            blob,
            updates.take(k),
        ),
    decreases updates.len(),
{
    reveal(journal);
    let whole = journal(json, blob, updates);
    if k == updates.len() {
        assert(updates.take(k) =~= updates);
        assert(whole.take(whole.len() as int) =~= whole);
    } else {
        let earlier = updates.drop_last();
        assert(earlier.take(k) =~= updates.take(k));
        lemma_journal_prefix(json, blob, earlier, k);
        let start = journal(json, blob, updates.take(k)).len() as int;
        assert(whole.take(start) =~= journal(json, blob, earlier).take(start));
    }
}

/// The journal of the first `k + 1` updates is that of the first `k` and a
/// segment behind it.
proof fn lemma_journal_next(json: Seq<u8>, blob: Seq<u8>, updates: Seq<(Seq<u8>, Seq<u8>)>, k: int) -> (image: Seq<u8>)
    requires
        0 <= k < updates.len(),
        header_texts_ok(updates),
        journal(json, blob, updates.take(k + 1)).len() <= usize::MAX,
    ensures
        journal(json, blob, updates.take(k + 1)) == journal(json, blob, updates.take(k)) + image,
        header_texts_ok(updates.take(k)),
        update_stands_at(
            journal(json, blob, updates.take(k)) + image,
            journal(json, blob, updates.take(k)).len() as int,
            image.len() as int,
            updates[k].0,
            updates[k].1,
            crc32(updates[k].1),
        ),
{
    reveal(journal);
    let before = journal(json, blob, updates.take(k));
    assert(updates.take(k + 1).drop_last() =~= updates.take(k));
    assert forall|i: int| 0 <= i < k && (#[trigger] updates.take(k)[i]).0.len() > 0 implies updates.take(
        k,
    )[i].0.last() != 0 by {
        assert(updates.take(k)[i] == updates[i]);
    }
    lemma_update_image_len(before.len(), updates[k].0, updates[k].1, crc32(updates[k].1));
    lemma_byte_ranges();
    lemma_appended_update(before, updates[k].0, updates[k].1, crc32(updates[k].1));
    update_image(before.len(), updates[k].0, updates[k].1, crc32(updates[k].1))
}

/// Cutting a file off inside a segment leaves what stands before the segment
/// and some of its bytes.
proof fn lemma_cut_file(whole: Seq<u8>, before: Seq<u8>, image: Seq<u8>, cut: int)
    requires
        before.len() <= cut < (before + image).len() <= whole.len(),
        whole.take((before + image).len() as int) == before + image,
    ensures
        whole.take(cut) == before + image.take(cut - before.len()),
{
    let next = before + image;
    assert forall|i: int| 0 <= i < cut implies #[trigger] whole[i] == next[i] by {
        assert(whole.take(next.len() as int)[i] == next[i]);
    }
    assert(whole.take(cut) =~= before + image.take(cut - before.len()));
}

/// How a file is laid open that has whole segments, and behind them a segment
/// whose blob or checksum was changed.
proof fn lemma_damaged_frames(
    before: Seq<u8>,
    image: Seq<u8>,
    damaged: Seq<u8>,
    first: int,
    json: Seq<u8>,
    blob: Seq<u8>,
    crc: u32,
)
    requires
        0 <= first,
        tiled(before, first),
        update_stands_at(before + image, before.len() as int, image.len() as int, json, blob, crc),
        (before + image).len() <= damaged.len() <= usize::MAX,
        ({
            let blob_at = (before + image).len() - 4 - blob.len();
            damaged.take(blob_at) == (before + image).take(blob_at)
        }),
    ensures
        ({
            let earlier = frames_from(before, first);
            let frames = frames_from(damaged, first);
            let end = (before + image).len() as int;
            &&& damaged == before + damaged.skip(before.len() as int)
            &&& frames.len() > earlier.len()
            &&& frames.take(earlier.len() as int) == earlier
            &&& frames[earlier.len() as int].json is Some
            &&& frames[earlier.len() as int].blob == Some(((end - 4 - blob.len()) as usize, (end - 4) as usize))
        }),
{
    let next = before + image;
    let at = before.len() as int;
    let tail = damaged.skip(at);
    let end = next.len() as int;
    let blob_at = end - 4 - blob.len();
    assert forall|i: int| 0 <= i < blob_at implies #[trigger] damaged[i] == next[i] by {
        assert(damaged.take(blob_at)[i] == next.take(blob_at)[i]);
    }
    assert(damaged =~= before + tail);
    lemma_frames_extend(before, tail, first);
    assert(damaged.subrange(at, at + 8) =~= next.subrange(at, at + 8));
    assert(damaged.subrange(at + 8, at + 16) =~= next.subrange(at + 8, at + 16));
    let earlier = frames_from(before, first);
    let frames = frames_from(damaged, first);
    let bad = frame_at(damaged, at);
    assert(frame_complete(damaged, at));
    assert(frames_from(damaged, at)[0] == bad);
    assert(frames[earlier.len() as int] == bad);
    assert(frames.take(earlier.len() as int) =~= earlier);
}

/// A journal that is cut off inside segment `k` reads as its base and its first
/// `k` updates.
pub proof fn law_cut_journal_keeps_earlier_updates(
    json: Seq<u8>,
    blob: Seq<u8>,
    updates: Seq<(Seq<u8>, Seq<u8>)>,
    headers: Seq<TrbUpdateHeader>,
    k: int,
    cut: int,
)
    requires
        fits_u64(json.len()),
        header_texts_ok(updates),
        journal(json, blob, updates).len() <= usize::MAX,
        headers.len() == updates.len(),
        0 <= k < updates.len(),
        journal(json, blob, updates.take(k)).len() <= cut < journal(json, blob, updates.take(k + 1)).len(),
    ensures
        ({
            let file = journal(json, blob, updates).take(cut);
            let frames = frames_from(file, updates_offset(file, blob.len()) as int);
            let parsed = headers.map_values(|header: TrbUpdateHeader| Some(header));
            &&& has_header(file)
            &&& file.subrange(12, 12 + header_len(file) as int) == json
            &&& base_read(file, base_offset(file), blob.len(), crc32(blob)) == Ok::<Seq<u8>, TrbError>(blob)
            &&& replay(file, frames, parsed, blob_crcs(file, frames), 0) == given_updates(updates, headers).take(k)
        }),
{
    let whole = journal(json, blob, updates);
    let before = journal(json, blob, updates.take(k));
    lemma_journal_prefix(json, blob, updates, k);
    lemma_journal_prefix(json, blob, updates, k + 1);
    let image = lemma_journal_next(json, blob, updates, k);
    let written = cut - before.len();
    let tail = image.take(written);
    let first = base_image(json, blob, crc32(blob)).len() as int;
    let parsed = headers.map_values(|header: TrbUpdateHeader| Some(header));
    lemma_cut_file(whole, before, image, cut);
    lemma_journal_frames(json, blob, updates.take(k));
    lemma_truncated(before, image, first, written);
    let frames = frames_from(before, first);
    assert forall|i: int| 0 <= i < headers.take(k).len() implies #[trigger] header_given(parsed, i) == Some(
        headers.take(k)[i],
    ) by {}
    lemma_journal_then_nothing(
        json,
        blob,
        updates.take(k),
        headers.take(k),
        parsed,
        blob_crcs(before + tail, frames),
        tail,
    );
    assert(given_updates(updates.take(k), headers.take(k)) =~= given_updates(updates, headers).take(k));
}

/// How a journal is laid open whose segment `k` has a blob or a checksum that was
/// changed: up to that segment it reads as it was written.
proof fn lemma_damaged_journal(
    json: Seq<u8>,
    blob: Seq<u8>,
    updates: Seq<(Seq<u8>, Seq<u8>)>,
    headers: Seq<TrbUpdateHeader>,
    k: int,
    damaged: Seq<u8>,
)
    requires
        fits_u64(json.len()),
        header_texts_ok(updates),
        journal(json, blob, updates).len() <= usize::MAX,
        damaged.len() <= usize::MAX,
        headers.len() == updates.len(),
        0 <= k < updates.len(),
        ({
            let end = journal(json, blob, updates.take(k + 1)).len() as int;
            let blob_at = end - 4 - updates[k].1.len();
            &&& end <= damaged.len()
            &&& damaged.take(blob_at) == journal(json, blob, updates).take(blob_at)
        }),
    ensures
        ({
            let end = journal(json, blob, updates.take(k + 1)).len() as int;
            let frames = frames_from(damaged, updates_offset(damaged, blob.len()) as int);
            let parsed = headers.map_values(|header: TrbUpdateHeader| Some(header));
            &&& has_header(damaged)
            &&& damaged.subrange(12, 12 + header_len(damaged) as int) == json
            &&& base_read(damaged, base_offset(damaged), blob.len(), crc32(blob)) == Ok::<Seq<u8>, TrbError>(blob)
            &&& k < frames.len()
            &&& frames[k].json is Some
            &&& end - 4 - updates[k].1.len() >= 0
            &&& frames[k].blob == Some(((end - 4 - updates[k].1.len()) as usize, (end - 4) as usize))
            &&& replay(damaged, frames.take(k), parsed, blob_crcs(damaged, frames.take(k)), 0) == given_updates(
                updates,
                headers,
            ).take(k)
        }),
{
    let before = journal(json, blob, updates.take(k));
    lemma_journal_prefix(json, blob, updates, k);
    lemma_journal_prefix(json, blob, updates, k + 1);
    let image = lemma_journal_next(json, blob, updates, k);
    let next = before + image;
    let first = base_image(json, blob, crc32(blob)).len() as int;
    let parsed = headers.map_values(|header: TrbUpdateHeader| Some(header));
    let tail = damaged.skip(before.len() as int);
    let end = next.len() as int;
    let blob_at = end - 4 - updates[k].1.len();
    assert(damaged.take(blob_at) =~= next.take(blob_at)) by {
        assert(next == journal(json, blob, updates).take(end));
        assert(next.take(blob_at) =~= journal(json, blob, updates).take(blob_at));
    }
    lemma_journal_frames(json, blob, updates.take(k));
    lemma_damaged_frames(before, image, damaged, first, updates[k].0, updates[k].1, crc32(updates[k].1));
    let earlier = frames_from(before, first);
    let frames = frames_from(damaged, first);
    assert(earlier.len() == k);
    assert forall|i: int| 0 <= i < headers.take(k).len() implies #[trigger] header_given(parsed, i) == Some(
        headers.take(k)[i],
    ) by {}
    lemma_journal_then_nothing(
        json,
        blob,
        updates.take(k),
        headers.take(k),
        parsed,
        blob_crcs(damaged, earlier),
        tail,
    );
    assert(given_updates(updates.take(k), headers.take(k)) =~= given_updates(updates, headers).take(k));
}

/// A journal whose segment `k` has a blob or a checksum that was changed so that
/// the two disagree reads as its base and its first `k` updates, whatever stands
/// behind that segment.
pub proof fn law_damaged_journal_keeps_earlier_updates(
    json: Seq<u8>,
    blob: Seq<u8>,
    updates: Seq<(Seq<u8>, Seq<u8>)>,
    headers: Seq<TrbUpdateHeader>,
    k: int,
    damaged: Seq<u8>,
)
    requires
        fits_u64(json.len()),
        header_texts_ok(updates),
        journal(json, blob, updates).len() <= usize::MAX,
        damaged.len() <= usize::MAX,
        headers.len() == updates.len(),
        0 <= k < updates.len(),
        ({
            let end = journal(json, blob, updates.take(k + 1)).len() as int;
            let blob_at = end - 4 - updates[k].1.len();
            &&& end <= damaged.len()
            &&& damaged.take(blob_at) == journal(json, blob, updates).take(blob_at)
            &&& le_value(damaged.subrange(end - 4, end)) as u32 != crc32(damaged.subrange(blob_at, end - 4))
        }),
    ensures
        ({
            let frames = frames_from(damaged, updates_offset(damaged, blob.len()) as int);
            let parsed = headers.map_values(|header: TrbUpdateHeader| Some(header));
            &&& has_header(damaged)
            &&& damaged.subrange(12, 12 + header_len(damaged) as int) == json
            &&& base_read(damaged, base_offset(damaged), blob.len(), crc32(blob)) == Ok::<Seq<u8>, TrbError>(blob)
            &&& replay(damaged, frames, parsed, blob_crcs(damaged, frames), 0) == given_updates(
                updates,
                headers,
            ).take(k)
        }),
{
    lemma_damaged_journal(json, blob, updates, headers, k, damaged);
    let frames = frames_from(damaged, updates_offset(damaged, blob.len()) as int);
    let parsed = headers.map_values(|header: TrbUpdateHeader| Some(header));
    let computed = blob_crcs(damaged, frames);
    let earlier = frames.take(k);
    assert(computed[k] == crc32(part(damaged, frames[k].blob->0)));
    assert(stored_crc(damaged, frames[k].blob->0) != computed[k]);
    law_corrupt_update_breaks_the_chain(damaged, frames, parsed, computed, k);
    lemma_replay_reads(damaged, earlier, parsed, parsed, computed, blob_crcs(damaged, earlier), 0);
}

/// Where one byte of the blob of segment `k` of a journal was changed, that shows:
/// the segment is one that `TrbReader::iter_updates` stops at, and what stands
/// before it are the base and the first `k` updates.
pub proof fn law_changed_byte_hides_later_updates(
    json: Seq<u8>,
    blob: Seq<u8>,
    updates: Seq<(Seq<u8>, Seq<u8>)>,
    headers: Seq<TrbUpdateHeader>,
    k: int,
    at: int,
    value: u8,
)
    requires
        fits_u64(json.len()),
        header_texts_ok(updates),
        journal(json, blob, updates).len() <= usize::MAX,
        headers.len() == updates.len(),
        0 <= k < updates.len(),
        0 <= at < updates[k].1.len(),
        value != updates[k].1[at],
    ensures
        ({
            let blob_at = journal(json, blob, updates.take(k + 1)).len() - 4 - updates[k].1.len();
            let damaged = journal(json, blob, updates).update(blob_at + at, value);
            let frames = frames_from(damaged, updates_offset(damaged, blob.len()) as int);
            let parsed = headers.map_values(|header: TrbUpdateHeader| Some(header));
            &&& has_header(damaged)
            &&& damaged.subrange(12, 12 + header_len(damaged) as int) == json
            &&& base_read(damaged, base_offset(damaged), blob.len(), crc32(blob)) == Ok::<Seq<u8>, TrbError>(blob)
            &&& k < frames.len()
            &&& header_given(parsed, k) == Some(headers[k])
            &&& frames[k].blob is Some
            &&& one_byte_changed(damaged, frames[k].blob->0)
            &&& replay(damaged, frames.take(k), parsed, blob_crcs(damaged, frames.take(k)), 0) == given_updates(
                updates,
                headers,
            ).take(k)
        }),
{
    let whole = journal(json, blob, updates);
    let before = journal(json, blob, updates.take(k));
    lemma_journal_prefix(json, blob, updates, k + 1);
    let image = lemma_journal_next(json, blob, updates, k);
    let next = before + image;
    let end = next.len() as int;
    let written = updates[k].1;
    let blob_at = end - 4 - written.len();
    let damaged = whole.update(blob_at + at, value);
    let crc = crc32(written);
    assert(next == whole.take(end));
    assert(damaged.take(blob_at) =~= whole.take(blob_at));
    lemma_damaged_journal(json, blob, updates, headers, k, damaged);
    let range = ((end - 4 - written.len()) as usize, (end - 4) as usize);
    assert(next.subrange(blob_at, end - 4) == written);
    assert forall|i: int| 0 <= i < written.len() implies #[trigger] whole[blob_at + i] == written[i] by {
        assert(whole[blob_at + i] == next[blob_at + i]);
        assert(next.subrange(blob_at, end - 4)[i] == written[i]);
    }
    let changed = part(damaged, range);
    assert(changed =~= written.update(at, value));
    assert(written =~= changed.update(at, written[at]));
    assert(one_byte_apart(changed, written));
    assert(damaged.subrange(end - 4, end) =~= next.subrange(end - 4, end));
    lemma_byte_ranges();
    assert(stored_crc(damaged, range) == crc);
}

/// Where one byte of the base blob was changed, that shows: the file still has
/// its header, and the blob is one that `TrbReader::read_base_blob` reports.
pub proof fn law_changed_byte_of_the_base_shows(
    json: Seq<u8>,
    blob: Seq<u8>,
    appended: Seq<u8>,
    at: int,
    value: u8,
)
    requires
        fits_u64(json.len()),
        (base_image(json, blob, crc32(blob)) + appended).len() <= usize::MAX,
        0 <= at < blob.len(),
        value != blob[at],
    ensures
        ({
            let written = base_image(json, blob, crc32(blob)) + appended;
            let damaged = written.update(base_offset(written) + at, value);
            let start = base_offset(damaged);
            &&& has_header(damaged)
            &&& damaged.subrange(12, 12 + header_len(damaged) as int) == json
            &&& start + blob.len() + 4 <= damaged.len()
            &&& one_byte_changed(damaged, (start as usize, (start + blob.len()) as usize))
        }),
{
    let written = base_image(json, blob, crc32(blob)) + appended;
    let start = base_offset(written) as int;
    let end = start + blob.len();
    let damaged = written.update(start + at, value);
    let crc = crc32(blob);
    law_base_round_trip(json, blob, appended);
    lemma_le_bytes_len(json.len(), 8);
    lemma_le_bytes_len(crc as nat, 4);
    lemma_byte_ranges();
    assert(damaged.take(4) =~= written.take(4));
    assert(damaged.subrange(4, 12) =~= written.subrange(4, 12));
    assert(damaged.subrange(12, 12 + json.len() as int) =~= written.subrange(12, 12 + json.len() as int));
    let range = (start as usize, end as usize);
    let changed = part(damaged, range);
    assert forall|i: int| 0 <= i < blob.len() implies #[trigger] written[start + i] == blob[i] by {
        assert(written.subrange(start, end)[i] == blob[i]);
    }
    assert(changed =~= blob.update(at, value));
    assert(blob =~= changed.update(at, blob[at]));
    assert(one_byte_apart(changed, blob));
    assert(damaged.subrange(end, end + 4) =~= written.subrange(end, end + 4));
}

/// Blobs are aligned: wherever a segment starts in a file, its blob starts at a
/// multiple of 8 in the file.
pub proof fn law_blobs_are_aligned(at: nat, json: Seq<u8>, blob: Seq<u8>, crc: u32)
    ensures
        ({
            let base = 12 + json.len() + padding(12 + json.len());
            let update = 16 + padded_len(at, json);
            &&& base % 8 == 0
            &&& base_image(json, blob, crc).subrange(base as int, (base + blob.len()) as int) == blob
            &&& (at + update) % 8 == 0
            &&& update_image(at, json, blob, crc).subrange(update as int, (update + blob.len()) as int) == blob
        }),
{
    let base = 12 + json.len() + padding(12 + json.len());
    let update = 16 + padded_len(at, json);
    lemma_le_bytes_len(json.len(), 8);
    lemma_le_bytes_len(crc as nat, 4);
    lemma_le_bytes_len(12 + padded_len(at, json) + blob.len(), 8);
    lemma_le_bytes_len(padded_len(at, json), 8);
    assert(base_image(json, blob, crc).subrange(base as int, (base + blob.len()) as int) =~= blob);
    assert(update_image(at, json, blob, crc).subrange(update as int, (update + blob.len()) as int) =~= blob);
}

} // verus!
