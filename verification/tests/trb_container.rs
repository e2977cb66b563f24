//! The TRB container: writing, appending, reading back, and damage.

use serde_json::Value;
use std::time::{SystemTime, UNIX_EPOCH};
use treeboost::serialize::trb::{
    alignment_padding, base_segment, check_base_crc, encode_base, encode_update, locate_header, replay_updates,
    scan_frames, update_segment, TrbError, TrbHeader, TrbReader, TrbSegment, TrbUpdateHeader, UpdateType,
    FORMAT_VERSION, TRB_MAGIC,
};

fn current_timestamp() -> u64 {
    SystemTime::now().duration_since(UNIX_EPOCH).unwrap().as_secs()
}

fn create_test_header() -> TrbHeader {
    TrbHeader {
        format_version: FORMAT_VERSION,
        model_type: "universal".to_string(),
        created_at: current_timestamp(),
        boosting_mode: "PureTree".to_string(),
        num_features: 10,
        base_blob_size: 0,
        metadata: "Test model".to_string(),
    }
}

fn header_fields(header: &TrbHeader) -> serde_json::Map<String, Value> {
    let mut fields = serde_json::Map::new();
    fields.insert("format_version".to_string(), Value::from(header.format_version));
    fields.insert("model_type".to_string(), Value::from(header.model_type.as_str()));
    fields.insert("created_at".to_string(), Value::from(header.created_at));
    fields.insert("boosting_mode".to_string(), Value::from(header.boosting_mode.as_str()));
    fields.insert("num_features".to_string(), Value::from(header.num_features));
    fields.insert("base_blob_size".to_string(), Value::from(header.base_blob_size));
    fields.insert("metadata".to_string(), Value::from(header.metadata.as_str()));
    fields
}

fn to_json(fields: serde_json::Map<String, Value>) -> Vec<u8> {
    serde_json::to_vec(&Value::Object(fields)).unwrap()
}

fn parse_header(json: &[u8]) -> TrbHeader {
    let value: Value = serde_json::from_slice(json).unwrap();
    TrbHeader {
        format_version: value["format_version"].as_u64().unwrap() as u32,
        model_type: value["model_type"].as_str().unwrap().to_string(),
        created_at: value["created_at"].as_u64().unwrap(),
        boosting_mode: value["boosting_mode"].as_str().unwrap().to_string(),
        num_features: value["num_features"].as_u64().unwrap() as usize,
        base_blob_size: value["base_blob_size"].as_u64().unwrap(),
        metadata: value["metadata"].as_str().unwrap().to_string(),
    }
}

fn update_json(header: &TrbUpdateHeader) -> Vec<u8> {
    let kind = match header.update_type {
        UpdateType::Linear => "Linear",
        UpdateType::Trees => "Trees",
        UpdateType::Preprocessor => "Preprocessor",
        UpdateType::Snapshot => "Snapshot",
    };
    let mut fields = serde_json::Map::new();
    fields.insert("update_type".to_string(), Value::from(kind));
    fields.insert("created_at".to_string(), Value::from(header.created_at));
    fields.insert("rows_trained".to_string(), Value::from(header.rows_trained));
    fields.insert("description".to_string(), Value::from(header.description.as_str()));
    to_json(fields)
}

fn parse_update(json: &[u8]) -> Option<TrbUpdateHeader> {
    let value: Value = serde_json::from_slice(json).ok()?;
    let update_type = match value["update_type"].as_str()? {
        "Linear" => UpdateType::Linear,
        "Trees" => UpdateType::Trees,
        "Preprocessor" => UpdateType::Preprocessor,
        "Snapshot" => UpdateType::Snapshot,
        _ => return None,
    };
    Some(TrbUpdateHeader {
        update_type,
        created_at: value["created_at"].as_u64()?,
        rows_trained: value["rows_trained"].as_u64()? as usize,
        description: value["description"].as_str()?.to_string(),
    })
}

fn write_base(header: TrbHeader, blob: &[u8]) -> Vec<u8> {
    let header = header.for_blob(blob);
    encode_base(&to_json(header_fields(&header)), blob)
}

fn append_update(file: &mut Vec<u8>, header: &TrbUpdateHeader, blob: &[u8]) {
    let image = encode_update(file.len(), &update_json(header), blob);
    file.extend(image);
}

fn open_reader(file: &[u8]) -> Result<TrbReader<'_>, TrbError> {
    let (start, end) = locate_header(file)?;
    TrbReader::open(file, parse_header(&file[start..end]))
}

/// The parsed headers of the updates, up to the first that is no header.
fn parse_updates(file: &[u8], reader: &TrbReader<'_>) -> Vec<Option<TrbUpdateHeader>> {
    reader
        .update_frames()
        .iter()
        .map(|frame| frame.json.and_then(|(start, end)| parse_update(&file[start..end])))
        .collect()
}

fn iter_updates(file: &[u8], reader: &TrbReader<'_>) -> Result<Vec<(TrbUpdateHeader, Vec<u8>)>, TrbError> {
    reader.iter_updates(&parse_updates(file, reader))
}

fn load_all_segments(file: &[u8]) -> Vec<TrbSegment> {
    let reader = open_reader(file).unwrap();
    let headers = parse_updates(file, &reader);
    reader.load_all_segments(&headers).unwrap()
}

fn trees_update(rows_trained: usize, description: String) -> TrbUpdateHeader {
    TrbUpdateHeader {
        update_type: UpdateType::Trees,
        created_at: current_timestamp(),
        rows_trained,
        description,
    }
}

fn update_blob_start(file: &[u8], update_start: usize) -> usize {
    let size: [u8; 8] = file[update_start + 8..update_start + 16].try_into().unwrap();
    update_start + 8 + 8 + u64::from_le_bytes(size) as usize
}

#[test]
fn test_trb_write_and_read_base() {
    let base_blob = vec![1u8, 2, 3, 4, 5, 6, 7, 8, 9, 10];
    let file = write_base(create_test_header(), &base_blob);

    let reader = open_reader(&file).unwrap();
    assert_eq!(reader.header().format_version, FORMAT_VERSION);
    assert_eq!(reader.header().model_type, "universal");
    assert_eq!(reader.header().num_features, 10);
    assert_eq!(reader.header().base_blob_size, base_blob.len() as u64);

    let loaded_blob = reader.read_base_blob().unwrap();
    assert_eq!(loaded_blob, base_blob);
}

#[test]
fn test_trb_append_update() {
    let base_blob = vec![1u8, 2, 3, 4, 5, 6, 7, 8];
    let mut file = write_base(create_test_header(), &base_blob);
    let initial_size = file.len();

    let update_blob = vec![10u8, 20, 30, 40];
    append_update(&mut file, &trees_update(500, "Update 1".to_string()), &update_blob);
    assert!(file.len() > initial_size);

    let segments = load_all_segments(&file);
    assert_eq!(segments.len(), 2);

    assert!(matches!(&segments[0], TrbSegment::Base { .. }), "Expected base segment at index 0");
    if let TrbSegment::Base { blob, .. } = &segments[0] {
        assert_eq!(blob, &base_blob);
    }

    assert!(matches!(&segments[1], TrbSegment::Update { .. }), "Expected update segment at index 1");
    if let TrbSegment::Update { header, blob } = &segments[1] {
        assert_eq!(header.update_type, UpdateType::Trees);
        assert_eq!(header.rows_trained, 500);
        assert_eq!(blob, &update_blob);
    }
}

#[test]
fn test_trb_corrupt_recovery() {
    let base_blob = vec![1u8, 2, 3, 4, 5, 6, 7, 8];
    let mut file = write_base(create_test_header(), &base_blob);
    let update_blob = vec![10u8, 20, 30, 40, 50, 60, 70, 80];
    append_update(&mut file, &trees_update(500, "Update 1".to_string()), &update_blob);

    // The last 10 bytes never reached the disk.
    file.truncate(file.len() - 10);

    let reader = open_reader(&file).unwrap();
    let base = reader.read_base_blob().unwrap();
    assert_eq!(base, base_blob);

    let updates = iter_updates(&file, &reader).unwrap();
    assert!(updates.is_empty(), "Truncated update should be ignored");
}

#[test]
fn test_trb_crc_detects_corruption() {
    let base_blob = vec![1u8, 2, 3, 4, 5, 6, 7, 8];
    let mut file = write_base(create_test_header(), &base_blob);

    let header_size = u64::from_le_bytes(file[4..12].try_into().unwrap()) as usize;
    let current_pos = 4 + 8 + header_size;
    let blob_offset = current_pos + alignment_padding(current_pos);
    file[blob_offset] ^= 0xFF;

    let reader = open_reader(&file).unwrap();
    let result = reader.read_base_blob();
    assert!(result.is_err());
    let err = result.unwrap_err();
    assert!(err.message().contains("CRC mismatch"));
}

#[test]
fn test_trb_multiple_updates() {
    let base_blob = vec![1u8, 2, 3, 4, 5, 6, 7, 8];
    let mut file = write_base(create_test_header(), &base_blob);
    for i in 0..5usize {
        let update_blob = vec![(i + 10) as u8; 8];
        append_update(&mut file, &trees_update((i + 1) * 100, format!("Update {}", i + 1)), &update_blob);
    }

    let segments = load_all_segments(&file);
    assert_eq!(segments.len(), 6);
    for (i, segment) in segments.iter().enumerate().skip(1) {
        assert!(matches!(segment, TrbSegment::Update { .. }), "Expected update segment at index {}", i);
        if let TrbSegment::Update { header, blob } = segment {
            assert_eq!(header.rows_trained, i * 100);
            assert_eq!(blob, &vec![(i + 9) as u8; 8]);
        }
    }
}

#[test]
fn test_trb_update_crc_validation() {
    let base_blob = vec![1u8, 2, 3, 4, 5, 6, 7, 8];
    let mut file = write_base(create_test_header(), &base_blob);
    for i in 0..2usize {
        let update_blob = vec![(i + 10) as u8; 128];
        append_update(&mut file, &trees_update((i + 1) * 100, format!("U{}", i + 1)), &update_blob);
    }

    let base_end = {
        let reader = open_reader(&file).unwrap();
        reader.base_blob_offset() + reader.header().base_blob_size as usize + 4
    };
    let corrupt_offset = update_blob_start(&file, base_end) + 64;
    file[corrupt_offset] ^= 0xFF;

    let reader = open_reader(&file).unwrap();
    let base = reader.read_base_blob().unwrap();
    assert_eq!(base, base_blob);

    let updates = iter_updates(&file, &reader).unwrap();
    assert!(updates.is_empty(), "Corrupted update should break the chain");
}

#[test]
fn test_trb_unknown_json_fields_ignored() {
    let base_blob = vec![1u8, 2, 3, 4, 5, 6, 7, 8];
    let mut fields = header_fields(&TrbHeader { metadata: "Test".to_string(), ..create_test_header() }.for_blob(&base_blob));
    fields.insert("future_field".to_string(), Value::from("some_value"));
    fields.insert("another_future".to_string(), Value::from(42));
    let header_bytes = to_json(fields);

    let mut file: Vec<u8> = TRB_MAGIC.to_vec();
    file.extend((header_bytes.len() as u64).to_le_bytes());
    file.extend(&header_bytes);
    let padding = alignment_padding(4 + 8 + header_bytes.len());
    file.extend(vec![0u8; padding]);
    file.extend(&base_blob);
    file.extend(crc32fast::hash(&base_blob).to_le_bytes());

    let reader = open_reader(&file).unwrap();
    assert_eq!(reader.header().num_features, 10);
    let blob = reader.read_base_blob().unwrap();
    assert_eq!(blob, base_blob);
}

#[test]
fn test_trb_rkyv_alignment() {
    let header = TrbHeader {
        format_version: FORMAT_VERSION,
        model_type: "u".to_string(),
        created_at: 12345,
        boosting_mode: "P".to_string(),
        num_features: 1,
        base_blob_size: 0,
        metadata: "".to_string(),
    };
    let base_blob = vec![1u8, 2, 3, 4, 5, 6, 7, 8];
    let file = write_base(header, &base_blob);

    let reader = open_reader(&file).unwrap();
    assert_eq!(reader.base_blob_offset() % 8, 0, "Base blob should be 8-byte aligned");
    let blob = reader.read_base_blob().unwrap();
    assert_eq!(blob, base_blob);
}

#[test]
fn test_mmap_reader_basic() {
    let base_blob = vec![1u8, 2, 3, 4, 5, 6, 7, 8, 9, 10, 11, 12, 13, 14, 15, 16];
    let file = write_base(create_test_header(), &base_blob);

    let reader = open_reader(&file).unwrap();
    assert_eq!(reader.header().format_version, FORMAT_VERSION);
    assert_eq!(reader.header().model_type, "universal");
    assert_eq!(reader.header().num_features, 10);

    let blob = reader.base_blob_bytes().unwrap();
    assert_eq!(blob, base_blob.as_slice());
    assert!(reader.mapped_size() > 0);
    assert_eq!(reader.base_blob_offset() % 8, 0);
}

#[test]
fn test_mmap_reader_crc_validation() {
    let base_blob = vec![1u8, 2, 3, 4, 5, 6, 7, 8];
    let mut file = write_base(create_test_header(), &base_blob);
    let header_size = u64::from_le_bytes(file[4..12].try_into().unwrap()) as usize;
    let current_pos = 4 + 8 + header_size;
    let blob_offset = current_pos + alignment_padding(current_pos);
    file[blob_offset] ^= 0xFF;

    let reader = open_reader(&file).unwrap();
    let result = reader.base_blob_bytes();
    assert!(result.is_err());
    assert!(result.unwrap_err().message().contains("CRC mismatch"));
}

#[test]
fn test_mmap_reader_with_updates() {
    let base_blob = vec![1u8, 2, 3, 4, 5, 6, 7, 8];
    let mut file = write_base(create_test_header(), &base_blob);
    for i in 0..3usize {
        let update_blob = vec![(i + 10) as u8; 16];
        append_update(&mut file, &trees_update((i + 1) * 100, format!("Update {}", i + 1)), &update_blob);
    }

    let reader = open_reader(&file).unwrap();
    let blob = reader.base_blob_bytes().unwrap();
    assert_eq!(blob, base_blob.as_slice());

    let updates = iter_updates(&file, &reader).unwrap();
    assert_eq!(updates.len(), 3);
    for (i, (header, blob)) in updates.iter().enumerate() {
        assert_eq!(header.update_type, UpdateType::Trees);
        assert_eq!(header.rows_trained, (i + 1) * 100);
        assert_eq!(blob.len(), 16);
        assert_eq!(blob[0], (i + 10) as u8);
    }
}

#[test]
fn test_mmap_reader_invalid_magic() {
    let result = locate_header(b"BAD!invalid data");
    assert!(result.is_err());
    let message = result.unwrap_err().message();
    assert!(message.contains("Invalid TRB magic"));
    assert_eq!(message, "Invalid TRB magic: expected [84, 82, 66, 49], got [66, 65, 68, 33]");

    let opened = TrbReader::open(b"BAD!invalid data", create_test_header());
    assert!(matches!(opened.err(), Some(TrbError::InvalidMagic { got: [66, 65, 68, 33] })));
}

#[test]
fn test_mmap_reader_truncated_file() {
    let result = locate_header(&TRB_MAGIC);
    assert!(result.is_err());
    assert!(result.unwrap_err().message().contains("too small"));
}

#[test]
fn test_mmap_vs_standard_reader_equivalence() {
    let base_blob = vec![1u8, 2, 3, 4, 5, 6, 7, 8, 9, 10, 11, 12, 13, 14, 15, 16];
    let mut file = write_base(create_test_header(), &base_blob);
    let update_blob = vec![20u8; 32];
    append_update(&mut file, &trees_update(500, "Test update".to_string()), &update_blob);

    let reader = open_reader(&file).unwrap();
    let owned_base = reader.read_base_blob().unwrap();
    let borrowed_base = reader.base_blob_bytes().unwrap();
    assert_eq!(owned_base, borrowed_base);

    let updates = iter_updates(&file, &reader).unwrap();
    let segments = load_all_segments(&file);
    assert_eq!(updates.len() + 1, segments.len());
    for ((header, blob), segment) in updates.iter().zip(&segments[1..]) {
        if let TrbSegment::Update { header: other, blob: other_blob } = segment {
            assert_eq!(header.update_type, other.update_type);
            assert_eq!(header.rows_trained, other.rows_trained);
            assert_eq!(blob, other_blob);
        } else {
            panic!("Expected an update segment");
        }
    }
}

#[test]
fn the_layout_is_byte_for_byte() {
    let file = base_segment(b"{}", &[7, 8], 0x0403_0201);
    assert_eq!(
        file,
        vec![84, 82, 66, 49, 2, 0, 0, 0, 0, 0, 0, 0, 123, 125, 0, 0, 7, 8, 1, 2, 3, 4]
    );
    // 8 for the header length, 8 for the padded header, 2 for the blob, 4 for the checksum.
    let update = update_segment(0, b"{}", &[7, 8], 0x0403_0201);
    assert_eq!(
        update,
        vec![
            22, 0, 0, 0, 0, 0, 0, 0, 8, 0, 0, 0, 0, 0, 0, 0, 123, 125, 0, 0, 0, 0, 0, 0, 7, 8, 1, 2, 3, 4
        ]
    );
    // Behind 22 bytes, the blob starts at 22 + 16 + 2: no zeros are needed.
    let later = update_segment(22, b"{}", &[7, 8], 0x0403_0201);
    assert_eq!(later[8], 2);
    assert_eq!(later.len(), 24);
    assert_eq!(alignment_padding(16), 0);
    assert_eq!(alignment_padding(17), 7);
}

#[test]
fn the_stored_checksum_is_that_of_the_blob() {
    // The checksum of "123456789" is the standard check value.
    let blob = b"123456789";
    let file = encode_base(b"{}", blob);
    assert_eq!(file[file.len() - 4..], 0xCBF4_3926u32.to_le_bytes());
    let update = encode_update(0, b"{}", blob);
    assert_eq!(update[update.len() - 4..], 0xCBF4_3926u32.to_le_bytes());
    assert!(check_base_crc(5, 5).is_ok());
    let error = check_base_crc(0xAB, 0xCBF4_3926).unwrap_err();
    assert_eq!(error.message(), "Base blob CRC mismatch: stored=0xab, computed=0xcbf43926");
}

#[test]
fn every_short_file_has_its_error() {
    let file = write_base(create_test_header(), &[1, 2, 3]);
    let (_, header_end) = locate_header(&file).unwrap();
    assert!(matches!(locate_header(&file[..3]), Err(TrbError::TooSmallForFormat)));
    assert!(matches!(locate_header(&file[..11]), Err(TrbError::TooSmallForHeaderSize)));
    assert!(matches!(locate_header(&file[..header_end - 1]), Err(TrbError::TooSmallForHeader)));
    let cut = &file[..file.len() - 1];
    let reader = open_reader(cut).unwrap();
    let error = reader.read_base_blob().unwrap_err();
    assert!(matches!(error, TrbError::TruncatedBase));
    assert_eq!(error.message(), "File truncated: missing base blob or CRC");
    assert_eq!(TrbError::TooSmallForHeaderSize.message(), "File too small for header size");
    assert_eq!(TrbError::TooSmallForHeader.message(), "File too small for header");
}

#[test]
fn appending_keeps_what_was_there() {
    let mut file = write_base(create_test_header(), &[9; 5]);
    append_update(&mut file, &trees_update(1, "first".to_string()), &[1; 3]);
    let before = file.clone();
    append_update(&mut file, &trees_update(2, "second".to_string()), &[2; 4]);
    assert_eq!(&file[..before.len()], &before[..]);

    let reader = open_reader(&file).unwrap();
    let updates = iter_updates(&file, &reader).unwrap();
    assert_eq!(updates.len(), 2);
    assert_eq!(updates[0].1, vec![1; 3]);
    assert_eq!(updates[1].1, vec![2; 4]);
    assert_eq!(updates[1].0.description, "second");

    // Whatever part of the second update is missing, the first one is read.
    for length in before.len()..file.len() {
        let cut = &file[..length];
        let reader = open_reader(cut).unwrap();
        let updates = iter_updates(cut, &reader).unwrap();
        assert_eq!(updates.len(), 1);
        assert_eq!(updates[0].1, vec![1; 3]);
    }
}

#[test]
fn a_damaged_update_hides_what_follows() {
    let mut file = write_base(create_test_header(), &[9; 5]);
    let first = file.len();
    append_update(&mut file, &trees_update(1, "first".to_string()), &[1; 3]);
    let second = file.len();
    append_update(&mut file, &trees_update(2, "second".to_string()), &[2; 4]);
    append_update(&mut file, &trees_update(3, "third".to_string()), &[3; 4]);
    let blob = update_blob_start(&file, second);
    file[blob] ^= 1;

    let frames = scan_frames(&file, first);
    assert_eq!(frames.len(), 3);
    assert_eq!(frames[0].start, first);
    assert_eq!(frames[0].end, second);
    assert_eq!(frames[1].blob, Some((blob, blob + 4)));
    let reader = open_reader(&file).unwrap();
    let updates = iter_updates(&file, &reader).unwrap();
    assert_eq!(updates.len(), 1);
    assert_eq!(updates[0].0.rows_trained, 1);

    // With the checksum of the damaged blob in place of its own, all are read.
    let computed: Vec<u32> = frames
        .iter()
        .map(|frame| {
            let (_, end) = frame.blob.unwrap();
            u32::from_le_bytes(file[end..end + 4].try_into().unwrap())
        })
        .collect();
    let headers = parse_updates(&file, &reader);
    let updates = replay_updates(&file, first, &headers, &computed);
    assert_eq!(updates.len(), 3);
    assert_eq!(updates[1].1, vec![3, 2, 2, 2]);
}

#[test]
fn contradicting_lengths_cost_only_their_segment() {
    let mut file = write_base(create_test_header(), &[9; 5]);
    let mut starts = Vec::new();
    for number in 0..3 {
        starts.push(file.len());
        append_update(&mut file, &trees_update(number, "update".to_string()), &[number as u8; 3]);
    }
    let size = file.len() as u64;
    // A header that reaches into the next segment, and one that reaches past the file.
    for length in [starts[2] as u64 - starts[1] as u64, size] {
        let mut odd = file.clone();
        odd[starts[1] + 8..starts[1] + 16].copy_from_slice(&length.to_le_bytes());
        let reader = open_reader(&odd).unwrap();
        let updates = iter_updates(&odd, &reader).unwrap();
        assert_eq!(updates.iter().map(|update| update.0.rows_trained).collect::<Vec<_>>(), vec![0, 2]);
        assert_eq!(updates[1].1, vec![2u8; 3]);
    }
    // Behind a segment of size 0 a whole one is read.
    let mut odd = write_base(create_test_header(), &[9; 5]);
    odd.extend([0u8; 8]);
    append_update(&mut odd, &trees_update(7, "behind".to_string()), &[1; 3]);
    let reader = open_reader(&odd).unwrap();
    assert_eq!(iter_updates(&odd, &reader).unwrap().len(), 1);
}

#[test]
fn every_changed_byte_of_a_blob_shows() {
    let blob: Vec<u8> = (0..40).map(|i| (i * 7) as u8).collect();
    let mut file = write_base(create_test_header(), &blob);
    append_update(&mut file, &trees_update(1, "first".to_string()), &blob);
    let second = file.len();
    append_update(&mut file, &trees_update(2, "second".to_string()), &blob);
    let base_at = open_reader(&file).unwrap().base_blob_offset();
    let second_at = update_blob_start(&file, second);
    for i in 0..blob.len() {
        for change in [1u8, 0x80, 0xff] {
            let mut damaged = file.clone();
            damaged[base_at + i] ^= change;
            let reader = open_reader(&damaged).unwrap();
            assert!(matches!(reader.read_base_blob(), Err(TrbError::BaseCrcMismatch { .. })));
            let mut damaged = file.clone();
            damaged[second_at + i] ^= change;
            let reader = open_reader(&damaged).unwrap();
            assert_eq!(iter_updates(&damaged, &reader).unwrap().len(), 1);
        }
    }
}

#[test]
fn a_total_that_is_too_short_leads_nowhere() {
    let mut file = write_base(create_test_header(), &[9; 5]);
    append_update(&mut file, &trees_update(1, "first".to_string()), &[1; 3]);
    let second = file.len();
    append_update(&mut file, &trees_update(2, "second".to_string()), &[2; 3]);
    // A total too short for the header that it covers.
    let total = u64::from_le_bytes(file[second..second + 8].try_into().unwrap());
    file[second..second + 8].copy_from_slice(&(total - 8).to_le_bytes());
    let reader = open_reader(&file).unwrap();
    let updates = iter_updates(&file, &reader).unwrap();
    assert_eq!(updates.len(), 1);
    assert_eq!(updates[0].0.rows_trained, 1);
    assert_eq!(load_all_segments(&file).len(), 2);
}

#[test]
fn an_empty_segment_is_no_error() {
    let mut file = write_base(create_test_header(), &[9; 5]);
    file.extend([0u8; 8]);
    let reader = open_reader(&file).unwrap();
    assert_eq!(iter_updates(&file, &reader).unwrap().len(), 0);
}

#[test]
fn every_blob_is_aligned_in_the_file() {
    for base_len in 0..9 {
        let mut file = write_base(create_test_header(), &vec![9; base_len]);
        for update_len in 1..5 {
            let start = file.len();
            append_update(&mut file, &trees_update(update_len, "u".repeat(update_len)), &vec![1; update_len]);
            assert_eq!(update_blob_start(&file, start) % 8, 0);
        }
        let reader = open_reader(&file).unwrap();
        assert_eq!(reader.base_blob_offset() % 8, 0);
        assert_eq!(iter_updates(&file, &reader).unwrap().len(), 4);
    }
}

#[test]
fn a_cut_or_damaged_update_hides_those_behind_it() {
    let mut file = write_base(create_test_header(), &[9; 5]);
    let mut starts = Vec::new();
    for number in 0..3 {
        starts.push(file.len());
        append_update(&mut file, &trees_update(number, "update".to_string()), &[number as u8; 11]);
    }
    starts.push(file.len());
    let count = |file: &[u8]| iter_updates(file, &open_reader(file).unwrap()).unwrap().len();
    for k in 0..3 {
        for end in starts[k]..starts[k + 1] {
            assert_eq!(count(&file[..end]), k);
        }
        let mut damaged = file.clone();
        damaged[starts[k + 1] - 5] ^= 1;
        assert_eq!(count(&damaged), k);
    }
    assert_eq!(count(&file), 3);
}
