//! Segments.

use vannak::cluster::NodeId;
use vannak::storage::{RecordOffset, SegmentError, SegmentId, SegmentReader, SegmentWriter};

/// Appends a record to a segment whose file is kept in memory.
fn append(file: &mut Vec<u8>, writer: &mut SegmentWriter, payload: &[u8]) -> RecordOffset {
    file.extend(writer.frame_record(payload).unwrap());
    writer.append_record(payload).unwrap()
}

#[test]
fn segment_round_trips_records_and_manifest() {
    let mut file = SegmentWriter::header();
    let mut writer = SegmentWriter::create("round-trip.seg", SegmentId::from("segment-a"), NodeId::new("node-a"));

    let first_offset = append(&mut file, &mut writer, b"first");
    let second_offset = append(&mut file, &mut writer, b"second");
    assert!(second_offset > first_offset);
    let manifest = writer.seal();

    assert_eq!(manifest.record_count, 2);
    assert!(manifest.byte_len > SegmentWriter::header().len() as u64);
    assert_ne!(manifest.checksum, 0);
    assert_eq!(manifest.byte_len, file.len() as u64);

    let mut reader = SegmentReader::open(file).unwrap();
    let first = reader.read_next().unwrap().unwrap();
    let second = reader.read_next().unwrap().unwrap();
    assert_eq!(first.payload, b"first");
    assert_eq!(second.payload, b"second");
    assert_eq!(first.offset, first_offset);
    assert_eq!(second.offset, second_offset);
    assert!(reader.read_next().unwrap().is_none());
}

#[test]
fn segment_rejects_invalid_magic() {
    let error = SegmentReader::open(b"not-a-vannak-segment".to_vec()).unwrap_err();
    assert!(matches!(error, SegmentError::InvalidMagic));
}

#[test]
fn segment_frame_has_length_checksum_and_payload() {
    let writer = SegmentWriter::create("a.seg", SegmentId::from("a"), NodeId::from("n"));
    // The checksum of no bytes is the offset basis of the hash.
    assert_eq!(
        writer.frame_record(b"").unwrap(),
        vec![0, 0, 0, 0, 0x25, 0x23, 0x22, 0x84, 0xe4, 0x9c, 0xf2, 0xcb]
    );
    let frame = writer.frame_record(b"ab").unwrap();
    assert_eq!(frame.len(), 14);
    assert_eq!(&frame[..4], &[2, 0, 0, 0]);
    assert_eq!(&frame[12..], b"ab");
}

#[test]
fn damaged_segments_are_rejected() {
    let mut writer = SegmentWriter::create("a.seg", SegmentId::from("a"), NodeId::from("n"));
    let mut file = SegmentWriter::header();
    append(&mut file, &mut writer, b"payload");

    let reopened =
        SegmentWriter::open_append(file.clone(), "a.seg", SegmentId::from("a"), NodeId::from("n")).unwrap();
    assert_eq!(reopened.manifest(), writer.manifest());

    let mut flipped = file.clone();
    let last = flipped.len() - 1;
    flipped[last] ^= 1;
    assert!(matches!(
        SegmentWriter::open_append(flipped, "a.seg", SegmentId::from("a"), NodeId::from("n")),
        Err(SegmentError::ChecksumMismatch { offset: 8, .. })
    ));

    let mut longer = file.clone();
    longer.push(7);
    let error = SegmentWriter::open_append(longer, "a.seg", SegmentId::from("a"), NodeId::from("n")).err().unwrap();
    assert_eq!(error, SegmentError::TrailingBytes { offset: 27, byte_len: 28 });
    assert_eq!(error.describe(), "segment has trailing bytes after offset 27: segment length 28");

    let short = file[..file.len() - 1].to_vec();
    let error = SegmentWriter::open_append(short, "a.seg", SegmentId::from("a"), NodeId::from("n")).err().unwrap();
    assert_eq!(error, SegmentError::Io(String::from("failed to fill whole buffer")));
    assert_eq!(error.describe(), "segment I/O error: failed to fill whole buffer");
}
