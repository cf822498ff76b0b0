use skwd_paper::frame::{FrameRate, RateError};
use skwd_paper::ivf::{
    read_u16, read_u32, read_u64, validate_header, IvfError, IvfIndex, Packet, PacketIndex,
    TableReader, MAX_PACKET_BYTES,
};

fn fixture(packet_sizes: &[usize]) -> Vec<u8> {
    let mut bytes = Vec::from(&b"DKIF\0\0\x20\0AV01"[..]);
    bytes.extend_from_slice(&1920u16.to_le_bytes());
    bytes.extend_from_slice(&1080u16.to_le_bytes());
    bytes.extend_from_slice(&30_000u32.to_le_bytes());
    bytes.extend_from_slice(&1001u32.to_le_bytes());
    bytes.extend_from_slice(&u32::try_from(packet_sizes.len()).unwrap().to_le_bytes());
    bytes.extend_from_slice(&0u32.to_le_bytes());
    for (index, size) in packet_sizes.iter().copied().enumerate() {
        bytes.extend_from_slice(&u32::try_from(size).unwrap().to_le_bytes());
        bytes.extend_from_slice(&(index as u64).to_le_bytes());
        bytes.extend(std::iter::repeat_n(u8::try_from(index + 1).unwrap(), size));
    }
    bytes
}

fn payload(bytes: &[u8], entry: PacketIndex) -> &[u8] {
    &bytes[entry.offset..entry.offset + entry.size]
}

#[test]
fn indexes_av1_loop() {
    let bytes = fixture(&[3, 2]);
    let video = IvfIndex::parse(&bytes).unwrap();
    assert_eq!(video.packet_count(), 2);
    assert_eq!(payload(&bytes, video.packet_at(0)), &[1, 1, 1]);
    assert_eq!(payload(&bytes, video.packet_at(1)), &[2, 2]);
    assert_eq!(video.frame_rate(), FrameRate { numerator: 30_000, denominator: 1001 });
    assert_eq!(video.source_bytes(), bytes.len());
}

#[test]
fn rejects_malformed_inputs() {
    let mut wrong_codec = fixture(&[3]);
    wrong_codec[8..12].copy_from_slice(b"H264");
    assert!(IvfIndex::parse(&wrong_codec).is_err());

    let mut truncated = fixture(&[3]);
    truncated.pop();
    assert!(IvfIndex::parse(&truncated).is_err());

    let mut oversized = fixture(&[3]);
    oversized[32..36].copy_from_slice(&(MAX_PACKET_BYTES as u32 + 1).to_le_bytes());
    assert!(IvfIndex::parse(&oversized).is_err());

    let mut wrong_count = fixture(&[3]);
    wrong_count[24..28].copy_from_slice(&2u32.to_le_bytes());
    assert!(IvfIndex::parse(&wrong_count).is_err());
}

#[test]
fn rejects_bad_timestamps() {
    let mut timestamp = fixture(&[3, 3]);
    let second_header = 32 + 12 + 3;
    timestamp[second_header + 4..second_header + 12].copy_from_slice(&9u64.to_le_bytes());
    assert!(IvfIndex::parse(&timestamp).is_err());

    let mut zero_rate = fixture(&[3]);
    zero_rate[16..20].copy_from_slice(&0u32.to_le_bytes());
    assert!(IvfIndex::parse(&zero_rate).is_err());
}

#[test]
fn each_refusal_names_its_cause() {
    assert_eq!(IvfIndex::parse(&[]).err(), Some(IvfError::InputSize));
    assert_eq!(IvfIndex::parse(&fixture(&[3])[..20]).err(), Some(IvfError::Truncated));

    let mut wrong_codec = fixture(&[3]);
    wrong_codec[8..12].copy_from_slice(b"H264");
    assert_eq!(IvfIndex::parse(&wrong_codec).err(), Some(IvfError::InvalidHeader));

    let mut zero_width = fixture(&[3]);
    zero_width[12..14].copy_from_slice(&0u16.to_le_bytes());
    assert_eq!(IvfIndex::parse(&zero_width).err(), Some(IvfError::ZeroDimensions));

    let mut zero_rate = fixture(&[3]);
    zero_rate[16..20].copy_from_slice(&0u32.to_le_bytes());
    assert_eq!(IvfIndex::parse(&zero_rate).err(), Some(IvfError::Rate(RateError::Zero)));

    let mut no_frames = fixture(&[]);
    no_frames[24..28].copy_from_slice(&0u32.to_le_bytes());
    assert_eq!(IvfIndex::parse(&no_frames).err(), Some(IvfError::FrameCountRange));

    let mut oversized = fixture(&[3]);
    oversized[32..36].copy_from_slice(&(MAX_PACKET_BYTES as u32 + 1).to_le_bytes());
    assert_eq!(IvfIndex::parse(&oversized).err(), Some(IvfError::InvalidPacket(0)));

    let mut timestamp = fixture(&[3, 3]);
    let second_header = 32 + 12 + 3;
    timestamp[second_header + 4..second_header + 12].copy_from_slice(&9u64.to_le_bytes());
    assert_eq!(IvfIndex::parse(&timestamp).err(), Some(IvfError::BadTimestamp(1)));
}

#[test]
fn header_reads_the_declared_rate() {
    let bytes = fixture(&[1]);
    assert_eq!(
        validate_header(&bytes[..32]),
        Ok(FrameRate { numerator: 30_000, denominator: 1001 })
    );
}

#[test]
fn little_endian_reads() {
    let bytes = [0x01, 0x02, 0x03, 0x04, 0x05, 0x06, 0x07, 0x08, 0x09];
    assert_eq!(read_u16(&bytes, 0), 0x0201);
    assert_eq!(read_u32(&bytes, 1), 0x0504_0302);
    assert_eq!(read_u64(&bytes, 1), 0x0908_0706_0504_0302);
}

#[test]
fn packets_keep_their_payload() {
    let packet = Packet::new(vec![7, 8, 9]);
    assert_eq!(packet.as_bytes(), &[7, 8, 9]);
    assert_eq!(packet.into_bytes(), vec![7, 8, 9]);
}

fn read_piecewise(bytes: &[u8]) -> Result<IvfIndex, IvfError> {
    let rate = validate_header(&bytes[..32])?;
    let declared = read_u32(bytes, 24) as usize;
    let mut reader = TableReader::new(bytes.len(), declared)?;
    while let Some(offset) = reader.next_header()? {
        reader.accept(&bytes[offset..offset + 12])?;
    }
    Ok(IvfIndex::from_reader(rate, reader))
}

#[test]
fn header_by_header_reading_matches_whole_file_parsing() {
    let bytes = fixture(&[3, 2, 5]);
    let piecewise = read_piecewise(&bytes).unwrap();
    let whole = IvfIndex::parse(&bytes).unwrap();
    assert_eq!(piecewise.packet_count(), 3);
    for index in 0..3 {
        assert_eq!(piecewise.packet_at(index), whole.packet_at(index));
    }
    assert_eq!(piecewise.frame_rate(), whole.frame_rate());
    assert_eq!(piecewise.source_bytes(), bytes.len());
    assert_eq!(payload(&bytes, piecewise.packet_at(2)), &[3, 3, 3, 3, 3]);
}

#[test]
fn header_by_header_reading_refuses_what_parsing_refuses() {
    let mut truncated = fixture(&[3, 2]);
    truncated.pop();
    assert_eq!(read_piecewise(&truncated).err(), Some(IvfError::InvalidPacket(1)));
    let mut extra = fixture(&[3]);
    extra.extend_from_slice(&[0; 4]);
    assert_eq!(read_piecewise(&extra).err(), Some(IvfError::FrameTable));
    let mut short = fixture(&[3, 2]);
    short[24] = 3;
    assert_eq!(read_piecewise(&short).err(), Some(IvfError::CountMismatch(3, 2)));
    let mut stamp = fixture(&[3, 2]);
    stamp[32 + 12 + 3 + 4] = 9;
    assert_eq!(read_piecewise(&stamp).err(), Some(IvfError::BadTimestamp(1)));
    assert_eq!(TableReader::new(100, 0).err(), Some(IvfError::FrameCountRange));
}

#[test]
fn refused_header_leaves_the_reader_unchanged() {
    let bytes = fixture(&[3]);
    let mut reader = TableReader::new(bytes.len(), 1).unwrap();
    assert_eq!(reader.next_header(), Ok(Some(32)));
    let bad = [0u8; 12];
    assert_eq!(reader.accept(&bad), Err(IvfError::InvalidPacket(0)));
    assert_eq!(reader.next_header(), Ok(Some(32)));
    assert_eq!(reader.accept(&bytes[32..44]), Ok(()));
    assert_eq!(reader.next_header(), Ok(None));
    assert_eq!(reader.finish(), vec![PacketIndex { offset: 44, size: 3 }]);
}
