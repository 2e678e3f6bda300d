use pykenizer::format::encode_line;
use pykenizer::{Sentinel, TokensReader, TokensWriter};

fn drain(reader: &mut TokensReader) -> Vec<Vec<u16>> {
    let mut out: Vec<Vec<u16>> = Vec::new();
    while let Some(rec) = reader.read_line() {
        out.push(rec);
    }
    out
}

#[test]
fn literal_example_encodes() {
    let mut w = TokensWriter::new(None);
    w.write_lines(&vec![vec![1u16, 2u16], vec![], vec![300u16]]);
    let bytes = w.into_bytes();
    assert_eq!(
        bytes,
        vec![0x01, 0x00, 0x02, 0x00, 0xff, 0xff, 0xff, 0xff, 0x2c, 0x01, 0xff, 0xff]
    );
}

#[test]
fn literal_example_decodes() {
    let bytes = vec![0x01, 0x00, 0x02, 0x00, 0xff, 0xff, 0xff, 0xff, 0x2c, 0x01, 0xff, 0xff];
    let mut r = TokensReader::new(bytes, None);
    assert_eq!(drain(&mut r), vec![vec![1u16, 2u16], vec![], vec![300u16]]);
}

#[test]
fn round_trip_with_default_sentinel() {
    let lines = vec![vec![0u16, 17, 42], vec![], vec![65534u16], vec![7u16; 100]];
    let mut w = TokensWriter::new(None);
    w.write_lines(&lines);
    let mut r = TokensReader::new(w.into_bytes(), None);
    assert_eq!(drain(&mut r), lines);
}

#[test]
fn round_trip_with_custom_sentinel() {
    let s = Sentinel::new(0x00, 0x00);
    // Token 0 would collide with this sentinel, so none of these may be 0.
    let lines = vec![vec![1u16, 0xffff, 42], vec![], vec![256u16]];
    let mut w = TokensWriter::new(Some(s));
    w.write_lines(&lines);
    let mut r = TokensReader::new(w.into_bytes(), Some(s));
    assert_eq!(drain(&mut r), lines);
}

#[test]
fn empty_record_is_two_sentinel_bytes() {
    let bytes = encode_line(&Vec::new(), Sentinel::new(0xff, 0xff));
    assert_eq!(bytes, vec![0xff, 0xff]);
}

#[test]
fn encode_line_is_little_endian() {
    let bytes = encode_line(&vec![0x1234u16], Sentinel::new(0xff, 0xff));
    assert_eq!(bytes, vec![0x34, 0x12, 0xff, 0xff]);
}

#[test]
fn empty_stream_is_immediately_exhausted() {
    let mut r = TokensReader::new(Vec::new(), None);
    assert_eq!(r.read_line(), None);
    assert_eq!(r.read_line(), None);
}

#[test]
fn exhaustion_is_terminal() {
    let mut w = TokensWriter::new(None);
    w.write_line(&vec![5u16]);
    let mut r = TokensReader::new(w.into_bytes(), None);
    assert_eq!(r.read_line(), Some(vec![5u16]));
    assert_eq!(r.read_line(), None);
    assert_eq!(r.read_line(), None);
}

#[test]
fn dangling_byte_is_discarded() {
    let lines = vec![vec![9u16, 8], vec![7u16]];
    let mut w = TokensWriter::new(None);
    w.write_lines(&lines);
    let mut bytes = w.into_bytes();
    let plain = {
        let mut r = TokensReader::new(bytes.clone(), None);
        drain(&mut r)
    };
    bytes.push(0xab);
    let mut r = TokensReader::new(bytes, None);
    assert_eq!(drain(&mut r), plain);
    assert_eq!(plain, lines);
    assert_eq!(r.read_line(), None);
}

#[test]
fn unterminated_trailing_record_is_dropped() {
    // Two complete tokens but no sentinel after them: no record is yielded.
    let bytes = vec![0x01, 0x00, 0x02, 0x00];
    let mut r = TokensReader::new(bytes, None);
    assert_eq!(r.read_line(), None);
}

#[test]
fn colliding_token_splits_the_record() {
    // 0xFFFF encodes as the default sentinel's own bytes: the decoder takes
    // them for a record boundary and splits the record at that point.
    let mut w = TokensWriter::new(None);
    w.write_line(&vec![0xffffu16, 5u16]);
    let mut r = TokensReader::new(w.into_bytes(), None);
    assert_eq!(drain(&mut r), vec![vec![], vec![5u16]]);
}

#[test]
fn flush_cadence_does_not_change_bytes() {
    let lines = vec![vec![1u16], vec![2u16, 3], vec![], vec![4u16]];
    let mut batched = TokensWriter::new(None);
    batched.write_lines(&lines);
    let mut eager = TokensWriter::new(None);
    for line in &lines {
        eager.write_line(line);
        eager.flush();
    }
    assert_eq!(batched.bytes(), eager.bytes());
}

#[test]
fn read_lines_drains_everything() {
    let lines = vec![vec![10u16, 20], vec![], vec![30u16]];
    let mut w = TokensWriter::new(None);
    w.write_lines(&lines);
    let mut r = TokensReader::new(w.into_bytes(), None);
    assert_eq!(r.read_lines(), lines);
    assert_eq!(r.read_line(), None);
}

#[test]
fn largest_token_round_trips() {
    // 0xFFFE is the largest token that does not collide with the default
    // sentinel; 0xFFFF is reserved by it.
    let s = Sentinel::new(0x00, 0x00);
    let lines = vec![vec![0xffffu16, 0xfffe]];
    let mut w = TokensWriter::new(Some(s));
    w.write_lines(&lines);
    let mut r = TokensReader::new(w.into_bytes(), Some(s));
    assert_eq!(drain(&mut r), lines);
}

#[test]
fn mismatched_sentinels_misparse_silently() {
    // Encoding with one sentinel and decoding with another is not detected;
    // the decoder just splits at the wrong places.
    let mut w = TokensWriter::new(Some(Sentinel::new(0x00, 0x00)));
    w.write_line(&vec![1u16]);
    let mut r = TokensReader::new(w.into_bytes(), None);
    // Bytes are 01 00 00 00: no 0xFF,0xFF pair, so nothing is yielded.
    assert_eq!(drain(&mut r), Vec::<Vec<u16>>::new());
}
