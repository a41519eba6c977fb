use snes_gfx::bitstream::BitReader;
use snes_gfx::compression::decompress;
use snes_gfx::DecodeError;

#[test]
fn bit_reader_reads_msb_first() {
    let mut reader = BitReader::new(vec![0b1010_0110, 0xff]);
    assert_eq!(reader.read_bits(3).unwrap(), 0b101);
    assert_eq!(reader.read_bits(5).unwrap(), 0b00110);
    assert_eq!(reader.read_bits(8).unwrap(), 0xff);
    assert_eq!(reader.read_bits(1).unwrap_err(), DecodeError::StreamUnderrun);
    assert_eq!(reader.read_bits(0).unwrap(), 0);
}

#[test]
fn bit_reader_bulk_bytes() {
    let mut reader = BitReader::new(vec![1, 2, 3, 4]);
    assert_eq!(reader.read_bytes(2).unwrap(), vec![1, 2]);
    assert_eq!(reader.read_bytes(3).unwrap_err(), DecodeError::StreamUnderrun);
    assert_eq!(reader.read_bytes(2).unwrap(), vec![3, 4]);
}

#[test]
fn varint_decodes_and_stops() {
    // Bits 0,1 0,1 1: two data bits shifted into the initial 1 gives 7.
    let mut reader = BitReader::new(vec![0b0101_1000]);
    assert_eq!(reader.read_uie(), 7);
    // Exhaustion before a stop bit returns the value accumulated so far.
    let mut reader = BitReader::new(vec![]);
    assert_eq!(reader.read_uie(), 1);
    let mut reader = BitReader::new(vec![0b0000_0000]);
    assert_eq!(reader.read_uie(), 16);
}

#[test]
fn decompress_mixed_literal_and_backref() {
    // Declared length 8; payload "ABC"; bitstream: literal of 3, then a
    // back-reference from position 0 of length 5 whose source overlaps
    // its destination.
    let block = [0x00, 0x08, 0x00, 0x05, b'A', b'B', b'C', 0b0110_0011];
    let out = decompress(&block).unwrap();
    assert_eq!(out, b"ABCABCAB".to_vec());
    assert_eq!(out.len(), 8);
}

#[test]
fn decompress_literal_only() {
    // Declared length 2; payload "HI"; literal of 2 covers the output.
    let block = [0x00, 0x02, 0x00, 0x04, b'H', b'I', 0b0010_0000];
    assert_eq!(decompress(&block).unwrap(), b"HI".to_vec());
}

#[test]
fn decompress_empty_output() {
    let block = [0x00, 0x00, 0x00, 0x02];
    assert_eq!(decompress(&block).unwrap(), Vec::<u8>::new());
}

#[test]
fn decompress_short_header_underruns() {
    assert_eq!(decompress(&[0x00]).unwrap_err(), DecodeError::StreamUnderrun);
}

#[test]
fn decompress_payload_field_too_small_is_corrupt() {
    assert_eq!(
        decompress(&[0x00, 0x01, 0x00, 0x01]).unwrap_err(),
        DecodeError::CorruptStream
    );
}

#[test]
fn decompress_declared_payload_past_buffer_is_length_mismatch() {
    assert_eq!(
        decompress(&[0x00, 0x01, 0x00, 0x09]).unwrap_err(),
        DecodeError::LengthMismatch
    );
}

#[test]
fn decompress_backref_into_unwritten_output_is_corrupt() {
    // Literal of 3, then a back-reference whose source index 3 equals
    // the write position: it would read output not yet written.
    let block = [0x00, 0x08, 0x00, 0x05, 1, 2, 3, 0b0111_1000];
    assert_eq!(decompress(&block).unwrap_err(), DecodeError::CorruptStream);
}

#[test]
fn decompress_literal_past_payload_is_corrupt() {
    // Declared length 4 but only 2 literal bytes and a literal of 4.
    let block = [0x00, 0x04, 0x00, 0x04, b'H', b'I', 0b0100_1000];
    assert_eq!(decompress(&block).unwrap_err(), DecodeError::CorruptStream);
}

#[test]
fn decompress_truncated_command_stream_is_corrupt() {
    // Literal of 3 and a back-reference of 5 fill 8 of 10 declared
    // bytes and consume the bitstream exactly; the stream is exhausted
    // with the output incomplete.
    let block = [0x00, 0x0a, 0x00, 0x05, b'A', b'B', b'C', 0b0110_0011];
    assert_eq!(decompress(&block).unwrap_err(), DecodeError::CorruptStream);
}
