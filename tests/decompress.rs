use rom_decompress::codec::decode_stream;
use rom_decompress::decompress;
use rom_decompress::decompress_at;
use rom_decompress::error::CorruptCause;
use rom_decompress::error::DecompressError;
use rom_decompress::record::decode_record;
use rom_decompress::record::read_record;
use rom_decompress::record::FileRecord;
use rom_decompress::record::Storage;
use rom_decompress::record::STORED;
use rom_decompress::table::locate_table;
use rom_decompress::table::read_table;
use rom_decompress::ROM_SIZE;

fn put_u32(buf: &mut [u8], off: usize, v: u32) {
    buf[off..off + 4].copy_from_slice(&v.to_be_bytes());
}

fn put_record(buf: &mut [u8], off: usize, vs: u32, ve: u32, ps: u32, pe: u32) {
    put_u32(buf, off, vs);
    put_u32(buf, off + 4, ve);
    put_u32(buf, off + 8, ps);
    put_u32(buf, off + 12, pe);
}

/// A compressed stream: header declaring `len`, then the given coding units.
fn stream(len: u32, units: &[u8]) -> Vec<u8> {
    let mut s = vec![0x59, 0x61, 0x7A, 0x30];
    s.extend_from_slice(&len.to_be_bytes());
    s.extend_from_slice(&[0; 8]);
    s.extend_from_slice(units);
    s
}

fn blank_rom() -> Vec<u8> {
    vec![0u8; ROM_SIZE]
}

/// An image whose table at offset 0 holds a stored first record and then one
/// compressed record with `data` placed at 0x2000, covering `virt` bytes.
fn rom_with_compressed(data: &[u8], virt: u32) -> Vec<u8> {
    let mut rom = blank_rom();
    put_record(&mut rom, 0, 0, 0x10, 0x1000, STORED);
    put_record(&mut rom, 0x10, 0x10, 0x10 + virt, 0x2000, 0x2000 + data.len() as u32);
    rom[0x2000..0x2000 + data.len()].copy_from_slice(data);
    rom
}

#[test]
fn wrong_size_is_rejected() {
    assert_eq!(decompress(&[0u8; 16]), Err(DecompressError::InputSize(16)));
    assert_eq!(decompress(&[]), Err(DecompressError::InputSize(0)));
    let mut short = vec![0u8; ROM_SIZE - 16];
    put_record(&mut short, 0, 0, 16, 0x1000, STORED);
    assert_eq!(decompress(&short), Err(DecompressError::InputSize(ROM_SIZE - 16)));
    let mut long = vec![0u8; ROM_SIZE + 1];
    put_record(&mut long, 0, 0, 16, 0x1000, STORED);
    assert_eq!(decompress_at(&long, 0), Err(DecompressError::InputSize(ROM_SIZE + 1)));
}

#[test]
fn blank_image_has_no_table() {
    let rom = blank_rom();
    assert_eq!(locate_table(&rom), None);
    assert_eq!(decompress(&rom), Err(DecompressError::TableNotFound));
}

#[test]
fn signature_past_scan_window_is_not_found() {
    let mut rom = blank_rom();
    put_record(&mut rom, 0x0010_0000, 0, 16, 0x1000, STORED);
    assert_eq!(decompress(&rom), Err(DecompressError::TableNotFound));
    assert_eq!(decompress_at(&rom, 0x0010_0000).unwrap(), vec![0u8; 16]);
}

#[test]
fn fixed_offset_with_empty_table_is_not_found() {
    let rom = blank_rom();
    assert_eq!(decompress_at(&rom, 0x40), Err(DecompressError::TableNotFound));
}

#[test]
fn single_stored_record_of_zeros() {
    let mut rom = blank_rom();
    put_record(&mut rom, 0, 0, 16, 0x1000, STORED);
    let out = decompress(&rom).unwrap();
    assert_eq!(out.len(), 16);
    assert_eq!(out, vec![0u8; 16]);
}

#[test]
fn table_found_by_scan_at_later_offset() {
    let mut rom = blank_rom();
    put_record(&mut rom, 0x7430, 0, 4, 0x1000, STORED);
    rom[0x1000..0x1004].copy_from_slice(b"wxyz");
    assert_eq!(locate_table(&rom), Some(0x7430));
    assert_eq!(decompress(&rom).unwrap(), b"wxyz".to_vec());
}

#[test]
fn literal_then_back_reference_gives_aaaa() {
    let s = stream(4, &[0x80, b'A', 0x10, 0x00]);
    assert_eq!(decode_stream(&s, 4).unwrap(), b"AAAA".to_vec());
    let mut rom = blank_rom();
    put_record(&mut rom, 0, 0, 0x10, 0x1000, STORED);
    put_record(&mut rom, 0x10, 0x10, 0x14, 0x2000, 0x2000 + s.len() as u32);
    rom[0x2000..0x2000 + s.len()].copy_from_slice(&s);
    let out = decompress(&rom).unwrap();
    assert_eq!(out.len(), 0x14);
    assert_eq!(&out[0x10..0x14], b"AAAA");
}

#[test]
fn round_trip_literals_only() {
    let data = b"Hello, cartridge!";
    let mut units = vec![0xFF];
    units.extend_from_slice(&data[0..8]);
    units.push(0xFF);
    units.extend_from_slice(&data[8..16]);
    units.push(0x80);
    units.push(data[16]);
    let s = stream(data.len() as u32, &units);
    assert_eq!(decode_stream(&s, data.len() as u32).unwrap(), data.to_vec());
}

#[test]
fn round_trip_back_reference() {
    // "abcabcabcd": three literals, a copy of 6 from 3 back (overlapping), one literal.
    let s = stream(10, &[0xE8, b'a', b'b', b'c', 0x40, 0x02, b'd']);
    assert_eq!(decode_stream(&s, 10).unwrap(), b"abcabcabcd".to_vec());
}

#[test]
fn round_trip_long_back_reference() {
    // One literal then a three-byte reference of length 0x12 + 2 = 20 at distance 1.
    let s = stream(21, &[0x80, b'z', 0x00, 0x00, 0x02]);
    assert_eq!(decode_stream(&s, 21).unwrap(), vec![b'z'; 21]);
}

#[test]
fn round_trip_through_image() {
    let s = stream(10, &[0xE8, b'a', b'b', b'c', 0x40, 0x02, b'd']);
    let rom = rom_with_compressed(&s, 10);
    let out = decompress(&rom).unwrap();
    assert_eq!(out.len(), 0x1A);
    assert_eq!(&out[0..0x10], &[0u8; 16][..]);
    assert_eq!(&out[0x10..0x1A], b"abcabcabcd");
}

#[test]
fn decompressing_twice_gives_identical_output() {
    let s = stream(10, &[0xE8, b'a', b'b', b'c', 0x40, 0x02, b'd']);
    let rom = rom_with_compressed(&s, 10);
    let first = decompress(&rom);
    let second = decompress(&rom);
    assert!(first.is_ok());
    assert_eq!(first, second);
}

#[test]
fn empty_record_gives_empty_slice() {
    let rom = blank_rom();
    let stored = FileRecord { virtual_start: 8, virtual_end: 8, physical_start: 0, physical_end: STORED };
    assert_eq!(decode_record(&rom, &stored), Ok(vec![]));
    let compressed = FileRecord { virtual_start: 8, virtual_end: 8, physical_start: 0x100, physical_end: 0x100 };
    assert_eq!(decode_record(&rom, &compressed), Ok(vec![]));
    let mut rom = blank_rom();
    put_record(&mut rom, 0, 0, 0x10, 0x1000, STORED);
    put_record(&mut rom, 0x10, 0x10, 0x10, 0x2000, 0x2000);
    assert_eq!(decompress(&rom).unwrap(), vec![0u8; 0x10]);
}

#[test]
fn truncated_stream_is_corrupt() {
    // The reference's second byte is missing.
    let s = stream(4, &[0x80, b'A', 0x10]);
    assert_eq!(decode_stream(&s, 4), Err(CorruptCause::Truncated));
    let rom = rom_with_compressed(&s, 4);
    assert_eq!(decompress(&rom), Err(DecompressError::RecordCorrupt(1, CorruptCause::Truncated)));
    // A literal flag with no byte after it.
    assert_eq!(decode_stream(&stream(2, &[0xFF, b'x']), 2), Err(CorruptCause::Truncated));
    // No group byte at all.
    assert_eq!(decode_stream(&stream(1, &[]), 1), Err(CorruptCause::Truncated));
    // Shorter than a header.
    assert_eq!(decode_stream(&[0x59, 0x61, 0x7A, 0x30], 0), Err(CorruptCause::Truncated));
    // A long reference without its length byte.
    assert_eq!(decode_stream(&stream(21, &[0x80, b'z', 0x00, 0x00]), 21), Err(CorruptCause::Truncated));
}

#[test]
fn bad_header_is_corrupt() {
    let mut s = stream(1, &[0x80, b'q']);
    s[0] = b'X';
    assert_eq!(decode_stream(&s, 1), Err(CorruptCause::BadHeader));
}

#[test]
fn declared_length_must_match_record() {
    let s = stream(5, &[0x80, b'A', 0x20, 0x00]);
    assert_eq!(decode_stream(&s, 4), Err(CorruptCause::LengthMismatch));
    let rom = rom_with_compressed(&s, 4);
    assert_eq!(decompress(&rom), Err(DecompressError::RecordCorrupt(1, CorruptCause::LengthMismatch)));
}

#[test]
fn reference_before_output_is_corrupt() {
    let s = stream(4, &[0x80, b'A', 0x10, 0x01]);
    assert_eq!(decode_stream(&s, 4), Err(CorruptCause::BadReference));
    let s = stream(3, &[0x00, 0x10, 0x00]);
    assert_eq!(decode_stream(&s, 3), Err(CorruptCause::BadReference));
}

#[test]
fn reference_past_declared_length_is_corrupt() {
    let s = stream(3, &[0x80, b'A', 0x10, 0x00]);
    assert_eq!(decode_stream(&s, 3), Err(CorruptCause::Overrun));
}

#[test]
fn stored_record_past_image_is_out_of_bounds() {
    let mut rom = blank_rom();
    put_record(&mut rom, 0, 0, 0x10, 0x1000, STORED);
    put_record(&mut rom, 0x10, 0x10, 0x30, (ROM_SIZE - 0x10) as u32, STORED);
    assert_eq!(decompress(&rom), Err(DecompressError::RecordCorrupt(1, CorruptCause::OutOfBounds)));
}

#[test]
fn record_field_out_of_range() {
    let mut rom = blank_rom();
    put_record(&mut rom, 0, 0, 0x10, 0x1000, STORED);
    put_record(&mut rom, 0x10, 0x40, 0x20, 0x2000, STORED);
    assert_eq!(decompress(&rom), Err(DecompressError::RecordCorrupt(1, CorruptCause::FieldRange)));
    let mut rom = blank_rom();
    put_record(&mut rom, 0, 0, 0x10, 0x1000, STORED);
    put_record(&mut rom, 0x10, 0x10, 0x20, 0x3000, 0x2000);
    assert_eq!(decompress(&rom), Err(DecompressError::RecordCorrupt(1, CorruptCause::FieldRange)));
    let mut rom = blank_rom();
    put_record(&mut rom, 0, 0, 0x10, 0x1000, STORED);
    put_record(&mut rom, 0x10, 0x10, (ROM_SIZE + 1) as u32, 0x2000, STORED);
    assert_eq!(decompress(&rom), Err(DecompressError::RecordCorrupt(1, CorruptCause::FieldRange)));
}

#[test]
fn overlapping_records_fail() {
    let mut rom = blank_rom();
    put_record(&mut rom, 0, 0, 0x10, 0x1000, STORED);
    put_record(&mut rom, 0x10, 0x08, 0x18, 0x1000, STORED);
    assert_eq!(decompress(&rom), Err(DecompressError::RecordCorrupt(1, CorruptCause::Overlap)));
}

#[test]
fn adjacent_records_and_gaps_keep_fill() {
    let mut rom = blank_rom();
    put_record(&mut rom, 0, 0, 4, 0x1000, STORED);
    put_record(&mut rom, 0x10, 4, 8, 0x1004, STORED);
    put_record(&mut rom, 0x20, 12, 14, 0x1008, STORED);
    rom[0x1000..0x100A].copy_from_slice(b"0123456789");
    let out = decompress(&rom).unwrap();
    assert_eq!(out, vec![b'0', b'1', b'2', b'3', b'4', b'5', b'6', b'7', 0, 0, 0, 0, b'8', b'9']);
}

#[test]
fn records_are_read_big_endian() {
    let mut rom = blank_rom();
    put_record(&mut rom, 0x20, 0x0102_0304, 0x0506_0708, 0x090A_0B0C, STORED);
    let rec = read_record(&rom, 0x20);
    assert_eq!(rec, FileRecord {
        virtual_start: 0x0102_0304,
        virtual_end: 0x0506_0708,
        physical_start: 0x090A_0B0C,
        physical_end: STORED,
    });
    assert_eq!(rec.storage(), Storage::Stored);
    let compressed = FileRecord { physical_end: 0x40, ..rec };
    assert_eq!(compressed.storage(), Storage::Compressed { physical_end: 0x40 });
    assert!(!rec.validate());
}

#[test]
fn table_ends_at_zero_record() {
    let mut rom = blank_rom();
    put_record(&mut rom, 0, 0, 0x10, 0x1000, STORED);
    put_record(&mut rom, 0x10, 0x10, 0x20, 0x1010, STORED);
    put_record(&mut rom, 0x30, 0x20, 0x30, 0x1020, STORED);
    let table = read_table(&rom, 0);
    assert_eq!(table.len(), 2);
    assert_eq!(table[1].virtual_start, 0x10);
}
