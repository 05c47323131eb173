use maikor_file::file_utils::{
    append_bytes, append_u16, append_u32, convert_vec, read_sized_blocks, ByteReader, ReaderExt,
};
use maikor_file::read_write_impl::{get_file_size, validate_file};
use maikor_file::text::push_decimal;
use maikor_file::{
    GameFileError, ATLAS_BANK, ATLAS_SPRITE_SIZE, CODE_BANK, CONTROLLER_COUNT,
    CONTROLLER_GRAPHICS_BANK, FILE_FORMAT_VER, ID_HEADER, MAIKOR_HEADER_LENGTH, MAIN_CODE,
    MAX_FILE_SIZE, MAX_STRING_LEN, MIN_FILE_SIZE, RAM_BANK,
};

#[test]
fn sizes_are_those_of_the_platform() {
    assert_eq!(MAIN_CODE, maikor_platform::mem::sizes::MAIN_CODE as usize);
    assert_eq!(CODE_BANK, maikor_platform::mem::sizes::CODE_BANK as usize);
    assert_eq!(RAM_BANK, maikor_platform::mem::sizes::RAM_BANK as usize);
    assert_eq!(ATLAS_BANK, maikor_platform::mem::sizes::ATLAS as usize);
    assert_eq!(
        CONTROLLER_GRAPHICS_BANK,
        maikor_platform::mem::sizes::CONTROLLER_GRAPHICS as usize
    );
    assert_eq!(CONTROLLER_COUNT, maikor_platform::input::controller_type::COUNT);
    assert_eq!(
        ATLAS_SPRITE_SIZE,
        maikor_platform::constants::ATLAS_TILE_HEIGHT * maikor_platform::constants::ATLAS_TILE_WIDTH
    );
}

#[test]
fn constants_have_their_values() {
    assert_eq!(MAIN_CODE, 9000);
    assert_eq!(CODE_BANK, 4200);
    assert_eq!(RAM_BANK, 4200);
    assert_eq!(ATLAS_BANK, 4000);
    assert_eq!(CONTROLLER_GRAPHICS_BANK, 88);
    assert_eq!(CONTROLLER_COUNT, 9);
    assert_eq!(ATLAS_SPRITE_SIZE, 32);
    assert_eq!(ID_HEADER, [0xFD, 0xA1]);
    assert_eq!(FILE_FORMAT_VER, 1);
    assert_eq!(MAX_STRING_LEN, 255);
    assert_eq!(MAIKOR_HEADER_LENGTH, 16);
    assert_eq!(MIN_FILE_SIZE, 16 + 4200 + 3);
    assert_eq!(MAX_FILE_SIZE, 4000 * 255 + 4200 * 255 + 4200 * 255 + 88 * 9 + 4219);
    assert_eq!(MAX_FILE_SIZE, 3_167_011);
}

#[test]
fn numbers_are_read_most_significant_byte_first() {
    let mut reader = ByteReader::new(vec![0x12, 0x34, 0xAB, 0xCD, 0xEF, 0x01, 0xFF, 0xFF, 0xFF]);
    assert_eq!(reader.read_u16(), Some(0x1234));
    assert_eq!(reader.read_u32(), Some(0xABCDEF01));
    assert_eq!(reader.read_u8(), Some(0xFF));
    assert_eq!(reader.read_u16(), Some(0xFFFF));
    assert_eq!(reader.read_u8(), None);
}

#[test]
fn numbers_are_written_most_significant_byte_first() {
    let mut out = vec![9];
    append_u16(&mut out, 0x1234);
    append_u32(&mut out, 0xABCDEF01);
    append_u16(&mut out, u16::MAX);
    append_u32(&mut out, u32::MAX);
    append_u32(&mut out, 0);
    append_bytes(&mut out, &[1, 2]);
    assert_eq!(
        out,
        vec![
            9, 0x12, 0x34, 0xAB, 0xCD, 0xEF, 0x01, 0xFF, 0xFF, 0xFF, 0xFF, 0xFF, 0xFF, 0, 0, 0, 0,
            1, 2
        ]
    );
    assert_eq!(out[1..3], 0x1234u16.to_be_bytes());
    assert_eq!(out[3..7], 0xABCDEF01u32.to_be_bytes());
}

#[test]
fn written_numbers_are_read_back() {
    for value in [0u32, 1, 255, 256, 65535, 65536, 16777215, 16777216, 66818, u32::MAX] {
        let mut out = Vec::new();
        append_u32(&mut out, value);
        append_u16(&mut out, (value % 65536) as u16);
        let mut reader = ByteReader::new(out);
        assert_eq!(reader.read_u32(), Some(value));
        assert_eq!(reader.read_u16(), Some((value % 65536) as u16));
    }
}

#[test]
fn short_reads_fail() {
    assert_eq!(ByteReader::new(vec![]).read_u8(), None);
    assert_eq!(ByteReader::new(vec![1]).read_u16(), None);
    assert_eq!(ByteReader::new(vec![1, 2, 3]).read_u32(), None);
    assert_eq!(ByteReader::new(vec![1, 2, 3]).read_block(4), None);
    assert_eq!(ByteReader::new(vec![1, 2, 3]).read_exact(4), None);
    assert_eq!(ByteReader::new(vec![1, 2, 3]).read_string(4), None);
    assert_eq!(ByteReader::new(vec![3, 65, 66]).read_len_string(), None);
    assert_eq!(ByteReader::new(vec![]).read_len_string(), None);
    assert_eq!(ByteReader::new(vec![1, 2, 3, 4, 5]).read_multiple_blocks(2, 3), None);
}

#[test]
fn blocks_and_texts_are_read_in_order() {
    let mut reader = ByteReader::new(vec![1, 2, 3, 2, 72, 105, 79, 75, 4, 5, 6, 7, 8]);
    assert_eq!(reader.read_block(3), Some(vec![1, 2, 3]));
    assert_eq!(reader.read_len_string(), Some(String::from("Hi")));
    assert_eq!(reader.read_string(2), Some(String::from("OK")));
    assert_eq!(reader.read_block(0), Some(vec![]));
    assert_eq!(reader.read_multiple_blocks(2, 2), Some(vec![vec![4, 5], vec![6, 7]]));
    assert_eq!(reader.read_multiple_blocks(5, 0), Some(vec![]));
    assert_eq!(reader.read_to_end(), vec![8]);
    assert_eq!(reader.read_to_end(), Vec::<u8>::new());
    assert_eq!(reader.read_block(0), Some(vec![]));
    assert_eq!(reader.read_u8(), None);
}

#[test]
fn sized_blocks_are_read_as_arrays() {
    let mut reader = ByteReader::new(vec![1, 2, 3, 4, 5, 6, 7]);
    let blocks = read_sized_blocks::<ByteReader, 3>(&mut reader, 2);
    match blocks {
        Ok(blocks) => assert_eq!(blocks, vec![[1, 2, 3], [4, 5, 6]]),
        Err(e) => panic!("unexpected: {:?}", e),
    }
    assert_eq!(reader.read_to_end(), vec![7]);

    let mut reader = ByteReader::new(vec![1, 2, 3, 4, 5]);
    match read_sized_blocks::<ByteReader, 3>(&mut reader, 2) {
        Err(GameFileError::Truncated(part)) => assert_eq!(part, "reading file blocks"),
        other => panic!("unexpected: {:?}", other),
    }
    let mut reader = ByteReader::new(vec![]);
    match read_sized_blocks::<ByteReader, 3>(&mut reader, 0) {
        Ok(blocks) => assert!(blocks.is_empty()),
        Err(e) => panic!("unexpected: {:?}", e),
    }
}

#[test]
fn convert_vec_checks_the_length() {
    match convert_vec::<u8, 3>(vec![1, 2, 3]) {
        Ok(array) => assert_eq!(array, [1, 2, 3]),
        Err(e) => panic!("unexpected: {:?}", e),
    }
    match convert_vec::<String, 1>(vec![String::from("a")]) {
        Ok(array) => assert_eq!(array, [String::from("a")]),
        Err(e) => panic!("unexpected: {:?}", e),
    }
    assert!(matches!(convert_vec::<u8, 3>(vec![1, 2]), Err(GameFileError::InvalidMaikorFile())));
    assert!(matches!(
        convert_vec::<u8, 3>(vec![1, 2, 3, 4]),
        Err(GameFileError::InvalidMaikorFile())
    ));
    assert!(matches!(convert_vec::<u8, 0>(vec![]), Ok([])));
}

#[test]
fn decimal_numbers() {
    for (n, text) in [
        (0u64, "0"),
        (7, "7"),
        (9, "9"),
        (10, "10"),
        (99, "99"),
        (100, "100"),
        (12345, "12345"),
        (3167011, "3167011"),
        (u64::MAX, "18446744073709551615"),
    ] {
        let mut out = String::from("n=");
        push_decimal(&mut out, n);
        assert_eq!(out, format!("n={}", text));
    }
}

#[test]
fn file_checks() {
    assert!(matches!(
        validate_file(false, false, 5000, true),
        Err(GameFileError::FileNotFound())
    ));
    assert!(matches!(
        validate_file(false, true, 5000, false),
        Err(GameFileError::FileNotFound())
    ));
    assert!(matches!(validate_file(true, false, 5000, true), Err(GameFileError::NotAFile())));
    assert!(matches!(validate_file(true, true, MIN_FILE_SIZE, true), Ok(())));
    assert!(matches!(validate_file(true, true, MAX_FILE_SIZE, true), Ok(())));
    assert!(matches!(
        validate_file(true, true, MIN_FILE_SIZE - 1, true),
        Err(GameFileError::FileTooSmall())
    ));
    assert!(matches!(validate_file(true, true, 0, true), Err(GameFileError::FileTooSmall())));
    match validate_file(true, true, MAX_FILE_SIZE + 1, true) {
        Err(GameFileError::FileTooLarge(size)) => assert_eq!(size, 3_167_012),
        other => panic!("unexpected: {:?}", other),
    }
    assert!(matches!(
        validate_file(true, true, u64::MAX, true),
        Err(GameFileError::FileTooLarge(u64::MAX))
    ));
    assert!(matches!(validate_file(true, true, 0, false), Ok(())));
    assert!(matches!(validate_file(true, true, u64::MAX, false), Ok(())));
}

#[test]
fn file_size_of_missing_metadata_is_zero() {
    assert_eq!(get_file_size(Some(4219)), 4219);
    assert_eq!(get_file_size(Some(0)), 0);
    assert_eq!(get_file_size(None), 0);
}
