use maikor_file::file_utils::{ByteReader, ReaderExt};
use maikor_file::read_write_impl::{Readable, Writeable};
use maikor_file::{
    GameFile, GameFileError, GameFileHeader, GameFileSummary, ATLAS_BANK, CODE_BANK,
    CONTROLLER_GRAPHICS_BANK, MAIN_CODE,
};

fn header(code_banks: u8, atlas_banks: u8, controller_banks: u8) -> GameFileHeader {
    GameFileHeader::new(
        String::from("1"),
        1,
        1,
        1,
        0,
        String::from("a"),
        String::from("b"),
        String::from("c"),
        code_banks,
        atlas_banks,
        controller_banks,
    )
}

fn sample_file() -> GameFile {
    let mut main_code = [1; MAIN_CODE];
    main_code[0] = 10;
    main_code[MAIN_CODE - 1] = 11;
    let mut second_bank = [5; CODE_BANK];
    second_bank[0] = 6;
    let mut controller_graphics = vec![[4; CONTROLLER_GRAPHICS_BANK]; 9];
    controller_graphics[8][CONTROLLER_GRAPHICS_BANK - 1] = 44;
    GameFile::new(
        header(2, 1, 9),
        main_code,
        vec![[2; CODE_BANK], second_bank],
        vec![[3; ATLAS_BANK]],
        controller_graphics,
    )
}

#[test]
fn game_file_test_write() {
    let header = GameFileHeader::new(String::from("1"), 1, 1, 1,0, String::from("a"), String::from("b"), String::from("c"), 1, 1, 9);
    let file = GameFile::new(header, [1; MAIN_CODE], vec![[2; CODE_BANK]], vec![[3; ATLAS_BANK]], vec![[4; CONTROLLER_GRAPHICS_BANK]; 9]);
    
    let bytes  = file.as_bytes().unwrap();
    // 22 bytes of header as far as the atlas bank count, one more for the
    // controller graphics count, then the banks
    assert_eq!(bytes.len(), MAIN_CODE + CODE_BANK + ATLAS_BANK + 22 + 1 + 9 * CONTROLLER_GRAPHICS_BANK);
}

#[test]
fn sections_are_written_in_order_without_padding() {
    let file = sample_file();
    let bytes = file.as_bytes().unwrap();
    let header_len = file.header.as_bytes().unwrap().len();
    assert_eq!(header_len, 23);
    assert_eq!(&bytes[..header_len], &file.header.as_bytes().unwrap()[..]);
    let mut at = header_len;
    assert_eq!(&bytes[at..at + MAIN_CODE], &file.main_code[..]);
    at += MAIN_CODE;
    assert_eq!(&bytes[at..at + CODE_BANK], &file.code_banks[0][..]);
    at += CODE_BANK;
    assert_eq!(&bytes[at..at + CODE_BANK], &file.code_banks[1][..]);
    at += CODE_BANK;
    assert_eq!(&bytes[at..at + ATLAS_BANK], &file.atlases[0][..]);
    at += ATLAS_BANK;
    for bank in &file.controller_graphics {
        assert_eq!(&bytes[at..at + CONTROLLER_GRAPHICS_BANK], &bank[..]);
        at += CONTROLLER_GRAPHICS_BANK;
    }
    assert_eq!(at, bytes.len());
}

#[test]
fn game_file_round_trip() {
    let file = sample_file();
    let mut bytes = file.as_bytes().unwrap();
    bytes.extend_from_slice(&[99, 98]);
    let mut reader = ByteReader::new(bytes);
    let parsed = GameFile::from_reader(&mut reader).unwrap();
    assert_eq!(parsed.header, file.header);
    assert_eq!(parsed.main_code[..], file.main_code[..]);
    assert_eq!(parsed.code_banks, file.code_banks);
    assert_eq!(parsed.atlases, file.atlases);
    assert_eq!(parsed.controller_graphics, file.controller_graphics);
    assert_eq!(reader.read_to_end(), vec![99, 98]);
}

#[test]
fn file_truncated_inside_main_code_is_refused() {
    let bytes = sample_file().as_bytes().unwrap();
    for len in [23, 24, 23 + MAIN_CODE / 2, 23 + MAIN_CODE - 1] {
        let result = GameFile::from_reader(&mut ByteReader::new(bytes[..len].to_vec()));
        match result {
            Err(GameFileError::Truncated(part)) => assert_eq!(part, "reading main code"),
            Err(other) => panic!("unexpected: {:?}", other),
            Ok(_) => panic!("a truncated file was read"),
        }
    }
}

#[test]
fn file_truncated_inside_a_bank_is_refused() {
    let bytes = sample_file().as_bytes().unwrap();
    let full = bytes.len();
    for len in [23 + MAIN_CODE, 23 + MAIN_CODE + CODE_BANK, full - 9 * CONTROLLER_GRAPHICS_BANK, full - 1] {
        let result = GameFile::from_reader(&mut ByteReader::new(bytes[..len].to_vec()));
        match result {
            Err(GameFileError::Truncated(part)) => assert_eq!(part, "reading file blocks"),
            Err(other) => panic!("unexpected: {:?}", other),
            Ok(_) => panic!("a truncated file was read"),
        }
    }
    assert!(GameFile::from_reader(&mut ByteReader::new(bytes)).is_ok());
}

#[test]
fn file_with_invalid_header_is_refused_with_all_reasons() {
    let file = GameFile::new(
        header(0, 0, 8),
        [0; MAIN_CODE],
        vec![],
        vec![],
        vec![[0; CONTROLLER_GRAPHICS_BANK]; 8],
    );
    let mut bytes = file.as_bytes().unwrap();
    bytes[10] = 0; // build number 0
    match GameFile::from_reader(&mut ByteReader::new(bytes)) {
        Err(GameFileError::InvalidHeader(reasons)) => assert_eq!(
            reasons,
            vec![
                String::from("Build ver must be at least 1"),
                String::from("Incorrect number of controller graphics (expected 9, found 8)"),
                String::from("Must have at least one atlas bank"),
            ]
        ),
        Err(other) => panic!("unexpected: {:?}", other),
        Ok(_) => panic!("an invalid file was read"),
    }
}

#[test]
fn file_with_wrong_marker_or_version_is_refused() {
    let mut bytes = sample_file().as_bytes().unwrap();
    bytes[1] = 0xA2;
    assert!(matches!(
        GameFile::from_reader(&mut ByteReader::new(bytes.clone())),
        Err(GameFileError::FileFormatInvalid())
    ));
    bytes[1] = 0xA1;
    bytes[2] = 7;
    assert!(matches!(
        GameFile::from_reader(&mut ByteReader::new(bytes)),
        Err(GameFileError::InvalidFileVersion(7))
    ));
}

#[test]
fn file_with_a_text_too_long_is_not_written() {
    let mut file = sample_file();
    file.header.author = "a".repeat(256);
    match file.as_bytes() {
        Err(GameFileError::FieldTooLong(field, max, actual)) => {
            assert_eq!((field, max, actual), ("Author", 255, 256));
        }
        other => panic!("unexpected: {:?}", other),
    }
}

#[test]
fn files_are_equal_by_id_and_build_alone() {
    let first = sample_file();
    let mut second = GameFile::new(
        header(0, 1, 9),
        [0; MAIN_CODE],
        vec![],
        vec![[9; ATLAS_BANK]],
        vec![[1; CONTROLLER_GRAPHICS_BANK]; 9],
    );
    second.header.name = String::from("another name");
    assert!(first == second);
    second.header.build = 2;
    assert!(first != second);
    second.header.build = 1;
    second.header.id = String::from("2");
    assert!(first != second);
}

#[test]
fn summary_reads_and_checks_the_header() {
    let header = GameFileHeader::new(
        String::from("TEST"),
        12,
        16,
        1,
        0,
        String::from("Test"),
        String::from("1.0"),
        String::from("Ray"),
        1,
        4,
        9,
    );
    let bytes = header.as_bytes().unwrap();
    let summary = match GameFileSummary::from_reader(ByteReader::new(bytes)) {
        Ok(summary) => summary,
        Err(e) => panic!("unexpected: {:?}", e),
    };
    assert_eq!(summary.header, header);
    assert_eq!(summary.name, "Test");
    assert_eq!(summary.author, "Ray");
    assert_eq!(summary.version, "1.0");
    assert_eq!(summary.id(), "TEST");
    assert_eq!(summary.version_formatted(), "Ver 1.0 (#12)");
}

#[test]
fn summary_refuses_an_invalid_header() {
    let bytes = header(1, 0, 9).as_bytes().unwrap();
    match GameFileSummary::from_reader(ByteReader::new(bytes)) {
        Err(GameFileError::InvalidHeader(reasons)) => {
            assert_eq!(reasons, vec![String::from("Must have at least one atlas bank")])
        }
        Err(other) => panic!("unexpected: {:?}", other),
        Ok(_) => panic!("an invalid header was accepted"),
    }
    match GameFileSummary::from_reader(ByteReader::new(vec![253, 161, 1, 0])) {
        Err(GameFileError::Truncated(part)) => assert_eq!(part, "reading min ver"),
        Err(other) => panic!("unexpected: {:?}", other),
        Ok(_) => panic!("a truncated header was accepted"),
    }
}

#[test]
fn every_strict_prefix_of_a_cartridge_is_refused_as_truncated() {
    let mut file = sample_file();
    // texts that are trimmed when written
    file.header.name = String::from("  a ");
    file.header.author = String::from("c\n");
    let bytes = file.as_bytes().unwrap();
    let full = bytes.len();
    let header_len = 23;
    let marks = [
        header_len,
        header_len + MAIN_CODE,
        header_len + MAIN_CODE + CODE_BANK,
        header_len + MAIN_CODE + 2 * CODE_BANK,
        header_len + MAIN_CODE + 2 * CODE_BANK + ATLAS_BANK,
    ];
    let mut cuts: Vec<usize> = (0..=header_len + 2).collect();
    cuts.extend((header_len + 3..full).step_by(97));
    for mark in marks {
        cuts.extend([mark - 1, mark, mark + 1]);
    }
    cuts.push(full - 1);
    for n in cuts {
        assert!(n < full);
        match GameFile::from_reader(&mut ByteReader::new(bytes[..n].to_vec())) {
            Err(GameFileError::Truncated(_)) => {}
            Err(other) => panic!("unexpected at {}: {:?}", n, other),
            Ok(_) => panic!("the first {} bytes were read as a cartridge", n),
        }
    }
    let parsed = GameFile::from_reader(&mut ByteReader::new(bytes)).unwrap();
    assert_eq!(parsed.header.name, "a");
    assert_eq!(parsed.header.author, "c");
    assert_eq!(parsed.header.validate(), Ok(()));
}
