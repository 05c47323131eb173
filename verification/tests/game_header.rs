use maikor_file::file_utils::{ByteReader, ReaderExt};
use maikor_file::game_header::trimmed_text_issue;
use maikor_file::read_write_impl::{convert_string, convert_trimmed, Readable, Writeable};
use maikor_file::text::is_trimmed;
use maikor_file::{GameFileError, GameFileHeader};

fn sample_header() -> GameFileHeader {
    GameFileHeader::new(
        String::from("TEST"),
        1,
        16,
        1,
        0,
        String::from("Test"),
        String::from("1.0"),
        String::from("Ray"),
        1,
        4,
        9,
    )
}

#[test]
fn game_header_test_write() {
    let header = GameFileHeader::new(
        String::from("com.raybritton.test"),
        12414,
        16,
        1,
        0,
        String::from("Test"),
        String::from("1.1.0"),
        String::from("Ray Britton"),
        1,
        4,
        9,
    );

    assert_eq!(
        header.as_bytes().unwrap(),
        [
            253, 161,       //header
            1,              //file ver
            0, 1,           //min ver
            0, 16,          //target ver
            0, 0, 48, 126,  //build
            19,             //id len
            99, 111, 109, 46, 114, 97, 121, 98, 114, 105, 116, 116, 111, 110, 46, 116, 101, 115, 116, //id 
            4,              //name len
            84, 101, 115, 116, //name
            5,              //ver len
            49, 46, 49, 46, 48,  //ver
            11,             //author len
            82, 97, 121, 32, 66, 114, 105, 116, 116, 111, 110, //author 
            1,              //code banks
            0,              //ram banks
            4,              //atlas banks
            9               //controller banks
        ]
    );
}

#[test]
fn test_read() {
    let bytes = vec![
        253, 161, //header
        1,   //file ver
        1, 0, //min ver
        2, 0, //target ver
        0, 1, 5, 2, //build
        6, //id len
        66, 89, 100, 65, 53, 70, //id
        5,  //name len
        84, 101, 115, 116, 33, //name
        2,  //ver len
        118, 49, //ver
        3,  //author len
        82, 97, 121, //author
        2,   //code banks
        1,   //ram banks
        88,  //atlas banks
        9    //controller banks
    ];
    let mut reader = ByteReader::new(bytes);

    let header = GameFileHeader::from_reader(&mut reader).unwrap();
    
    assert_eq!(header.min_maikor_version, 256);
    assert_eq!(header.compiled_for_maikor_version, 512);
    assert_eq!(header.build, 66818);
    assert_eq!(header.id, String::from("BYdA5F"));
    assert_eq!(header.name, String::from("Test!"));
    assert_eq!(header.code_bank_count, 2);
    assert_eq!(header.ram_bank_count, 1);
    assert_eq!(header.atlas_bank_count, 88);
    assert_eq!(header.controller_graphics_bank_count, 9);
    assert_eq!(header.version, String::from("v1"));
    assert_eq!(header.author, String::from("Ray"));
}

#[test]
fn test_read_write() {
    let header = GameFileHeader::new(
        String::from("TEST TEST TEST TEST TEST"),
        12511,
        12,
        3341,
        10,
        String::from("TE ST APP TEST APP TESPT"),
        String::from("v1.1.2351b"),
        String::from("Ray Britton testing"),
        12,
        100,
        25,
    );

    let bytes = header.as_bytes().unwrap();

    let parsed_header = GameFileHeader::from_reader(&mut ByteReader::new(bytes)).unwrap();

    assert_eq!(header, parsed_header);
}

#[test]
fn valid_header_passes_validation_and_round_trips() {
    let header = sample_header();
    assert_eq!(header.validate(), Ok(()));
    let bytes = header.as_bytes().unwrap();
    let parsed = GameFileHeader::from_reader(&mut ByteReader::new(bytes)).unwrap();
    assert_eq!(parsed.id, "TEST");
    assert_eq!(parsed.build, 1);
    assert_eq!(parsed.min_maikor_version, 1);
    assert_eq!(parsed.compiled_for_maikor_version, 16);
    assert_eq!(parsed.name, "Test");
    assert_eq!(parsed.author, "Ray");
    assert_eq!(parsed.version, "1.0");
    assert_eq!(parsed.code_bank_count, 1);
    assert_eq!(parsed.atlas_bank_count, 4);
    assert_eq!(parsed.controller_graphics_bank_count, 9);
    assert_eq!(parsed.ram_bank_count, 0);
    assert_eq!(parsed, header);
}

#[test]
fn header_reader_leaves_what_follows() {
    let mut bytes = sample_header().as_bytes().unwrap();
    bytes.extend_from_slice(&[7, 8, 9]);
    let mut reader = ByteReader::new(bytes);
    let parsed = GameFileHeader::from_reader(&mut reader).unwrap();
    assert_eq!(parsed, sample_header());
    assert_eq!(reader.read_to_end(), vec![7, 8, 9]);
}

#[test]
fn validation_lists_every_broken_rule() {
    let mut header = sample_header();
    header.build = 0;
    header.controller_graphics_bank_count = 3;
    header.atlas_bank_count = 0;
    assert_eq!(
        header.validate(),
        Err(vec![
            String::from("Build ver must be at least 1"),
            String::from("Incorrect number of controller graphics (expected 9, found 3)"),
            String::from("Must have at least one atlas bank"),
        ])
    );
}

#[test]
fn validation_reasons_come_in_the_order_of_the_rules() {
    let header = GameFileHeader::new(
        String::from("  "),
        0,
        1,
        2,
        0,
        String::from(""),
        "v".repeat(256),
        String::from("\t\n"),
        0,
        0,
        255,
    );
    assert_eq!(
        header.validate(),
        Err(vec![
            String::from("Build ver must be at least 1"),
            String::from("Minimum maikor version must <= compile version"),
            String::from("Author must have at least one character"),
            String::from("Name must have at least one character"),
            String::from("Version is too long, max of 255 characters"),
            String::from("ID must have at least one character"),
            String::from("Incorrect number of controller graphics (expected 9, found 255)"),
            String::from("Must have at least one atlas bank"),
        ])
    );
}

#[test]
fn validation_of_text_lengths_at_the_cap() {
    let mut header = sample_header();
    header.name = "n".repeat(255);
    header.author = format!("  {}  ", "a".repeat(255));
    header.id = "i".repeat(255);
    assert_eq!(header.validate(), Ok(()));
    header.name = "n".repeat(256);
    header.author = "a".repeat(256);
    header.id = "i".repeat(256);
    assert_eq!(
        header.validate(),
        Err(vec![
            String::from("Author is too long, max of 255 characters"),
            String::from("Name is too long, max of 255 characters"),
            String::from("ID is too long, max of 255 characters"),
        ])
    );
}

#[test]
fn validation_counts_bytes_not_characters() {
    let mut header = sample_header();
    // 128 characters of two bytes each
    header.name = "é".repeat(128);
    assert_eq!(
        header.validate(),
        Err(vec![String::from("Name is too long, max of 255 characters")])
    );
    header.name = "é".repeat(127);
    assert_eq!(header.validate(), Ok(()));
}

#[test]
fn validation_of_version_order() {
    let mut header = sample_header();
    header.min_maikor_version = 16;
    header.compiled_for_maikor_version = 16;
    assert_eq!(header.validate(), Ok(()));
    header.min_maikor_version = 17;
    assert_eq!(
        header.validate(),
        Err(vec![String::from("Minimum maikor version must <= compile version")])
    );
}

#[test]
fn wrong_marker_is_refused_whatever_follows() {
    for rest in [vec![], vec![1u8], vec![1u8, 0, 1, 0, 16, 0, 0, 0, 1, 0, 0, 0, 0, 0, 0, 0, 0]] {
        let mut bytes = vec![253u8, 162];
        bytes.extend_from_slice(&rest);
        let result = GameFileHeader::from_reader(&mut ByteReader::new(bytes));
        assert!(matches!(result, Err(GameFileError::FileFormatInvalid())));
        let mut bytes = vec![0u8, 161];
        bytes.extend_from_slice(&rest);
        let result = GameFileHeader::from_reader(&mut ByteReader::new(bytes));
        assert!(matches!(result, Err(GameFileError::FileFormatInvalid())));
    }
}

#[test]
fn wrong_version_is_refused_and_reported() {
    for found in [0u8, 2, 255] {
        let mut bytes = sample_header().as_bytes().unwrap();
        bytes[2] = found;
        let result = GameFileHeader::from_reader(&mut ByteReader::new(bytes));
        match result {
            Err(GameFileError::InvalidFileVersion(v)) => assert_eq!(v, found),
            other => panic!("unexpected: {:?}", other),
        }
    }
}

#[test]
fn truncated_header_names_the_part() {
    let bytes = sample_header().as_bytes().unwrap();
    // offsets at which each part ends
    let parts: [(usize, &str); 13] = [
        (2, "reading file header"),
        (3, "reading file ver"),
        (5, "reading min ver"),
        (7, "reading compiled ver"),
        (11, "reading build"),
        (16, "reading id"),
        (21, "reading name"),
        (25, "reading version"),
        (29, "reading author"),
        (30, "reading code bank count"),
        (31, "reading ram bank count"),
        (32, "reading atlas bank count"),
        (33, "reading controller graphics count"),
    ];
    assert_eq!(bytes.len(), 33);
    let mut start = 0;
    for (end, part) in parts {
        for len in start..end {
            let result = GameFileHeader::from_reader(&mut ByteReader::new(bytes[..len].to_vec()));
            match result {
                Err(GameFileError::Truncated(p)) => assert_eq!(p, part, "at length {}", len),
                other => panic!("unexpected at length {}: {:?}", len, other),
            }
        }
        start = end;
    }
    assert!(GameFileHeader::from_reader(&mut ByteReader::new(bytes)).is_ok());
}

#[test]
fn text_of_255_bytes_is_written_and_256_is_not() {
    let mut header = sample_header();
    header.name = "x".repeat(255);
    let bytes = header.as_bytes().unwrap();
    assert_eq!(bytes.len(), 33 - 4 + 255);
    assert_eq!(bytes[16], 255);
    let parsed = GameFileHeader::from_reader(&mut ByteReader::new(bytes)).unwrap();
    assert_eq!(parsed, header);

    header.name = "x".repeat(256);
    match header.as_bytes() {
        Err(GameFileError::FieldTooLong(field, max, actual)) => {
            assert_eq!(field, "Name");
            assert_eq!(max, 255);
            assert_eq!(actual, 256);
        }
        other => panic!("unexpected: {:?}", other),
    }
}

#[test]
fn first_text_that_is_too_long_is_reported() {
    let mut header = sample_header();
    header.author = "a".repeat(300);
    header.version = "v".repeat(257);
    match header.as_bytes() {
        Err(GameFileError::FieldTooLong(field, max, actual)) => {
            assert_eq!(field, "Version");
            assert_eq!(max, 255);
            assert_eq!(actual, 257);
        }
        other => panic!("unexpected: {:?}", other),
    }
    header.id = "i".repeat(1000);
    match header.as_bytes() {
        Err(GameFileError::FieldTooLong(field, _, actual)) => {
            assert_eq!(field, "ID");
            assert_eq!(actual, 1000);
        }
        other => panic!("unexpected: {:?}", other),
    }
}

#[test]
fn texts_are_written_trimmed() {
    let mut header = sample_header();
    header.name = String::from("  Test \n");
    header.author = String::from("\tRay");
    let bytes = header.as_bytes().unwrap();
    assert_eq!(bytes, sample_header().as_bytes().unwrap());
    let parsed = GameFileHeader::from_reader(&mut ByteReader::new(bytes)).unwrap();
    assert_eq!(parsed.name, "Test");
    assert_eq!(parsed.author, "Ray");
    assert_ne!(parsed, header);
}

#[test]
fn convert_string_writes_length_and_trimmed_text() {
    assert_eq!(convert_string("Name", " ab ").unwrap(), vec![2, 97, 98]);
    assert_eq!(convert_string("Name", "").unwrap(), vec![0]);
    assert_eq!(convert_string("Name", "é").unwrap(), vec![2, 0xC3, 0xA9]);
    let padded = format!(" {} ", "z".repeat(255));
    assert_eq!(convert_string("Name", &padded).unwrap().len(), 256);
    match convert_string("Author", &"z".repeat(256)) {
        Err(GameFileError::FieldTooLong(field, max, actual)) => {
            assert_eq!((field, max, actual), ("Author", 255, 256));
        }
        other => panic!("unexpected: {:?}", other),
    }
}

#[test]
fn bytes_that_are_not_utf8_are_read_with_replacements() {
    let mut bytes = vec![253, 161, 1, 0, 1, 0, 16, 0, 0, 0, 1];
    bytes.extend_from_slice(&[2, 0xFF, 65]); // id: one bad byte, then 'A'
    bytes.extend_from_slice(&[2, 0xC3, 0xA9]); // name: 'é'
    bytes.extend_from_slice(&[0]); // version: empty
    bytes.extend_from_slice(&[1, 66]); // author
    bytes.extend_from_slice(&[1, 0, 4, 9]);
    let header = GameFileHeader::from_reader(&mut ByteReader::new(bytes)).unwrap();
    assert_eq!(header.id, "\u{FFFD}A");
    assert_eq!(header.name, "é");
    assert_eq!(header.version, "");
    assert_eq!(header.author, "B");
}

#[test]
fn convert_trimmed_writes_the_text_as_it_stands() {
    assert_eq!(convert_trimmed("Name", "ab").unwrap(), vec![2, 97, 98]);
    assert_eq!(convert_trimmed("Name", " ab ").unwrap(), vec![4, 32, 97, 98, 32]);
    assert_eq!(convert_trimmed("Name", "").unwrap(), vec![0]);
    let bytes = convert_trimmed("Name", &"q".repeat(255)).unwrap();
    assert_eq!(bytes.len(), 256);
    assert_eq!(bytes[0], 255);
    match convert_trimmed("ID", &"q".repeat(256)) {
        Err(GameFileError::FieldTooLong(field, max, actual)) => {
            assert_eq!((field, max, actual), ("ID", 255, 256));
        }
        other => panic!("unexpected: {:?}", other),
    }
    // white space counts here: 254 letters and two blanks are too long
    let padded = format!(" {} ", "q".repeat(254));
    assert!(convert_trimmed("ID", &padded).is_err());
    assert!(convert_string("ID", &padded).is_ok());
}

#[test]
fn issue_of_a_trimmed_text() {
    assert_eq!(trimmed_text_issue("", "empty", "long"), Some(String::from("empty")));
    assert_eq!(trimmed_text_issue("a", "empty", "long"), None);
    assert_eq!(trimmed_text_issue(" ", "empty", "long"), None);
    assert_eq!(trimmed_text_issue(&"a".repeat(255), "empty", "long"), None);
    assert_eq!(trimmed_text_issue(&"a".repeat(256), "empty", "long"), Some(String::from("long")));
    assert_eq!(trimmed_text_issue(&"é".repeat(128), "empty", "long"), Some(String::from("long")));
}

#[test]
fn trimmed_texts_are_told_from_others() {
    for text in ["", "a", "a b", "é", "x\ty"] {
        assert!(is_trimmed(text), "{:?}", text);
    }
    for text in [" ", " a", "a ", "\ta", "a\n", "\u{3000}a", " é "] {
        assert!(!is_trimmed(text), "{:?}", text);
    }
    let mut header = sample_header();
    assert!(header.has_trimmed_texts());
    header.author = String::from("Ray ");
    assert!(!header.has_trimmed_texts());
    header.author = String::from("Ray");
    header.id = String::from(" TEST");
    assert!(!header.has_trimmed_texts());
    header.id = String::from("TEST");
    header.name = String::from("\nTest");
    assert!(!header.has_trimmed_texts());
    header.name = String::from("Test");
    header.version = String::from("1.0\t");
    assert!(!header.has_trimmed_texts());
}

#[test]
fn header_without_white_space_at_the_ends_is_read_back_as_it_was() {
    let header = sample_header();
    assert!(header.has_trimmed_texts());
    let bytes = header.as_bytes().unwrap();
    let parsed = GameFileHeader::from_reader(&mut ByteReader::new(bytes)).unwrap();
    assert_eq!(parsed, header);
    assert_eq!(parsed.validate(), Ok(()));
}
