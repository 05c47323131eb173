use maikor_file::GameFileError;

#[test]
fn error_messages() {
    assert_eq!(GameFileError::FileNotFound().to_string(), "Maikor file not found");
    assert_eq!(
        GameFileError::NotAFile().to_string(),
        "Maikor file read error, not a file/can't access"
    );
    assert_eq!(
        GameFileError::FileAccessError(String::from("permission denied"), "reading file")
            .to_string(),
        "Maikor read access error, for field reading file: permission denied"
    );
    assert_eq!(
        GameFileError::Truncated("reading id").to_string(),
        "Maikor read access error, for field reading id: failed to fill whole buffer"
    );
    assert_eq!(
        GameFileError::FileTooLarge(4000000).to_string(),
        "Maikor file too large. File was 4000000, max is 3167011"
    );
    assert_eq!(
        GameFileError::FileTooSmall().to_string(),
        "Maikor file too small. This may be not be a valid Maikor file."
    );
    assert_eq!(GameFileError::FileFormatInvalid().to_string(), "Not a Maikor game file");
    assert_eq!(
        GameFileError::InvalidFileVersion(3).to_string(),
        "Unsupported Maikor game file version, was 3 and must be 1"
    );
    assert_eq!(GameFileError::InvalidMaikorFile().to_string(), "Invalid/corrupt Maikor file");
    assert_eq!(GameFileError::InvalidAtlasBanks().to_string(), "Invalid atlas banks");
    assert_eq!(
        GameFileError::InvalidHeader(vec![
            String::from("Build ver must be at least 1"),
            String::from("Must have at least one atlas bank")
        ])
        .to_string(),
        "Header validation failed:\nBuild ver must be at least 1\nMust have at least one atlas bank\n"
    );
    assert_eq!(
        GameFileError::InvalidHeader(vec![]).to_string(),
        "Header validation failed:\n"
    );
    assert_eq!(
        GameFileError::FieldTooLong("Name", 255, 256).to_string(),
        "Name field too long, max is 255 and was 256"
    );
    assert_eq!(
        GameFileError::InvalidPalette(String::from("Not a palette file")).to_string(),
        "Invalid Palette file: Not a palette file"
    );
    assert_eq!(
        GameFileError::InvalidAtlas(String::from("Content must be multiple of 32")).to_string(),
        "Invalid Atlas file: Content must be multiple of 32"
    );
    assert_eq!(
        GameFileError::ManifestParsingError(String::from("expected value at line 1 column 1"))
            .to_string(),
        "Invalid manifest: expected value at line 1 column 1"
    );
}
