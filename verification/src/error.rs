//! The one error type of the crate.
use crate::constants::{FILE_FORMAT_VER, MAX_FILE_SIZE};
use crate::text::{decimal, push_decimal};
use vstd::prelude::*;
use vstd::string::StringExecFns;

verus! {

/// Why a file was not read or written.
#[derive(Debug)]
pub enum GameFileError {
    /// Nothing exists at the path.
    FileNotFound(),
    /// The path exists and is no regular file.
    NotAFile(),
    /// The file could not be opened, read or written: what the system
    /// reported, and what was being done.
    FileAccessError(String, &'static str),
    /// The input ended inside the named part.
    Truncated(&'static str),
    /// The file is larger than any cartridge; holds its size.
    FileTooLarge(u64),
    /// The file is smaller than any cartridge.
    FileTooSmall(),
    /// The file does not start with the cartridge marker.
    FileFormatInvalid(),
    /// The file has another format version than the supported one; holds it.
    InvalidFileVersion(u8),
    /// The content does not fit the container it was read for.
    InvalidMaikorFile(),
    /// The atlas banks are not usable.
    InvalidAtlasBanks(),
    /// The header breaks the rules; holds one reason for each broken rule.
    InvalidHeader(Vec<String>),
    /// A text field is too long to be written: its name, the greatest length
    /// and the length it has, in bytes.
    FieldTooLong(&'static str, usize, usize),
    /// The file is no palette; holds the reason.
    InvalidPalette(String),
    /// The file is no atlas; holds the reason.
    InvalidAtlas(String),
    /// The manifest could not be parsed; holds the reason.
    ManifestParsingError(String),
}

/// A [`GameFileError`] with its texts as sequences of characters.
pub enum GameFileErrorView {
    FileNotFound,
    NotAFile,
    FileAccessError(Seq<char>, Seq<char>),
    Truncated(Seq<char>),
    FileTooLarge(u64),
    FileTooSmall,
    FileFormatInvalid,
    InvalidFileVersion(u8),
    InvalidMaikorFile,
    InvalidAtlasBanks,
    InvalidHeader(Seq<Seq<char>>),
    FieldTooLong(Seq<char>, usize, usize),
    InvalidPalette(Seq<char>),
    InvalidAtlas(Seq<char>),
    ManifestParsingError(Seq<char>),
}

impl View for GameFileError {
    type V = GameFileErrorView;

    open spec fn view(&self) -> GameFileErrorView {
        match *self {
            GameFileError::FileNotFound() => GameFileErrorView::FileNotFound,
            GameFileError::NotAFile() => GameFileErrorView::NotAFile,
            GameFileError::FileAccessError(detail, part) => GameFileErrorView::FileAccessError(
                detail@,
                part@,
            ),
            GameFileError::Truncated(part) => GameFileErrorView::Truncated(part@),
            GameFileError::FileTooLarge(size) => GameFileErrorView::FileTooLarge(size),
            GameFileError::FileTooSmall() => GameFileErrorView::FileTooSmall,
            GameFileError::FileFormatInvalid() => GameFileErrorView::FileFormatInvalid,
            GameFileError::InvalidFileVersion(found) => GameFileErrorView::InvalidFileVersion(
                found,
            ),
            GameFileError::InvalidMaikorFile() => GameFileErrorView::InvalidMaikorFile,
            GameFileError::InvalidAtlasBanks() => GameFileErrorView::InvalidAtlasBanks,
            GameFileError::InvalidHeader(reasons) => GameFileErrorView::InvalidHeader(
                reasons.deep_view(),
            ),
            GameFileError::FieldTooLong(field, max, actual) => GameFileErrorView::FieldTooLong(
                field@,
                max,
                actual,
            ),
            GameFileError::InvalidPalette(reason) => GameFileErrorView::InvalidPalette(reason@),
            GameFileError::InvalidAtlas(reason) => GameFileErrorView::InvalidAtlas(reason@),
            GameFileError::ManifestParsingError(reason) => GameFileErrorView::ManifestParsingError(
                reason@,
            ),
        }
    }
}

/// The error for an input that ends inside the named part.
pub open spec fn truncated(part: &str) -> GameFileErrorView {
    GameFileErrorView::Truncated(part@)
}

/// Whether an outcome is the error of an input that ends too early.
pub open spec fn is_truncated<T>(outcome: Result<T, GameFileErrorView>) -> bool {
    outcome matches Err(e) && e is Truncated
}

/// How decoding the first `n` bytes relates to decoding all of them: where
/// all the bytes give a value, the first `n` give the same value and leave
/// what is left of the rest, if they reach as far as the value does, and are
/// cut short if they do not.
pub open spec fn prefix_decodes<T>(
    all: Result<(T, Seq<u8>), GameFileErrorView>,
    bytes: Seq<u8>,
    n: int,
    part: Result<(T, Seq<u8>), GameFileErrorView>,
) -> bool {
    all matches Ok((value, rest)) ==> {
        let used = bytes.len() - rest.len();
        &&& 0 <= used <= bytes.len()
        &&& rest == bytes.skip(used)
        &&& if n >= used {
            part == Ok::<(T, Seq<u8>), GameFileErrorView>((value, rest.take(n - used)))
        } else {
            is_truncated(part)
        }
    }
}

/// The lines of a list of reasons, each one ended by a line feed.
pub open spec fn lines(reasons: Seq<Seq<char>>) -> Seq<char>
    decreases reasons.len(),
{
    if reasons.len() == 0 {
        Seq::empty()
    } else {
        lines(reasons.drop_last()) + reasons.last() + "\n"@
    }
}

impl GameFileErrorView {
    /// The message of the error, as a person reads it.
    pub open spec fn message(self) -> Seq<char> {
        match self {
            GameFileErrorView::FileNotFound => "Maikor file not found"@,
            GameFileErrorView::NotAFile => "Maikor file read error, not a file/can't access"@,
            GameFileErrorView::FileAccessError(detail, part) => {
                "Maikor read access error, for field "@ + part + ": "@ + detail
            },
            GameFileErrorView::Truncated(part) => {
                "Maikor read access error, for field "@ + part + ": failed to fill whole buffer"@
            },
            GameFileErrorView::FileTooLarge(size) => {
                "Maikor file too large. File was "@ + decimal(size as nat) + ", max is "@
                    + decimal(MAX_FILE_SIZE as nat)
            },
            GameFileErrorView::FileTooSmall => {
                "Maikor file too small. This may be not be a valid Maikor file."@
            },
            GameFileErrorView::FileFormatInvalid => "Not a Maikor game file"@,
            GameFileErrorView::InvalidFileVersion(found) => {
                "Unsupported Maikor game file version, was "@ + decimal(found as nat)
                    + " and must be "@ + decimal(FILE_FORMAT_VER as nat)
            },
            GameFileErrorView::InvalidMaikorFile => "Invalid/corrupt Maikor file"@,
            GameFileErrorView::InvalidAtlasBanks => "Invalid atlas banks"@,
            GameFileErrorView::InvalidHeader(reasons) => {
                "Header validation failed:\n"@ + lines(reasons)
            },
            GameFileErrorView::FieldTooLong(field, max, actual) => {
                field + " field too long, max is "@ + decimal(max as nat) + " and was "@ + decimal(
                    actual as nat,
                )
            },
            GameFileErrorView::InvalidPalette(reason) => "Invalid Palette file: "@ + reason,
            GameFileErrorView::InvalidAtlas(reason) => "Invalid Atlas file: "@ + reason,
            GameFileErrorView::ManifestParsingError(reason) => "Invalid manifest: "@ + reason,
        }
    }
}

fn push_lines(out: &mut String, reasons: &Vec<String>)
    ensures
        final(out)@ == old(out)@ + lines(reasons.deep_view()),
{
    let mut i: usize = 0;
    assert(reasons.deep_view().take(0) =~= Seq::<Seq<char>>::empty());
    assert(out@ =~= old(out)@ + lines(reasons.deep_view().take(0)));
    while i < reasons.len()
        invariant
            i <= reasons.len(),
            out@ == old(out)@ + lines(reasons.deep_view().take(i as int)),
        decreases reasons.len() - i,
    {
        let ghost before = reasons.deep_view().take(i as int);
        let ghost after = reasons.deep_view().take(i + 1);
        assert(after.drop_last() =~= before);
        assert(after.last() == reasons[i as int]@);
        out.append(reasons[i].as_str());
        out.append("\n");
        assert(out@ =~= old(out)@ + lines(after));
        i = i + 1;
    }
    assert(reasons.deep_view().take(i as int) =~= reasons.deep_view());
}

impl GameFileError {
    /// The message of the error, as a person reads it.
    pub fn to_string(&self) -> (text: String)
        ensures
            text@ == self@.message(),
    {
        let mut text = String::new();
        match self {
            GameFileError::FileNotFound() => {
                text.append("Maikor file not found");
            },
            GameFileError::NotAFile() => {
                text.append("Maikor file read error, not a file/can't access");
            },
            GameFileError::FileAccessError(detail, part) => {
                text.append("Maikor read access error, for field ");
                text.append(part);
                text.append(": ");
                text.append(detail.as_str());
            },
            GameFileError::Truncated(part) => {
                text.append("Maikor read access error, for field ");
                text.append(part);
                text.append(": failed to fill whole buffer");
            },
            GameFileError::FileTooLarge(size) => {
                text.append("Maikor file too large. File was ");
                push_decimal(&mut text, *size);
                text.append(", max is ");
                push_decimal(&mut text, MAX_FILE_SIZE);
            },
            GameFileError::FileTooSmall() => {
                text.append("Maikor file too small. This may be not be a valid Maikor file.");
            },
            GameFileError::FileFormatInvalid() => {
                text.append("Not a Maikor game file");
            },
            GameFileError::InvalidFileVersion(found) => {
                text.append("Unsupported Maikor game file version, was ");
                push_decimal(&mut text, *found as u64);
                text.append(" and must be ");
                push_decimal(&mut text, FILE_FORMAT_VER as u64);
            },
            GameFileError::InvalidMaikorFile() => {
                text.append("Invalid/corrupt Maikor file");
            },
            GameFileError::InvalidAtlasBanks() => {
                text.append("Invalid atlas banks");
            },
            GameFileError::InvalidHeader(reasons) => {
                text.append("Header validation failed:\n");
                push_lines(&mut text, reasons);
            },
            GameFileError::FieldTooLong(field, max, actual) => {
                text.append(field);
                text.append(" field too long, max is ");
                push_decimal(&mut text, *max as u64);
                text.append(" and was ");
                push_decimal(&mut text, *actual as u64);
            },
            GameFileError::InvalidPalette(reason) => {
                text.append("Invalid Palette file: ");
                text.append(reason.as_str());
            },
            GameFileError::InvalidAtlas(reason) => {
                text.append("Invalid Atlas file: ");
                text.append(reason.as_str());
            },
            GameFileError::ManifestParsingError(reason) => {
                text.append("Invalid manifest: ");
                text.append(reason.as_str());
            },
        }
        assert(text@ =~= self@.message());
        text
    }
}

} // verus!
