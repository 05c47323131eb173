//! What every file type of the crate can do: be read from bytes and be
//! written as bytes. Also the checks on a file that come before reading it.
use crate::constants::{platform, MAIKOR_HEADER_LENGTH, MAX_FILE_SIZE, MAX_STRING_LEN, MIN_FILE_SIZE};
use crate::error::{GameFileError, GameFileErrorView};
use crate::file_utils::{take_len_text, ReaderExt};
use crate::text::{text_of_bytes, trim, trimmed};
use vstd::prelude::*;
use vstd::utf8::{encode_utf8, encode_utf8_decode_utf8, encode_utf8_valid_utf8};

verus! {

/// A value that can be read from bytes.
pub trait Readable: Sized + View {
    /// What a run of bytes decodes to: the value and the bytes that follow
    /// it, or the reason why the bytes are refused.
    spec fn decoded(bytes: Seq<u8>) -> Result<(Self::V, Seq<u8>), GameFileErrorView>;

    /// Reads one value from the reader.
    fn from_reader<R: ReaderExt>(reader: &mut R) -> (value: Result<Self, GameFileError>)
        ensures
            match value {
                Ok(v) => Self::decoded(old(reader).remaining()) == Ok::<
                    (Self::V, Seq<u8>),
                    GameFileErrorView,
                >((v@, final(reader).remaining())),
                Err(e) => Self::decoded(old(reader).remaining()) == Err::<
                    (Self::V, Seq<u8>),
                    GameFileErrorView,
                >(e@),
            },
    ;
}

/// A value that can be written as bytes.
pub trait Writeable {
    /// The bytes of the value, or the reason why it cannot be written.
    spec fn encoded(&self) -> Result<Seq<u8>, GameFileErrorView>;

    /// Writes the value as bytes.
    fn as_bytes(&self) -> (bytes: Result<Vec<u8>, GameFileError>)
        ensures
            match bytes {
                Ok(b) => self.encoded() == Ok::<Seq<u8>, GameFileErrorView>(b@),
                Err(e) => self.encoded() == Err::<Seq<u8>, GameFileErrorView>(e@),
            },
    ;
}

/// The bytes of a text field: the length in bytes of the trimmed text, then
/// the trimmed text as UTF-8. A trimmed text of more than 255 bytes has none.
pub open spec fn encoded_text(field: Seq<char>, text: Seq<char>) -> Result<
    Seq<u8>,
    GameFileErrorView,
> {
    let body = encode_utf8(trimmed(text));
    if body.len() > MAX_STRING_LEN {
        Err(GameFileErrorView::FieldTooLong(field, MAX_STRING_LEN, body.len() as usize))
    } else {
        Ok(seq![body.len() as u8] + body)
    }
}

/// Writes a text field that is already trimmed: its length in bytes, then
/// its bytes. A text of more than 255 bytes is not written, and the error
/// names the field.
pub fn convert_trimmed(field: &'static str, inner: &str) -> (bytes: Result<Vec<u8>, GameFileError>)
    ensures
        encode_utf8(inner@).len() <= MAX_STRING_LEN ==> (bytes matches Ok(b) && b@ == seq![
            encode_utf8(inner@).len() as u8,
        ] + encode_utf8(inner@)),
        encode_utf8(inner@).len() > MAX_STRING_LEN ==> (bytes matches Err(e) && e@
            == GameFileErrorView::FieldTooLong(
            field@,
            MAX_STRING_LEN,
            encode_utf8(inner@).len() as usize,
        )),
{
    let body = inner.as_bytes();
    let len = body.len();
    if len > MAX_STRING_LEN {
        return Err(GameFileError::FieldTooLong(field, MAX_STRING_LEN, len));
    }
    let mut output: Vec<u8> = Vec::new();
    output.push(len as u8);
    output.extend_from_slice(body);
    assert(output@ =~= seq![len as u8] + body@);
    Ok(output)
}

/// Writes a text field, whose name is `field`, as bytes: the text is
/// trimmed, then written as [`convert_trimmed`] writes it.
pub fn convert_string(field: &'static str, text: &str) -> (bytes: Result<Vec<u8>, GameFileError>)
    ensures
        match bytes {
            Ok(b) => encoded_text(field@, text@) == Ok::<Seq<u8>, GameFileErrorView>(b@),
            Err(e) => encoded_text(field@, text@) == Err::<Seq<u8>, GameFileErrorView>(e@),
        },
        bytes is Ok <==> encode_utf8(trimmed(text@)).len() <= MAX_STRING_LEN,
{
    convert_trimmed(field, trim(text))
}

/// The size of a file whose metadata gave `len`, or 0 where the metadata
/// could not be read.
pub fn get_file_size(len: Option<u64>) -> (size: u64)
    ensures
        size == match len {
            Some(n) => n,
            None => 0,
        },
{
    if let Some(n) = len {
        n
    } else {
        0
    }
}

/// The outcome of the checks on a file before it is read.
pub open spec fn file_check(exists: bool, is_file: bool, size: u64, size_check: bool) -> Result<
    (),
    GameFileErrorView,
> {
    if !exists {
        Err(GameFileErrorView::FileNotFound)
    } else if !is_file {
        Err(GameFileErrorView::NotAFile)
    } else if size_check && size > MAX_FILE_SIZE {
        Err(GameFileErrorView::FileTooLarge(size))
    } else if size_check && size < MIN_FILE_SIZE {
        Err(GameFileErrorView::FileTooSmall)
    } else {
        Ok(())
    }
}

/// Checks a file before it is read: that it exists, that it is a regular
/// file and, if `size_check` is set, that its size is one that a cartridge can
/// have.
pub fn validate_file(exists: bool, is_file: bool, size: u64, size_check: bool) -> (checked:
    Result<(), GameFileError>)
    ensures
        match checked {
            Ok(_) => file_check(exists, is_file, size, size_check) is Ok,
            Err(e) => file_check(exists, is_file, size, size_check) == Err::<
                (),
                GameFileErrorView,
            >(e@),
        },
{
    if !exists {
        return Err(GameFileError::FileNotFound());
    }
    if !is_file {
        return Err(GameFileError::NotAFile());
    }
    if size_check {
        let sizes = platform();
        let min_size: u64 = MAIKOR_HEADER_LENGTH as u64 + sizes.code_bank as u64 + 3;
        let max_size: u64 = sizes.atlas_bank as u64 * 255 + sizes.code_bank as u64 * 255
            + sizes.ram_bank as u64 * 255 + sizes.controller_graphics_bank as u64 * 9 + min_size;
        if size > max_size {
            return Err(GameFileError::FileTooLarge(size));
        }
        if size < min_size {
            return Err(GameFileError::FileTooSmall());
        }
    }
    Ok(())
}

/// A text field that was written is read back trimmed.
pub proof fn lemma_take_len_text_of_written(field: Seq<char>, text: Seq<char>, rest: Seq<u8>)
    requires
        encoded_text(field, text) is Ok,
    ensures
        take_len_text(encoded_text(field, text)->Ok_0 + rest) == Some((trimmed(text), rest)),
{
    let body = encode_utf8(trimmed(text));
    let written = encoded_text(field, text)->Ok_0 + rest;
    assert(written[0] == body.len() as u8);
    assert(written.skip(1).take(body.len() as int) =~= body);
    assert(written.skip(1).skip(body.len() as int) =~= rest);
    encode_utf8_valid_utf8(trimmed(text));
    encode_utf8_decode_utf8(trimmed(text));
    assert(text_of_bytes(body) == trimmed(text));
}

} // verus!
