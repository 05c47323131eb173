//! The header of a cartridge: what it holds, the rules it must keep, and its
//! bytes.
use crate::constants::{platform, CONTROLLER_COUNT, FILE_FORMAT_VER, ID_HEADER, MAX_STRING_LEN};
use crate::error::{is_truncated, prefix_decodes, truncated, GameFileError, GameFileErrorView};
use crate::file_utils::{
    append_bytes, append_u16, append_u32, be_u16, lemma_concat_assoc, lemma_skip_skip,
    lemma_take_len_text_of_prefix, lemma_take_u16_of_prefix, lemma_take_u16_of_written,
    lemma_take_u32_of_prefix, lemma_take_u8_of_prefix,
    lemma_take_u32_of_written, lemma_take_u8_of_written, take_len_text, take_u16, take_u32,
    take_u8, u16_bytes, u32_bytes, ReaderExt,
};
use crate::read_write_impl::{
    convert_string, encoded_text, lemma_take_len_text_of_written, Readable, Writeable,
};
use crate::text::{decimal, is_trimmed, push_decimal, trim, trimmed};
use vstd::prelude::*;
use vstd::string::StringExecFns;
use vstd::utf8::encode_utf8;

verus! {

/// The header of a cartridge file.
#[derive(Debug, Eq, PartialEq)]
pub struct GameFileHeader {
    /// Unique ID for app
    pub id: String,
    /// Build number of app (must be equal or higher than installed version)
    pub build: u32,
    /// Target Maikor version (used for compatibility)
    pub compiled_for_maikor_version: u16,
    /// Minimum supported Maikor Version (used for compatibility)
    pub min_maikor_version: u16,
    /// Number of RAM banks needed by game
    pub ram_bank_count: u8,
    /// Game name
    pub name: String,
    /// Game version
    pub version: String,
    /// Game author
    pub author: String,
    /// Number of code banks that follow the main code
    pub code_bank_count: u8,
    /// Number of atlas banks
    pub atlas_bank_count: u8,
    /// Number of controller graphics banks
    pub controller_graphics_bank_count: u8,
}

/// A [`GameFileHeader`] with its texts as sequences of characters.
pub struct GameFileHeaderView {
    pub id: Seq<char>,
    pub build: u32,
    pub compiled_for_maikor_version: u16,
    pub min_maikor_version: u16,
    pub ram_bank_count: u8,
    pub name: Seq<char>,
    pub version: Seq<char>,
    pub author: Seq<char>,
    pub code_bank_count: u8,
    pub atlas_bank_count: u8,
    pub controller_graphics_bank_count: u8,
}

impl View for GameFileHeader {
    type V = GameFileHeaderView;

    open spec fn view(&self) -> GameFileHeaderView {
        GameFileHeaderView {
            id: self.id@,
            build: self.build,
            compiled_for_maikor_version: self.compiled_for_maikor_version,
            min_maikor_version: self.min_maikor_version,
            ram_bank_count: self.ram_bank_count,
            name: self.name@,
            version: self.version@,
            author: self.author@,
            code_bank_count: self.code_bank_count,
            atlas_bank_count: self.atlas_bank_count,
            controller_graphics_bank_count: self.controller_graphics_bank_count,
        }
    }
}

/// Whether a text field keeps the rule for texts: trimmed, it has at least
/// one character and at most 255 bytes.
pub open spec fn text_is_valid(text: Seq<char>) -> bool {
    trimmed(text).len() > 0 && encode_utf8(trimmed(text)).len() <= MAX_STRING_LEN
}

/// The reason, if there is one, why a text field breaks the rule for texts.
pub open spec fn text_issues(text: Seq<char>, if_empty: Seq<char>, if_long: Seq<char>) -> Seq<
    Seq<char>,
> {
    if trimmed(text).len() == 0 {
        seq![if_empty]
    } else if encode_utf8(trimmed(text)).len() > MAX_STRING_LEN {
        seq![if_long]
    } else {
        Seq::empty()
    }
}

/// The reason as a list of one, if the rule is broken.
pub open spec fn issue_if(broken: bool, reason: Seq<char>) -> Seq<Seq<char>> {
    if broken {
        seq![reason]
    } else {
        Seq::empty()
    }
}

/// The reason that is given for a wrong number of controller graphics banks.
pub open spec fn controller_count_issue(found: u8) -> Seq<char> {
    "Incorrect number of controller graphics (expected "@ + decimal(CONTROLLER_COUNT as nat)
        + ", found "@ + decimal(found as nat) + ")"@
}

impl GameFileHeaderView {
    /// Whether the header keeps every rule.
    pub open spec fn is_valid(self) -> bool {
        &&& self.build >= 1
        &&& self.compiled_for_maikor_version >= self.min_maikor_version
        &&& text_is_valid(self.author)
        &&& text_is_valid(self.name)
        &&& text_is_valid(self.version)
        &&& text_is_valid(self.id)
        &&& self.controller_graphics_bank_count == CONTROLLER_COUNT
        &&& self.atlas_bank_count >= 1
    }

    /// One reason for each rule that the header breaks, in the order of the
    /// rules.
    pub open spec fn issues(self) -> Seq<Seq<char>> {
        issue_if(self.build == 0, "Build ver must be at least 1"@) + issue_if(
            self.compiled_for_maikor_version < self.min_maikor_version,
            "Minimum maikor version must <= compile version"@,
        ) + text_issues(
            self.author,
            "Author must have at least one character"@,
            "Author is too long, max of 255 characters"@,
        ) + text_issues(
            self.name,
            "Name must have at least one character"@,
            "Name is too long, max of 255 characters"@,
        ) + text_issues(
            self.version,
            "Version must have at least one character"@,
            "Version is too long, max of 255 characters"@,
        ) + text_issues(
            self.id,
            "ID must have at least one character"@,
            "ID is too long, max of 255 characters"@,
        ) + issue_if(
            self.controller_graphics_bank_count != CONTROLLER_COUNT,
            controller_count_issue(self.controller_graphics_bank_count),
        ) + issue_if(self.atlas_bank_count == 0, "Must have at least one atlas bank"@)
    }

    /// Whether each of the four texts, trimmed, is at most 255 bytes long.
    pub open spec fn texts_fit(self) -> bool {
        &&& encode_utf8(trimmed(self.id)).len() <= MAX_STRING_LEN
        &&& encode_utf8(trimmed(self.name)).len() <= MAX_STRING_LEN
        &&& encode_utf8(trimmed(self.version)).len() <= MAX_STRING_LEN
        &&& encode_utf8(trimmed(self.author)).len() <= MAX_STRING_LEN
    }

    /// Whether no text of the header has white space at its ends.
    pub open spec fn is_trimmed(self) -> bool {
        &&& trimmed(self.id) == self.id
        &&& trimmed(self.name) == self.name
        &&& trimmed(self.version) == self.version
        &&& trimmed(self.author) == self.author
    }
}

/// Whether the bytes start with the two bytes that mark a cartridge.
pub open spec fn starts_with_marker(bytes: Seq<u8>) -> bool {
    bytes.len() >= 2 && bytes[0] == ID_HEADER[0] && bytes[1] == ID_HEADER[1]
}

/// The four bank counts at the end of a header, in the order of the file:
/// code, RAM, atlas, controller graphics.
pub open spec fn decoded_counts(bytes: Seq<u8>) -> Result<
    ((u8, u8, u8, u8), Seq<u8>),
    GameFileErrorView,
> {
    match take_u8(bytes) {
        None => Err(truncated("reading code bank count")),
        Some((code, s1)) => match take_u8(s1) {
            None => Err(truncated("reading ram bank count")),
            Some((ram, s2)) => match take_u8(s2) {
                None => Err(truncated("reading atlas bank count")),
                Some((atlas, s3)) => match take_u8(s3) {
                    None => Err(truncated("reading controller graphics count")),
                    Some((controller, s4)) => Ok(((code, ram, atlas, controller), s4)),
                },
            },
        },
    }
}

/// The four texts of a header, in the order of the file: ID, name, version,
/// author.
pub open spec fn decoded_texts(bytes: Seq<u8>) -> Result<
    ((Seq<char>, Seq<char>, Seq<char>, Seq<char>), Seq<u8>),
    GameFileErrorView,
> {
    match take_len_text(bytes) {
        None => Err(truncated("reading id")),
        Some((id, s1)) => match take_len_text(s1) {
            None => Err(truncated("reading name")),
            Some((name, s2)) => match take_len_text(s2) {
                None => Err(truncated("reading version")),
                Some((version, s3)) => match take_len_text(s3) {
                    None => Err(truncated("reading author")),
                    Some((author, s4)) => Ok(((id, name, version, author), s4)),
                },
            },
        },
    }
}

/// What the bytes after the three numbers of a header decode to: the texts
/// and the bank counts, which make a header together with the numbers.
pub open spec fn decoded_after_numbers(
    min_maikor_version: u16,
    compiled_for_maikor_version: u16,
    build: u32,
    bytes: Seq<u8>,
) -> Result<(GameFileHeaderView, Seq<u8>), GameFileErrorView> {
    match decoded_texts(bytes) {
        Err(e) => Err(e),
        Ok(((id, name, version, author), s1)) => match decoded_counts(s1) {
            Err(e) => Err(e),
            Ok(((code, ram, atlas, controller), s2)) => Ok(
                (
                    GameFileHeaderView {
                        id,
                        build,
                        compiled_for_maikor_version,
                        min_maikor_version,
                        ram_bank_count: ram,
                        name,
                        version,
                        author,
                        code_bank_count: code,
                        atlas_bank_count: atlas,
                        controller_graphics_bank_count: controller,
                    },
                    s2,
                ),
            ),
        },
    }
}

/// What the bytes after the format version decode to: the least and the
/// target version of the console, the build number, and then the texts and
/// the bank counts.
pub open spec fn decoded_fields(bytes: Seq<u8>) -> Result<
    (GameFileHeaderView, Seq<u8>),
    GameFileErrorView,
> {
    match take_u16(bytes) {
        None => Err(truncated("reading min ver")),
        Some((min_maikor_version, s1)) => match take_u16(s1) {
            None => Err(truncated("reading compiled ver")),
            Some((compiled_for_maikor_version, s2)) => match take_u32(s2) {
                None => Err(truncated("reading build")),
                Some((build, s3)) => decoded_after_numbers(
                    min_maikor_version,
                    compiled_for_maikor_version,
                    build,
                    s3,
                ),
            },
        },
    }
}

/// What a run of bytes decodes to as a header: the marker and the format
/// version are checked, each as soon as it is read, then the fields follow.
#[verifier::opaque]
pub open spec fn decoded_header(bytes: Seq<u8>) -> Result<
    (GameFileHeaderView, Seq<u8>),
    GameFileErrorView,
> {
    match take_u16(bytes) {
        None => Err(truncated("reading file header")),
        Some((marker, s1)) => if marker != be_u16(ID_HEADER@) {
            Err(GameFileErrorView::FileFormatInvalid)
        } else {
            match take_u8(s1) {
                None => Err(truncated("reading file ver")),
                Some((file_ver, s2)) => if file_ver != FILE_FORMAT_VER {
                    Err(GameFileErrorView::InvalidFileVersion(file_ver))
                } else {
                    decoded_fields(s2)
                },
            }
        },
    }
}

/// The four bank counts, as they stand at the end of a header.
pub open spec fn count_bytes(header: GameFileHeaderView) -> Seq<u8> {
    seq![
        header.code_bank_count,
        header.ram_bank_count,
        header.atlas_bank_count,
        header.controller_graphics_bank_count,
    ]
}

/// The bytes of a header; a header with a text field that is too long has
/// none.
pub open spec fn encoded_header(header: GameFileHeaderView) -> Result<Seq<u8>, GameFileErrorView> {
    match encoded_text("ID"@, header.id) {
        Err(e) => Err(e),
        Ok(id) => match encoded_text("Name"@, header.name) {
            Err(e) => Err(e),
            Ok(name) => match encoded_text("Version"@, header.version) {
                Err(e) => Err(e),
                Ok(version) => match encoded_text("Author"@, header.author) {
                    Err(e) => Err(e),
                    Ok(author) => Ok(
                        ID_HEADER@ + seq![FILE_FORMAT_VER] + u16_bytes(header.min_maikor_version)
                            + u16_bytes(header.compiled_for_maikor_version) + u32_bytes(
                            header.build,
                        ) + id + name + version + author + count_bytes(header),
                    ),
                },
            },
        },
    }
}

impl GameFileHeader {
    /// A header of the given fields. Nothing is checked here: see
    /// [`GameFileHeader::validate`].
    #[allow(clippy::too_many_arguments)]
    pub fn new(
        id: String,
        build: u32,
        compiled_for_maikor_version: u16,
        min_maikor_version: u16,
        ram_bank_count: u8,
        name: String,
        version: String,
        author: String,
        code_bank_count: u8,
        atlas_bank_count: u8,
        controller_graphics_bank_count: u8,
    ) -> (header: Self)
        ensures
            header == (GameFileHeader {
                id,
                build,
                compiled_for_maikor_version,
                min_maikor_version,
                ram_bank_count,
                name,
                version,
                author,
                code_bank_count,
                atlas_bank_count,
                controller_graphics_bank_count,
            }),
    {
        Self {
            id,
            build,
            compiled_for_maikor_version,
            min_maikor_version,
            ram_bank_count,
            name,
            version,
            author,
            code_bank_count,
            atlas_bank_count,
            controller_graphics_bank_count,
        }
    }
}

fn push_reason(reasons: &mut Vec<String>, reason: String)
    ensures
        final(reasons).deep_view() == old(reasons).deep_view().push(reason@),
{
    reasons.push(reason);
    assert(reasons.deep_view() =~= old(reasons).deep_view().push(reason@));
}

/// The reason, if there is one, why a text that is already trimmed breaks
/// the rule for texts: `if_empty` where it has no character, `if_long`
/// where it has more than 255 bytes.
pub fn trimmed_text_issue(inner: &str, if_empty: &'static str, if_long: &'static str) -> (reason:
    Option<String>)
    ensures
        inner@.len() == 0 ==> (reason matches Some(r) && r@ == if_empty@),
        inner@.len() > 0 && encode_utf8(inner@).len() > MAX_STRING_LEN ==> (reason matches Some(r)
            && r@ == if_long@),
        inner@.len() > 0 && encode_utf8(inner@).len() <= MAX_STRING_LEN ==> reason is None,
{
    if inner.is_empty() {
        Some(if_empty.to_owned())
    } else if inner.as_bytes().len() > MAX_STRING_LEN {
        Some(if_long.to_owned())
    } else {
        None
    }
}

fn check_text(reasons: &mut Vec<String>, text: &str, if_empty: &'static str, if_long: &'static str)
    ensures
        final(reasons).deep_view() == old(reasons).deep_view() + text_issues(
            text@,
            if_empty@,
            if_long@,
        ),
        trimmed(trimmed(text@)) == trimmed(text@),
{
    if let Some(reason) = trimmed_text_issue(trim(text), if_empty, if_long) {
        push_reason(reasons, reason);
    }
    assert(reasons.deep_view() =~= old(reasons).deep_view() + text_issues(
        text@,
        if_empty@,
        if_long@,
    ));
}

fn check_rule(reasons: &mut Vec<String>, broken: bool, reason: &'static str)
    ensures
        final(reasons).deep_view() == old(reasons).deep_view() + issue_if(broken, reason@),
{
    if broken {
        push_reason(reasons, reason.to_owned());
    }
    assert(reasons.deep_view() =~= old(reasons).deep_view() + issue_if(broken, reason@));
}

impl GameFileHeader {
    /// Checks the header against every rule, and gives one reason for each
    /// rule that it breaks.
    pub fn validate(&self) -> (result: Result<(), Vec<String>>)
        ensures
            result is Ok <==> self@.is_valid(),
            result matches Err(reasons) ==> reasons.deep_view() == self@.issues()
                && reasons.len() >= 1,
            self@.with_trimmed_texts().is_trimmed(),
            result is Ok ==> self@.with_trimmed_texts().is_valid(),
    {
        let mut reasons: Vec<String> = Vec::new();
        assert(reasons.deep_view() =~= Seq::<Seq<char>>::empty());
        check_rule(&mut reasons, self.build == 0, "Build ver must be at least 1");
        check_rule(
            &mut reasons,
            self.compiled_for_maikor_version < self.min_maikor_version,
            "Minimum maikor version must <= compile version",
        );
        check_text(
            &mut reasons,
            self.author.as_str(),
            "Author must have at least one character",
            "Author is too long, max of 255 characters",
        );
        check_text(
            &mut reasons,
            self.name.as_str(),
            "Name must have at least one character",
            "Name is too long, max of 255 characters",
        );
        check_text(
            &mut reasons,
            self.version.as_str(),
            "Version must have at least one character",
            "Version is too long, max of 255 characters",
        );
        check_text(
            &mut reasons,
            self.id.as_str(),
            "ID must have at least one character",
            "ID is too long, max of 255 characters",
        );
        let expected = platform().controller_count;
        if self.controller_graphics_bank_count as usize != expected {
            let mut reason = String::new();
            reason.append("Incorrect number of controller graphics (expected ");
            push_decimal(&mut reason, expected as u64);
            reason.append(", found ");
            push_decimal(&mut reason, self.controller_graphics_bank_count as u64);
            reason.append(")");
            assert(reason@ =~= controller_count_issue(self.controller_graphics_bank_count));
            push_reason(&mut reasons, reason);
        }
        check_rule(&mut reasons, self.atlas_bank_count == 0, "Must have at least one atlas bank");
        assert(reasons.deep_view() =~= self@.issues());
        assert(reasons.deep_view().len() == reasons.len());
        if reasons.is_empty() {
            Ok(())
        } else {
            Err(reasons)
        }
    }
}

fn read_texts<R: ReaderExt>(reader: &mut R) -> (texts: Result<
    (String, String, String, String),
    GameFileError,
>)
    ensures
        match texts {
            Ok((id, name, version, author)) => decoded_texts(old(reader).remaining()) == Ok::<
                ((Seq<char>, Seq<char>, Seq<char>, Seq<char>), Seq<u8>),
                GameFileErrorView,
            >(((id@, name@, version@, author@), final(reader).remaining())),
            Err(e) => decoded_texts(old(reader).remaining()) == Err::<
                ((Seq<char>, Seq<char>, Seq<char>, Seq<char>), Seq<u8>),
                GameFileErrorView,
            >(e@),
        },
{
    let id = match reader.read_len_string() {
        Some(v) => v,
        None => {
            return Err(GameFileError::Truncated("reading id"));
        },
    };
    let name = match reader.read_len_string() {
        Some(v) => v,
        None => {
            return Err(GameFileError::Truncated("reading name"));
        },
    };
    let version = match reader.read_len_string() {
        Some(v) => v,
        None => {
            return Err(GameFileError::Truncated("reading version"));
        },
    };
    let author = match reader.read_len_string() {
        Some(v) => v,
        None => {
            return Err(GameFileError::Truncated("reading author"));
        },
    };
    Ok((id, name, version, author))
}

fn read_counts<R: ReaderExt>(reader: &mut R) -> (counts: Result<(u8, u8, u8, u8), GameFileError>)
    ensures
        match counts {
            Ok(c) => decoded_counts(old(reader).remaining()) == Ok::<
                ((u8, u8, u8, u8), Seq<u8>),
                GameFileErrorView,
            >((c, final(reader).remaining())),
            Err(e) => decoded_counts(old(reader).remaining()) == Err::<
                ((u8, u8, u8, u8), Seq<u8>),
                GameFileErrorView,
            >(e@),
        },
{
    let code_bank_count = match reader.read_u8() {
        Some(v) => v,
        None => {
            return Err(GameFileError::Truncated("reading code bank count"));
        },
    };
    let ram_bank_count = match reader.read_u8() {
        Some(v) => v,
        None => {
            return Err(GameFileError::Truncated("reading ram bank count"));
        },
    };
    let atlas_bank_count = match reader.read_u8() {
        Some(v) => v,
        None => {
            return Err(GameFileError::Truncated("reading atlas bank count"));
        },
    };
    let controller_graphics_bank_count = match reader.read_u8() {
        Some(v) => v,
        None => {
            return Err(GameFileError::Truncated("reading controller graphics count"));
        },
    };
    Ok((code_bank_count, ram_bank_count, atlas_bank_count, controller_graphics_bank_count))
}

fn read_fields<R: ReaderExt>(reader: &mut R) -> (value: Result<GameFileHeader, GameFileError>)
    ensures
        match value {
            Ok(header) => decoded_fields(old(reader).remaining()) == Ok::<
                (GameFileHeaderView, Seq<u8>),
                GameFileErrorView,
            >((header@, final(reader).remaining())),
            Err(e) => decoded_fields(old(reader).remaining()) == Err::<
                (GameFileHeaderView, Seq<u8>),
                GameFileErrorView,
            >(e@),
        },
{
    let min_maikor_version = match reader.read_u16() {
        Some(v) => v,
        None => {
            return Err(GameFileError::Truncated("reading min ver"));
        },
    };
    let compiled_for_maikor_version = match reader.read_u16() {
        Some(v) => v,
        None => {
            return Err(GameFileError::Truncated("reading compiled ver"));
        },
    };
    let build = match reader.read_u32() {
        Some(v) => v,
        None => {
            return Err(GameFileError::Truncated("reading build"));
        },
    };
    let (id, name, version, author) = match read_texts(reader) {
        Ok(texts) => texts,
        Err(e) => {
            return Err(e);
        },
    };
    let (code_bank_count, ram_bank_count, atlas_bank_count, controller_graphics_bank_count) =
        match read_counts(reader) {
        Ok(counts) => counts,
        Err(e) => {
            return Err(e);
        },
    };
    Ok(
        GameFileHeader::new(
            id,
            build,
            compiled_for_maikor_version,
            min_maikor_version,
            ram_bank_count,
            name,
            version,
            author,
            code_bank_count,
            atlas_bank_count,
            controller_graphics_bank_count,
        ),
    )
}

impl GameFileHeader {
    /// Whether no text of the header has white space at its ends. Such a
    /// header is written as it stands; any other is written trimmed.
    pub fn has_trimmed_texts(&self) -> (yes: bool)
        ensures
            yes == self@.is_trimmed(),
            self@.with_trimmed_texts().is_trimmed(),
    {
        let id = is_trimmed(self.id.as_str());
        let name = is_trimmed(self.name.as_str());
        let version = is_trimmed(self.version.as_str());
        let author = is_trimmed(self.author.as_str());
        id && name && version && author
    }
}

impl Readable for GameFileHeader {
    open spec fn decoded(bytes: Seq<u8>) -> Result<(GameFileHeaderView, Seq<u8>), GameFileErrorView> {
        decoded_header(bytes)
    }

    /// Reads a header. The marker is checked as soon as it is read, before
    /// the format version is read, and the format version before the fields
    /// are read. The rules of [`GameFileHeader::validate`] are not checked
    /// here.
    fn from_reader<R: ReaderExt>(reader: &mut R) -> (value: Result<GameFileHeader, GameFileError>)
        ensures
            old(reader).remaining().len() >= 2 && !starts_with_marker(old(reader).remaining())
                ==> (value matches Err(e) && e@ == GameFileErrorView::FileFormatInvalid),
            old(reader).remaining().len() >= 3 && starts_with_marker(old(reader).remaining())
                && old(reader).remaining()[2] != FILE_FORMAT_VER ==> (value matches Err(e) && e@
                == GameFileErrorView::InvalidFileVersion(old(reader).remaining()[2])),
    {
        proof {
            reveal(decoded_header);
        }
        let file_header = match reader.read_u16() {
            Some(v) => v,
            None => {
                return Err(GameFileError::Truncated("reading file header"));
            },
        };
        if file_header != ID_HEADER[0] as u16 * 256 + ID_HEADER[1] as u16 {
            return Err(GameFileError::FileFormatInvalid());
        }
        let file_ver = match reader.read_u8() {
            Some(v) => v,
            None => {
                return Err(GameFileError::Truncated("reading file ver"));
            },
        };
        if file_ver != FILE_FORMAT_VER {
            return Err(GameFileError::InvalidFileVersion(file_ver));
        }
        read_fields(reader)
    }
}

impl Writeable for GameFileHeader {
    open spec fn encoded(&self) -> Result<Seq<u8>, GameFileErrorView> {
        encoded_header(self@)
    }

    /// Writes the header. The texts are written trimmed; the first of ID,
    /// name, version and author that is longer than 255 bytes when trimmed
    /// is reported as [`GameFileError::FieldTooLong`].
    fn as_bytes(&self) -> (bytes: Result<Vec<u8>, GameFileError>)
        ensures
            bytes is Ok <==> self@.texts_fit(),
    {
        let mut output: Vec<u8> = Vec::new();
        append_bytes(&mut output, ID_HEADER.as_slice());
        output.push(FILE_FORMAT_VER);
        append_u16(&mut output, self.min_maikor_version);
        append_u16(&mut output, self.compiled_for_maikor_version);
        append_u32(&mut output, self.build);
        match convert_string("ID", self.id.as_str()) {
            Ok(text) => append_bytes(&mut output, text.as_slice()),
            Err(e) => {
                return Err(e);
            },
        }
        match convert_string("Name", self.name.as_str()) {
            Ok(text) => append_bytes(&mut output, text.as_slice()),
            Err(e) => {
                return Err(e);
            },
        }
        match convert_string("Version", self.version.as_str()) {
            Ok(text) => append_bytes(&mut output, text.as_slice()),
            Err(e) => {
                return Err(e);
            },
        }
        match convert_string("Author", self.author.as_str()) {
            Ok(text) => append_bytes(&mut output, text.as_slice()),
            Err(e) => {
                return Err(e);
            },
        }
        output.push(self.code_bank_count);
        output.push(self.ram_bank_count);
        output.push(self.atlas_bank_count);
        output.push(self.controller_graphics_bank_count);
        assert(output@ =~= encoded_header(self@)->Ok_0);
        Ok(output)
    }
}

impl GameFileHeaderView {
    /// The header with every text trimmed: what is written of it.
    pub open spec fn with_trimmed_texts(self) -> GameFileHeaderView {
        GameFileHeaderView {
            id: trimmed(self.id),
            name: trimmed(self.name),
            version: trimmed(self.version),
            author: trimmed(self.author),
            ..self
        }
    }
}

proof fn lemma_counts_are_read_back(header: GameFileHeaderView, rest: Seq<u8>)
    ensures
        decoded_counts(count_bytes(header) + rest) == Ok::<
            ((u8, u8, u8, u8), Seq<u8>),
            GameFileErrorView,
        >(
            (
                (
                    header.code_bank_count,
                    header.ram_bank_count,
                    header.atlas_bank_count,
                    header.controller_graphics_bank_count,
                ),
                rest,
            ),
        ),
{
    let s3 = seq![header.controller_graphics_bank_count] + rest;
    let s2 = seq![header.atlas_bank_count] + s3;
    let s1 = seq![header.ram_bank_count] + s2;
    let s0 = seq![header.code_bank_count] + s1;
    assert(count_bytes(header) + rest =~= s0);
    lemma_take_u8_of_written(header.controller_graphics_bank_count, rest);
    lemma_take_u8_of_written(header.atlas_bank_count, s3);
    lemma_take_u8_of_written(header.ram_bank_count, s2);
    lemma_take_u8_of_written(header.code_bank_count, s1);
}

proof fn lemma_texts_are_read_back(header: GameFileHeaderView, rest: Seq<u8>)
    requires
        encoded_header(header) is Ok,
    ensures
        decoded_texts(
            encoded_text("ID"@, header.id)->Ok_0 + (encoded_text("Name"@, header.name)->Ok_0 + (
            encoded_text("Version"@, header.version)->Ok_0 + (encoded_text(
                "Author"@,
                header.author,
            )->Ok_0 + rest))),
        ) == Ok::<((Seq<char>, Seq<char>, Seq<char>, Seq<char>), Seq<u8>), GameFileErrorView>(
            (
                (
                    trimmed(header.id),
                    trimmed(header.name),
                    trimmed(header.version),
                    trimmed(header.author),
                ),
                rest,
            ),
        ),
{
    let s3 = encoded_text("Author"@, header.author)->Ok_0 + rest;
    let s2 = encoded_text("Version"@, header.version)->Ok_0 + s3;
    let s1 = encoded_text("Name"@, header.name)->Ok_0 + s2;
    lemma_take_len_text_of_written("Author"@, header.author, rest);
    lemma_take_len_text_of_written("Version"@, header.version, s3);
    lemma_take_len_text_of_written("Name"@, header.name, s2);
    lemma_take_len_text_of_written("ID"@, header.id, s1);
}

/// The bytes of a header after the format version.
pub open spec fn encoded_fields(header: GameFileHeaderView) -> Seq<u8>
    recommends
        encoded_header(header) is Ok,
{
    u16_bytes(header.min_maikor_version) + (u16_bytes(header.compiled_for_maikor_version) + (
    u32_bytes(header.build) + (encoded_text("ID"@, header.id)->Ok_0 + (encoded_text(
        "Name"@,
        header.name,
    )->Ok_0 + (encoded_text("Version"@, header.version)->Ok_0 + (encoded_text(
        "Author"@,
        header.author,
    )->Ok_0 + count_bytes(header)))))))
}

proof fn lemma_numbers_are_read_back(header: GameFileHeaderView, tail: Seq<u8>)
    ensures
        decoded_fields(
            u16_bytes(header.min_maikor_version) + (u16_bytes(header.compiled_for_maikor_version)
                + (u32_bytes(header.build) + tail)),
        ) == decoded_after_numbers(
            header.min_maikor_version,
            header.compiled_for_maikor_version,
            header.build,
            tail,
        ),
{
    let s2 = u32_bytes(header.build) + tail;
    let s1 = u16_bytes(header.compiled_for_maikor_version) + s2;
    lemma_take_u32_of_written(header.build, tail);
    lemma_take_u16_of_written(header.compiled_for_maikor_version, s2);
    lemma_take_u16_of_written(header.min_maikor_version, s1);
}

proof fn lemma_fields_in_parts(header: GameFileHeaderView, rest: Seq<u8>)
    ensures
        encoded_fields(header) + rest == u16_bytes(header.min_maikor_version) + (u16_bytes(
            header.compiled_for_maikor_version,
        ) + (u32_bytes(header.build) + (encoded_text("ID"@, header.id)->Ok_0 + (encoded_text(
            "Name"@,
            header.name,
        )->Ok_0 + (encoded_text("Version"@, header.version)->Ok_0 + (encoded_text(
            "Author"@,
            header.author,
        )->Ok_0 + (count_bytes(header) + rest))))))),
{
    let id = encoded_text("ID"@, header.id)->Ok_0;
    let name = encoded_text("Name"@, header.name)->Ok_0;
    let version = encoded_text("Version"@, header.version)->Ok_0;
    let author = encoded_text("Author"@, header.author)->Ok_0;
    let min = u16_bytes(header.min_maikor_version);
    let compiled = u16_bytes(header.compiled_for_maikor_version);
    let build = u32_bytes(header.build);
    let counts = count_bytes(header);
    lemma_concat_assoc(author, counts, rest);
    lemma_concat_assoc(version, author + counts, rest);
    lemma_concat_assoc(name, version + (author + counts), rest);
    lemma_concat_assoc(id, name + (version + (author + counts)), rest);
    lemma_concat_assoc(build, id + (name + (version + (author + counts))), rest);
    lemma_concat_assoc(compiled, build + (id + (name + (version + (author + counts)))), rest);
    lemma_concat_assoc(
        min,
        compiled + (build + (id + (name + (version + (author + counts))))),
        rest,
    );
}

proof fn lemma_fields_are_read_back(header: GameFileHeaderView, rest: Seq<u8>)
    requires
        encoded_header(header) is Ok,
    ensures
        decoded_fields(encoded_fields(header) + rest) == Ok::<
            (GameFileHeaderView, Seq<u8>),
            GameFileErrorView,
        >((header.with_trimmed_texts(), rest)),
{
    let s7 = count_bytes(header) + rest;
    let s3 = encoded_text("ID"@, header.id)->Ok_0 + (encoded_text("Name"@, header.name)->Ok_0 + (
    encoded_text("Version"@, header.version)->Ok_0 + (encoded_text(
        "Author"@,
        header.author,
    )->Ok_0 + s7)));
    lemma_fields_in_parts(header, rest);
    lemma_counts_are_read_back(header, rest);
    lemma_texts_are_read_back(header, s7);
    lemma_numbers_are_read_back(header, s3);
}

proof fn lemma_encoded_header_in_parts(header: GameFileHeaderView)
    requires
        encoded_header(header) is Ok,
    ensures
        encoded_header(header)->Ok_0 == ID_HEADER@ + (seq![FILE_FORMAT_VER] + encoded_fields(
            header,
        )),
{
    let id = encoded_text("ID"@, header.id)->Ok_0;
    let name = encoded_text("Name"@, header.name)->Ok_0;
    let version = encoded_text("Version"@, header.version)->Ok_0;
    let author = encoded_text("Author"@, header.author)->Ok_0;
    let min = u16_bytes(header.min_maikor_version);
    let compiled = u16_bytes(header.compiled_for_maikor_version);
    let build = u32_bytes(header.build);
    let counts = count_bytes(header);
    let start = ID_HEADER@ + seq![FILE_FORMAT_VER];
    assert(encoded_header(header)->Ok_0 == start + min + compiled + build + id + name + version
        + author + counts);
    lemma_concat_assoc(start + min + compiled + build + id + name + version, author, counts);
    lemma_concat_assoc(start + min + compiled + build + id + name, version, author + counts);
    lemma_concat_assoc(start + min + compiled + build + id, name, version + (author + counts));
    lemma_concat_assoc(start + min + compiled + build, id, name + (version + (author + counts)));
    lemma_concat_assoc(
        start + min + compiled,
        build,
        id + (name + (version + (author + counts))),
    );
    lemma_concat_assoc(
        start + min,
        compiled,
        build + (id + (name + (version + (author + counts)))),
    );
    lemma_concat_assoc(
        start,
        min,
        compiled + (build + (id + (name + (version + (author + counts))))),
    );
    lemma_concat_assoc(ID_HEADER@, seq![FILE_FORMAT_VER], encoded_fields(header));
}

/// Every header that can be written is read back from its bytes with its
/// texts trimmed, whatever follows the bytes, and what follows is left
/// unread.
pub proof fn lemma_written_header_is_read_back(header: GameFileHeaderView, rest: Seq<u8>)
    requires
        encoded_header(header) is Ok,
    ensures
        decoded_header(encoded_header(header)->Ok_0 + rest) == Ok::<
            (GameFileHeaderView, Seq<u8>),
            GameFileErrorView,
        >((header.with_trimmed_texts(), rest)),
{
    reveal(decoded_header);
    let s1 = encoded_fields(header) + rest;
    let s0 = seq![FILE_FORMAT_VER] + s1;
    let all = ID_HEADER@ + s0;
    assert(encoded_header(header)->Ok_0 + rest == all) by {
        lemma_encoded_header_in_parts(header);
        lemma_concat_assoc(seq![FILE_FORMAT_VER], encoded_fields(header), rest);
        lemma_concat_assoc(ID_HEADER@, seq![FILE_FORMAT_VER] + encoded_fields(header), rest);
    }
    lemma_fields_are_read_back(header, rest);
    lemma_take_u8_of_written(FILE_FORMAT_VER, s1);
    assert(all.take(2) =~= ID_HEADER@);
    assert(all.skip(2) =~= s0);
}

/// Round trip: a valid header whose texts have no white space at their ends
/// can be written, and reading its bytes gives the same header again.
pub proof fn lemma_header_round_trip(header: GameFileHeaderView, rest: Seq<u8>)
    requires
        header.is_valid(),
        header.is_trimmed(),
    ensures
        encoded_header(header) is Ok,
        decoded_header(encoded_header(header)->Ok_0 + rest) == Ok::<
            (GameFileHeaderView, Seq<u8>),
            GameFileErrorView,
        >((header, rest)),
{
    lemma_written_header_is_read_back(header, rest);
}

/// The length cap of texts: a header can be written if and only if each of
/// its four texts, trimmed, is at most 255 bytes long.
pub proof fn lemma_header_is_written_iff_texts_fit(header: GameFileHeaderView)
    ensures
        encoded_header(header) is Ok <==> header.texts_fit(),
        header.is_valid() ==> header.texts_fit(),
{
}

/// The marker gate: bytes that do not start with the marker of a cartridge
/// are refused as no cartridge, whatever follows their first two bytes.
pub proof fn lemma_wrong_marker_is_refused(bytes: Seq<u8>)
    requires
        bytes.len() >= 2,
        !starts_with_marker(bytes),
    ensures
        decoded_header(bytes) == Err::<(GameFileHeaderView, Seq<u8>), GameFileErrorView>(
            GameFileErrorView::FileFormatInvalid,
        ),
{
    reveal(decoded_header);
}

/// The version gate: bytes that start with the marker and go on with
/// another format version than the supported one are refused, and the
/// version that was found is reported.
pub proof fn lemma_wrong_version_is_refused(bytes: Seq<u8>)
    requires
        bytes.len() >= 3,
        starts_with_marker(bytes),
        bytes[2] != FILE_FORMAT_VER,
    ensures
        decoded_header(bytes) == Err::<(GameFileHeaderView, Seq<u8>), GameFileErrorView>(
            GameFileErrorView::InvalidFileVersion(bytes[2]),
        ),
{
    reveal(decoded_header);
}

/// Validation is exhaustive: each rule that a header breaks has its reason
/// in the list, however many rules are broken at once.
pub proof fn lemma_every_broken_rule_is_listed(header: GameFileHeaderView)
    ensures
        header.build == 0 ==> header.issues().contains("Build ver must be at least 1"@),
        header.compiled_for_maikor_version < header.min_maikor_version
            ==> header.issues().contains("Minimum maikor version must <= compile version"@),
        !text_is_valid(header.author) ==> header.issues().contains(
            "Author must have at least one character"@,
        ) || header.issues().contains("Author is too long, max of 255 characters"@),
        !text_is_valid(header.name) ==> header.issues().contains(
            "Name must have at least one character"@,
        ) || header.issues().contains("Name is too long, max of 255 characters"@),
        !text_is_valid(header.version) ==> header.issues().contains(
            "Version must have at least one character"@,
        ) || header.issues().contains("Version is too long, max of 255 characters"@),
        !text_is_valid(header.id) ==> header.issues().contains(
            "ID must have at least one character"@,
        ) || header.issues().contains("ID is too long, max of 255 characters"@),
        header.controller_graphics_bank_count != CONTROLLER_COUNT ==> header.issues().contains(
            controller_count_issue(header.controller_graphics_bank_count),
        ),
        header.atlas_bank_count == 0 ==> header.issues().contains(
            "Must have at least one atlas bank"@,
        ),
        header.is_valid() <==> header.issues().len() == 0,
{
    let build = issue_if(header.build == 0, "Build ver must be at least 1"@);
    let order = issue_if(
        header.compiled_for_maikor_version < header.min_maikor_version,
        "Minimum maikor version must <= compile version"@,
    );
    let author = text_issues(
        header.author,
        "Author must have at least one character"@,
        "Author is too long, max of 255 characters"@,
    );
    let name = text_issues(
        header.name,
        "Name must have at least one character"@,
        "Name is too long, max of 255 characters"@,
    );
    let version = text_issues(
        header.version,
        "Version must have at least one character"@,
        "Version is too long, max of 255 characters"@,
    );
    let id = text_issues(
        header.id,
        "ID must have at least one character"@,
        "ID is too long, max of 255 characters"@,
    );
    let controller = issue_if(
        header.controller_graphics_bank_count != CONTROLLER_COUNT,
        controller_count_issue(header.controller_graphics_bank_count),
    );
    let atlas = issue_if(header.atlas_bank_count == 0, "Must have at least one atlas bank"@);
    let all = header.issues();
    assert(all == build + order + author + name + version + id + controller + atlas);
    let b = build.len() as int;
    let o = b + order.len();
    let a = o + author.len();
    let n = a + name.len();
    let v = n + version.len();
    let i = v + id.len();
    let c = i + controller.len();
    if build.len() > 0 {
        assert(all[0] == build[0]);
    }
    if order.len() > 0 {
        assert(all[b] == order[0]);
    }
    if author.len() > 0 {
        assert(all[o] == author[0]);
    }
    if name.len() > 0 {
        assert(all[a] == name[0]);
    }
    if version.len() > 0 {
        assert(all[n] == version[0]);
    }
    if id.len() > 0 {
        assert(all[v] == id[0]);
    }
    if controller.len() > 0 {
        assert(all[i] == controller[0]);
    }
    if atlas.len() > 0 {
        assert(all[c] == atlas[0]);
    }
}

/// The bank counts as they are decoded from the first `n` bytes.
pub proof fn lemma_counts_of_prefix(bytes: Seq<u8>, n: int)
    requires
        0 <= n <= bytes.len(),
    ensures
        prefix_decodes(decoded_counts(bytes), bytes, n, decoded_counts(bytes.take(n))),
{
    if decoded_counts(bytes) is Ok {
        let s1 = bytes.skip(1);
        let s2 = s1.skip(1);
        let s3 = s2.skip(1);
        lemma_skip_skip(bytes, 1, 1);
        lemma_skip_skip(bytes, 2, 1);
        lemma_skip_skip(bytes, 3, 1);
        lemma_take_u8_of_prefix(bytes, n);
        if n >= 1 {
            lemma_take_u8_of_prefix(s1, n - 1);
        }
        if n >= 2 {
            lemma_take_u8_of_prefix(s2, n - 2);
        }
        if n >= 3 {
            lemma_take_u8_of_prefix(s3, n - 3);
        }
    }
}

/// The texts as they are decoded from the first `n` bytes.
pub proof fn lemma_texts_of_prefix(bytes: Seq<u8>, n: int)
    requires
        0 <= n <= bytes.len(),
    ensures
        prefix_decodes(decoded_texts(bytes), bytes, n, decoded_texts(bytes.take(n))),
{
    if decoded_texts(bytes) is Ok {
        let (id, s1) = take_len_text(bytes)->Some_0;
        let (name, s2) = take_len_text(s1)->Some_0;
        let (version, s3) = take_len_text(s2)->Some_0;
        let (author, s4) = take_len_text(s3)->Some_0;
        let u1 = bytes.len() - s1.len();
        let u2 = s1.len() - s2.len();
        let u3 = s2.len() - s3.len();
        let u4 = s3.len() - s4.len();
        lemma_take_len_text_of_prefix(bytes, n);
        lemma_take_len_text_of_prefix(s1, 0);
        lemma_take_len_text_of_prefix(s2, 0);
        lemma_take_len_text_of_prefix(s3, 0);
        lemma_skip_skip(bytes, u1, u2);
        lemma_skip_skip(bytes, u1 + u2, u3);
        lemma_skip_skip(bytes, u1 + u2 + u3, u4);
        if n >= u1 {
            lemma_take_len_text_of_prefix(s1, n - u1);
            if n - u1 >= u2 {
                lemma_take_len_text_of_prefix(s2, n - u1 - u2);
                if n - u1 - u2 >= u3 {
                    lemma_take_len_text_of_prefix(s3, n - u1 - u2 - u3);
                }
            }
        }
    }
}

proof fn lemma_after_numbers_of_prefix(min: u16, compiled: u16, build: u32, bytes: Seq<u8>, n: int)
    requires
        0 <= n <= bytes.len(),
    ensures
        prefix_decodes(
            decoded_after_numbers(min, compiled, build, bytes),
            bytes,
            n,
            decoded_after_numbers(min, compiled, build, bytes.take(n)),
        ),
{
    if decoded_after_numbers(min, compiled, build, bytes) is Ok {
        let (texts, s1) = decoded_texts(bytes)->Ok_0;
        let (counts, s2) = decoded_counts(s1)->Ok_0;
        let u1 = bytes.len() - s1.len();
        let u2 = s1.len() - s2.len();
        lemma_texts_of_prefix(bytes, n);
        lemma_counts_of_prefix(s1, 0);
        lemma_skip_skip(bytes, u1, u2);
        if n >= u1 {
            lemma_counts_of_prefix(s1, n - u1);
        }
    }
}

/// The fields as they are decoded from the first `n` bytes.
pub proof fn lemma_fields_of_prefix(bytes: Seq<u8>, n: int)
    requires
        0 <= n <= bytes.len(),
    ensures
        prefix_decodes(decoded_fields(bytes), bytes, n, decoded_fields(bytes.take(n))),
{
    if decoded_fields(bytes) is Ok {
        let (min, s1) = take_u16(bytes)->Some_0;
        let (compiled, s2) = take_u16(s1)->Some_0;
        let (build, s3) = take_u32(s2)->Some_0;
        let (header, s4) = decoded_after_numbers(min, compiled, build, s3)->Ok_0;
        let tail = s3.len() - s4.len();
        lemma_take_u16_of_prefix(bytes, n);
        lemma_after_numbers_of_prefix(min, compiled, build, s3, 0);
        assert(s4 == bytes.skip(8 + tail)) by {
            lemma_skip_skip(bytes, 2, 2);
            lemma_skip_skip(bytes, 4, 4);
            lemma_skip_skip(bytes, 8, tail);
        }
        if n < 2 {
        } else if n < 4 {
            lemma_take_u16_of_prefix(s1, n - 2);
        } else if n < 8 {
            lemma_take_u16_of_prefix(s1, n - 2);
            lemma_take_u32_of_prefix(s2, n - 4);
        } else {
            lemma_take_u16_of_prefix(s1, n - 2);
            lemma_take_u32_of_prefix(s2, n - 4);
            lemma_after_numbers_of_prefix(min, compiled, build, s3, n - 8);
        }
    }
}

/// Decoding a header from the first `n` bytes of some bytes that hold a
/// header gives the same header if the first `n` reach to its end, and is
/// cut short if they do not.
pub proof fn lemma_header_of_prefix(bytes: Seq<u8>, n: int)
    requires
        0 <= n <= bytes.len(),
    ensures
        prefix_decodes(decoded_header(bytes), bytes, n, decoded_header(bytes.take(n))),
{
    reveal(decoded_header);
    if decoded_header(bytes) is Ok {
        let s1 = bytes.skip(2);
        let s2 = s1.skip(1);
        let (header, s3) = decoded_fields(s2)->Ok_0;
        let u3 = s2.len() - s3.len();
        lemma_skip_skip(bytes, 2, 1);
        lemma_fields_of_prefix(s2, 0);
        lemma_skip_skip(bytes, 3, u3);
        lemma_take_u16_of_prefix(bytes, n);
        if n >= 2 {
            lemma_take_u8_of_prefix(s1, n - 2);
        }
        if n >= 3 {
            lemma_fields_of_prefix(s2, n - 3);
        }
    }
}

/// Every strict prefix of the bytes of a header is refused as cut short.
pub proof fn lemma_strict_prefix_of_header_is_truncated(header: GameFileHeaderView, n: int)
    requires
        encoded_header(header) is Ok,
        0 <= n < encoded_header(header)->Ok_0.len(),
    ensures
        is_truncated(decoded_header(encoded_header(header)->Ok_0.take(n))),
{
    let bytes = encoded_header(header)->Ok_0;
    lemma_written_header_is_read_back(header, Seq::empty());
    assert(bytes + Seq::<u8>::empty() =~= bytes);
    lemma_header_of_prefix(bytes, n);
}

} // verus!
