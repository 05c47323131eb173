//! A whole cartridge: the header, the main code and the banks.
use crate::constants::{
    platform, ATLAS_BANK, CODE_BANK, CONTROLLER_GRAPHICS_BANK, FILE_FORMAT_VER, MAIN_CODE,
    MAX_FILE_SIZE, MIN_FILE_SIZE,
};
use crate::error::{is_truncated, prefix_decodes, truncated, GameFileError, GameFileErrorView};
use crate::file_utils::{
    all_of_len, append_blocks, append_bytes, blocks_of, concat, convert_vec,
    lemma_blocks_are_read_back, lemma_concat_assoc, lemma_concat_len, lemma_skip_skip,
    lemma_take_block_of_prefix, lemma_take_block_of_written, lemma_take_blocks_of_prefix,
    read_sized_blocks, take_block, take_blocks, ReaderExt,
};
use crate::game_header::{
    decoded_header, encoded_header, lemma_header_of_prefix, lemma_header_round_trip,
    lemma_written_header_is_read_back, lemma_wrong_marker_is_refused,
    lemma_wrong_version_is_refused, starts_with_marker, GameFileHeader, GameFileHeaderView,
};
use crate::read_write_impl::{Readable, Writeable};
use vstd::prelude::*;
use vstd::std_specs::cmp::PartialEqSpecImpl;

verus! {

/// Full game file
pub struct GameFile {
    pub header: GameFileHeader,
    /// Main code data
    pub main_code: [u8; MAIN_CODE],
    /// Code bank data
    pub code_banks: Vec<[u8; CODE_BANK]>,
    /// Atlas bank data
    pub atlases: Vec<[u8; ATLAS_BANK]>,
    /// Controller graphics data
    pub controller_graphics: Vec<[u8; CONTROLLER_GRAPHICS_BANK]>,
}

/// A [`GameFile`] as sequences of bytes.
pub struct GameFileView {
    pub header: GameFileHeaderView,
    pub main_code: Seq<u8>,
    pub code_banks: Seq<Seq<u8>>,
    pub atlases: Seq<Seq<u8>>,
    pub controller_graphics: Seq<Seq<u8>>,
}

impl View for GameFile {
    type V = GameFileView;

    open spec fn view(&self) -> GameFileView {
        GameFileView {
            header: self.header@,
            main_code: self.main_code@,
            code_banks: blocks_of(self.code_banks@),
            atlases: blocks_of(self.atlases@),
            controller_graphics: blocks_of(self.controller_graphics@),
        }
    }
}

impl GameFileView {
    /// Whether the main code and every bank have the length of their kind.
    /// This holds of the view of every [`GameFile`].
    pub open spec fn has_bank_sizes(self) -> bool {
        &&& self.main_code.len() == MAIN_CODE
        &&& all_of_len(self.code_banks, CODE_BANK as nat)
        &&& all_of_len(self.atlases, ATLAS_BANK as nat)
        &&& all_of_len(self.controller_graphics, CONTROLLER_GRAPHICS_BANK as nat)
    }

    /// Whether the file has as many banks of each kind as its header says.
    pub open spec fn has_bank_counts(self) -> bool {
        &&& self.code_banks.len() == self.header.code_bank_count
        &&& self.atlases.len() == self.header.atlas_bank_count
        &&& self.controller_graphics.len() == self.header.controller_graphics_bank_count
    }
}

/// What the bytes after a header decode to: the main code, then the code
/// banks, the atlas banks and the controller graphics banks, as many of each
/// as the header says.
pub open spec fn decoded_body(header: GameFileHeaderView, bytes: Seq<u8>) -> Result<
    (GameFileView, Seq<u8>),
    GameFileErrorView,
> {
    match take_block(bytes, MAIN_CODE as nat) {
        None => Err(truncated("reading main code")),
        Some((main_code, s1)) => match take_blocks(
            s1,
            CODE_BANK as nat,
            header.code_bank_count as nat,
        ) {
            None => Err(truncated("reading file blocks")),
            Some((code_banks, s2)) => match take_blocks(
                s2,
                ATLAS_BANK as nat,
                header.atlas_bank_count as nat,
            ) {
                None => Err(truncated("reading file blocks")),
                Some((atlases, s3)) => match take_blocks(
                    s3,
                    CONTROLLER_GRAPHICS_BANK as nat,
                    header.controller_graphics_bank_count as nat,
                ) {
                    None => Err(truncated("reading file blocks")),
                    Some((controller_graphics, s4)) => Ok(
                        (
                            GameFileView {
                                header,
                                main_code,
                                code_banks,
                                atlases,
                                controller_graphics,
                            },
                            s4,
                        ),
                    ),
                },
            },
        },
    }
}

/// What a run of bytes decodes to as a cartridge: the header, which must
/// keep every rule, and then what follows the header.
pub open spec fn decoded_game_file(bytes: Seq<u8>) -> Result<
    (GameFileView, Seq<u8>),
    GameFileErrorView,
> {
    match decoded_header(bytes) {
        Err(e) => Err(e),
        Ok((header, rest)) => if !header.is_valid() {
            Err(GameFileErrorView::InvalidHeader(header.issues()))
        } else {
            decoded_body(header, rest)
        },
    }
}

/// The bytes of a cartridge: the header, the main code, the code banks, the
/// atlas banks and the controller graphics banks, with nothing between them.
pub open spec fn encoded_game_file(file: GameFileView) -> Result<Seq<u8>, GameFileErrorView> {
    match encoded_header(file.header) {
        Err(e) => Err(e),
        Ok(header) => Ok(
            header + file.main_code + concat(file.code_banks) + concat(file.atlases) + concat(
                file.controller_graphics,
            ),
        ),
    }
}

impl GameFile {
    /// A cartridge of the given parts. That the header counts the banks
    /// rightly is not checked.
    pub fn new(
        header: GameFileHeader,
        main_code: [u8; MAIN_CODE],
        code_banks: Vec<[u8; CODE_BANK]>,
        atlases: Vec<[u8; ATLAS_BANK]>,
        controller_graphics: Vec<[u8; CONTROLLER_GRAPHICS_BANK]>,
    ) -> (file: Self)
        ensures
            file == (GameFile { header, main_code, code_banks, atlases, controller_graphics }),
    {
        Self { header, main_code, code_banks, atlases, controller_graphics }
    }
}

/// Two cartridges are equal if they have the same ID and the same build
/// number, whatever else they hold.
impl PartialEq for GameFile {
    fn eq(&self, other: &Self) -> (equal: bool) {
        self.header.id == other.header.id && self.header.build == other.header.build
    }
}

impl PartialEqSpecImpl for GameFile {
    open spec fn obeys_eq_spec() -> bool {
        true
    }

    open spec fn eq_spec(&self, other: &Self) -> bool {
        self.header.id@ == other.header.id@ && self.header.build == other.header.build
    }
}

impl Eq for GameFile {}

fn read_body<R: ReaderExt>(reader: &mut R, header: GameFileHeader) -> (value: Result<
    GameFile,
    GameFileError,
>)
    ensures
        match value {
            Ok(file) => decoded_body(header@, old(reader).remaining()) == Ok::<
                (GameFileView, Seq<u8>),
                GameFileErrorView,
            >((file@, final(reader).remaining())),
            Err(e) => decoded_body(header@, old(reader).remaining()) == Err::<
                (GameFileView, Seq<u8>),
                GameFileErrorView,
            >(e@),
        },
{
    let sizes = platform();
    let main_code = match reader.read_block(sizes.main_code) {
        Some(block) => block,
        None => {
            return Err(GameFileError::Truncated("reading main code"));
        },
    };
    let code_banks = match read_sized_blocks::<R, CODE_BANK>(
        reader,
        header.code_bank_count as usize,
    ) {
        Ok(banks) => banks,
        Err(e) => {
            return Err(e);
        },
    };
    let atlases = match read_sized_blocks::<R, ATLAS_BANK>(
        reader,
        header.atlas_bank_count as usize,
    ) {
        Ok(banks) => banks,
        Err(e) => {
            return Err(e);
        },
    };
    let controller_graphics = match read_sized_blocks::<R, CONTROLLER_GRAPHICS_BANK>(
        reader,
        header.controller_graphics_bank_count as usize,
    ) {
        Ok(banks) => banks,
        Err(e) => {
            return Err(e);
        },
    };
    let main_code = match convert_vec::<u8, MAIN_CODE>(main_code) {
        Ok(array) => array,
        Err(e) => {
            return Err(e);
        },
    };
    Ok(GameFile::new(header, main_code, code_banks, atlases, controller_graphics))
}

impl Readable for GameFile {
    open spec fn decoded(bytes: Seq<u8>) -> Result<(GameFileView, Seq<u8>), GameFileErrorView> {
        decoded_game_file(bytes)
    }

    /// Reads a cartridge. A file that is refused is refused as a whole.
    fn from_reader<R: ReaderExt>(reader: &mut R) -> (value: Result<GameFile, GameFileError>)
        ensures
            old(reader).remaining().len() >= 2 && !starts_with_marker(old(reader).remaining())
                ==> (value matches Err(e) && e@ == GameFileErrorView::FileFormatInvalid),
            old(reader).remaining().len() >= 3 && starts_with_marker(old(reader).remaining())
                && old(reader).remaining()[2] != FILE_FORMAT_VER ==> (value matches Err(e) && e@
                == GameFileErrorView::InvalidFileVersion(old(reader).remaining()[2])),
            value matches Ok(file) ==> file@.header.is_valid() && file@.has_bank_counts(),
    {
        let header = match GameFileHeader::from_reader(reader) {
            Ok(header) => header,
            Err(e) => {
                return Err(e);
            },
        };
        if let Err(reasons) = header.validate() {
            return Err(GameFileError::InvalidHeader(reasons));
        }
        read_body(reader, header)
    }
}

impl Writeable for GameFile {
    open spec fn encoded(&self) -> Result<Seq<u8>, GameFileErrorView> {
        encoded_game_file(self@)
    }

    /// Writes the cartridge. Neither the rules of the header nor its bank
    /// counts are checked.
    fn as_bytes(&self) -> (bytes: Result<Vec<u8>, GameFileError>) {
        let mut output = match self.header.as_bytes() {
            Ok(bytes) => bytes,
            Err(e) => {
                return Err(e);
            },
        };
        append_bytes(&mut output, self.main_code.as_slice());
        append_blocks(&mut output, &self.code_banks);
        append_blocks(&mut output, &self.atlases);
        append_blocks(&mut output, &self.controller_graphics);
        Ok(output)
    }
}

/// What follows a header is read back from its bytes.
pub proof fn lemma_written_body_is_read_back(file: GameFileView, rest: Seq<u8>)
    requires
        file.has_bank_sizes(),
        file.has_bank_counts(),
    ensures
        decoded_body(
            file.header,
            file.main_code + (concat(file.code_banks) + (concat(file.atlases) + (concat(
                file.controller_graphics,
            ) + rest))),
        ) == Ok::<(GameFileView, Seq<u8>), GameFileErrorView>((file, rest)),
{
    let s3 = concat(file.controller_graphics) + rest;
    let s2 = concat(file.atlases) + s3;
    let s1 = concat(file.code_banks) + s2;
    lemma_take_block_of_written(file.main_code, s1);
    lemma_blocks_are_read_back(file.code_banks, CODE_BANK as nat, s2);
    lemma_blocks_are_read_back(file.atlases, ATLAS_BANK as nat, s3);
    lemma_blocks_are_read_back(file.controller_graphics, CONTROLLER_GRAPHICS_BANK as nat, rest);
}

/// Round trip: a cartridge whose header is valid, counts the banks rightly
/// and has no white space at the ends of its texts can be written, and
/// reading its bytes gives the same cartridge again.
pub proof fn lemma_game_file_round_trip(file: GameFileView, rest: Seq<u8>)
    requires
        file.has_bank_sizes(),
        file.has_bank_counts(),
        file.header.is_valid(),
        file.header.is_trimmed(),
    ensures
        encoded_game_file(file) is Ok,
        decoded_game_file(encoded_game_file(file)->Ok_0 + rest) == Ok::<
            (GameFileView, Seq<u8>),
            GameFileErrorView,
        >((file, rest)),
{
    let header = encoded_header(file.header)->Ok_0;
    let s3 = concat(file.controller_graphics) + rest;
    let s2 = concat(file.atlases) + s3;
    let s1 = concat(file.code_banks) + s2;
    let s0 = file.main_code + s1;
    lemma_header_round_trip(file.header, s0);
    assert(encoded_game_file(file)->Ok_0 + rest == header + s0) by {
        let main = file.main_code;
        let code = concat(file.code_banks);
        let atlases = concat(file.atlases);
        let controller = concat(file.controller_graphics);
        lemma_concat_assoc(header + main + code + atlases, controller, rest);
        lemma_concat_assoc(header + main + code, atlases, controller + rest);
        lemma_concat_assoc(header + main, code, atlases + (controller + rest));
        lemma_concat_assoc(header, main, code + (atlases + (controller + rest)));
    }
    lemma_written_body_is_read_back(file, rest);
}

/// A cartridge that ends inside its main code is refused as truncated,
/// whatever its header says.
pub proof fn lemma_short_main_code_is_truncated(bytes: Seq<u8>)
    requires
        decoded_header(bytes) matches Ok((header, rest)) && header.is_valid() && rest.len()
            < MAIN_CODE,
    ensures
        decoded_game_file(bytes) == Err::<(GameFileView, Seq<u8>), GameFileErrorView>(
            truncated("reading main code"),
        ),
{
}

/// The two gates hold of cartridges as they hold of headers: a wrong marker
/// is refused as no cartridge, and a wrong format version is refused and
/// reported, whatever else the bytes hold.
pub proof fn lemma_gates_come_first(bytes: Seq<u8>)
    ensures
        bytes.len() >= 2 && !starts_with_marker(bytes) ==> decoded_game_file(bytes) == Err::<
            (GameFileView, Seq<u8>),
            GameFileErrorView,
        >(GameFileErrorView::FileFormatInvalid),
        bytes.len() >= 3 && starts_with_marker(bytes) && bytes[2] != FILE_FORMAT_VER
            ==> decoded_game_file(bytes) == Err::<(GameFileView, Seq<u8>), GameFileErrorView>(
            GameFileErrorView::InvalidFileVersion(bytes[2]),
        ),
{
    if bytes.len() >= 2 && !starts_with_marker(bytes) {
        lemma_wrong_marker_is_refused(bytes);
    }
    if bytes.len() >= 3 && starts_with_marker(bytes) && bytes[2] != FILE_FORMAT_VER {
        lemma_wrong_version_is_refused(bytes);
    }
}

/// The bounds on the size of a file leave room for every cartridge: the
/// bytes of a cartridge whose header is valid and counts the banks rightly
/// are no fewer than the least size and no more than the greatest.
pub proof fn lemma_written_cartridge_is_within_size_bounds(file: GameFileView)
    requires
        file.has_bank_sizes(),
        file.has_bank_counts(),
        file.header.is_valid(),
    ensures
        encoded_game_file(file) is Ok,
        MIN_FILE_SIZE <= encoded_game_file(file)->Ok_0.len() <= MAX_FILE_SIZE,
{
    lemma_concat_len(file.code_banks, CODE_BANK as nat);
    lemma_concat_len(file.atlases, ATLAS_BANK as nat);
    lemma_concat_len(file.controller_graphics, CONTROLLER_GRAPHICS_BANK as nat);
}

/// A cartridge that can be written is read back from its bytes with the
/// texts of its header trimmed, if the header is still valid then.
pub proof fn lemma_written_game_file_is_read_back(file: GameFileView, rest: Seq<u8>)
    requires
        file.has_bank_sizes(),
        file.has_bank_counts(),
        encoded_game_file(file) is Ok,
        file.header.with_trimmed_texts().is_valid(),
    ensures
        decoded_game_file(encoded_game_file(file)->Ok_0 + rest) == Ok::<
            (GameFileView, Seq<u8>),
            GameFileErrorView,
        >((GameFileView { header: file.header.with_trimmed_texts(), ..file }, rest)),
{
    let header = encoded_header(file.header)->Ok_0;
    let s3 = concat(file.controller_graphics) + rest;
    let s2 = concat(file.atlases) + s3;
    let s1 = concat(file.code_banks) + s2;
    let s0 = file.main_code + s1;
    lemma_written_header_is_read_back(file.header, s0);
    assert(encoded_game_file(file)->Ok_0 + rest == header + s0) by {
        let main = file.main_code;
        let code = concat(file.code_banks);
        let atlases = concat(file.atlases);
        let controller = concat(file.controller_graphics);
        lemma_concat_assoc(header + main + code + atlases, controller, rest);
        lemma_concat_assoc(header + main + code, atlases, controller + rest);
        lemma_concat_assoc(header + main, code, atlases + (controller + rest));
        lemma_concat_assoc(header, main, code + (atlases + (controller + rest)));
    }
    lemma_written_body_is_read_back(
        GameFileView { header: file.header.with_trimmed_texts(), ..file },
        rest,
    );
}

/// What follows a header, as it is decoded from the first `n` bytes.
pub proof fn lemma_body_of_prefix(header: GameFileHeaderView, bytes: Seq<u8>, n: int)
    requires
        0 <= n <= bytes.len(),
    ensures
        prefix_decodes(
            decoded_body(header, bytes),
            bytes,
            n,
            decoded_body(header, bytes.take(n)),
        ),
{
    if decoded_body(header, bytes) is Ok {
        let code = header.code_bank_count as nat;
        let atlas = header.atlas_bank_count as nat;
        let controller = header.controller_graphics_bank_count as nat;
        let (main_code, s1) = take_block(bytes, MAIN_CODE as nat)->Some_0;
        let (code_banks, s2) = take_blocks(s1, CODE_BANK as nat, code)->Some_0;
        let (atlases, s3) = take_blocks(s2, ATLAS_BANK as nat, atlas)->Some_0;
        let (graphics, s4) = take_blocks(s3, CONTROLLER_GRAPHICS_BANK as nat, controller)->Some_0;
        let u1 = bytes.len() - s1.len();
        let u2 = s1.len() - s2.len();
        let u3 = s2.len() - s3.len();
        let u4 = s3.len() - s4.len();
        lemma_take_block_of_prefix(bytes, MAIN_CODE as nat, n);
        lemma_take_blocks_of_prefix(s1, CODE_BANK as nat, code, 0);
        lemma_take_blocks_of_prefix(s2, ATLAS_BANK as nat, atlas, 0);
        lemma_take_blocks_of_prefix(s3, CONTROLLER_GRAPHICS_BANK as nat, controller, 0);
        lemma_skip_skip(bytes, u1, u2);
        lemma_skip_skip(bytes, u1 + u2, u3);
        lemma_skip_skip(bytes, u1 + u2 + u3, u4);
        if n >= u1 {
            lemma_take_blocks_of_prefix(s1, CODE_BANK as nat, code, n - u1);
            if n - u1 >= u2 {
                lemma_take_blocks_of_prefix(s2, ATLAS_BANK as nat, atlas, n - u1 - u2);
                if n - u1 - u2 >= u3 {
                    lemma_take_blocks_of_prefix(
                        s3,
                        CONTROLLER_GRAPHICS_BANK as nat,
                        controller,
                        n - u1 - u2 - u3,
                    );
                }
            }
        }
    }
}

/// Decoding a cartridge from the first `n` bytes of some bytes that hold a
/// cartridge gives the same cartridge if the first `n` reach to its end, and
/// is cut short if they do not.
pub proof fn lemma_game_file_of_prefix(bytes: Seq<u8>, n: int)
    requires
        0 <= n <= bytes.len(),
    ensures
        prefix_decodes(decoded_game_file(bytes), bytes, n, decoded_game_file(bytes.take(n))),
{
    if decoded_game_file(bytes) is Ok {
        let (header, s1) = decoded_header(bytes)->Ok_0;
        let (file, s2) = decoded_body(header, s1)->Ok_0;
        let u1 = bytes.len() - s1.len();
        let u2 = s1.len() - s2.len();
        lemma_header_of_prefix(bytes, n);
        lemma_body_of_prefix(header, s1, 0);
        lemma_skip_skip(bytes, u1, u2);
        if n >= u1 {
            lemma_body_of_prefix(header, s1, n - u1);
        }
    }
}

/// Every strict prefix of the bytes of a cartridge is refused as cut short,
/// wherever the cut falls. The cartridge is one whose header is valid, also
/// with its texts trimmed as they are written, and counts the banks rightly.
pub proof fn lemma_strict_prefix_of_game_file_is_truncated(file: GameFileView, n: int)
    requires
        file.has_bank_sizes(),
        file.has_bank_counts(),
        file.header.is_valid(),
        file.header.with_trimmed_texts().is_valid(),
        0 <= n < encoded_game_file(file)->Ok_0.len(),
    ensures
        encoded_game_file(file) is Ok,
        is_truncated(decoded_game_file(encoded_game_file(file)->Ok_0.take(n))),
{
    let bytes = encoded_game_file(file)->Ok_0;
    lemma_written_game_file_is_read_back(file, Seq::empty());
    assert(bytes + Seq::<u8>::empty() =~= bytes);
    lemma_game_file_of_prefix(bytes, n);
}

} // verus!
