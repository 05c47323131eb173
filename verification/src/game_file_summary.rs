//! The summary of a cartridge: its header, checked, and the texts that are
//! shown of it.
use crate::error::{GameFileError, GameFileErrorView};
use crate::file_utils::ReaderExt;
use crate::game_header::{decoded_header, GameFileHeader, GameFileHeaderView};
use crate::read_write_impl::Readable;
use crate::text::{decimal, push_decimal};
use vstd::prelude::*;
use vstd::string::StringExecFns;

verus! {

/// What is known of a cartridge from its header alone.
pub struct GameFileSummary {
    pub header: GameFileHeader,
    pub version: String,
    pub name: String,
    pub author: String,
}

/// A [`GameFileSummary`] with its texts as sequences of characters.
pub struct GameFileSummaryView {
    pub header: GameFileHeaderView,
    pub version: Seq<char>,
    pub name: Seq<char>,
    pub author: Seq<char>,
}

impl View for GameFileSummary {
    type V = GameFileSummaryView;

    open spec fn view(&self) -> GameFileSummaryView {
        GameFileSummaryView {
            header: self.header@,
            version: self.version@,
            name: self.name@,
            author: self.author@,
        }
    }
}

/// What a run of bytes decodes to as a summary: the header, which must keep
/// every rule, with its version, name and author set beside it.
pub open spec fn decoded_summary(bytes: Seq<u8>) -> Result<
    GameFileSummaryView,
    GameFileErrorView,
> {
    match decoded_header(bytes) {
        Err(e) => Err(e),
        Ok((header, rest)) => if !header.is_valid() {
            Err(GameFileErrorView::InvalidHeader(header.issues()))
        } else {
            Ok(
                GameFileSummaryView {
                    header,
                    version: header.version,
                    name: header.name,
                    author: header.author,
                },
            )
        },
    }
}

impl GameFileSummaryView {
    /// The version as it is shown: the version text and the build number.
    pub open spec fn version_formatted(self) -> Seq<char> {
        "Ver "@ + self.version + " (#"@ + decimal(self.header.build as nat) + ")"@
    }
}

impl GameFileSummary {
    /// Reads the header of a cartridge and checks it against the rules.
    pub fn from_reader<R: ReaderExt>(reader: R) -> (summary: Result<
        GameFileSummary,
        GameFileError,
    >)
        ensures
            match summary {
                Ok(s) => decoded_summary(reader.remaining()) == Ok::<
                    GameFileSummaryView,
                    GameFileErrorView,
                >(s@),
                Err(e) => decoded_summary(reader.remaining()) == Err::<
                    GameFileSummaryView,
                    GameFileErrorView,
                >(e@),
            },
    {
        let mut reader = reader;
        let header = match GameFileHeader::from_reader(&mut reader) {
            Ok(header) => header,
            Err(e) => {
                return Err(e);
            },
        };
        if let Err(reasons) = header.validate() {
            return Err(GameFileError::InvalidHeader(reasons));
        }
        let version = header.version.clone();
        let name = header.name.clone();
        let author = header.author.clone();
        Ok(GameFileSummary { header, version, name, author })
    }

    /// The ID of the cartridge.
    pub fn id(&self) -> (id: String)
        ensures
            id@ == self@.header.id,
    {
        self.header.id.clone()
    }

    /// The version as it is shown: the version text and the build number.
    pub fn version_formatted(&self) -> (text: String)
        ensures
            text@ == self@.version_formatted(),
    {
        let mut text = String::new();
        text.append("Ver ");
        text.append(self.version.as_str());
        text.append(" (#");
        push_decimal(&mut text, self.header.build as u64);
        text.append(")");
        assert(text@ =~= self@.version_formatted());
        text
    }
}

} // verus!
