//! The palette file: sixteen colours behind a marker of two bytes.
use crate::error::{truncated, GameFileError, GameFileErrorView};
use crate::file_utils::{
    append_bytes, concat, convert_vec, lemma_blocks_are_read_back, lemma_take_block_of_written,
    take_block, take_blocks, vecs_of, ReaderExt,
};
use crate::read_write_impl::{Readable, Writeable};
use vstd::prelude::*;

verus! {

/// The two bytes that every palette file starts with.
pub const PALETTE_HEADER: [u8; 2] = [0xFD, 0xA2];

/// The file name extension of palette files.
pub const PALETTE_EXT: &'static str = "mpal";

/// Number of colours in a palette.
pub const PALETTE_COLORS: usize = 16;

/// One colour: red, green and blue.
#[derive(Copy, Clone, Eq, PartialEq, Structural, Debug)]
pub struct Color {
    pub r: u8,
    pub g: u8,
    pub b: u8,
}

/// Sixteen colours, and the path of the file they came from, if any.
#[derive(Clone, Eq, PartialEq, Debug)]
pub struct Palette {
    pub filepath: Option<String>,
    pub colors: [Color; 16],
}

/// A [`Palette`] with its path as a sequence of characters.
pub struct PaletteView {
    pub filepath: Option<Seq<char>>,
    pub colors: Seq<Color>,
}

impl View for Palette {
    type V = PaletteView;

    open spec fn view(&self) -> PaletteView {
        PaletteView {
            filepath: match self.filepath {
                Some(path) => Some(path@),
                None => None,
            },
            colors: self.colors@,
        }
    }
}

impl Color {
    /// The three bytes of the colour: red, green, blue.
    pub open spec fn bytes(self) -> Seq<u8> {
        seq![self.r, self.g, self.b]
    }

    /// The colour that three bytes stand for.
    pub open spec fn of_bytes(rgb: Seq<u8>) -> Color
        recommends
            rgb.len() == 3,
    {
        Color { r: rgb[0], g: rgb[1], b: rgb[2] }
    }

    /// The colour of the given red, green and blue.
    pub fn new(r: u8, g: u8, b: u8) -> (color: Self)
        ensures
            color == (Color { r, g, b }),
    {
        Self { r, g, b }
    }

    /// The colour that three bytes stand for: red, green, blue.
    pub fn from_bytes(rgb: [u8; 3]) -> (color: Color)
        ensures
            color == Color::of_bytes(rgb@),
    {
        Color::new(rgb[0], rgb[1], rgb[2])
    }

    /// The three bytes of the colour: red, green, blue.
    pub fn as_bytes(&self) -> (rgb: [u8; 3])
        ensures
            rgb@ == self.bytes(),
    {
        let rgb = [self.r, self.g, self.b];
        assert(rgb@ =~= self.bytes());
        rgb
    }
}

/// The bytes of each colour of a list.
pub open spec fn color_blocks(colors: Seq<Color>) -> Seq<Seq<u8>> {
    Seq::new(colors.len(), |i: int| colors[i].bytes())
}

/// The colours that a list of blocks of three bytes stands for.
pub open spec fn colors_of(blocks: Seq<Seq<u8>>) -> Seq<Color> {
    Seq::new(blocks.len(), |i: int| Color::of_bytes(blocks[i]))
}

/// What a run of bytes decodes to as a palette: the marker, then sixteen
/// colours of three bytes each, in the order of the file. No path belongs
/// to a palette that was decoded.
pub open spec fn decoded_palette(bytes: Seq<u8>) -> Result<
    (PaletteView, Seq<u8>),
    GameFileErrorView,
> {
    match take_block(bytes, 2) {
        None => Err(truncated("reading palette header data")),
        Some((marker, s1)) => if marker != PALETTE_HEADER@ {
            Err(GameFileErrorView::InvalidPalette("Not a palette file"@))
        } else {
            match take_blocks(s1, 3, PALETTE_COLORS as nat) {
                None => Err(truncated("reading palette data")),
                Some((blocks, s2)) => Ok(
                    (PaletteView { filepath: None, colors: colors_of(blocks) }, s2),
                ),
            }
        },
    }
}

/// The bytes of a palette: the marker, then the colours in their order.
pub open spec fn encoded_palette(palette: PaletteView) -> Seq<u8> {
    PALETTE_HEADER@ + concat(color_blocks(palette.colors))
}

/// Calls `std::path::Path::file_name` on a path given as text.
///
/// Trusted: nothing is claimed of the result, which depends on what the
/// platform takes for a separator.
#[verifier::external_body]
fn path_file_name(path: &str) -> Option<String> {
    match std::path::Path::new(path).file_name() {
        Some(name) => Some(name.to_string_lossy().into_owned()),
        None => None,
    }
}

impl Palette {
    /// A palette of the given colours, with the path of its file if it has
    /// one.
    pub fn new(filepath: Option<String>, palette: [Color; 16]) -> (made: Self)
        ensures
            made == (Palette { filepath, colors: palette }),
    {
        Self { filepath, colors: palette }
    }

    /// The last component of the path of the file, if the palette has a path
    /// and the path has a last component.
    pub fn filename(&self) -> (name: Option<String>)
        ensures
            self.filepath is None ==> name is None,
    {
        match &self.filepath {
            Some(path) => path_file_name(path.as_str()),
            None => None,
        }
    }
}

impl Writeable for Palette {
    open spec fn encoded(&self) -> Result<Seq<u8>, GameFileErrorView> {
        Ok(encoded_palette(self@))
    }

    /// Writes the palette: always 50 bytes.
    fn as_bytes(&self) -> (bytes: Result<Vec<u8>, GameFileError>)
        ensures
            bytes matches Ok(b) && b@.len() == 50,
    {
        let mut output: Vec<u8> = Vec::new();
        append_bytes(&mut output, PALETTE_HEADER.as_slice());
        let mut i: usize = 0;
        assert(color_blocks(self.colors@).take(0) =~= Seq::<Seq<u8>>::empty());
        assert(output@ =~= PALETTE_HEADER@ + concat(color_blocks(self.colors@).take(0)));
        while i < 16
            invariant
                i <= 16,
                output@ == PALETTE_HEADER@ + concat(color_blocks(self.colors@).take(i as int)),
                output@.len() == 2 + 3 * i,
            decreases 16 - i,
        {
            let ghost before = color_blocks(self.colors@).take(i as int);
            let ghost after = color_blocks(self.colors@).take(i + 1);
            assert(after.drop_last() =~= before);
            assert(after.last() == self.colors@[i as int].bytes());
            let rgb = self.colors[i].as_bytes();
            append_bytes(&mut output, rgb.as_slice());
            assert(output@ =~= PALETTE_HEADER@ + concat(after));
            i = i + 1;
        }
        assert(color_blocks(self.colors@).take(16) =~= color_blocks(self.colors@));
        Ok(output)
    }
}

impl Readable for Palette {
    open spec fn decoded(bytes: Seq<u8>) -> Result<(PaletteView, Seq<u8>), GameFileErrorView> {
        decoded_palette(bytes)
    }

    /// Reads a palette.
    fn from_reader<R: ReaderExt>(reader: &mut R) -> (value: Result<Palette, GameFileError>) {
        let header = match reader.read_block(2) {
            Some(block) => block,
            None => {
                return Err(GameFileError::Truncated("reading palette header data"));
            },
        };
        if header[0] != PALETTE_HEADER[0] || header[1] != PALETTE_HEADER[1] {
            assert(header@ != PALETTE_HEADER@) by {
                if header@ == PALETTE_HEADER@ {
                    assert(header@[0] == PALETTE_HEADER@[0]);
                    assert(header@[1] == PALETTE_HEADER@[1]);
                }
            }
            return Err(GameFileError::InvalidPalette("Not a palette file".to_owned()));
        }
        assert(header@ =~= PALETTE_HEADER@);
        let ghost after_marker = reader.remaining();
        let blocks = match reader.read_multiple_blocks(3, 16) {
            Some(blocks) => blocks,
            None => {
                return Err(GameFileError::Truncated("reading palette data"));
            },
        };
        let ghost all = vecs_of(blocks@);
        assert(all.len() == 16 && blocks@.len() == 16);
        assert forall|k: int| 0 <= k < 16 implies (#[trigger] all[k]).len() == 3 by {
            assert(0 <= k * 3 && (k + 1) * 3 == k * 3 + 3 && (k + 1) * 3 <= 3 * 16);
        }
        let mut colours: Vec<Color> = Vec::new();
        for rgb in it: blocks
            invariant
                it.seq() == blocks@,
                all == vecs_of(blocks@),
                blocks@.len() == 16,
                forall|k: int| 0 <= k < 16 ==> (#[trigger] all[k]).len() == 3,
                colours@.len() == it.index(),
                forall|k: int|
                    0 <= k < it.index() ==> #[trigger] colours@[k] == Color::of_bytes(all[k]),
        {
            assert(rgb@ == all[it.index() as int]);
            match convert_vec::<u8, 3>(rgb) {
                Ok(array) => {
                    colours.push(Color::from_bytes(array));
                },
                Err(e) => {
                    return Err(e);
                },
            }
        }
        assert(colours@ =~= colors_of(all));
        match convert_vec::<Color, 16>(colours) {
            Ok(array) => Ok(Palette::new(None, array)),
            Err(e) => Err(e),
        }
    }
}

proof fn lemma_color_blocks(colors: Seq<Color>)
    ensures
        crate::file_utils::all_of_len(color_blocks(colors), 3),
        color_blocks(colors).len() == colors.len(),
        colors_of(color_blocks(colors)) == colors,
{
    assert(colors_of(color_blocks(colors)) =~= colors);
}

/// The bytes of a palette of sixteen colours are 50.
pub proof fn lemma_palette_is_50_bytes(palette: PaletteView)
    requires
        palette.colors.len() == PALETTE_COLORS,
    ensures
        encoded_palette(palette).len() == 50,
{
    lemma_color_blocks(palette.colors);
    crate::file_utils::lemma_concat_len(color_blocks(palette.colors), 3);
}

/// Round trip: reading the bytes of a palette gives its sixteen colours
/// again, in their order, and no path. So a palette without a path is read
/// back as it was.
pub proof fn lemma_palette_round_trip(palette: PaletteView, rest: Seq<u8>)
    requires
        palette.colors.len() == PALETTE_COLORS,
    ensures
        decoded_palette(encoded_palette(palette) + rest) == Ok::<
            (PaletteView, Seq<u8>),
            GameFileErrorView,
        >((PaletteView { filepath: None, colors: palette.colors }, rest)),
        palette.filepath is None ==> decoded_palette(encoded_palette(palette) + rest) == Ok::<
            (PaletteView, Seq<u8>),
            GameFileErrorView,
        >((palette, rest)),
{
    let blocks = color_blocks(palette.colors);
    let s1 = concat(blocks) + rest;
    lemma_color_blocks(palette.colors);
    assert(encoded_palette(palette) + rest == PALETTE_HEADER@ + s1) by {
        assert((PALETTE_HEADER@ + concat(blocks)) + rest =~= PALETTE_HEADER@ + (concat(blocks)
            + rest));
    }
    assert(take_block(PALETTE_HEADER@ + s1, 2) == Some((PALETTE_HEADER@, s1))) by {
        lemma_take_block_of_written(PALETTE_HEADER@, s1);
    }
    assert(take_blocks(s1, 3, PALETTE_COLORS as nat) == Some((blocks, rest))) by {
        lemma_blocks_are_read_back(blocks, 3, rest);
    }
}

} // verus!
