//! The atlas file: sprite images of one size, one after another.
use crate::constants::{platform, ATLAS_SPRITE_SIZE};
use crate::error::{GameFileError, GameFileErrorView};
use crate::file_utils::{
    all_of_len, append_blocks, blocks_of, concat, lemma_blocks_are_read_back, lemma_concat_len,
    read_sized_blocks, ByteReader, ReaderExt,
};
use crate::read_write_impl::{Readable, Writeable};
use crate::text::{decimal, push_decimal};
use vstd::prelude::*;
use vstd::string::StringExecFns;

verus! {

/// The sprite images of an atlas.
pub struct AtlasFile {
    pub images: Vec<[u8; ATLAS_SPRITE_SIZE]>,
}

impl View for AtlasFile {
    type V = Seq<Seq<u8>>;

    open spec fn view(&self) -> Seq<Seq<u8>> {
        blocks_of(self.images@)
    }
}

/// The reason that is given for content whose length is no multiple of the
/// sprite size.
pub open spec fn not_a_multiple() -> Seq<char> {
    "Content must be multiple of "@ + decimal(ATLAS_SPRITE_SIZE as nat)
}

/// What a run of bytes decodes to as an atlas. All bytes are taken: a length
/// that is an exact multiple of the sprite size gives that many images, in
/// the order of the bytes, and any other length is refused.
pub open spec fn decoded_atlas(bytes: Seq<u8>) -> Result<
    (Seq<Seq<u8>>, Seq<u8>),
    GameFileErrorView,
> {
    if bytes.len() % (ATLAS_SPRITE_SIZE as nat) != 0 {
        Err(GameFileErrorView::InvalidAtlas(not_a_multiple()))
    } else {
        Ok(
            (
                Seq::new(
                    bytes.len() / (ATLAS_SPRITE_SIZE as nat),
                    |i: int| bytes.subrange(i * ATLAS_SPRITE_SIZE, (i + 1) * ATLAS_SPRITE_SIZE),
                ),
                Seq::empty(),
            ),
        )
    }
}

impl AtlasFile {
    /// Checks the atlas. An atlas may hold any number of images, and each
    /// image has its size by its type, so every atlas passes.
    pub fn validate(&self) -> (result: Result<(), Vec<String>>)
        ensures
            result is Ok,
    {
        Ok(())
    }
}

impl Writeable for AtlasFile {
    open spec fn encoded(&self) -> Result<Seq<u8>, GameFileErrorView> {
        Ok(concat(self@))
    }

    /// Writes the images one after another.
    fn as_bytes(&self) -> (bytes: Result<Vec<u8>, GameFileError>)
        ensures
            bytes is Ok,
    {
        let mut output: Vec<u8> = Vec::new();
        append_blocks(&mut output, &self.images);
        assert(output@ =~= concat(self@));
        Ok(output)
    }
}

impl Readable for AtlasFile {
    open spec fn decoded(bytes: Seq<u8>) -> Result<(Seq<Seq<u8>>, Seq<u8>), GameFileErrorView> {
        decoded_atlas(bytes)
    }

    /// Reads an atlas from all the bytes that are left.
    fn from_reader<R: ReaderExt>(reader: &mut R) -> (value: Result<AtlasFile, GameFileError>)
        ensures
            old(reader).remaining().len() % (ATLAS_SPRITE_SIZE as nat) != 0 ==> value is Err,
            old(reader).remaining().len() % (ATLAS_SPRITE_SIZE as nat) == 0 ==> (value matches Ok(
                atlas,
            ) && atlas.images.len() == old(reader).remaining().len() / (ATLAS_SPRITE_SIZE as nat)
                && forall|i: int|
                0 <= i < atlas.images.len() ==> (#[trigger] atlas.images[i])@ == old(
                    reader,
                ).remaining().subrange(i * ATLAS_SPRITE_SIZE, (i + 1) * ATLAS_SPRITE_SIZE)),
    {
        let bytes = reader.read_to_end();
        let sizes = platform();
        let sprite_size = sizes.atlas_tile_height * sizes.atlas_tile_width;
        let read_count = bytes.len();
        if read_count % sprite_size != 0 {
            let mut reason = String::new();
            reason.append("Content must be multiple of ");
            push_decimal(&mut reason, sprite_size as u64);
            assert(reason@ =~= not_a_multiple());
            return Err(GameFileError::InvalidAtlas(reason));
        }
        let count = read_count / sprite_size;
        assert(ATLAS_SPRITE_SIZE * count == read_count);
        let mut chunks = ByteReader::new(bytes);
        match read_sized_blocks::<ByteReader, ATLAS_SPRITE_SIZE>(&mut chunks, count) {
            Ok(images) => {
                assert(blocks_of(images@).len() == images@.len());
                assert forall|i: int| 0 <= i < images.len() implies (#[trigger] images[i])@
                    == old(reader).remaining().subrange(
                    i * ATLAS_SPRITE_SIZE,
                    (i + 1) * ATLAS_SPRITE_SIZE,
                ) by {
                    assert(blocks_of(images@)[i] == images[i]@);
                }
                Ok(AtlasFile { images })
            },
            Err(e) => Err(e),
        }
    }
}

/// Round trip: reading the bytes of an atlas gives its images again, in
/// their order.
pub proof fn lemma_atlas_round_trip(images: Seq<Seq<u8>>)
    requires
        all_of_len(images, ATLAS_SPRITE_SIZE as nat),
    ensures
        decoded_atlas(concat(images)) == Ok::<(Seq<Seq<u8>>, Seq<u8>), GameFileErrorView>(
            (images, Seq::empty()),
        ),
{
    let bytes = concat(images);
    lemma_concat_len(images, ATLAS_SPRITE_SIZE as nat);
    lemma_blocks_are_read_back(images, ATLAS_SPRITE_SIZE as nat, Seq::empty());
    assert(bytes + Seq::<u8>::empty() =~= bytes);
    assert(bytes.len() == ATLAS_SPRITE_SIZE * images.len());
    assert(bytes.len() % (ATLAS_SPRITE_SIZE as nat) == 0 && bytes.len() / (
    ATLAS_SPRITE_SIZE as nat) == images.len()) by (nonlinear_arith)
        requires
            bytes.len() == ATLAS_SPRITE_SIZE * images.len(),
            ATLAS_SPRITE_SIZE == 32,
    ;
}

} // verus!
