//! Reading numbers, texts and blocks from a run of bytes.
use crate::error::{GameFileError, GameFileErrorView};
use crate::text::{text_of_bytes, utf8_lossy};
use vstd::prelude::*;

verus! {

/// The number that two bytes stand for, most significant byte first.
pub open spec fn be_u16(bytes: Seq<u8>) -> u16
    recommends
        bytes.len() == 2,
{
    (bytes[0] as int * 256 + bytes[1] as int) as u16
}

/// The number that four bytes stand for, most significant byte first.
pub open spec fn be_u32(bytes: Seq<u8>) -> u32
    recommends
        bytes.len() == 4,
{
    (bytes[0] as int * 16777216 + bytes[1] as int * 65536 + bytes[2] as int * 256
        + bytes[3] as int) as u32
}

/// The bytes of a number of two bytes, most significant byte first.
pub open spec fn u16_bytes(value: u16) -> Seq<u8> {
    seq![(value / 256) as u8, (value % 256) as u8]
}

/// The bytes of a number of four bytes, most significant byte first.
pub open spec fn u32_bytes(value: u32) -> Seq<u8> {
    seq![
        (value / 16777216) as u8,
        ((value / 65536) % 256) as u8,
        ((value / 256) % 256) as u8,
        (value % 256) as u8,
    ]
}

/// The first `len` bytes and what follows them, if there are that many.
pub open spec fn take_block(bytes: Seq<u8>, len: nat) -> Option<(Seq<u8>, Seq<u8>)> {
    if len <= bytes.len() {
        Some((bytes.take(len as int), bytes.skip(len as int)))
    } else {
        None
    }
}

/// The first byte and what follows it.
pub open spec fn take_u8(bytes: Seq<u8>) -> Option<(u8, Seq<u8>)> {
    if 1 <= bytes.len() {
        Some((bytes[0], bytes.skip(1)))
    } else {
        None
    }
}

/// The number in the first two bytes and what follows them.
pub open spec fn take_u16(bytes: Seq<u8>) -> Option<(u16, Seq<u8>)> {
    if 2 <= bytes.len() {
        Some((be_u16(bytes.take(2)), bytes.skip(2)))
    } else {
        None
    }
}

/// The number in the first four bytes and what follows them.
pub open spec fn take_u32(bytes: Seq<u8>) -> Option<(u32, Seq<u8>)> {
    if 4 <= bytes.len() {
        Some((be_u32(bytes.take(4)), bytes.skip(4)))
    } else {
        None
    }
}

/// The text in the first `len` bytes and what follows them.
pub open spec fn take_text(bytes: Seq<u8>, len: nat) -> Option<(Seq<char>, Seq<u8>)> {
    if len <= bytes.len() {
        Some((text_of_bytes(bytes.take(len as int)), bytes.skip(len as int)))
    } else {
        None
    }
}

/// The text whose length is the first byte and which starts at the second,
/// and what follows it.
pub open spec fn take_len_text(bytes: Seq<u8>) -> Option<(Seq<char>, Seq<u8>)> {
    if 1 <= bytes.len() {
        take_text(bytes.skip(1), bytes[0] as nat)
    } else {
        None
    }
}

/// The first `count` blocks of `block_len` bytes each, in their order, and
/// what follows them.
pub open spec fn take_blocks(bytes: Seq<u8>, block_len: nat, count: nat) -> Option<
    (Seq<Seq<u8>>, Seq<u8>),
> {
    if block_len * count <= bytes.len() {
        Some(
            (
                Seq::new(count, |i: int| bytes.subrange(i * block_len, (i + 1) * block_len)),
                bytes.skip((block_len * count) as int),
            ),
        )
    } else {
        None
    }
}

/// Whether every block of a list has the length `len`.
pub open spec fn all_of_len(blocks: Seq<Seq<u8>>, len: nat) -> bool {
    forall|i: int| 0 <= i < blocks.len() ==> (#[trigger] blocks[i]).len() == len
}

/// The blocks of a list one after another.
pub open spec fn concat(blocks: Seq<Seq<u8>>) -> Seq<u8>
    decreases blocks.len(),
{
    if blocks.len() == 0 {
        Seq::empty()
    } else {
        concat(blocks.drop_last()) + blocks.last()
    }
}

/// The contents of a list of fixed-size blocks.
pub open spec fn blocks_of<const N: usize>(blocks: Seq<[u8; N]>) -> Seq<Seq<u8>> {
    Seq::new(blocks.len(), |i: int| blocks[i]@)
}

/// The contents of a list of blocks.
pub open spec fn vecs_of(blocks: Seq<Vec<u8>>) -> Seq<Seq<u8>> {
    Seq::new(blocks.len(), |i: int| blocks[i]@)
}

/// A source of bytes that is read from its start to its end.
///
/// A read that fails leaves the reader in no particular state.
pub trait ReaderExt {
    /// The bytes that have not been read yet.
    spec fn remaining(&self) -> Seq<u8>;

    /// Reads the next `len` bytes, or fails if fewer are left.
    fn read_exact(&mut self, len: usize) -> (block: Option<Vec<u8>>)
        ensures
            match take_block(old(self).remaining(), len as nat) {
                Some((bytes, rest)) => block matches Some(b) && b@ == bytes
                    && final(self).remaining() == rest,
                None => block is None,
            },
    ;

    /// Reads all bytes that are left.
    fn read_to_end(&mut self) -> (bytes: Vec<u8>)
        ensures
            bytes@ == old(self).remaining(),
            final(self).remaining() == Seq::<u8>::empty(),
    ;

    /// Reads a text that is preceded by its length in one byte.
    fn read_len_string(&mut self) -> (text: Option<String>)
        ensures
            match take_len_text(old(self).remaining()) {
                Some((chars, rest)) => text matches Some(t) && t@ == chars
                    && final(self).remaining() == rest,
                None => text is None,
            },
    {
        match self.read_u8() {
            Some(len) => self.read_string(len as usize),
            None => None,
        }
    }

    /// Reads a text of `len` bytes.
    fn read_string(&mut self, len: usize) -> (text: Option<String>)
        ensures
            match take_text(old(self).remaining(), len as nat) {
                Some((chars, rest)) => text matches Some(t) && t@ == chars
                    && final(self).remaining() == rest,
                None => text is None,
            },
    {
        match self.read_exact(len) {
            Some(bytes) => Some(utf8_lossy(bytes.as_slice())),
            None => None,
        }
    }

    /// Reads a block of `len` bytes.
    fn read_block(&mut self, len: usize) -> (block: Option<Vec<u8>>)
        ensures
            match take_block(old(self).remaining(), len as nat) {
                Some((bytes, rest)) => block matches Some(b) && b@ == bytes
                    && final(self).remaining() == rest,
                None => block is None,
            },
    {
        self.read_exact(len)
    }

    /// Reads `block_count` blocks of `block_len` bytes each.
    fn read_multiple_blocks(&mut self, block_len: usize, block_count: usize) -> (blocks: Option<
        Vec<Vec<u8>>,
    >)
        ensures
            match take_blocks(old(self).remaining(), block_len as nat, block_count as nat) {
                Some((all, rest)) => blocks matches Some(b) && vecs_of(b@) == all
                    && final(self).remaining() == rest,
                None => blocks is None,
            },
    {
        let ghost start = self.remaining();
        let mut output: Vec<Vec<u8>> = Vec::new();
        let mut i: usize = 0;
        assert(start.skip(0) =~= start);
        while i < block_count
            invariant
                i <= block_count,
                start == old(self).remaining(),
                output@.len() == i,
                block_len * i <= start.len(),
                self.remaining() == start.skip(block_len * i),
                forall|k: int|
                    0 <= k < i ==> (#[trigger] output@[k])@ == start.subrange(
                        k * block_len,
                        (k + 1) * block_len,
                    ),
            decreases block_count - i,
        {
            let ghost pos = block_len * i;
            assert(block_len * (i + 1) == pos + block_len) by (nonlinear_arith)
                requires
                    pos == block_len * i,
            ;
            match self.read_exact(block_len) {
                Some(bytes) => {
                    assert(start.skip(pos).take(block_len as int) =~= start.subrange(
                        pos,
                        pos + block_len,
                    ));
                    assert(start.skip(pos).skip(block_len as int) =~= start.skip(
                        pos + block_len,
                    ));
                    assert(i * block_len == pos) by (nonlinear_arith)
                        requires
                            pos == block_len * i,
                    ;
                    assert((i + 1) * block_len == pos + block_len) by (nonlinear_arith)
                        requires
                            pos == block_len * i,
                    ;
                    output.push(bytes);
                },
                None => {
                    assert(block_len * block_count >= block_len * (i + 1)) by (nonlinear_arith)
                        requires
                            block_count >= i + 1,
                            block_len >= 0,
                    ;
                    return None;
                },
            }
            i = i + 1;
        }
        assert(vecs_of(output@) =~= Seq::new(
            block_count as nat,
            |k: int| start.subrange(k * block_len, (k + 1) * block_len),
        ));
        Some(output)
    }

    /// Reads one byte.
    fn read_u8(&mut self) -> (value: Option<u8>)
        ensures
            match take_u8(old(self).remaining()) {
                Some((v, rest)) => value == Some(v) && final(self).remaining() == rest,
                None => value is None,
            },
    {
        match self.read_exact(1) {
            Some(bytes) => Some(bytes[0]),
            None => None,
        }
    }

    /// Reads a number of two bytes, most significant byte first.
    fn read_u16(&mut self) -> (value: Option<u16>)
        ensures
            match take_u16(old(self).remaining()) {
                Some((v, rest)) => value == Some(v) && final(self).remaining() == rest,
                None => value is None,
            },
    {
        match self.read_exact(2) {
            Some(bytes) => Some(bytes[0] as u16 * 256 + bytes[1] as u16),
            None => None,
        }
    }

    /// Reads a number of four bytes, most significant byte first.
    fn read_u32(&mut self) -> (value: Option<u32>)
        ensures
            match take_u32(old(self).remaining()) {
                Some((v, rest)) => value == Some(v) && final(self).remaining() == rest,
                None => value is None,
            },
    {
        match self.read_exact(4) {
            Some(bytes) => Some(
                bytes[0] as u32 * 16777216 + bytes[1] as u32 * 65536 + bytes[2] as u32 * 256
                    + bytes[3] as u32,
            ),
            None => None,
        }
    }
}

/// A reader over bytes that are held in memory.
pub struct ByteReader {
    bytes: Vec<u8>,
    position: usize,
}

impl ByteReader {
    #[verifier::type_invariant]
    spec fn position_is_inside(self) -> bool {
        self.position <= self.bytes.len()
    }

    /// A reader that stands at the first of the bytes.
    pub fn new(bytes: Vec<u8>) -> (reader: ByteReader)
        ensures
            reader.remaining() == bytes@,
    {
        assert(bytes@.skip(0) =~= bytes@);
        ByteReader { bytes, position: 0 }
    }
}

impl ReaderExt for ByteReader {
    closed spec fn remaining(&self) -> Seq<u8> {
        self.bytes@.skip(self.position as int)
    }

    fn read_exact(&mut self, len: usize) -> (block: Option<Vec<u8>>) {
        proof {
            use_type_invariant(&*self);
        }
        if len > self.bytes.len() - self.position {
            return None;
        }
        let mut block: Vec<u8> = Vec::new();
        let mut i: usize = 0;
        while i < len
            invariant
                i <= len,
                self.position + len <= self.bytes.len(),
                block@ == self.bytes@.subrange(self.position as int, self.position + i),
            decreases len - i,
        {
            block.push(self.bytes[self.position + i]);
            i = i + 1;
        }
        assert(block@ =~= old(self).remaining().take(len as int));
        assert(self.bytes@.skip(self.position + len) =~= old(self).remaining().skip(len as int));
        self.position = self.position + len;
        Some(block)
    }

    fn read_to_end(&mut self) -> (bytes: Vec<u8>) {
        proof {
            use_type_invariant(&*self);
        }
        let mut rest: Vec<u8> = Vec::new();
        let mut i: usize = self.position;
        while i < self.bytes.len()
            invariant
                self.position <= i <= self.bytes.len(),
                rest@ == self.bytes@.subrange(self.position as int, i as int),
            decreases self.bytes.len() - i,
        {
            rest.push(self.bytes[i]);
            i = i + 1;
        }
        assert(rest@ =~= old(self).remaining());
        self.position = self.bytes.len();
        assert(self.bytes@.skip(self.position as int) =~= Seq::<u8>::empty());
        rest
    }
}

/// An array of `N` items, or the list that has another length.
type ArrayOrList<T, const N: usize> = Result<[T; N], Vec<T>>;

/// Calls `try_into` on a `Vec`, which is `TryFrom<Vec<T>>` for `[T; N]`.
///
/// Trusted: the contract claims that a `Vec` of exactly `N` items becomes the
/// array of those items in their order, and that any other `Vec` is handed
/// back unchanged in `Err`.
#[verifier::external_body]
fn vec_into_array<T, const N: usize>(items: Vec<T>) -> (converted: ArrayOrList<T, N>)
    ensures
        converted is Ok <==> items.len() == N,
        converted matches Ok(a) ==> a@ == items@,
        converted matches Err(v) ==> v == items,
{
    items.try_into()
}

/// Turns a list of exactly `N` items into an array; any other list is
/// rejected as [`GameFileError::InvalidMaikorFile`].
pub fn convert_vec<T, const N: usize>(v: Vec<T>) -> (array: Result<[T; N], GameFileError>)
    ensures
        v.len() == N ==> (array matches Ok(a) && a@ == v@),
        v.len() != N ==> (array matches Err(e) && e@ == GameFileErrorView::InvalidMaikorFile),
{
    match vec_into_array(v) {
        Ok(array) => Ok(array),
        Err(_) => Err(GameFileError::InvalidMaikorFile()),
    }
}

/// Reads `count` blocks of `N` bytes each.
pub fn read_sized_blocks<R: ReaderExt, const N: usize>(reader: &mut R, count: usize) -> (banks:
    Result<Vec<[u8; N]>, GameFileError>)
    ensures
        match take_blocks(old(reader).remaining(), N as nat, count as nat) {
            Some((all, rest)) => banks matches Ok(b) && blocks_of(b@) == all
                && final(reader).remaining() == rest,
            None => banks matches Err(e) && e@ == GameFileErrorView::Truncated(
                "reading file blocks"@,
            ),
        },
{
    let ghost start = reader.remaining();
    let banks_list = match reader.read_multiple_blocks(N, count) {
        Some(list) => list,
        None => {
            return Err(GameFileError::Truncated("reading file blocks"));
        },
    };
    let ghost all = vecs_of(banks_list@);
    assert(all.len() == banks_list@.len() && all.len() == count);
    assert forall|k: int| 0 <= k < count implies (#[trigger] all[k]).len() == N by {
        assert(0 <= k * N && (k + 1) * N == k * N + N && (k + 1) * N <= N * count)
            by (nonlinear_arith)
            requires
                0 <= k < count,
                0 <= N,
        ;
    }
    let mut banks: Vec<[u8; N]> = Vec::new();
    for bank in it: banks_list
        invariant
            it.seq() == banks_list@,
            all == vecs_of(banks_list@),
            banks_list@.len() == count,
            forall|k: int| 0 <= k < count ==> (#[trigger] all[k]).len() == N,
            banks@.len() == it.index(),
            forall|k: int| 0 <= k < it.index() ==> (#[trigger] banks@[k])@ == all[k],
    {
        assert(bank@ == all[it.index() as int]);
        match convert_vec(bank) {
            Ok(array) => {
                banks.push(array);
            },
            Err(e) => {
                return Err(e);
            },
        }
    }
    assert(blocks_of(banks@) =~= all);
    Ok(banks)
}

/// Appends bytes to an output.
pub fn append_bytes(output: &mut Vec<u8>, bytes: &[u8])
    ensures
        final(output)@ == old(output)@ + bytes@,
{
    output.extend_from_slice(bytes);
    assert(output@ =~= old(output)@ + bytes@);
}

/// Appends a number of two bytes, most significant byte first.
pub fn append_u16(output: &mut Vec<u8>, value: u16)
    ensures
        final(output)@ == old(output)@ + u16_bytes(value),
{
    output.push((value / 256) as u8);
    output.push((value % 256) as u8);
    assert(output@ =~= old(output)@ + u16_bytes(value));
}

/// Appends a number of four bytes, most significant byte first.
pub fn append_u32(output: &mut Vec<u8>, value: u32)
    ensures
        final(output)@ == old(output)@ + u32_bytes(value),
{
    output.push((value / 16777216) as u8);
    output.push(((value / 65536) % 256) as u8);
    output.push(((value / 256) % 256) as u8);
    output.push((value % 256) as u8);
    assert(output@ =~= old(output)@ + u32_bytes(value));
}

/// Writing one run of bytes after another groups either way.
pub proof fn lemma_concat_assoc(a: Seq<u8>, b: Seq<u8>, c: Seq<u8>)
    ensures
        (a + b) + c == a + (b + c),
{
    assert((a + b) + c =~= a + (b + c));
}

/// A byte that was written is read back, and what followed it is left.
pub proof fn lemma_take_u8_of_written(value: u8, rest: Seq<u8>)
    ensures
        take_u8(seq![value] + rest) == Some((value, rest)),
{
    assert((seq![value] + rest).skip(1) =~= rest);
}

/// A number of two bytes that was written is read back.
pub proof fn lemma_take_u16_of_written(value: u16, rest: Seq<u8>)
    ensures
        take_u16(u16_bytes(value) + rest) == Some((value, rest)),
{
    let written = u16_bytes(value) + rest;
    assert(written.take(2) =~= u16_bytes(value));
    assert(written.skip(2) =~= rest);
}

/// A number of four bytes that was written is read back.
pub proof fn lemma_take_u32_of_written(value: u32, rest: Seq<u8>)
    ensures
        take_u32(u32_bytes(value) + rest) == Some((value, rest)),
{
    let written = u32_bytes(value) + rest;
    assert(written.take(4) =~= u32_bytes(value));
    assert(written.skip(4) =~= rest);
}

/// A block that was written is read back.
pub proof fn lemma_take_block_of_written(block: Seq<u8>, rest: Seq<u8>)
    ensures
        take_block(block + rest, block.len()) == Some((block, rest)),
{
    assert((block + rest).take(block.len() as int) =~= block);
    assert((block + rest).skip(block.len() as int) =~= rest);
}

/// Appends blocks to an output, one after another.
pub fn append_blocks<const N: usize>(output: &mut Vec<u8>, blocks: &Vec<[u8; N]>)
    ensures
        final(output)@ == old(output)@ + concat(blocks_of(blocks@)),
{
    let mut i: usize = 0;
    assert(blocks_of(blocks@).take(0) =~= Seq::<Seq<u8>>::empty());
    assert(output@ =~= old(output)@ + concat(blocks_of(blocks@).take(0)));
    while i < blocks.len()
        invariant
            i <= blocks.len(),
            output@ == old(output)@ + concat(blocks_of(blocks@).take(i as int)),
        decreases blocks.len() - i,
    {
        let ghost before = blocks_of(blocks@).take(i as int);
        let ghost after = blocks_of(blocks@).take(i + 1);
        assert(after.drop_last() =~= before);
        assert(after.last() == blocks[i as int]@);
        append_bytes(output, blocks[i].as_slice());
        assert(output@ =~= old(output)@ + concat(after));
        i = i + 1;
    }
    assert(blocks_of(blocks@).take(i as int) =~= blocks_of(blocks@));
}

/// Blocks of one length, written one after another, are as long together as
/// the length times their number.
pub proof fn lemma_concat_len(blocks: Seq<Seq<u8>>, len: nat)
    requires
        all_of_len(blocks, len),
    ensures
        concat(blocks).len() == len * blocks.len(),
    decreases blocks.len(),
{
    if blocks.len() > 0 {
        lemma_concat_len(blocks.drop_last(), len);
        assert(len * blocks.len() == len * (blocks.len() - 1) + len) by (nonlinear_arith);
    }
}

/// Blocks of one length that were written one after another are read back in
/// their order, and what followed them is left.
pub proof fn lemma_blocks_are_read_back(blocks: Seq<Seq<u8>>, len: nat, rest: Seq<u8>)
    requires
        all_of_len(blocks, len),
    ensures
        take_blocks(concat(blocks) + rest, len, blocks.len()) == Some((blocks, rest)),
    decreases blocks.len(),
{
    let all = concat(blocks) + rest;
    let count = blocks.len();
    lemma_concat_len(blocks, len);
    if count == 0 {
        assert(len * count == 0) by (nonlinear_arith)
            requires
                count == 0,
        ;
        assert(all.skip(0) =~= rest);
        assert(Seq::new(count, |i: int| all.subrange(i * len, (i + 1) * len)) =~= blocks);
    } else {
        let init = blocks.drop_last();
        let last = blocks.last();
        let before = len * (count - 1);
        lemma_concat_len(init, len);
        lemma_blocks_are_read_back(init, len, last + rest);
        assert(concat(init) + (last + rest) =~= all);
        assert(len * count == before + len) by (nonlinear_arith)
            requires
                before == len * (count - 1),
        ;
        assert((count - 1) * len == before && count * len == before + len) by (nonlinear_arith)
            requires
                before == len * (count - 1),
        ;
        let read = Seq::new(count, |i: int| all.subrange(i * len, (i + 1) * len));
        let read_init = Seq::new(
            (count - 1) as nat,
            |i: int| all.subrange(i * len, (i + 1) * len),
        );
        assert(read_init == init);
        assert forall|i: int| 0 <= i < count implies read[i] == blocks[i] by {
            if i < count - 1 {
                assert(read[i] == read_init[i]);
                assert(init[i] == blocks[i]);
            } else {
                assert(all.subrange(before as int, before + len) =~= last);
            }
        }
        assert(read =~= blocks);
        assert(all.skip((len * count) as int) =~= rest);
    }
}

/// How reading from the first `n` bytes relates to reading from all of
/// them: where all the bytes give a value, the first `n` give the same value
/// and leave what is left of the rest, if they reach as far as the value
/// does, and give nothing if they do not.
pub open spec fn prefix_reads<T>(
    all: Option<(T, Seq<u8>)>,
    bytes: Seq<u8>,
    n: int,
    part: Option<(T, Seq<u8>)>,
) -> bool {
    all matches Some((value, rest)) ==> {
        let used = bytes.len() - rest.len();
        &&& 0 <= used <= bytes.len()
        &&& rest == bytes.skip(used)
        &&& if n >= used {
            part == Some((value, rest.take(n - used)))
        } else {
            part is None
        }
    }
}

/// Skipping twice is skipping once by the sum.
pub proof fn lemma_skip_skip(bytes: Seq<u8>, a: int, b: int)
    requires
        0 <= a,
        0 <= b,
        a + b <= bytes.len(),
    ensures
        bytes.skip(a).skip(b) == bytes.skip(a + b),
{
    assert(bytes.skip(a).skip(b) =~= bytes.skip(a + b));
}

/// A block read from the first `n` bytes.
pub proof fn lemma_take_block_of_prefix(bytes: Seq<u8>, len: nat, n: int)
    requires
        0 <= n <= bytes.len(),
    ensures
        prefix_reads(take_block(bytes, len), bytes, n, take_block(bytes.take(n), len)),
{
    if len <= n {
        assert(bytes.take(n).take(len as int) =~= bytes.take(len as int));
        assert(bytes.take(n).skip(len as int) =~= bytes.skip(len as int).take(n - len));
    }
}

/// A byte read from the first `n` bytes.
pub proof fn lemma_take_u8_of_prefix(bytes: Seq<u8>, n: int)
    requires
        0 <= n <= bytes.len(),
    ensures
        prefix_reads(take_u8(bytes), bytes, n, take_u8(bytes.take(n))),
{
    if 1 <= n {
        assert(bytes.take(n).skip(1) =~= bytes.skip(1).take(n - 1));
    }
}

/// A number of two bytes read from the first `n` bytes.
pub proof fn lemma_take_u16_of_prefix(bytes: Seq<u8>, n: int)
    requires
        0 <= n <= bytes.len(),
    ensures
        prefix_reads(take_u16(bytes), bytes, n, take_u16(bytes.take(n))),
{
    if 2 <= n {
        assert(bytes.take(n).take(2) =~= bytes.take(2));
        assert(bytes.take(n).skip(2) =~= bytes.skip(2).take(n - 2));
    }
}

/// A number of four bytes read from the first `n` bytes.
pub proof fn lemma_take_u32_of_prefix(bytes: Seq<u8>, n: int)
    requires
        0 <= n <= bytes.len(),
    ensures
        prefix_reads(take_u32(bytes), bytes, n, take_u32(bytes.take(n))),
{
    if 4 <= n {
        assert(bytes.take(n).take(4) =~= bytes.take(4));
        assert(bytes.take(n).skip(4) =~= bytes.skip(4).take(n - 4));
    }
}

/// A text of `len` bytes read from the first `n` bytes.
pub proof fn lemma_take_text_of_prefix(bytes: Seq<u8>, len: nat, n: int)
    requires
        0 <= n <= bytes.len(),
    ensures
        prefix_reads(take_text(bytes, len), bytes, n, take_text(bytes.take(n), len)),
{
    if len <= n {
        assert(bytes.take(n).take(len as int) =~= bytes.take(len as int));
        assert(bytes.take(n).skip(len as int) =~= bytes.skip(len as int).take(n - len));
    }
}

/// A text with its length before it, read from the first `n` bytes.
pub proof fn lemma_take_len_text_of_prefix(bytes: Seq<u8>, n: int)
    requires
        0 <= n <= bytes.len(),
    ensures
        prefix_reads(take_len_text(bytes), bytes, n, take_len_text(bytes.take(n))),
{
    if take_len_text(bytes) is Some {
        let len = bytes[0] as nat;
        let after = bytes.skip(1);
        assert(take_len_text(bytes) == take_text(after, len));
        lemma_skip_skip(bytes, 1, len as int);
        if 1 <= n {
            let part = bytes.take(n);
            lemma_take_text_of_prefix(after, len, n - 1);
            assert(part[0] == bytes[0]);
            assert(part.skip(1) =~= after.take(n - 1));
            assert(take_len_text(part) == take_text(after.take(n - 1), len));
        }
    }
}

/// Blocks read from the first `n` bytes.
pub proof fn lemma_take_blocks_of_prefix(bytes: Seq<u8>, block_len: nat, count: nat, n: int)
    requires
        0 <= n <= bytes.len(),
    ensures
        prefix_reads(
            take_blocks(bytes, block_len, count),
            bytes,
            n,
            take_blocks(bytes.take(n), block_len, count),
        ),
{
    let total = block_len * count;
    if total <= n {
        let part = bytes.take(n);
        let all = Seq::new(count, |i: int| bytes.subrange(i * block_len, (i + 1) * block_len));
        let read = Seq::new(count, |i: int| part.subrange(i * block_len, (i + 1) * block_len));
        assert forall|i: int| 0 <= i < count implies read[i] == all[i] by {
            assert(0 <= i * block_len <= (i + 1) * block_len <= block_len * count)
                by (nonlinear_arith)
                requires
                    0 <= i < count,
                    0 <= block_len,
            ;
            assert(part.subrange(i * block_len, (i + 1) * block_len) =~= bytes.subrange(
                i * block_len,
                (i + 1) * block_len,
            ));
        }
        assert(read =~= all);
        assert(part.skip(total as int) =~= bytes.skip(total as int).take(n - total));
    }
}

} // verus!
