//! The trie layout with extension nodes and its node codec.
//!
//! A node is one header byte followed by its parts:
//! - `0`: the empty node;
//! - `1 ..= 127`: a leaf with `header - 1` nibbles of partial key, then the
//!   packed partial key, then the value as a SCALE byte string;
//! - `128 ..= 253`: an extension with `header - 128` nibbles of partial key,
//!   then the packed partial key, then the child as a SCALE byte string;
//! - `254` / `255`: a branch without / with a value: a two-byte little-endian
//!   bitmap of the children present, the value as a SCALE byte string if
//!   there is one, then each child present as a SCALE byte string.
//! A child of exactly `HASH_LENGTH` bytes is a hash, any other an inline node.

use vstd::prelude::*;
use core::ops::Range;
use crate::keccak::{KeccakHash, KeccakHasher, keccak256};
use crate::scale::{
    bytes_encode_to, compact_u32, compact_u32_decode, compact_u32_decode_from, compact_u32_encode_to,
    compact_u32_width, scale_bytes, u16_decode_from,
};


verus! {

pub const EMPTY_TRIE: u8 = 0;
pub const LEAF_NODE_OFFSET: u8 = 1;
pub const EXTENSION_NODE_OFFSET: u8 = 128;
pub const BRANCH_NODE_NO_VALUE: u8 = 254;
pub const BRANCH_NODE_WITH_VALUE: u8 = 255;
pub const LEAF_NODE_OVER: u8 = EXTENSION_NODE_OFFSET - LEAF_NODE_OFFSET;
pub const EXTENSION_NODE_OVER: u8 = BRANCH_NODE_NO_VALUE - EXTENSION_NODE_OFFSET;
pub const LEAF_NODE_LAST: u8 = EXTENSION_NODE_OFFSET - 1;
pub const EXTENSION_NODE_LAST: u8 = BRANCH_NODE_NO_VALUE - 1;

/// Length in bytes of the children bitmap of a branch.
pub const BITMAP_LENGTH: usize = 2;
/// Number of children of a branch (the radix of the trie).
pub const NIBBLE_LENGTH: usize = 16;
/// Number of nibbles packed in a byte of a partial key.
pub const NIBBLE_PER_BYTE: usize = 2;
/// Length in bytes of a node hash (Keccak-256).
pub const HASH_LENGTH: usize = 32;

/// `nibble_ops::number_padding` of `trie_db`: the nibble padding of a
/// partial key of `i` nibbles, which is `i % 2`.
pub assume_specification[ trie_db::nibble_ops::number_padding ](i: usize) -> (r: usize)
    ensures
        r == i % 2,
;

/// Errors of the node codec.
#[derive(Debug, Clone, Copy, PartialEq, Eq, Structural)]
pub enum CodecError {
    /// The node ends before one of its parts.
    OutOfData,
    /// A length prefix is no canonical SCALE compact `u32`.
    InvalidCompact,
}

/// A request made to a `ByteSliceInput`: `take(count)`, `read` into a
/// buffer of `count` bytes, or `read_byte`.
pub enum InputRequest {
    Take(nat),
    Read(nat),
    ReadByte,
}

/// How many bytes a request asks for.
pub open spec fn request_len(r: InputRequest) -> nat {
    match r {
        InputRequest::Take(count) => count,
        InputRequest::Read(count) => count,
        InputRequest::ReadByte => 1,
    }
}

/// What a request does to an input of `len` bytes at position `pos`: the
/// position after it and the number of bytes it hands out. A request that
/// asks for more than is left hands out nothing and leaves the position.
pub open spec fn input_step(len: nat, pos: nat, r: InputRequest) -> (nat, nat) {
    if pos + request_len(r) <= len {
        (pos + request_len(r), request_len(r))
    } else {
        (pos, 0)
    }
}

/// What a sequence of requests does to an input of `len` bytes from
/// position `pos`: the position after them and the bytes handed out in all.
pub open spec fn input_run(len: nat, pos: nat, rs: Seq<InputRequest>) -> (nat, nat)
    decreases rs.len(),
{
    if rs.len() == 0 {
        (pos, 0)
    } else {
        let (p1, h1) = input_step(len, pos, rs[0]);
        let (p, h) = input_run(len, p1, rs.drop_first());
        (p, h1 + h)
    }
}

/// From a position within the input, requests move it by exactly the bytes
/// they hand out, and never past the end.
pub proof fn lemma_input_run(len: nat, pos: nat, rs: Seq<InputRequest>)
    requires
        pos <= len,
    ensures
        input_run(len, pos, rs).0 == pos + input_run(len, pos, rs).1,
        input_run(len, pos, rs).0 <= len,
    decreases rs.len(),
{
    if rs.len() > 0 {
        let (p1, h1) = input_step(len, pos, rs[0]);
        lemma_input_run(len, p1, rs.drop_first());
    }
}

/// Over any sequence of requests to a new input, successful or not, the
/// position equals the number of bytes handed out and stays within the
/// input.
pub proof fn law_input_position(len: nat, rs: Seq<InputRequest>)
    ensures
        input_run(len, 0, rs).0 == input_run(len, 0, rs).1,
        input_run(len, 0, rs).0 <= len,
{
    lemma_input_run(len, 0, rs);
}

/// Abstraction utility to read from a given bytes slice.
pub struct ByteSliceInput<'a> {
    data: &'a [u8],
    offset: usize,
    handed: Ghost<nat>,
}

impl<'a> ByteSliceInput<'a> {
    #[verifier::type_invariant]
    spec fn inv(self) -> bool {
        &&& self.offset <= self.data@.len()
        &&& self.offset == self.handed@
    }

    /// How many bytes all the calls so far have handed out: the lengths of
    /// the ranges taken, of the buffers read, one per byte read, and the
    /// bytes of each compact integer decoded.
    pub closed spec fn handed_out(&self) -> nat {
        self.handed@
    }

    /// Moves past `n` bytes, which are handed out.
    fn advance(&mut self, n: usize)
        requires
            old(self).position() + n <= old(self).bytes().len(),
        ensures
            final(self).bytes() == old(self).bytes(),
            final(self).position() == old(self).position() + n,
            final(self).handed_out() == old(self).handed_out() + n,
    {
        proof {
            use_type_invariant(&*self);
        }
        let len = self.data.len();
        assert(self.offset + n <= len);
        *self = ByteSliceInput {
            data: self.data,
            offset: self.offset + n,
            handed: Ghost((self.handed@ + n) as nat),
        };
    }

    /// The bytes being read.
    pub closed spec fn bytes(&self) -> Seq<u8> {
        self.data@
    }

    /// How many bytes have been read so far.
    pub closed spec fn position(&self) -> nat {
        self.offset as nat
    }

    pub fn new(data: &'a [u8]) -> (res: Self)
        ensures
            res.bytes() == data@,
            res.position() == 0,
            res.handed_out() == 0,
    {
        ByteSliceInput { data, offset: 0, handed: Ghost(0) }
    }

    /// Takes the next `count` bytes: returns their range and moves past them,
    /// or fails with `OutOfData`, unchanged, where fewer than `count` are left.
    /// The position plus `count` must fit in a `usize`.
    pub fn take(&mut self, count: usize) -> (res: Result<Range<usize>, CodecError>)
        requires
            old(self).position() + count <= usize::MAX,
        ensures
            final(self).bytes() == old(self).bytes(),
            old(self).position() + count > old(self).bytes().len() ==> res == Err::<
                Range<usize>,
                CodecError,
            >(CodecError::OutOfData) && final(self).position() == old(self).position(),
            old(self).position() + count <= old(self).bytes().len() ==> (res matches Ok(r) && r.start
                == old(self).position() && r.end == old(self).position() + count
                && final(self).position() == r.end),
            ({
                let (pos, handed) = input_step(
                    old(self).bytes().len(),
                    old(self).position(),
                    InputRequest::Take(count as nat),
                );
                &&& final(self).position() == pos
                &&& final(self).handed_out() == old(self).handed_out() + handed
                &&& res matches Ok(r) ==> r.end - r.start == handed
                &&& res is Err ==> handed == 0
            }),
            final(self).position() == final(self).handed_out(),
            final(self).position() <= final(self).bytes().len(),
    {
        proof {
            use_type_invariant(&*self);
        }
        if self.offset + count > self.data.len() {
            return Err(CodecError::OutOfData);
        }
        let range = self.offset..(self.offset + count);
        self.advance(count);
        Ok(range)
    }

    /// The number of bytes left to read.
    pub fn remaining_len(&mut self) -> (res: Result<Option<usize>, CodecError>)
        ensures
            *final(self) == *old(self),
            res == Ok::<Option<usize>, CodecError>(
                Some((old(self).bytes().len() - old(self).position()) as usize),
            ),
    {
        proof {
            use_type_invariant(&*self);
        }
        let remaining = if self.offset <= self.data.len() {
            Some(self.data.len() - self.offset)
        } else {
            None
        };
        Ok(remaining)
    }

    /// Fills `into` with the next bytes and moves past them, or fails with
    /// `OutOfData`, changing nothing, where fewer than `into.len()` are left.
    pub fn read(&mut self, into: &mut [u8]) -> (res: Result<(), CodecError>)
        requires
            old(self).position() + old(into)@.len() <= usize::MAX,
        ensures
            final(self).bytes() == old(self).bytes(),
            final(into)@.len() == old(into)@.len(),
            old(self).position() + old(into)@.len() > old(self).bytes().len() ==> res == Err::<
                (),
                CodecError,
            >(CodecError::OutOfData) && final(self).position() == old(self).position()
                && final(into)@ == old(into)@,
            old(self).position() + old(into)@.len() <= old(self).bytes().len() ==> res is Ok
                && final(self).position() == old(self).position() + old(into)@.len()
                && final(into)@ == old(self).bytes().subrange(
                old(self).position() as int,
                (old(self).position() + old(into)@.len()) as int,
            ),
            ({
                let (pos, handed) = input_step(
                    old(self).bytes().len(),
                    old(self).position(),
                    InputRequest::Read(old(into)@.len()),
                );
                &&& final(self).position() == pos
                &&& final(self).handed_out() == old(self).handed_out() + handed
                &&& res is Ok ==> old(into)@.len() == handed
                &&& res is Err ==> handed == 0
            }),
            final(self).position() == final(self).handed_out(),
            final(self).position() <= final(self).bytes().len(),
    {
        let range = self.take(into.len());
        match range {
            Err(e) => Err(e),
            Ok(r) => {
                let ghost start = r.start as int;
                let n = into.len();
                let mut i: usize = 0;
                while i < n
                    invariant
                        self.bytes().len() >= r.end,
                        r.end == r.start + n,
                        n == into@.len(),
                        0 <= i <= n,
                        forall|j: int|
                            0 <= j < i ==> into@[j] == self.bytes()[r.start + j],
                    decreases n - i,
                {
                    into[i] = self.data[r.start + i];
                    i = i + 1;
                }
                assert(into@ =~= self.bytes().subrange(r.start as int, r.end as int));
                Ok(())
            },
        }
    }

    /// Reads one byte and moves past it, or fails with `OutOfData`, unchanged,
    /// where no byte is left. The position plus one must fit in a `usize`.
    pub fn read_byte(&mut self) -> (res: Result<u8, CodecError>)
        requires
            old(self).position() + 1 <= usize::MAX,
        ensures
            final(self).bytes() == old(self).bytes(),
            old(self).position() >= old(self).bytes().len() ==> res == Err::<u8, CodecError>(
                CodecError::OutOfData,
            ) && final(self).position() == old(self).position(),
            old(self).position() < old(self).bytes().len() ==> res == Ok::<u8, CodecError>(
                old(self).bytes()[old(self).position() as int],
            ) && final(self).position() == old(self).position() + 1,
            ({
                let (pos, handed) = input_step(
                    old(self).bytes().len(),
                    old(self).position(),
                    InputRequest::ReadByte,
                );
                &&& final(self).position() == pos
                &&& final(self).handed_out() == old(self).handed_out() + handed
                &&& res is Ok ==> handed == 1
                &&& res is Err ==> handed == 0
            }),
            final(self).position() == final(self).handed_out(),
            final(self).position() <= final(self).bytes().len(),
    {
        proof {
            use_type_invariant(&*self);
        }
        if self.offset + 1 > self.data.len() {
            return Err(CodecError::OutOfData);
        }
        let byte = self.data[self.offset];
        self.advance(1);
        Ok(byte)
    }

    /// Decodes a SCALE compact `u32` from the bytes left and moves past it,
    /// or fails, unchanged: with `OutOfData` where the bytes end before the
    /// compact does, with `InvalidCompact` where they hold no canonical one.
    pub fn decode_compact_u32(&mut self) -> (res: Result<u32, CodecError>)
        ensures
            final(self).bytes() == old(self).bytes(),
            match compact_at(old(self).bytes(), old(self).position()) {
                Ok((v, o)) => res == Ok::<u32, CodecError>(v) && final(self).position() == o,
                Err(e) => res == Err::<u32, CodecError>(e) && final(self).position()
                    == old(self).position(),
            },
            final(self).handed_out() == old(self).handed_out() + (final(self).position()
                - old(self).position()),
            final(self).position() == final(self).handed_out(),
            final(self).position() <= final(self).bytes().len(),
    {
        proof {
            use_type_invariant(&*self);
        }
        let rest_data = &self.data[self.offset..self.data.len()];
        assert(rest_data@ =~= self.data@.skip(self.offset as int));
        if rest_data.len() == 0 {
            return Err(CodecError::OutOfData);
        }
        let prefix = rest_data[0];
        let width: usize = if prefix % 4 == 0 {
            1
        } else if prefix % 4 == 1 {
            2
        } else if prefix % 4 == 2 {
            4
        } else if prefix == 3 {
            5
        } else {
            return Err(CodecError::InvalidCompact);
        };
        if rest_data.len() < width {
            return Err(CodecError::OutOfData);
        }
        match compact_u32_decode_from(rest_data) {
            Ok((v, rest)) => {
                proof {
                    let n = compact_u32_decode(rest_data@).unwrap().1;
                    assert(rest@.len() == rest_data@.len() - n);
                }
                self.advance(rest_data.len() - rest.len());
                Ok(v)
            },
            Err(_) => Err(CodecError::InvalidCompact),
        }
    }
}


/// The header of a node, its first byte.
#[derive(Debug, Clone, Copy, PartialEq, Eq, Structural)]
pub enum NodeHeader {
    Null,
    Branch(bool),
    Extension(usize),
    Leaf(usize),
}

/// Whether the header byte of `h` can be formed without overflow.
pub open spec fn header_fits(h: NodeHeader) -> bool {
    match h {
        NodeHeader::Leaf(n) => LEAF_NODE_OFFSET + (n as u8) <= 255,
        NodeHeader::Extension(n) => EXTENSION_NODE_OFFSET + (n as u8) <= 255,
        _ => true,
    }
}

/// The byte that encodes the header `h`.
pub open spec fn header_byte(h: NodeHeader) -> u8 {
    match h {
        NodeHeader::Null => EMPTY_TRIE,
        NodeHeader::Branch(true) => BRANCH_NODE_WITH_VALUE,
        NodeHeader::Branch(false) => BRANCH_NODE_NO_VALUE,
        NodeHeader::Leaf(n) => (LEAF_NODE_OFFSET + (n as u8)) as u8,
        NodeHeader::Extension(n) => (EXTENSION_NODE_OFFSET + (n as u8)) as u8,
    }
}

/// The header that the byte `b` stands for.
pub open spec fn header_of_byte(b: u8) -> NodeHeader {
    if b == EMPTY_TRIE {
        NodeHeader::Null
    } else if b == BRANCH_NODE_NO_VALUE {
        NodeHeader::Branch(false)
    } else if b == BRANCH_NODE_WITH_VALUE {
        NodeHeader::Branch(true)
    } else if LEAF_NODE_OFFSET <= b <= LEAF_NODE_LAST {
        NodeHeader::Leaf((b - LEAF_NODE_OFFSET) as usize)
    } else {
        NodeHeader::Extension((b - EXTENSION_NODE_OFFSET) as usize)
    }
}

impl NodeHeader {
    /// Appends the header byte to `output`.
    pub fn encode_to(&self, output: &mut Vec<u8>)
        requires
            header_fits(*self),
        ensures
            final(output)@ == old(output)@.push(header_byte(*self)),
    {
        match self {
            NodeHeader::Null => output.push(EMPTY_TRIE),
            NodeHeader::Branch(true) => output.push(BRANCH_NODE_WITH_VALUE),
            NodeHeader::Branch(false) => output.push(BRANCH_NODE_NO_VALUE),
            NodeHeader::Leaf(nibble_count) => output.push(LEAF_NODE_OFFSET + *nibble_count as u8),
            NodeHeader::Extension(nibble_count) => output.push(
                EXTENSION_NODE_OFFSET + *nibble_count as u8,
            ),
        }
    }

    /// Reads a header byte from `input`.
    pub fn decode(input: &mut ByteSliceInput) -> (res: Result<NodeHeader, CodecError>)
        requires
            old(input).position() + 1 <= usize::MAX,
        ensures
            final(input).bytes() == old(input).bytes(),
            old(input).position() >= old(input).bytes().len() ==> res == Err::<
                NodeHeader,
                CodecError,
            >(CodecError::OutOfData),
            old(input).position() < old(input).bytes().len() ==> res == Ok::<
                NodeHeader,
                CodecError,
            >(header_of_byte(old(input).bytes()[old(input).position() as int]))
                && final(input).position() == old(input).position() + 1,
    {
        let b = input.read_byte()?;
        if b == EMPTY_TRIE {
            Ok(NodeHeader::Null)
        } else if b == BRANCH_NODE_NO_VALUE {
            Ok(NodeHeader::Branch(false))
        } else if b == BRANCH_NODE_WITH_VALUE {
            Ok(NodeHeader::Branch(true))
        } else if LEAF_NODE_OFFSET <= b && b <= LEAF_NODE_LAST {
            Ok(NodeHeader::Leaf((b - LEAF_NODE_OFFSET) as usize))
        } else {
            Ok(NodeHeader::Extension((b - EXTENSION_NODE_OFFSET) as usize))
        }
    }
}

/// Whether bit `i` of `bits` is set.
pub open spec fn bit_set(bits: u16, i: u16) -> bool {
    bits & (1u16 << i) != 0
}

/// The bitmap with bit `i` set for each `i < 16` where `flags[i]` holds.
pub open spec fn bitmap_of(flags: Seq<bool>) -> u16
    decreases flags.len(),
{
    if flags.len() == 0 {
        0
    } else {
        let k = flags.len() - 1;
        let rest = bitmap_of(flags.drop_last());
        if flags.last() && k < 16 {
            rest | (1u16 << (k as u16))
        } else {
            rest
        }
    }
}

proof fn lemma_cursor_step(i: u16)
    requires
        i < 16,
    ensures
        i < 15 ==> (1u16 << i) << 1u16 == 1u16 << ((i + 1) as u16),
        i == 15 ==> (1u16 << i) << 1u16 == 0,
{
    assert(i < 15 ==> (1u16 << i) << 1u16 == 1u16 << ((i + 1) as u16)) by (bit_vector);
    assert(i == 15 ==> (1u16 << i) << 1u16 == 0) by (bit_vector);
}

/// Children bitmap codec for radix 16 trie.
pub struct Bitmap(u16);

impl Bitmap {
    /// The bits of the bitmap.
    pub closed spec fn bits(&self) -> u16 {
        self.0
    }

    /// Reads a bitmap from the first two bytes of `data`, little-endian.
    pub fn decode(data: &[u8]) -> (res: Result<Bitmap, CodecError>)
        ensures
            data.len() >= 2 ==> (res matches Ok(b) && b.bits() == data[0] + 256 * data[1]),
            data.len() < 2 ==> res == Err::<Bitmap, CodecError>(CodecError::OutOfData),
    {
        match u16_decode_from(data) {
            Ok(v) => Ok(Bitmap(v)),
            Err(_) => Err(CodecError::OutOfData),
        }
    }

    /// Whether the child at index `i` is present.
    pub fn value_at(&self, i: usize) -> (res: bool)
        requires
            i < 16,
        ensures
            res == bit_set(self.bits(), i as u16),
    {
        self.0 & (1u16 << i) != 0
    }

    /// Writes the bitmap of `has_children` into the first two bytes of
    /// `dest`, little-endian; flags past the sixteenth are ignored.
    pub fn encode(has_children: &[bool], dest: &mut [u8])
        requires
            old(dest)@.len() >= 2,
        ensures
            final(dest)@ == old(dest)@.update(0, (bitmap_of(has_children@) % 256) as u8).update(
                1,
                (bitmap_of(has_children@) / 256) as u8,
            ),
    {
        let mut bitmap: u16 = 0;
        let mut cursor: u16 = 1;
        let mut i: usize = 0;
        assert(1u16 << 0u16 == 1) by (bit_vector);
        while i < has_children.len()
            invariant
                0 <= i <= has_children@.len(),
                bitmap == bitmap_of(has_children@.take(i as int)),
                i < 16 ==> cursor == 1u16 << (i as u16),
                i >= 16 ==> cursor == 0,
            decreases has_children@.len() - i,
        {
            assert(has_children@.take((i + 1) as int).drop_last() =~= has_children@.take(i as int));
            if has_children[i] {
                assert(bitmap | 0u16 == bitmap) by (bit_vector);
                bitmap = bitmap | cursor;
            }
            proof {
                if i < 16 {
                    lemma_cursor_step(i as u16);
                }
            }
            assert(0u16 << 1u16 == 0) by (bit_vector);
            cursor = cursor << 1u16;
            i = i + 1;
        }
        assert(has_children@.take(i as int) =~= has_children@);
        dest[0] = (bitmap % 256) as u8;
        dest[1] = (bitmap / 256) as u8;
    }
}

/// A reference to a child node: its hash, or the node itself, inline, as the
/// first `len` bytes of the array.
#[derive(Debug, Clone, Copy)]
pub enum ChildReference {
    Hash(KeccakHash),
    Inline(KeccakHash, usize),
}

/// Whether an inline reference fits in its array.
pub open spec fn child_fits(c: ChildReference) -> bool {
    match c {
        ChildReference::Hash(_) => true,
        ChildReference::Inline(_, len) => len <= 32,
    }
}

/// The bytes of a child as it is stored in its parent node.
pub open spec fn child_bytes(c: ChildReference) -> Seq<u8> {
    match c {
        ChildReference::Hash(h) => scale_bytes(h@),
        ChildReference::Inline(d, len) => scale_bytes(d@.take(len as int)),
    }
}

/// The bytes of the children present, in order.
pub open spec fn children_bytes(children: Seq<Option<ChildReference>>) -> Seq<u8>
    decreases children.len(),
{
    if children.len() == 0 {
        Seq::empty()
    } else {
        children_bytes(children.drop_last()) + match children.last() {
            Some(c) => child_bytes(c),
            None => Seq::empty(),
        }
    }
}

/// Which children are present.
pub open spec fn presence(children: Seq<Option<ChildReference>>) -> Seq<bool> {
    children.map_values(|c: Option<ChildReference>| c is Some)
}

/// The encoding of a leaf of `n` nibbles with packed partial key `partial`.
pub open spec fn leaf_node_bytes(partial: Seq<u8>, n: nat, value: Seq<u8>) -> Seq<u8> {
    seq![(LEAF_NODE_OFFSET + n) as u8] + partial + compact_u32(value.len() as u32) + value
}

/// The encoding of an extension of `n` nibbles with packed partial key `partial`.
pub open spec fn extension_node_bytes(partial: Seq<u8>, n: nat, child: ChildReference) -> Seq<u8> {
    seq![(EXTENSION_NODE_OFFSET + n) as u8] + partial + child_bytes(child)
}

/// The encoding of a branch.
pub open spec fn branch_node_bytes(
    children: Seq<Option<ChildReference>>,
    value: Option<Seq<u8>>,
) -> Seq<u8> {
    let bm = bitmap_of(presence(children));
    seq![
        if value is Some { BRANCH_NODE_WITH_VALUE } else { BRANCH_NODE_NO_VALUE },
        (bm % 256) as u8,
        (bm / 256) as u8,
    ] + match value {
        Some(v) => compact_u32(v.len() as u32) + v,
        None => Seq::empty(),
    } + children_bytes(children)
}

/// The partial key of a node: a range of bytes and the nibble padding.
#[derive(Debug)]
pub struct NibbleSlicePlan {
    pub bytes: Range<usize>,
    pub offset: usize,
}

/// Where a value stands in an encoded node.
#[derive(Debug)]
pub enum ValuePlan {
    Inline(Range<usize>),
}

/// Where a child reference stands in an encoded node.
#[derive(Debug)]
pub enum NodeHandlePlan {
    Hash(Range<usize>),
    Inline(Range<usize>),
}

/// Where the parts of a decoded node stand in its encoding.
#[derive(Debug)]
pub enum NodePlan {
    Empty,
    Leaf { partial: NibbleSlicePlan, value: ValuePlan },
    Extension { partial: NibbleSlicePlan, child: NodeHandlePlan },
    Branch { value: Option<ValuePlan>, children: [Option<NodeHandlePlan>; 16] },
}

/// A node plan with its children as a sequence.
pub enum NodePlanSpec {
    Empty,
    Leaf { partial: NibbleSlicePlan, value: ValuePlan },
    Extension { partial: NibbleSlicePlan, child: NodeHandlePlan },
    Branch { value: Option<ValuePlan>, children: Seq<Option<NodeHandlePlan>> },
}

impl View for NodePlan {
    type V = NodePlanSpec;

    open spec fn view(&self) -> NodePlanSpec {
        match *self {
            NodePlan::Empty => NodePlanSpec::Empty,
            NodePlan::Leaf { partial, value } => NodePlanSpec::Leaf { partial, value },
            NodePlan::Extension { partial, child } => NodePlanSpec::Extension { partial, child },
            NodePlan::Branch { value, children } => NodePlanSpec::Branch {
                value,
                children: children@,
            },
        }
    }
}

/// The range `start .. end`.
pub open spec fn range_of(start: nat, end: nat) -> Range<usize> {
    Range { start: start as usize, end: end as usize }
}

/// Taking `count` bytes of `data` at `off`: their range and the next offset.
pub open spec fn take_at(data: Seq<u8>, off: nat, count: nat) -> Result<
    (Range<usize>, nat),
    CodecError,
> {
    if off + count > data.len() {
        Err(CodecError::OutOfData)
    } else {
        Ok((range_of(off, off + count), off + count))
    }
}

/// Decoding a compact `u32` from `data` at `off`: its value and the next
/// offset. It is out of data where the bytes end before the width that its
/// first byte gives, and invalid where that byte starts no compact `u32` or
/// the value is not in canonical form.
pub open spec fn compact_at(data: Seq<u8>, off: nat) -> Result<(u32, nat), CodecError> {
    let s = data.skip(off as int);
    if s.len() == 0 {
        Err(CodecError::OutOfData)
    } else {
        match compact_u32_width(s[0]) {
            None => Err(CodecError::InvalidCompact),
            Some(w) => if s.len() < w {
                Err(CodecError::OutOfData)
            } else {
                match compact_u32_decode(s) {
                    Some((v, n)) => Ok((v, off + n)),
                    None => Err(CodecError::InvalidCompact),
                }
            },
        }
    }
}

/// Decoding a SCALE byte string from `data` at `off`: its range and the next offset.
pub open spec fn string_at(data: Seq<u8>, off: nat) -> Result<(Range<usize>, nat), CodecError> {
    match compact_at(data, off) {
        Err(e) => Err(e),
        Ok((count, o)) => take_at(data, o, count as nat),
    }
}

/// Decoding a child reference from `data` at `off`.
pub open spec fn handle_at(data: Seq<u8>, off: nat) -> Result<(NodeHandlePlan, nat), CodecError> {
    match string_at(data, off) {
        Err(e) => Err(e),
        Ok((r, o)) => Ok(
            (
                if r.end - r.start == HASH_LENGTH {
                    NodeHandlePlan::Hash(r)
                } else {
                    NodeHandlePlan::Inline(r)
                },
                o,
            ),
        ),
    }
}

/// Decoding the packed partial key of `n` nibbles from `data` at `off`.
pub open spec fn partial_at(data: Seq<u8>, off: nat, n: nat) -> Result<
    (NibbleSlicePlan, nat),
    CodecError,
> {
    match take_at(data, off, (n + 1) / 2) {
        Err(e) => Err(e),
        Ok((r, o)) => Ok((NibbleSlicePlan { bytes: r, offset: (n % 2) as usize }, o)),
    }
}

/// Decoding the children `i ..` of a branch with bitmap `bits` from `data` at `off`.
pub open spec fn children_at(data: Seq<u8>, bits: u16, i: nat, off: nat) -> Result<
    (Seq<Option<NodeHandlePlan>>, nat),
    CodecError,
>
    decreases 16 - i,
{
    if i >= 16 {
        Ok((Seq::empty(), off))
    } else if bit_set(bits, i as u16) {
        match handle_at(data, off) {
            Err(e) => Err(e),
            Ok((h, o)) => prepend_children(seq![Some(h)], children_at(data, bits, i + 1, o)),
        }
    } else {
        prepend_children(seq![None], children_at(data, bits, i + 1, off))
    }
}

/// Puts `pre` in front of the children that `r` decoded, if it did.
pub open spec fn prepend_children(
    pre: Seq<Option<NodeHandlePlan>>,
    r: Result<(Seq<Option<NodeHandlePlan>>, nat), CodecError>,
) -> Result<(Seq<Option<NodeHandlePlan>>, nat), CodecError> {
    match r {
        Ok((cs, o)) => Ok((pre + cs, o)),
        Err(e) => Err(e),
    }
}

proof fn lemma_prepend_children_push(
    pre: Seq<Option<NodeHandlePlan>>,
    x: Option<NodeHandlePlan>,
    r: Result<(Seq<Option<NodeHandlePlan>>, nat), CodecError>,
)
    ensures
        prepend_children(pre, prepend_children(seq![x], r)) == prepend_children(pre.push(x), r),
{
    if let Ok((cs, o)) = r {
        assert(pre + (seq![x] + cs) =~= pre.push(x) + cs);
    }
}

/// Whether the byte string at `off` of `data` declares a length that, added
/// to where its bytes start, fits in a `usize`.
pub open spec fn string_fits(data: Seq<u8>, off: nat) -> bool {
    match compact_at(data, off) {
        Ok((count, o)) => o + count <= usize::MAX,
        Err(_) => true,
    }
}

/// Whether the children `i ..` of a branch with bitmap `bits`, read from
/// `data` at `off`, each declare a length that fits, as far as they decode.
pub open spec fn children_fit(data: Seq<u8>, bits: u16, i: nat, off: nat) -> bool
    decreases 16 - i,
{
    if i >= 16 {
        true
    } else if bit_set(bits, i as u16) {
        string_fits(data, off) && match handle_at(data, off) {
            Ok((_, o)) => children_fit(data, bits, i + 1, o),
            Err(_) => true,
        }
    } else {
        children_fit(data, bits, i + 1, off)
    }
}

/// Whether each length that decoding `data` reads, added to where its bytes
/// start, fits in a `usize`: where it does not, taking those bytes would
/// overflow.
pub open spec fn plan_fits(data: Seq<u8>) -> bool {
    data.len() > 0 ==> match header_of_byte(data[0]) {
        NodeHeader::Null => true,
        NodeHeader::Branch(has_value) => match take_at(data, 1, 2) {
            Err(_) => true,
            Ok((_, o1)) => {
                let bits = (data[1] + 256 * data[2]) as u16;
                if has_value {
                    string_fits(data, o1) && match string_at(data, o1) {
                        Ok((_, o)) => children_fit(data, bits, 0, o),
                        Err(_) => true,
                    }
                } else {
                    children_fit(data, bits, 0, o1)
                }
            },
        },
        NodeHeader::Extension(n) => match partial_at(data, 1, n as nat) {
            Ok((_, o)) => string_fits(data, o),
            Err(_) => true,
        },
        NodeHeader::Leaf(n) => match partial_at(data, 1, n as nat) {
            Ok((_, o)) => string_fits(data, o),
            Err(_) => true,
        },
    }
}

/// A length read at `off` fits where the data leaves room for any 32-bit
/// length after it; the byte string it starts ends within the data.
proof fn lemma_string_fits(data: Seq<u8>, off: nat)
    requires
        data.len() + u32::MAX <= usize::MAX,
        off <= data.len(),
    ensures
        string_fits(data, off),
        string_at(data, off) matches Ok((_, o)) ==> o <= data.len(),
        handle_at(data, off) matches Ok((_, o)) ==> o <= data.len(),
{
}

/// The children's lengths fit where the data leaves room for any 32-bit
/// length after it.
proof fn lemma_children_fit(data: Seq<u8>, bits: u16, i: nat, off: nat)
    requires
        data.len() + u32::MAX <= usize::MAX,
        i <= 16,
        off <= data.len(),
    ensures
        children_fit(data, bits, i, off),
    decreases 16 - i,
{
    if i < 16 {
        lemma_string_fits(data, off);
        if bit_set(bits, i as u16) {
            if let Ok((_, o)) = handle_at(data, off) {
                lemma_children_fit(data, bits, i + 1, o);
            }
        } else {
            lemma_children_fit(data, bits, i + 1, off);
        }
    }
}

/// Every length that a node declares fits where the data leaves room for any
/// 32-bit length after it, as it does for any slice on a 64-bit target.
pub proof fn lemma_plan_fits(data: Seq<u8>)
    requires
        data.len() + u32::MAX <= usize::MAX,
    ensures
        plan_fits(data),
{
    if data.len() > 0 {
        match header_of_byte(data[0]) {
            NodeHeader::Extension(n) => {
                if let Ok((_, o)) = partial_at(data, 1, n as nat) {
                    lemma_string_fits(data, o);
                }
            },
            NodeHeader::Leaf(n) => {
                if let Ok((_, o)) = partial_at(data, 1, n as nat) {
                    lemma_string_fits(data, o);
                }
            },
            _ => {},
        }
        if let NodeHeader::Branch(has_value) = header_of_byte(data[0]) {
            if let Ok((_, o1)) = take_at(data, 1, 2) {
                lemma_string_fits(data, o1);
                let bits = (data[1] + 256 * data[2]) as u16;
                lemma_children_fit(data, bits, 0, o1);
                if let Ok((_, o)) = string_at(data, o1) {
                    lemma_children_fit(data, bits, 0, o);
                }
            }
        }
    }
}

/// What decoding a node plan from `data` gives.
pub open spec fn decode_plan_spec(data: Seq<u8>) -> Result<NodePlanSpec, CodecError> {
    if data.len() == 0 {
        Err(CodecError::OutOfData)
    } else {
        match header_of_byte(data[0]) {
            NodeHeader::Null => Ok(NodePlanSpec::Empty),
            NodeHeader::Branch(has_value) => match take_at(data, 1, 2) {
                Err(e) => Err(e),
                Ok((_, o1)) => {
                    let bits = (data[1] + 256 * data[2]) as u16;
                    let value: Result<(Option<ValuePlan>, nat), CodecError> = if has_value {
                        match string_at(data, o1) {
                            Err(e) => Err(e),
                            Ok((r, o)) => Ok((Some(ValuePlan::Inline(r)), o)),
                        }
                    } else {
                        Ok((None, o1))
                    };
                    match value {
                        Err(e) => Err(e),
                        Ok((v, o2)) => match children_at(data, bits, 0, o2) {
                            Err(e) => Err(e),
                            Ok((cs, _)) => Ok(NodePlanSpec::Branch { value: v, children: cs }),
                        },
                    }
                },
            },
            NodeHeader::Extension(n) => match partial_at(data, 1, n as nat) {
                Err(e) => Err(e),
                Ok((p, o)) => match handle_at(data, o) {
                    Err(e) => Err(e),
                    Ok((h, _)) => Ok(NodePlanSpec::Extension { partial: p, child: h }),
                },
            },
            NodeHeader::Leaf(n) => match partial_at(data, 1, n as nat) {
                Err(e) => Err(e),
                Ok((p, o)) => match string_at(data, o) {
                    Err(e) => Err(e),
                    Ok((r, _)) => Ok(NodePlanSpec::Leaf { partial: p, value: ValuePlan::Inline(r) }),
                },
            },
        }
    }
}


/// The trie layout with extension nodes, no empty root and no value
/// stored apart from its node.
#[derive(Default, Clone)]
pub struct ExtensionLayout;

impl ExtensionLayout {
    pub const USE_EXTENSION: bool = true;
    pub const ALLOW_EMPTY: bool = false;
    pub const MAX_INLINE_VALUE: Option<u32> = None;
}

/// Encodes a packed partial key of `nibble_count` nibbles behind the
/// header byte `offset + nibble_count`.
pub fn partial_from_iterator_to_key(
    partial: &[u8],
    nibble_count: usize,
    offset: u8,
    over: u8,
) -> (output: Vec<u8>)
    requires
        nibble_count < over,
        offset + nibble_count <= 255,
    ensures
        output@ == seq![(offset + nibble_count) as u8] + partial@,
{
    let mut output = Vec::with_capacity(1 + (nibble_count / NIBBLE_PER_BYTE));
    output.push(offset + nibble_count as u8);
    output.extend_from_slice(partial);
    assert(output@ =~= seq![(offset + nibble_count) as u8] + partial@);
    output
}

/// Encoding of branch header and children bitmap for any radix.
/// For codec/stream variant with extension.
pub fn branch_node_buffered(has_value: bool, has_children: &[bool], output: &mut [u8])
    requires
        old(output)@.len() >= 3,
    ensures
        final(output)@ == old(output)@.update(
            0,
            if has_value { BRANCH_NODE_WITH_VALUE } else { BRANCH_NODE_NO_VALUE },
        ).update(1, (bitmap_of(has_children@) % 256) as u8).update(
            2,
            (bitmap_of(has_children@) / 256) as u8,
        ),
{
    let first = if has_value {
        BRANCH_NODE_WITH_VALUE
    } else {
        BRANCH_NODE_NO_VALUE
    };
    output[0] = first;
    let mut bitmap_bytes: [u8; 2] = [0u8; 2];
    Bitmap::encode(has_children, &mut bitmap_bytes);
    output[1] = bitmap_bytes[0];
    output[2] = bitmap_bytes[1];
}

/// The node codec of the layout with extension nodes.
#[derive(Default, Clone)]
pub struct ReferenceNodeCodec;

impl ReferenceNodeCodec {
    /// The hash of the empty node.
    pub fn hashed_null_node() -> (out: KeccakHash)
        ensures
            out@ == keccak256(seq![EMPTY_TRIE]),
    {
        KeccakHasher::hash(Self::empty_node())
    }

    /// The encoding of the empty node.
    pub fn empty_node() -> (out: &'static [u8])
        ensures
            out@ == seq![EMPTY_TRIE],
    {
        let out: &'static [u8] = &[EMPTY_TRIE];
        assert(out@ =~= seq![EMPTY_TRIE]);
        out
    }

    /// Whether `data` is the encoding of the empty node.
    pub fn is_empty_node(data: &[u8]) -> (res: bool)
        ensures
            res == (data@ == seq![EMPTY_TRIE]),
    {
        let res = data.len() == 1 && data[0] == EMPTY_TRIE;
        assert(res ==> data@ =~= seq![EMPTY_TRIE]);
        res
    }

    /// Appends a child reference as it is stored in its parent node.
    fn encode_child(child: &ChildReference, output: &mut Vec<u8>)
        requires
            child_fits(*child),
        ensures
            final(output)@ == old(output)@ + child_bytes(*child),
    {
        match child {
            ChildReference::Hash(h) => bytes_encode_to(h.as_slice(), output),
            ChildReference::Inline(inline_data, len) => {
                let d = &inline_data[0..*len];
                assert(d@ =~= inline_data@.take(*len as int));
                bytes_encode_to(d, output)
            },
        }
    }

    /// The encoding of a leaf of `number_nibble` nibbles, its packed partial
    /// key `partial` and its value.
    pub fn leaf_node(partial: &[u8], number_nibble: usize, value: &[u8]) -> (out: Vec<u8>)
        requires
            number_nibble < LEAF_NODE_OVER,
        ensures
            out@ == leaf_node_bytes(partial@, number_nibble as nat, value@),
    {
        let mut output = partial_from_iterator_to_key(
            partial,
            number_nibble,
            LEAF_NODE_OFFSET,
            LEAF_NODE_OVER,
        );
        compact_u32_encode_to(value.len() as u32, &mut output);
        let ghost before = output@;
        output.extend_from_slice(value);
        assert(output@ =~= before + value@);
        assert(output@ =~= leaf_node_bytes(partial@, number_nibble as nat, value@));
        output
    }

    /// The encoding of an extension of `number_nibble` nibbles, its packed
    /// partial key `partial` and its child.
    pub fn extension_node(partial: &[u8], number_nibble: usize, child: &ChildReference) -> (out: Vec<u8>)
        requires
            number_nibble < EXTENSION_NODE_OVER,
            child_fits(*child),
        ensures
            out@ == extension_node_bytes(partial@, number_nibble as nat, *child),
    {
        let mut output = partial_from_iterator_to_key(
            partial,
            number_nibble,
            EXTENSION_NODE_OFFSET,
            EXTENSION_NODE_OVER,
        );
        Self::encode_child(child, &mut output);
        assert(output@ =~= extension_node_bytes(partial@, number_nibble as nat, *child));
        output
    }

    /// The encoding of a branch with the given children and value.
    #[verifier::spinoff_prover]
    #[verifier::rlimit(30)]
    pub fn branch_node(children: &[Option<ChildReference>], maybe_value: Option<&[u8]>) -> (out: Vec<u8>)
        requires
            forall|i: int|
                0 <= i < children@.len() ==> (#[trigger] children@[i] matches Some(c) ==> child_fits(c)),
        ensures
            out@ == branch_node_bytes(children@, match maybe_value { Some(v) => Some(v@), None => None }),
    {
        let mut output: Vec<u8> = vec![0u8; BITMAP_LENGTH + 1];
        let mut prefix: [u8; 3] = [0u8; 3];
        let have_value = match maybe_value {
            Some(value) => {
                compact_u32_encode_to(value.len() as u32, &mut output);
                output.extend_from_slice(value);
                true
            },
            None => false,
        };
        let ghost value_part: Seq<u8> = output@.skip(3);
        assert(value_part =~= match maybe_value {
            Some(v) => compact_u32(v@.len() as u32) + v@,
            None => Seq::<u8>::empty(),
        });
        assert(output@.take(3) =~= seq![0u8, 0u8, 0u8]);
        let mut has_children: Vec<bool> = Vec::new();
        let mut i: usize = 0;
        while i < children.len()
            invariant
                forall|j: int|
                    0 <= j < children@.len() ==> (#[trigger] children@[j] matches Some(c) ==> child_fits(c)),
                0 <= i <= children@.len(),
                output@.len() >= 3,
                output@.skip(3) == value_part + children_bytes(children@.take(i as int)),
                output@.take(3) == seq![0u8, 0u8, 0u8],
                has_children@ == presence(children@.take(i as int)),
            decreases children@.len() - i,
        {
            assert(children@.take((i + 1) as int).drop_last() =~= children@.take(i as int));
            let ghost before = output@;
            match &children[i] {
                Some(c) => {
                    Self::encode_child(c, &mut output);
                    has_children.push(true);
                },
                None => {
                    has_children.push(false);
                },
            }
            assert(output@.skip(3) =~= before.skip(3) + (output@.skip(before.len() as int)));
            assert(output@.take(3) =~= before.take(3));
            assert(has_children@ =~= presence(children@.take((i + 1) as int)));
            i = i + 1;
        }
        assert(children@.take(children@.len() as int) =~= children@);
        branch_node_buffered(have_value, has_children.as_slice(), &mut prefix);
        output[0] = prefix[0];
        output[1] = prefix[1];
        output[2] = prefix[2];
        assert(output@.skip(3) =~= value_part + children_bytes(children@));
        assert(output@ =~= output@.take(3) + output@.skip(3));
        assert(output@ =~= branch_node_bytes(
            children@,
            match maybe_value {
                Some(v) => Some(v@),
                None => None,
            },
        ));
        output
    }

    /// Decodes the packed partial key of `nibble_count` nibbles.
    fn decode_partial(
        input: &mut ByteSliceInput,
        nibble_count: usize,
    ) -> (res: Result<NibbleSlicePlan, CodecError>)
        requires
            nibble_count < 254,
            old(input).position() <= 1,
        ensures
            final(input).bytes() == old(input).bytes(),
            match partial_at(old(input).bytes(), old(input).position(), nibble_count as nat) {
                Ok((p, o)) => res == Ok::<NibbleSlicePlan, CodecError>(p) && final(input).position() == o,
                Err(e) => res == Err::<NibbleSlicePlan, CodecError>(e),
            },
    {
        let partial = input.take((nibble_count + (NIBBLE_PER_BYTE - 1)) / NIBBLE_PER_BYTE)?;
        let partial_padding = trie_db::nibble_ops::number_padding(nibble_count);
        Ok(NibbleSlicePlan { bytes: partial, offset: partial_padding })
    }

    /// Decodes a SCALE byte string: its range.
    fn decode_string(input: &mut ByteSliceInput) -> (res: Result<Range<usize>, CodecError>)
        requires
            string_fits(old(input).bytes(), old(input).position()),
        ensures
            final(input).bytes() == old(input).bytes(),
            match string_at(old(input).bytes(), old(input).position()) {
                Ok((r, o)) => res == Ok::<Range<usize>, CodecError>(r) && final(input).position() == o,
                Err(e) => res == Err::<Range<usize>, CodecError>(e),
            },
    {
        let count = input.decode_compact_u32()? as usize;
        input.take(count)
    }

    /// Decodes a child reference.
    fn decode_handle(input: &mut ByteSliceInput) -> (res: Result<NodeHandlePlan, CodecError>)
        requires
            string_fits(old(input).bytes(), old(input).position()),
        ensures
            final(input).bytes() == old(input).bytes(),
            match handle_at(old(input).bytes(), old(input).position()) {
                Ok((h, o)) => res == Ok::<NodeHandlePlan, CodecError>(h) && final(input).position() == o,
                Err(e) => res == Err::<NodeHandlePlan, CodecError>(e),
            },
    {
        let count = input.decode_compact_u32()? as usize;
        let range = input.take(count)?;
        Ok(if count == HASH_LENGTH {
            NodeHandlePlan::Hash(range)
        } else {
            NodeHandlePlan::Inline(range)
        })
    }

    /// Checks the byte string at the position of `input` against `usize`:
    /// `Some(false)` where its length overflows when added to where its bytes
    /// start; else `Some(true)` where it decodes, moving past it, and `None`
    /// where it does not.
    fn check_string(input: &mut ByteSliceInput) -> (res: Option<bool>)
        ensures
            final(input).bytes() == old(input).bytes(),
            match res {
                Some(false) => !string_fits(old(input).bytes(), old(input).position()),
                Some(true) => string_fits(old(input).bytes(), old(input).position()) && (string_at(
                    old(input).bytes(),
                    old(input).position(),
                ) matches Ok((_, o)) && final(input).position() == o),
                None => string_fits(old(input).bytes(), old(input).position()) && string_at(
                    old(input).bytes(),
                    old(input).position(),
                ) is Err,
            },
    {
        let count = match input.decode_compact_u32() {
            Ok(c) => c as usize,
            Err(_) => return None,
        };
        if count > usize::MAX - input.offset {
            return Some(false);
        }
        match input.take(count) {
            Ok(_) => Some(true),
            Err(_) => None,
        }
    }

    /// Whether every length that decoding `data` reads, added to where its
    /// bytes start, fits in a `usize`: what `decode_plan` needs of `data`.
    pub fn lengths_fit(data: &[u8]) -> (res: bool)
        ensures
            res == plan_fits(data@),
    {
        let mut input = ByteSliceInput::new(data);
        let header = match NodeHeader::decode(&mut input) {
            Ok(h) => h,
            Err(_) => return true,
        };
        match header {
            NodeHeader::Null => true,
            NodeHeader::Branch(has_value) => {
                let bitmap_range = match input.take(BITMAP_LENGTH) {
                    Ok(r) => r,
                    Err(_) => return true,
                };
                let bits = match Bitmap::decode(&data[bitmap_range]) {
                    Ok(b) => b,
                    Err(_) => return true,
                };
                if has_value {
                    match Self::check_string(&mut input) {
                        Some(true) => {},
                        Some(false) => return false,
                        None => return true,
                    }
                }
                let mut i: usize = 0;
                while i < NIBBLE_LENGTH
                    invariant
                        input.bytes() == data@,
                        0 <= i <= 16,
                        plan_fits(data@) == children_fit(data@, bits.bits(), i as nat, input.position()),
                    decreases 16 - i,
                {
                    if bits.value_at(i) {
                        match Self::check_string(&mut input) {
                            Some(true) => {},
                            Some(false) => return false,
                            None => return true,
                        }
                    }
                    i = i + 1;
                }
                true
            },
            NodeHeader::Extension(nibble_count) => {
                if Self::decode_partial(&mut input, nibble_count).is_err() {
                    return true;
                }
                Self::check_string(&mut input) != Some(false)
            },
            NodeHeader::Leaf(nibble_count) => {
                if Self::decode_partial(&mut input, nibble_count).is_err() {
                    return true;
                }
                Self::check_string(&mut input) != Some(false)
            },
        }
    }

    /// Decodes a node: where its parts stand in `data`. Each length that the
    /// node declares must fit in a `usize` when added to where its bytes
    /// start, as `plan_fits` says.
    pub fn decode_plan(data: &[u8]) -> (res: Result<NodePlan, CodecError>)
        requires
            plan_fits(data@),
        ensures
            match decode_plan_spec(data@) {
                Ok(p) => (res matches Ok(q) && q@ == p),
                Err(e) => res == Err::<NodePlan, CodecError>(e),
            },
    {
        let mut input = ByteSliceInput::new(data);
        match NodeHeader::decode(&mut input)? {
            NodeHeader::Null => Ok(NodePlan::Empty),
            NodeHeader::Branch(has_value) => {
                let bitmap_range = input.take(BITMAP_LENGTH)?;
                let bitmap = Bitmap::decode(&data[bitmap_range])?;
                let value = if has_value {
                    Some(ValuePlan::Inline(Self::decode_string(&mut input)?))
                } else {
                    None
                };
                let ghost off0 = input.position();
                assert(decode_plan_spec(data@) == match children_at(data@, bitmap.bits(), 0, off0) {
                    Err(e) => Err(e),
                    Ok((cs, _)) => Ok(NodePlanSpec::Branch { value, children: cs }),
                });
                let mut children: [Option<NodeHandlePlan>; 16] = [
                    None, None, None, None, None, None, None, None, None, None, None, None, None,
                    None, None, None,
                ];
                let mut i: usize = 0;
                while i < NIBBLE_LENGTH
                    invariant
                        input.bytes() == data@,
                        0 <= i <= 16,
                        forall|j: int| i <= j < 16 ==> children@[j] is None,
                        decode_plan_spec(data@) == match children_at(data@, bitmap.bits(), 0, off0) {
                            Err(e) => Err(e),
                            Ok((cs, _)) => Ok(NodePlanSpec::Branch { value, children: cs }),
                        },
                        children_at(data@, bitmap.bits(), 0, off0) == prepend_children(
                            children@.take(i as int),
                            children_at(data@, bitmap.bits(), i as nat, input.position()),
                        ),
                        children_fit(data@, bitmap.bits(), i as nat, input.position()),
                    decreases 16 - i,
                {
                    let ghost pos = input.position();
                    let ghost pre = children@.take(i as int);
                    assert(children_at(data@, bitmap.bits(), i as nat, pos) == if bit_set(bitmap.bits(), i as u16) {
                        match handle_at(data@, pos) {
                            Err(e) => Err(e),
                            Ok((h, o)) => prepend_children(seq![Some(h)], children_at(data@, bitmap.bits(), (i + 1) as nat, o)),
                        }
                    } else {
                        prepend_children(seq![None], children_at(data@, bitmap.bits(), (i + 1) as nat, pos))
                    });
                    if bitmap.value_at(i) {
                        let child = Self::decode_handle(&mut input)?;
                        children[i] = Some(child);
                    }
                    proof {
                        lemma_prepend_children_push(
                            pre,
                            children@[i as int],
                            children_at(data@, bitmap.bits(), (i + 1) as nat, input.position()),
                        );
                        assert(children@.take((i + 1) as int) =~= pre.push(children@[i as int]));
                    }
                    i = i + 1;
                }
                assert(children@.take(16) =~= children@);
                Ok(NodePlan::Branch { value, children })
            },
            NodeHeader::Extension(nibble_count) => {
                let partial = Self::decode_partial(&mut input, nibble_count)?;
                let child = Self::decode_handle(&mut input)?;
                Ok(NodePlan::Extension { partial, child })
            },
            NodeHeader::Leaf(nibble_count) => {
                let partial = Self::decode_partial(&mut input, nibble_count)?;
                let value = Self::decode_string(&mut input)?;
                Ok(NodePlan::Leaf { partial, value: ValuePlan::Inline(value) })
            },
        }
    }
}

} // verus!
