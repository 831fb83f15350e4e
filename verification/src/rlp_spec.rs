//! The RLP encoding of byte strings, unsigned integers and lists, as the
//! `rlp` crate writes them.

use vstd::prelude::*;
use vstd::utf8::encode_utf8;

verus! {

/// The minimal big-endian bytes of `n`: none for zero.
pub open spec fn be_min(n: nat) -> Seq<u8>
    decreases n,
{
    if n == 0 {
        Seq::empty()
    } else {
        be_min(n / 256).push((n % 256) as u8)
    }
}

/// The bytes that give the length of a long string or list: those of its
/// length taken as a `u32`.
pub open spec fn rlp_len_bytes(len: nat) -> Seq<u8> {
    be_min(len % 4294967296)
}

/// The RLP encoding of the byte string `p`.
pub open spec fn rlp_string(p: Seq<u8>) -> Seq<u8> {
    if p.len() == 1 && p[0] < 0x80 {
        p
    } else if p.len() <= 55 {
        seq![(0x80 + p.len()) as u8] + p
    } else {
        seq![(0xb7 + rlp_len_bytes(p.len()).len()) as u8] + rlp_len_bytes(p.len()) + p
    }
}

/// The RLP header of a list whose payload is `len` bytes long.
pub open spec fn rlp_list_header(len: nat) -> Seq<u8> {
    if len <= 55 {
        seq![(0xc0 + len) as u8]
    } else {
        seq![(0xf7 + rlp_len_bytes(len).len()) as u8] + rlp_len_bytes(len)
    }
}

/// The RLP encoding of a list whose items, encoded, make `payload`.
pub open spec fn rlp_list(payload: Seq<u8>) -> Seq<u8> {
    rlp_list_header(payload.len()) + payload
}

/// The RLP encoding of a string: its UTF-8 bytes as a byte string.
pub open spec fn rlp_str(s: Seq<char>) -> Seq<u8> {
    rlp_string(encode_utf8(s))
}

/// The RLP encoding of an unsigned integer: its minimal big-endian bytes as a
/// byte string.
pub open spec fn rlp_u64(v: u64) -> Seq<u8> {
    rlp_string(be_min(v as nat))
}

/// Whether `bytes` starts with the first byte of a list header.
pub open spec fn starts_list(bytes: Seq<u8>) -> bool {
    bytes.len() > 0 && bytes[0] >= 0xc0
}

/// A length below 2^32 takes at most four bytes.
pub proof fn lemma_be_min_len(n: nat)
    requires
        n < 4294967296,
    ensures
        be_min(n).len() <= 4,
{
    let n1 = n / 256;
    let n2 = n1 / 256;
    let n3 = n2 / 256;
    let n4 = n3 / 256;
    assert(n4 == 0);
    assert(be_min(n4).len() == 0);
    assert(be_min(n3).len() <= 1);
    assert(be_min(n2).len() <= 2);
    assert(be_min(n1).len() <= 3);
}

/// A list header starts a list.
pub proof fn lemma_list_header_starts_list(len: nat)
    ensures
        starts_list(rlp_list_header(len)),
{
    if len > 55 {
        lemma_be_min_len(len % 4294967296);
    }
}

/// Whether `bytes` opens with the header of a list whose payload of `len`
/// bytes lies within `bytes`, with `len` below 2^32.
pub open spec fn opens_list(bytes: Seq<u8>, len: nat) -> bool {
    &&& len < 4294967296
    &&& rlp_list_header(len).len() + len <= bytes.len()
    &&& bytes.subrange(0, rlp_list_header(len).len() as int) == rlp_list_header(len)
}

/// Whether `item` stands in `bytes` at offset `off`.
pub open spec fn stands_at(bytes: Seq<u8>, off: nat, item: Seq<u8>) -> bool {
    &&& off + item.len() <= bytes.len()
    &&& bytes.subrange(off as int, (off + item.len()) as int) == item
}

/// The items of `items`, one after the other.
pub open spec fn concat_items(items: Seq<Seq<u8>>) -> Seq<u8>
    decreases items.len(),
{
    if items.len() == 0 {
        Seq::empty()
    } else {
        items[0] + concat_items(items.drop_first())
    }
}

/// Where item `i` starts in the concatenation of `items`.
pub open spec fn item_offset(items: Seq<Seq<u8>>, i: int) -> nat {
    concat_items(items.take(i)).len()
}

/// The concatenation of `items` is that of its first `i` items, then that
/// of the rest.
pub proof fn lemma_concat_split(items: Seq<Seq<u8>>, i: int)
    requires
        0 <= i <= items.len(),
    ensures
        concat_items(items) == concat_items(items.take(i)) + concat_items(items.skip(i)),
    decreases i,
{
    if i == 0 {
        assert(items.take(0) =~= Seq::<Seq<u8>>::empty());
        assert(items.skip(0) =~= items);
        assert(concat_items(items.take(0)) =~= Seq::<u8>::empty());
        assert(Seq::<u8>::empty() + concat_items(items) =~= concat_items(items));
    } else {
        lemma_concat_split(items.drop_first(), i - 1);
        assert(items.take(i).drop_first() =~= items.drop_first().take(i - 1));
        assert(items.take(i)[0] == items[0]);
        assert(items.drop_first().skip(i - 1) =~= items.skip(i));
        assert(concat_items(items) =~= concat_items(items.take(i)) + concat_items(items.skip(i)));
    }
}

/// The concatenation of the items from `i` on is item `i`, then the items
/// from `i + 1` on.
pub proof fn lemma_concat_skip(items: Seq<Seq<u8>>, i: int)
    requires
        0 <= i < items.len(),
    ensures
        concat_items(items.skip(i)) == items[i] + concat_items(items.skip(i + 1)),
{
    assert(items.skip(i).drop_first() =~= items.skip(i + 1));
    assert(items.skip(i)[0] == items[i]);
}

/// Item `i + 1` starts right after item `i`.
pub proof fn lemma_offset_step(items: Seq<Seq<u8>>, i: int)
    requires
        0 <= i < items.len(),
    ensures
        item_offset(items, i + 1) == item_offset(items, i) + items[i].len(),
{
    lemma_concat_split(items.take(i + 1), i);
    assert(items.take(i + 1).take(i) =~= items.take(i));
    assert(items.take(i + 1).skip(i) =~= seq![items[i]]);
    assert(concat_items(seq![items[i]]) =~= items[i]) by {
        assert(seq![items[i]].drop_first() =~= Seq::<Seq<u8>>::empty());
        assert(concat_items(seq![items[i]].drop_first()) =~= Seq::<u8>::empty());
        assert(items[i] + Seq::<u8>::empty() =~= items[i]);
    }
}

/// The first `i` items take no more room than the first `n`, for `i <= n`.
pub proof fn lemma_offset_mono(items: Seq<Seq<u8>>, i: int, n: int)
    requires
        0 <= i <= n <= items.len(),
    ensures
        item_offset(items, i) <= item_offset(items, n),
{
    lemma_concat_split(items.take(n), i);
    assert(items.take(n).take(i) =~= items.take(i));
}

/// Items `i` and `i + 1` stand one after the other behind the first `i`.
proof fn lemma_pair_in_record(h: Seq<u8>, items: Seq<Seq<u8>>, i: int)
    requires
        0 <= i,
        i + 1 < items.len(),
    ensures
        stands_at(h + concat_items(items), h.len() + item_offset(items, i), items[i] + items[i + 1]),
{
    let bytes = h + concat_items(items);
    lemma_concat_split(items, i);
    lemma_concat_skip(items, i);
    lemma_concat_skip(items, i + 1);
    let pre = h + concat_items(items.take(i));
    let post = concat_items(items.skip(i + 2));
    assert(bytes =~= pre + (items[i] + items[i + 1]) + post);
    assert(bytes.subrange(pre.len() as int, (pre.len() + (items[i] + items[i + 1]).len()) as int)
        =~= items[i] + items[i + 1]);
}

/// The first item stands right behind the header.
proof fn lemma_first_in_record(h: Seq<u8>, items: Seq<Seq<u8>>)
    requires
        items.len() >= 1,
    ensures
        stands_at(h + concat_items(items), h.len(), items[0]),
{
    let bytes = h + concat_items(items);
    assert(bytes =~= h + items[0] + concat_items(items.drop_first()));
    assert(bytes.subrange(h.len() as int, (h.len() + items[0].len()) as int) =~= items[0]);
}

/// Where the items of an encoded record stand: `bytes` holds a list header
/// for the first `n` items, then all the items.
pub proof fn lemma_record_layout(bytes: Seq<u8>, items: Seq<Seq<u8>>, n: int, i: int)
    requires
        1 <= n <= items.len(),
        0 <= i < items.len(),
        bytes == rlp_list_header(item_offset(items, n)) + concat_items(items),
        item_offset(items, n) < 4294967296,
    ensures
        ({
            let hl = rlp_list_header(item_offset(items, n)).len();
            &&& opens_list(bytes, item_offset(items, n))
            &&& stands_at(bytes, hl, items[0])
            &&& items[0].len() <= item_offset(items, n)
            &&& i < n ==> item_offset(items, i) + items[i].len() <= item_offset(items, n)
            &&& item_offset(items, i + 1) == item_offset(items, i) + items[i].len()
            &&& i + 1 < items.len() ==> stands_at(bytes, hl + item_offset(items, i), items[i] + items[i + 1])
        }),
{
    let h = rlp_list_header(item_offset(items, n));
    assert(opens_list(bytes, item_offset(items, n))) by {
        lemma_concat_split(items, n);
        assert(bytes.subrange(0, h.len() as int) =~= h);
    }
    lemma_first_in_record(h, items);
    lemma_offset_step(items, 0);
    assert(item_offset(items, 0) == 0) by {
        assert(items.take(0) =~= Seq::<Seq<u8>>::empty());
    }
    lemma_offset_mono(items, 1, n);
    lemma_offset_step(items, i);
    if i < n {
        lemma_offset_mono(items, i + 1, n);
    }
    if i + 1 < items.len() {
        lemma_pair_in_record(h, items, i);
    }
}

/// Concatenating one more item appends it.
pub broadcast proof fn lemma_concat_push(items: Seq<Seq<u8>>, x: Seq<u8>)
    ensures
        #[trigger] concat_items(items.push(x)) == concat_items(items) + x,
{
    let all = items.push(x);
    lemma_concat_split(all, items.len() as int);
    assert(all.take(items.len() as int) =~= items);
    assert(all.skip(items.len() as int) =~= seq![x]);
    assert(seq![x].drop_first() =~= Seq::<Seq<u8>>::empty());
    assert(concat_items(seq![x].drop_first()) =~= Seq::<u8>::empty());
    assert(x + Seq::<u8>::empty() =~= x);
}

/// A byte string is no longer than its encoding.
pub proof fn lemma_rlp_string_len(p: Seq<u8>)
    ensures
        p.len() <= rlp_string(p).len(),
{
}

} // verus!
