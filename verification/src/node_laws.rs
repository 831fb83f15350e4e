//! What the node codec promises of its encodings: each one decodes back to
//! the parts it was made of.

use vstd::prelude::*;
use crate::scale::{compact_u32, scale_bytes, lemma_compact_u32_roundtrip};
use crate::triedbmut::{
    bit_set, bitmap_of, branch_node_bytes, child_bytes, child_fits, children_at, children_bytes,
    compact_at, decode_plan_spec, extension_node_bytes, handle_at, header_byte, header_of_byte,
    leaf_node_bytes, partial_at, presence, range_of, string_at,
    ChildReference, NodeHandlePlan, NodeHeader, NodePlanSpec, ValuePlan, EMPTY_TRIE,
    HASH_LENGTH,
};

verus! {

/// The bytes that a child reference stands for.
pub open spec fn child_payload(c: ChildReference) -> Seq<u8> {
    match c {
        ChildReference::Hash(h) => h@,
        ChildReference::Inline(d, len) => d@.take(len as int),
    }
}

/// Whether a child reference is one that decoding tells apart: a hash, or
/// an inline node shorter than a hash.
pub open spec fn child_decodable(c: ChildReference) -> bool {
    match c {
        ChildReference::Hash(_) => true,
        ChildReference::Inline(_, len) => len < HASH_LENGTH,
    }
}

/// Whether the plan `h` of a child stands for `c` in `data`.
pub open spec fn handle_matches(data: Seq<u8>, h: NodeHandlePlan, c: ChildReference) -> bool {
    match h {
        NodeHandlePlan::Hash(r) => c is Hash && r.start <= r.end <= data.len() && data.subrange(
            r.start as int,
            r.end as int,
        ) == child_payload(c),
        NodeHandlePlan::Inline(r) => c is Inline && r.start <= r.end <= data.len()
            && data.subrange(r.start as int, r.end as int) == child_payload(c),
    }
}

/// The range of the bytes that a child plan stands for.
pub open spec fn handle_range(h: NodeHandlePlan) -> core::ops::Range<usize> {
    match h {
        NodeHandlePlan::Hash(r) => r,
        NodeHandlePlan::Inline(r) => r,
    }
}

/// A SCALE byte string at `off` in `data` decodes to the range of its bytes.
proof fn lemma_string_at(data: Seq<u8>, off: nat, payload: Seq<u8>)
    requires
        payload.len() <= u32::MAX,
        data.len() <= usize::MAX,
        off + scale_bytes(payload).len() <= data.len(),
        data.subrange(off as int, (off + scale_bytes(payload).len()) as int) == scale_bytes(payload),
    ensures
        ({
            let c = compact_u32(payload.len() as u32).len();
            string_at(data, off) == Ok::<(core::ops::Range<usize>, nat), crate::triedbmut::CodecError>(
                (range_of(off + c, off + c + payload.len()), off + scale_bytes(payload).len()),
            ) && data.subrange((off + c) as int, (off + c + payload.len()) as int) == payload
        }),
{
    let sb = scale_bytes(payload);
    let cm = compact_u32(payload.len() as u32);
    let tail = data.skip((off + sb.len()) as int);
    assert(data.skip(off as int) =~= cm + (payload + tail)) by {
        assert(data.skip(off as int) =~= data.subrange(off as int, (off + sb.len()) as int) + tail);
    }
    lemma_compact_u32_roundtrip(payload.len() as u32, payload + tail);
    assert(compact_at(data, off) == Ok::<(u32, nat), crate::triedbmut::CodecError>(
        (payload.len() as u32, off + cm.len()),
    ));
    assert(data.subrange((off + cm.len()) as int, (off + cm.len() + payload.len()) as int) =~= payload) by {
        assert forall|k: int| 0 <= k < payload.len() implies data.subrange(
            (off + cm.len()) as int,
            (off + cm.len() + payload.len()) as int,
        )[k] == payload[k] by {
            assert(data[off + cm.len() + k] == data.subrange(off as int, (off + sb.len()) as int)[cm.len() + k]);
        }
    }
}

/// A child reference at `off` in `data` decodes to a plan that stands for it.
proof fn lemma_handle_at(data: Seq<u8>, off: nat, c: ChildReference)
    requires
        child_fits(c),
        child_decodable(c),
        data.len() <= usize::MAX,
        off + child_bytes(c).len() <= data.len(),
        data.subrange(off as int, (off + child_bytes(c).len()) as int) == child_bytes(c),
    ensures
        handle_at(data, off) matches Ok((h, o)) && o == off + child_bytes(c).len()
            && handle_matches(data, h, c) && handle_range(h).end == o,
{
    let p = child_payload(c);
    match c {
        ChildReference::Hash(h) => assert(p.len() == 32),
        ChildReference::Inline(d, len) => assert(p.len() == len),
    }
    assert(child_bytes(c) == scale_bytes(p));
    lemma_string_at(data, off, p);
}

/// The children bytes of a sequence are those of its first element, then
/// those of the rest.
proof fn lemma_children_bytes_first(cs: Seq<Option<ChildReference>>)
    requires
        cs.len() > 0,
    ensures
        children_bytes(cs) == match cs[0] {
            Some(c) => child_bytes(c),
            None => Seq::<u8>::empty(),
        } + children_bytes(cs.drop_first()),
    decreases cs.len(),
{
    if cs.len() > 1 {
        lemma_children_bytes_first(cs.drop_last());
        assert(cs.drop_last().drop_first() =~= cs.drop_first().drop_last());
        assert(cs.drop_last()[0] == cs[0]);
        assert(cs.drop_first().last() == cs.last());
    } else {
        assert(cs.drop_last() =~= Seq::<Option<ChildReference>>::empty());
        assert(cs.drop_first() =~= Seq::<Option<ChildReference>>::empty());
    }
}

/// Setting bit `k` of a bitmap sets that bit and no other.
proof fn lemma_bit_or(b: u16, k: u16, j: u16)
    requires
        k < 16,
        j < 16,
    ensures
        bit_set(b | (1u16 << k), j) == (bit_set(b, j) || j == k),
{
    assert(bit_set(b | (1u16 << k), j) == (bit_set(b, j) || j == k)) by (bit_vector)
        requires
            k < 16,
            j < 16,
    ;
}

/// The bitmap of some flags has bit `j` set exactly where flag `j` holds.
pub proof fn law_bitmap_of(flags: Seq<bool>, j: u16)
    requires
        j < 16,
    ensures
        bit_set(bitmap_of(flags), j) == (j < flags.len() && flags[j as int]),
    decreases flags.len(),
{
    if flags.len() == 0 {
        assert(bit_set(0u16, j) == false) by (bit_vector)
            requires
                j < 16,
        ;
    } else {
        let k = flags.len() - 1;
        law_bitmap_of(flags.drop_last(), j);
        if flags.last() && k < 16 {
            lemma_bit_or(bitmap_of(flags.drop_last()), k as u16, j);
        }
    }
}

/// Decoding the header byte of a header gives it back, for the headers
/// whose byte falls in their own range.
pub proof fn law_header_roundtrip(h: NodeHeader)
    requires
        match h {
            NodeHeader::Leaf(n) => n <= 126,
            NodeHeader::Extension(n) => n <= 125,
            _ => true,
        },
    ensures
        header_of_byte(header_byte(h)) == h,
{
}

/// The empty node decodes to the empty plan.
pub proof fn law_empty_node_decodes()
    ensures
        decode_plan_spec(seq![EMPTY_TRIE]) == Ok::<NodePlanSpec, crate::triedbmut::CodecError>(
            NodePlanSpec::Empty,
        ),
{
}

/// A leaf decodes to the plan of its parts: the packed partial key right
/// after the header, its padding, and the value, which ends the encoding.
pub proof fn law_leaf_node_roundtrip(partial: Seq<u8>, n: nat, value: Seq<u8>)
    requires
        n < 127,
        partial.len() == (n + 1) / 2,
        value.len() <= u32::MAX,
        leaf_node_bytes(partial, n, value).len() <= usize::MAX,
    ensures
        ({
            let data = leaf_node_bytes(partial, n, value);
            decode_plan_spec(data) matches Ok(NodePlanSpec::Leaf { partial: p, value: ValuePlan::Inline(r) })
                && p.offset == n % 2 && p.bytes == range_of(1, 1 + partial.len())
                && data.subrange(p.bytes.start as int, p.bytes.end as int) == partial
                && r == range_of((data.len() - value.len()) as nat, data.len())
                && data.subrange(r.start as int, r.end as int) == value
        }),
{
    let data = leaf_node_bytes(partial, n, value);
    let off = 1 + partial.len();
    assert(data =~= (seq![(1 + n) as u8] + partial) + scale_bytes(value));
    assert(data[0] == (1 + n) as u8);
    assert(header_of_byte(data[0]) == NodeHeader::Leaf(n as usize));
    assert(data.subrange(1, off as int) =~= partial);
    assert(data.subrange(off as int, data.len() as int) =~= scale_bytes(value));
    let pp = crate::triedbmut::NibbleSlicePlan { bytes: range_of(1, off), offset: (n % 2) as usize };
    assert(partial_at(data, 1, n) == Ok::<(crate::triedbmut::NibbleSlicePlan, nat), crate::triedbmut::CodecError>((pp, off)));
    lemma_string_at(data, off, value);
}

/// An extension decodes to the plan of its parts: the packed partial key
/// right after the header, its padding, and a plan that stands for its
/// child, whose bytes end the encoding.
pub proof fn law_extension_node_roundtrip(partial: Seq<u8>, n: nat, child: ChildReference)
    requires
        n < 126,
        partial.len() == (n + 1) / 2,
        child_fits(child),
        child_decodable(child),
        extension_node_bytes(partial, n, child).len() <= usize::MAX,
    ensures
        ({
            let data = extension_node_bytes(partial, n, child);
            decode_plan_spec(data) matches Ok(NodePlanSpec::Extension { partial: p, child: h })
                && p.offset == n % 2 && p.bytes == range_of(1, 1 + partial.len())
                && data.subrange(p.bytes.start as int, p.bytes.end as int) == partial
                && handle_matches(data, h, child) && handle_range(h).end == data.len()
        }),
{
    let data = extension_node_bytes(partial, n, child);
    let off = 1 + partial.len();
    assert(data =~= (seq![(128 + n) as u8] + partial) + child_bytes(child));
    assert(data[0] == (128 + n) as u8);
    assert(header_of_byte(data[0]) == NodeHeader::Extension(n as usize));
    assert(data.subrange(1, off as int) =~= partial);
    assert(data.subrange(off as int, data.len() as int) =~= child_bytes(child));
    lemma_handle_at(data, off, child);
}

/// The children of a branch, from index `i` on, decode to plans that stand
/// for them.
proof fn lemma_children_decode(
    data: Seq<u8>,
    bits: u16,
    children: Seq<Option<ChildReference>>,
    i: nat,
    off: nat,
)
    requires
        children.len() == 16,
        i <= 16,
        data.len() <= usize::MAX,
        forall|j: int| 0 <= j < 16 ==> (#[trigger] children[j] matches Some(c) ==> child_fits(c)
            && child_decodable(c)),
        forall|j: u16| j < 16 ==> bit_set(bits, j) == (#[trigger] children[j as int] is Some),
        off + children_bytes(children.subrange(i as int, 16)).len() <= data.len(),
        data.subrange(off as int, (off + children_bytes(children.subrange(i as int, 16)).len()) as int)
            == children_bytes(children.subrange(i as int, 16)),
    ensures
        children_at(data, bits, i, off) matches Ok((cs, o)) && cs.len() == 16 - i && forall|k: int|
            0 <= k < 16 - i ==> (children[i + k] is None ==> cs[k] is None) && (
            children[i + k] matches Some(c) ==> (cs[k] matches Some(h) && handle_matches(data, h, c))),
    decreases 16 - i,
{
    if i < 16 {
        let s = children.subrange(i as int, 16);
        lemma_children_bytes_first(s);
        assert(s.drop_first() =~= children.subrange((i + 1) as int, 16));
        assert(s[0] == children[i as int]);
        let first = match s[0] {
            Some(c) => child_bytes(c),
            None => Seq::<u8>::empty(),
        };
        let rest = children_bytes(children.subrange((i + 1) as int, 16));
        let whole = data.subrange(off as int, (off + first.len() + rest.len()) as int);
        assert(whole == first + rest);
        assert(whole.subrange(0, first.len() as int) =~= first);
        assert(whole.subrange(first.len() as int, (first.len() + rest.len()) as int) =~= rest);
        assert(data.subrange((off + first.len()) as int, (off + first.len() + rest.len()) as int) =~= whole.subrange(
            first.len() as int,
            (first.len() + rest.len()) as int,
        ));
        assert(bit_set(bits, i as u16) == children[i as int] is Some);
        match children[i as int] {
            Some(c) => {
                assert(data.subrange(off as int, (off + first.len()) as int) =~= whole.subrange(0, first.len() as int));
                lemma_handle_at(data, off, c);
                lemma_children_decode(data, bits, children, i + 1, off + first.len());
            },
            None => {
                lemma_children_decode(data, bits, children, i + 1, off);
            },
        }
        let (cs, o) = children_at(data, bits, i, off).unwrap();
        assert forall|k: int| 0 <= k < 16 - i implies (children[i + k] is None ==> cs[k] is None) && (
            children[i + k] matches Some(c) ==> (cs[k] matches Some(h) && handle_matches(data, h, c))) by {
            if k > 0 {
                assert(children[i + k] == children[(i + 1) + (k - 1)]);
            }
        }
    }
}

/// A branch decodes to the plan of its parts: its value, if it has one, and
/// for each of its sixteen children present a plan that stands for it.
pub proof fn law_branch_node_roundtrip(children: Seq<Option<ChildReference>>, value: Option<Seq<u8>>)
    requires
        children.len() == 16,
        forall|j: int| 0 <= j < 16 ==> (#[trigger] children[j] matches Some(c) ==> child_fits(c)
            && child_decodable(c)),
        value matches Some(v) ==> v.len() <= u32::MAX,
        branch_node_bytes(children, value).len() <= usize::MAX,
    ensures
        ({
            let data = branch_node_bytes(children, value);
            decode_plan_spec(data) matches Ok(NodePlanSpec::Branch { value: v, children: cs })
                && cs.len() == 16
                && (value is None ==> v is None)
                && (value matches Some(x) ==> (v matches Some(ValuePlan::Inline(r)) && r.start <= r.end
                    <= data.len() && data.subrange(r.start as int, r.end as int) == x))
                && forall|i: int| 0 <= i < 16 ==> (children[i] is None ==> cs[i] is None)
                    && (children[i] matches Some(c) ==> (cs[i] matches Some(h) && handle_matches(data, h, c)))
        }),
{
    let data = branch_node_bytes(children, value);
    let bm = bitmap_of(presence(children));
    let vpart = match value {
        Some(v) => compact_u32(v.len() as u32) + v,
        None => Seq::<u8>::empty(),
    };
    let cb = children_bytes(children);
    let h = if value is Some {
        crate::triedbmut::BRANCH_NODE_WITH_VALUE
    } else {
        crate::triedbmut::BRANCH_NODE_NO_VALUE
    };
    assert(data =~= seq![h, (bm % 256) as u8, (bm / 256) as u8] + vpart + cb);
    assert(header_of_byte(data[0]) == NodeHeader::Branch(value is Some));
    assert((data[1] + 256 * data[2]) as u16 == bm);
    assert forall|j: u16| j < 16 implies bit_set(bm, j) == (#[trigger] children[j as int] is Some) by {
        law_bitmap_of(presence(children), j);
    }
    let off = 3 + vpart.len();
    if let Some(x) = value {
        assert(data.subrange(3, (3 + scale_bytes(x).len()) as int) =~= scale_bytes(x));
        lemma_string_at(data, 3, x);
    }
    assert(children.subrange(0, 16) =~= children);
    assert(data.subrange(off as int, (off + cb.len()) as int) =~= cb);
    lemma_children_decode(data, bm, children, 0, off);
}

/// Whether the range `r` lies within `len` bytes.
pub open spec fn range_within(r: core::ops::Range<usize>, len: nat) -> bool {
    r.start <= r.end <= len
}

/// Whether the range of a child plan lies within `len` bytes.
pub open spec fn handle_within(h: NodeHandlePlan, len: nat) -> bool {
    match h {
        NodeHandlePlan::Hash(r) => range_within(r, len),
        NodeHandlePlan::Inline(r) => range_within(r, len),
    }
}

/// Whether every range of the plan `p` lies within `len` bytes.
pub open spec fn plan_within(p: NodePlanSpec, len: nat) -> bool {
    match p {
        NodePlanSpec::Empty => true,
        NodePlanSpec::Leaf { partial, value: ValuePlan::Inline(r) } => range_within(partial.bytes, len)
            && range_within(r, len),
        NodePlanSpec::Extension { partial, child } => range_within(partial.bytes, len)
            && handle_within(child, len),
        NodePlanSpec::Branch { value, children } => (value matches Some(ValuePlan::Inline(r))
            ==> range_within(r, len)) && forall|i: int|
            0 <= i < children.len() ==> (#[trigger] children[i] matches Some(h) ==> handle_within(
                h,
                len,
            )),
    }
}

/// A string decoded at `off` lies within the data, and so does the offset
/// after it.
proof fn lemma_string_within(data: Seq<u8>, off: nat)
    requires
        data.len() <= usize::MAX,
    ensures
        string_at(data, off) matches Ok((r, o)) ==> range_within(r, data.len()) && o <= data.len()
            && r.start >= off,
        handle_at(data, off) matches Ok((h, o)) ==> handle_within(h, data.len()) && o <= data.len(),
{
}

/// The children decoded from `off` on lie within the data.
proof fn lemma_children_within(data: Seq<u8>, bits: u16, i: nat, off: nat)
    requires
        data.len() <= usize::MAX,
        i <= 16,
    ensures
        children_at(data, bits, i, off) matches Ok((cs, o)) ==> forall|k: int|
            0 <= k < cs.len() ==> (#[trigger] cs[k] matches Some(h) ==> handle_within(h, data.len())),
    decreases 16 - i,
{
    if i < 16 {
        if bit_set(bits, i as u16) {
            lemma_string_within(data, off);
            if let Ok((h, o)) = handle_at(data, off) {
                lemma_children_within(data, bits, i + 1, o);
            }
        } else {
            lemma_children_within(data, bits, i + 1, off);
        }
    }
}

/// Every range of a decoded node plan lies within the decoded bytes, so the
/// plan can be read against them.
pub proof fn law_decode_plan_within(data: Seq<u8>)
    requires
        data.len() <= usize::MAX,
    ensures
        decode_plan_spec(data) matches Ok(p) ==> plan_within(p, data.len()),
{
    if data.len() > 0 {
        match header_of_byte(data[0]) {
            NodeHeader::Branch(has_value) => {
                if data.len() >= 3 {
                    let bits = (data[1] + 256 * data[2]) as u16;
                    lemma_string_within(data, 3);
                    if has_value {
                        if let Ok((r, o)) = string_at(data, 3) {
                            lemma_children_within(data, bits, 0, o);
                        }
                    } else {
                        lemma_children_within(data, bits, 0, 3);
                    }
                }
            },
            NodeHeader::Extension(n) => {
                if let Ok((p, o)) = partial_at(data, 1, n as nat) {
                    lemma_string_within(data, o);
                }
            },
            NodeHeader::Leaf(n) => {
                if let Ok((p, o)) = partial_at(data, 1, n as nat) {
                    lemma_string_within(data, o);
                }
            },
            NodeHeader::Null => {},
        }
    }
}

/// A SCALE byte string cut short at `off`: decoding it there fails.
proof fn lemma_string_prefix(data: Seq<u8>, off: nat, payload: Seq<u8>)
    requires
        payload.len() <= u32::MAX,
        off <= data.len() < off + scale_bytes(payload).len(),
        data.skip(off as int) == scale_bytes(payload).take(data.len() - off),
    ensures
        string_at(data, off) is Err,
        handle_at(data, off) is Err,
{
    let cm = compact_u32(payload.len() as u32);
    let k = data.len() - off;
    let s = data.skip(off as int);
    lemma_compact_u32_roundtrip(payload.len() as u32, payload);
    if k > 0 {
        assert(s[0] == (cm + payload)[0]);
        if k >= cm.len() {
            let rest = payload.take(k - cm.len());
            assert(s =~= cm + rest);
            lemma_compact_u32_roundtrip(payload.len() as u32, rest);
        }
    }
}

/// Children cut short at `off`, from index `i` on: decoding them fails.
proof fn lemma_children_prefix(
    data: Seq<u8>,
    bits: u16,
    children: Seq<Option<ChildReference>>,
    i: nat,
    off: nat,
)
    requires
        children.len() == 16,
        i <= 16,
        data.len() <= usize::MAX,
        forall|j: int| 0 <= j < 16 ==> (#[trigger] children[j] matches Some(c) ==> child_fits(c)),
        forall|j: u16| j < 16 ==> bit_set(bits, j) == (#[trigger] children[j as int] is Some),
        off <= data.len() < off + children_bytes(children.subrange(i as int, 16)).len(),
        data.skip(off as int) == children_bytes(children.subrange(i as int, 16)).take(
            data.len() - off,
        ),
    ensures
        children_at(data, bits, i, off) is Err,
    decreases 16 - i,
{
    let s = children.subrange(i as int, 16);
    if i < 16 {
        lemma_children_bytes_first(s);
        assert(s.drop_first() =~= children.subrange((i + 1) as int, 16));
        assert(s[0] == children[i as int]);
        let first = match s[0] {
            Some(c) => child_bytes(c),
            None => Seq::<u8>::empty(),
        };
        let rest = children_bytes(children.subrange((i + 1) as int, 16));
        let k = data.len() - off;
        assert(bit_set(bits, i as u16) == children[i as int] is Some);
        match children[i as int] {
            Some(c) => {
                let p = child_payload(c);
                match c {
                    ChildReference::Hash(h) => assert(p.len() == 32),
                    ChildReference::Inline(d, len) => assert(p.len() == len),
                }
                assert(first == scale_bytes(p));
                if k < first.len() {
                    assert(data.skip(off as int) =~= first.take(k));
                    lemma_string_prefix(data, off, p);
                } else {
                    assert(data.subrange(off as int, (off + first.len()) as int) =~= first) by {
                        assert forall|t: int| 0 <= t < first.len() implies data.subrange(
                            off as int,
                            (off + first.len()) as int,
                        )[t] == first[t] by {
                            assert(data[off + t] == data.skip(off as int)[t]);
                        }
                    }
                    lemma_string_at(data, off, p);
                    let o = off + first.len();
                    assert(data.skip(o as int) =~= rest.take(data.len() - o)) by {
                        assert forall|t: int| 0 <= t < data.len() - o implies data.skip(o as int)[t]
                            == rest.take(data.len() - o)[t] by {
                            assert(data[o + t] == data.skip(off as int)[first.len() + t]);
                        }
                    }
                    lemma_children_prefix(data, bits, children, i + 1, o);
                }
            },
            None => {
                assert(first + rest =~= rest);
                lemma_children_prefix(data, bits, children, i + 1, off);
            },
        }
    } else {
        assert(s =~= Seq::<Option<ChildReference>>::empty());
    }
}

/// The bytes of `data` from `off` on, as a prefix of `whole` cut at `j`.
proof fn lemma_skip_take(whole: Seq<u8>, j: nat, off: nat)
    requires
        off <= j <= whole.len(),
    ensures
        whole.take(j as int).skip(off as int) == whole.skip(off as int).take(j - off),
{
    assert(whole.take(j as int).skip(off as int) =~= whole.skip(off as int).take(j - off));
}

/// A leaf cut short is rejected: no strict prefix of its encoding decodes.
pub proof fn law_leaf_node_prefix_rejected(partial: Seq<u8>, n: nat, value: Seq<u8>, j: nat)
    requires
        n < 127,
        partial.len() == (n + 1) / 2,
        value.len() <= u32::MAX,
        leaf_node_bytes(partial, n, value).len() <= usize::MAX,
        j < leaf_node_bytes(partial, n, value).len(),
    ensures
        decode_plan_spec(leaf_node_bytes(partial, n, value).take(j as int)) is Err,
{
    let data = leaf_node_bytes(partial, n, value);
    let d = data.take(j as int);
    let off = 1 + partial.len();
    assert(data =~= (seq![(1 + n) as u8] + partial) + scale_bytes(value));
    if j > 0 {
        assert(d[0] == (1 + n) as u8);
        assert(header_of_byte(d[0]) == NodeHeader::Leaf(n as usize));
        if j >= off {
            lemma_skip_take(data, j, off);
            assert(data.skip(off as int) =~= scale_bytes(value));
            lemma_string_prefix(d, off, value);
        }
    }
}

/// An extension cut short is rejected: no strict prefix of its encoding
/// decodes.
pub proof fn law_extension_node_prefix_rejected(
    partial: Seq<u8>,
    n: nat,
    child: ChildReference,
    j: nat,
)
    requires
        n < 126,
        partial.len() == (n + 1) / 2,
        child_fits(child),
        extension_node_bytes(partial, n, child).len() <= usize::MAX,
        j < extension_node_bytes(partial, n, child).len(),
    ensures
        decode_plan_spec(extension_node_bytes(partial, n, child).take(j as int)) is Err,
{
    let data = extension_node_bytes(partial, n, child);
    let d = data.take(j as int);
    let off = 1 + partial.len();
    let p = child_payload(child);
    match child {
        ChildReference::Hash(h) => assert(p.len() == 32),
        ChildReference::Inline(x, len) => assert(p.len() == len),
    }
    assert(child_bytes(child) == scale_bytes(p));
    assert(data =~= (seq![(128 + n) as u8] + partial) + scale_bytes(p));
    if j > 0 {
        assert(d[0] == (128 + n) as u8);
        assert(header_of_byte(d[0]) == NodeHeader::Extension(n as usize));
        if j >= off {
            lemma_skip_take(data, j, off);
            assert(data.skip(off as int) =~= scale_bytes(p));
            lemma_string_prefix(d, off, p);
        }
    }
}

/// A branch cut short is rejected: no strict prefix of its encoding
/// decodes.
#[verifier::spinoff_prover]
#[verifier::rlimit(50)]
pub proof fn law_branch_node_prefix_rejected(
    children: Seq<Option<ChildReference>>,
    value: Option<Seq<u8>>,
    j: nat,
)
    requires
        children.len() == 16,
        forall|i: int| 0 <= i < 16 ==> (#[trigger] children[i] matches Some(c) ==> child_fits(c)),
        value matches Some(v) ==> v.len() <= u32::MAX,
        branch_node_bytes(children, value).len() <= usize::MAX,
        j < branch_node_bytes(children, value).len(),
    ensures
        decode_plan_spec(branch_node_bytes(children, value).take(j as int)) is Err,
{
    let data = branch_node_bytes(children, value);
    let d = data.take(j as int);
    let bm = bitmap_of(presence(children));
    let vpart = match value {
        Some(v) => compact_u32(v.len() as u32) + v,
        None => Seq::<u8>::empty(),
    };
    let cb = children_bytes(children);
    let h = if value is Some {
        crate::triedbmut::BRANCH_NODE_WITH_VALUE
    } else {
        crate::triedbmut::BRANCH_NODE_NO_VALUE
    };
    assert(data =~= seq![h, (bm % 256) as u8, (bm / 256) as u8] + vpart + cb);
    if j >= 3 {
        assert(d[0] == h && d[1] == (bm % 256) as u8 && d[2] == (bm / 256) as u8);
        assert(header_of_byte(d[0]) == NodeHeader::Branch(value is Some));
        assert((d[1] + 256 * d[2]) as u16 == bm);
        assert forall|t: u16| t < 16 implies bit_set(bm, t) == (#[trigger] children[t as int] is Some) by {
            law_bitmap_of(presence(children), t);
        }
        let off = 3 + vpart.len();
        lemma_skip_take(data, j, 3);
        if let Some(x) = value {
            assert(data.skip(3) =~= scale_bytes(x) + cb);
            if j < off {
                assert(d.skip(3) =~= scale_bytes(x).take(j - 3));
                lemma_string_prefix(d, 3, x);
            } else {
                assert(d.subrange(3, (3 + scale_bytes(x).len()) as int) =~= scale_bytes(x));
                lemma_string_at(d, 3, x);
            }
        }
        if j >= off {
            lemma_skip_take(data, j, off);
            assert(children.subrange(0, 16) =~= children);
            assert(data.skip(off as int) =~= cb);
            lemma_children_prefix(d, bm, children, 0, off);
        }
    } else if j > 0 {
        assert(d[0] == h);
    }
}

/// The parts that a node is encoded from.
pub enum NodeParts {
    Empty,
    Leaf { partial: Seq<u8>, nibbles: nat, value: Seq<u8> },
    Extension { partial: Seq<u8>, nibbles: nat, child: ChildReference },
    Branch { children: Seq<Option<ChildReference>>, value: Option<Seq<u8>> },
}

/// The encoding of a node made of `parts`.
pub open spec fn node_bytes(parts: NodeParts) -> Seq<u8> {
    match parts {
        NodeParts::Empty => seq![EMPTY_TRIE],
        NodeParts::Leaf { partial, nibbles, value } => leaf_node_bytes(partial, nibbles, value),
        NodeParts::Extension { partial, nibbles, child } => extension_node_bytes(
            partial,
            nibbles,
            child,
        ),
        NodeParts::Branch { children, value } => branch_node_bytes(children, value),
    }
}

/// Whether `parts` meet what the encoder of their node asks, with every
/// length shorter than 2^32 bytes and the encoding within a `usize`.
pub open spec fn node_parts_valid(parts: NodeParts) -> bool {
    &&& node_bytes(parts).len() <= usize::MAX
    &&& match parts {
        NodeParts::Empty => true,
        NodeParts::Leaf { partial, nibbles, value } => nibbles < 127 && partial.len() == (nibbles
            + 1) / 2 && value.len() <= u32::MAX,
        NodeParts::Extension { partial, nibbles, child } => nibbles < 126 && partial.len() == (
        nibbles + 1) / 2 && child_fits(child),
        NodeParts::Branch { children, value } => children.len() == 16 && (forall|i: int|
            0 <= i < 16 ==> (#[trigger] children[i] matches Some(c) ==> child_fits(c))) && (
        value matches Some(v) ==> v.len() <= u32::MAX),
    }
}

/// No strict prefix of the encoding of any node decodes: a node cut short
/// is rejected, whether it is the empty node, a leaf, an extension or a
/// branch.
pub proof fn law_node_prefix_rejected(parts: NodeParts, j: nat)
    requires
        node_parts_valid(parts),
        j < node_bytes(parts).len(),
    ensures
        decode_plan_spec(node_bytes(parts).take(j as int)) is Err,
{
    match parts {
        NodeParts::Empty => {
            assert(node_bytes(parts).take(j as int).len() == 0);
        },
        NodeParts::Leaf { partial, nibbles, value } => {
            law_leaf_node_prefix_rejected(partial, nibbles, value, j);
        },
        NodeParts::Extension { partial, nibbles, child } => {
            law_extension_node_prefix_rejected(partial, nibbles, child, j);
        },
        NodeParts::Branch { children, value } => {
            law_branch_node_prefix_rejected(children, value, j);
        },
    }
}

} // verus!
