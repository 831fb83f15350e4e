use trie::triedbmut::{
    branch_node_buffered, partial_from_iterator_to_key, Bitmap, ByteSliceInput, ChildReference,
    CodecError, ExtensionLayout, NodeHandlePlan, NodeHeader, NodePlan, ReferenceNodeCodec,
    ValuePlan, BRANCH_NODE_NO_VALUE, BRANCH_NODE_WITH_VALUE, EMPTY_TRIE,
};

fn hex(bytes: &[u8]) -> String {
    let mut out = String::new();
    for b in bytes {
        out.push_str(&format!("{:02x}", b));
    }
    out
}

fn sixteen_children() -> Vec<Option<ChildReference>> {
    let mut children: Vec<Option<ChildReference>> = Vec::new();
    for _ in 0..16 {
        children.push(None);
    }
    children
}

#[test]
fn empty_node_and_its_hash() {
    assert_eq!(ReferenceNodeCodec::empty_node(), &[EMPTY_TRIE][..]);
    assert!(ReferenceNodeCodec::is_empty_node(&[0]));
    assert!(!ReferenceNodeCodec::is_empty_node(&[0, 0]));
    assert!(!ReferenceNodeCodec::is_empty_node(&[]));
    assert_eq!(
        hex(&ReferenceNodeCodec::hashed_null_node()),
        "bc36789e7a1e281436464229828f817d6612f7b477d66591ff96a9e064bcc98a"
    );
}

#[test]
fn empty_node_decodes_to_empty_plan() {
    assert!(matches!(ReferenceNodeCodec::decode_plan(ReferenceNodeCodec::empty_node()), Ok(NodePlan::Empty)));
}

#[test]
fn layout_constants() {
    assert!(ExtensionLayout::USE_EXTENSION);
    assert!(!ExtensionLayout::ALLOW_EMPTY);
    assert_eq!(ExtensionLayout::MAX_INLINE_VALUE, None);
}

#[test]
fn partial_key_behind_header() {
    assert_eq!(partial_from_iterator_to_key(&[0x12], 2, 1, 127), vec![3, 0x12]);
    assert_eq!(partial_from_iterator_to_key(&[0x0a, 0xbc], 3, 128, 126), vec![131, 0x0a, 0xbc]);
}

#[test]
fn leaf_node_bytes() {
    assert_eq!(ReferenceNodeCodec::leaf_node(&[0x12], 2, b"abc"), vec![3, 0x12, 12, 97, 98, 99]);
}

#[test]
fn leaf_value_length_two_byte_compact() {
    let value = vec![7u8; 64];
    let node = ReferenceNodeCodec::leaf_node(&[0x01], 1, &value);
    assert_eq!(&node[..4], &[2, 0x01, 0x01, 0x01]);
    assert_eq!(node.len(), 4 + 64);
}

#[test]
fn leaf_value_length_four_byte_compact() {
    let value = vec![1u8; 16384];
    let node = ReferenceNodeCodec::leaf_node(&[], 0, &value);
    assert_eq!(&node[..5], &[1, 0x02, 0x00, 0x01, 0x00]);
    match ReferenceNodeCodec::decode_plan(&node) {
        Ok(NodePlan::Leaf { partial, value: ValuePlan::Inline(r) }) => {
            assert_eq!(partial.bytes, 1..1);
            assert_eq!(r, 5..5 + 16384);
        },
        _ => panic!("not a leaf"),
    }
}

#[test]
fn leaf_node_roundtrip() {
    let node = ReferenceNodeCodec::leaf_node(&[0x12], 2, b"abc");
    match ReferenceNodeCodec::decode_plan(&node) {
        Ok(NodePlan::Leaf { partial, value: ValuePlan::Inline(r) }) => {
            assert_eq!(partial.bytes, 1..2);
            assert_eq!(partial.offset, 0);
            assert_eq!(&node[r], b"abc");
        },
        _ => panic!("not a leaf"),
    }
}

#[test]
fn odd_leaf_has_padding() {
    let node = ReferenceNodeCodec::leaf_node(&[0x01, 0x23], 3, b"");
    assert_eq!(node, vec![4, 0x01, 0x23, 0]);
    match ReferenceNodeCodec::decode_plan(&node) {
        Ok(NodePlan::Leaf { partial, value: ValuePlan::Inline(r) }) => {
            assert_eq!(partial.bytes, 1..3);
            assert_eq!(partial.offset, 1);
            assert_eq!(r, 4..4);
        },
        _ => panic!("not a leaf"),
    }
}

#[test]
fn extension_with_hash_child() {
    let node = ReferenceNodeCodec::extension_node(&[0xab], 2, &ChildReference::Hash([7u8; 32]));
    assert_eq!(node.len(), 35);
    assert_eq!(&node[..3], &[130, 0xab, 128]);
    assert!(node[3..].iter().all(|b| *b == 7));
    match ReferenceNodeCodec::decode_plan(&node) {
        Ok(NodePlan::Extension { partial, child: NodeHandlePlan::Hash(r) }) => {
            assert_eq!(partial.bytes, 1..2);
            assert_eq!(partial.offset, 0);
            assert_eq!(r, 3..35);
        },
        _ => panic!("not an extension with a hash"),
    }
}

#[test]
fn extension_with_inline_child() {
    let mut data = [0u8; 32];
    data[0] = 1;
    data[1] = 2;
    data[2] = 3;
    let node = ReferenceNodeCodec::extension_node(&[], 0, &ChildReference::Inline(data, 3));
    assert_eq!(node, vec![128, 12, 1, 2, 3]);
    match ReferenceNodeCodec::decode_plan(&node) {
        Ok(NodePlan::Extension { partial, child: NodeHandlePlan::Inline(r) }) => {
            assert_eq!(partial.bytes, 1..1);
            assert_eq!(r, 2..5);
        },
        _ => panic!("not an extension with an inline child"),
    }
}

#[test]
fn branch_without_value_or_children() {
    let node = ReferenceNodeCodec::branch_node(&sixteen_children(), None);
    assert_eq!(node, vec![BRANCH_NODE_NO_VALUE, 0, 0]);
    match ReferenceNodeCodec::decode_plan(&node) {
        Ok(NodePlan::Branch { value: None, children }) => {
            assert!(children.iter().all(|c| c.is_none()));
        },
        _ => panic!("not a branch"),
    }
}

#[test]
fn branch_with_value_and_children() {
    let mut children = sixteen_children();
    children[0] = Some(ChildReference::Inline([9u8; 32], 2));
    children[15] = Some(ChildReference::Hash([5u8; 32]));
    let node = ReferenceNodeCodec::branch_node(&children, Some(b"v"));
    assert_eq!(&node[..9], &[BRANCH_NODE_WITH_VALUE, 0x01, 0x80, 4, b'v', 8, 9, 9, 128]);
    assert_eq!(node.len(), 41);
    match ReferenceNodeCodec::decode_plan(&node) {
        Ok(NodePlan::Branch { value: Some(ValuePlan::Inline(v)), children }) => {
            assert_eq!(v, 4..5);
            assert!(matches!(&children[0], Some(NodeHandlePlan::Inline(r)) if *r == (6..8)));
            assert!(matches!(&children[15], Some(NodeHandlePlan::Hash(r)) if *r == (9..41)));
            for i in 1..15 {
                assert!(children[i].is_none());
            }
        },
        _ => panic!("not a branch with a value"),
    }
}

#[test]
fn decode_plan_errors() {
    assert!(matches!(ReferenceNodeCodec::decode_plan(&[]), Err(CodecError::OutOfData)));
    assert!(matches!(ReferenceNodeCodec::decode_plan(&[3]), Err(CodecError::OutOfData)));
    assert!(matches!(ReferenceNodeCodec::decode_plan(&[3, 0x12]), Err(CodecError::OutOfData)));
    assert!(matches!(ReferenceNodeCodec::decode_plan(&[3, 0x12, 0x05]), Err(CodecError::OutOfData)));
    assert!(matches!(ReferenceNodeCodec::decode_plan(&[3, 0x12, 0x07]), Err(CodecError::InvalidCompact)));
    assert!(matches!(
        ReferenceNodeCodec::decode_plan(&[3, 0x12, 0x01, 0x00]),
        Err(CodecError::InvalidCompact)
    ));
    assert!(matches!(ReferenceNodeCodec::decode_plan(&[3, 0x12, 12, 97]), Err(CodecError::OutOfData)));
    assert!(matches!(ReferenceNodeCodec::decode_plan(&[254, 0]), Err(CodecError::OutOfData)));
    assert!(matches!(ReferenceNodeCodec::decode_plan(&[254, 1, 0]), Err(CodecError::OutOfData)));
    assert!(matches!(ReferenceNodeCodec::decode_plan(&[254, 1, 0, 8, 1]), Err(CodecError::OutOfData)));
}

#[test]
fn bitmap_decode_and_lookup() {
    let bitmap = Bitmap::decode(&[0x05, 0x80]).unwrap();
    assert!(bitmap.value_at(0));
    assert!(!bitmap.value_at(1));
    assert!(bitmap.value_at(2));
    assert!(bitmap.value_at(15));
    assert!(!bitmap.value_at(14));
    assert!(matches!(Bitmap::decode(&[1]), Err(CodecError::OutOfData)));
}

#[test]
fn bitmap_encode() {
    let mut dest = [0u8; 2];
    Bitmap::encode(&[true, false, true], &mut dest);
    assert_eq!(dest, [5, 0]);
    let mut dest = [9u8; 3];
    Bitmap::encode(&[true; 17], &mut dest);
    assert_eq!(dest, [255, 255, 9]);
}

#[test]
fn bitmap_encode_then_decode() {
    let flags = [false, true, false, false, false, false, false, false, true, false, false, false, false, false, false, true];
    let mut dest = [0u8; 2];
    Bitmap::encode(&flags, &mut dest);
    let bitmap = Bitmap::decode(&dest).unwrap();
    for i in 0..16 {
        assert_eq!(bitmap.value_at(i), flags[i]);
    }
}

#[test]
fn branch_header_buffered() {
    let mut out = [0u8; 4];
    branch_node_buffered(true, &[false, true], &mut out);
    assert_eq!(out, [255, 2, 0, 0]);
    branch_node_buffered(false, &[], &mut out);
    assert_eq!(out, [254, 0, 0, 0]);
}

#[test]
fn node_header_bytes() {
    let mut out: Vec<u8> = Vec::new();
    NodeHeader::Null.encode_to(&mut out);
    NodeHeader::Branch(true).encode_to(&mut out);
    NodeHeader::Branch(false).encode_to(&mut out);
    NodeHeader::Leaf(5).encode_to(&mut out);
    NodeHeader::Extension(3).encode_to(&mut out);
    assert_eq!(out, vec![0, 255, 254, 6, 131]);
}

#[test]
fn node_header_roundtrip() {
    let headers = [
        NodeHeader::Null,
        NodeHeader::Branch(true),
        NodeHeader::Branch(false),
        NodeHeader::Leaf(0),
        NodeHeader::Leaf(126),
        NodeHeader::Extension(0),
        NodeHeader::Extension(125),
    ];
    for h in headers.iter() {
        let mut out: Vec<u8> = Vec::new();
        h.encode_to(&mut out);
        let mut input = ByteSliceInput::new(&out);
        assert_eq!(NodeHeader::decode(&mut input), Ok(*h));
    }
    let mut input = ByteSliceInput::new(&[]);
    assert_eq!(NodeHeader::decode(&mut input), Err(CodecError::OutOfData));
}

#[test]
fn byte_slice_input_reads() {
    let data = [1u8, 2, 3, 4];
    let mut input = ByteSliceInput::new(&data);
    assert_eq!(input.take(2), Ok(0..2));
    assert_eq!(input.remaining_len(), Ok(Some(2)));
    assert_eq!(input.read_byte(), Ok(3));
    let mut two = [0u8; 2];
    assert_eq!(input.read(&mut two), Err(CodecError::OutOfData));
    assert_eq!(two, [0, 0]);
    let mut one = [0u8; 1];
    assert_eq!(input.read(&mut one), Ok(()));
    assert_eq!(one, [4]);
    assert_eq!(input.read_byte(), Err(CodecError::OutOfData));
    assert_eq!(input.take(1), Err(CodecError::OutOfData));
    assert_eq!(input.remaining_len(), Ok(Some(0)));
}

#[test]
fn byte_slice_input_compact() {
    let mut input = ByteSliceInput::new(&[0x01, 0x01, 0xfc]);
    assert_eq!(input.decode_compact_u32(), Ok(64));
    assert_eq!(input.decode_compact_u32(), Ok(63));
    assert_eq!(input.decode_compact_u32(), Err(CodecError::OutOfData));
    let mut input = ByteSliceInput::new(&[0x03, 0x00, 0x00, 0x00, 0x40]);
    assert_eq!(input.decode_compact_u32(), Ok(1073741824));
    assert_eq!(input.remaining_len(), Ok(Some(0)));
    let mut input = ByteSliceInput::new(&[0x03, 0xff, 0xff, 0xff, 0x3f]);
    assert_eq!(input.decode_compact_u32(), Err(CodecError::InvalidCompact));
    assert_eq!(input.remaining_len(), Ok(Some(5)));
}

#[test]
fn strict_prefixes_are_rejected() {
    let mut children: Vec<Option<ChildReference>> = Vec::new();
    for _ in 0..16 {
        children.push(None);
    }
    children[3] = Some(ChildReference::Inline([4u8; 32], 5));
    children[9] = Some(ChildReference::Hash([6u8; 32]));
    let nodes = vec![
        ReferenceNodeCodec::empty_node().to_vec(),
        ReferenceNodeCodec::leaf_node(&[0x01, 0x23], 3, b"value"),
        ReferenceNodeCodec::extension_node(&[0xab], 2, &ChildReference::Hash([7u8; 32])),
        ReferenceNodeCodec::branch_node(&children, Some(b"v")),
        ReferenceNodeCodec::branch_node(&children, None),
    ];
    for node in nodes.iter() {
        assert!(ReferenceNodeCodec::decode_plan(node).is_ok());
        for j in 0..node.len() {
            assert!(ReferenceNodeCodec::decode_plan(&node[..j]).is_err());
        }
    }
}

#[test]
fn input_position_counts_bytes_handed_out() {
    let data = [1u8, 2, 3, 4, 5, 6];
    let mut input = ByteSliceInput::new(&data);
    let mut handed = 0usize;
    if let Ok(r) = input.take(2) {
        handed += r.end - r.start;
    }
    let mut buf = [0u8; 3];
    if input.read(&mut buf).is_ok() {
        handed += buf.len();
    }
    let mut too_long = [0u8; 2];
    assert!(input.read(&mut too_long).is_err());
    if input.read_byte().is_ok() {
        handed += 1;
    }
    assert!(input.read_byte().is_err());
    assert!(input.take(1).is_err());
    assert_eq!(handed, 6);
    assert_eq!(input.remaining_len(), Ok(Some(data.len() - handed)));
}

#[test]
fn declared_lengths_fit() {
    assert!(ReferenceNodeCodec::lengths_fit(&[]));
    assert!(ReferenceNodeCodec::lengths_fit(ReferenceNodeCodec::empty_node()));
    assert!(ReferenceNodeCodec::lengths_fit(&ReferenceNodeCodec::leaf_node(&[0x12], 2, b"abc")));
    assert!(ReferenceNodeCodec::lengths_fit(&[3, 0x12, 0x03, 0xff, 0xff, 0xff, 0xff]));
    let mut children: Vec<Option<ChildReference>> = Vec::new();
    for _ in 0..16 {
        children.push(None);
    }
    children[2] = Some(ChildReference::Hash([1u8; 32]));
    assert!(ReferenceNodeCodec::lengths_fit(&ReferenceNodeCodec::branch_node(&children, Some(b"x"))));
}
