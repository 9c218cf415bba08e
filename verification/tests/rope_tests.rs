use rope::rope::Rope;

fn hello_world() -> Rope {
    let left = Rope::new_leaf(b"Hello, ".to_vec());
    let right = Rope::new_leaf(b"World!".to_vec());
    left.concatenate_ropes(right)
}

#[test]
fn leaf_length_is_byte_length() {
    let leaf = Rope::new_leaf(b"Hello, ".to_vec());
    assert_eq!(leaf.node_length(), 7);
}

#[test]
fn empty_leaf_is_legal() {
    let leaf = Rope::new_leaf(Vec::new());
    assert_eq!(leaf.node_length(), 0);
    assert_eq!(leaf.get_a_substring(0, 10), Vec::<u8>::new());
}

#[test]
fn concatenation_length_is_additive() {
    let rope = hello_world();
    assert_eq!(rope.node_length(), 13);
}

#[test]
fn concatenation_of_empty_leaves_is_legal() {
    let rope = Rope::new_leaf(Vec::new()).concatenate_ropes(Rope::new_leaf(Vec::new()));
    assert_eq!(rope.node_length(), 0);
}

#[test]
fn substring_of_prefix() {
    let rope = hello_world();
    assert_eq!(rope.get_a_substring(0, 5), b"Hello".to_vec());
}

#[test]
fn substring_straddles_the_node_boundary() {
    let rope = hello_world();
    assert_eq!(rope.get_a_substring(5, 9), b", Wo".to_vec());
}

#[test]
fn full_round_trip_reconstructs_content() {
    let rope = hello_world();
    let len = rope.node_length();
    assert_eq!(rope.get_a_substring(0, len), b"Hello, World!".to_vec());
}

#[test]
fn full_round_trip_on_a_deeper_tree() {
    let ab = Rope::new_leaf(b"ab".to_vec()).concatenate_ropes(Rope::new_leaf(b"cde".to_vec()));
    let fg = Rope::new_leaf(b"fg".to_vec()).concatenate_ropes(Rope::new_leaf(b"h".to_vec()));
    let rope = ab.concatenate_ropes(fg);
    let len = rope.node_length();
    assert_eq!(len, 8);
    assert_eq!(rope.get_a_substring(0, len), b"abcdefgh".to_vec());
    assert_eq!(rope.get_a_substring(1, 7), b"bcdefg".to_vec());
}

#[test]
fn split_in_the_middle() {
    let rope = hello_world();
    let (left, right) = rope.split_rope(3);
    let left_len = left.node_length();
    let right_len = right.node_length();
    assert_eq!(left.get_a_substring(0, left_len), b"Hel".to_vec());
    assert_eq!(right.get_a_substring(0, right_len), b"lo, World!".to_vec());
}

#[test]
fn split_parts_reconstruct_the_original() {
    let rope = hello_world();
    let (left, right) = rope.split_rope(7);
    let left_len = left.node_length();
    let right_len = right.node_length();
    let mut rebuilt = left.get_a_substring(0, left_len);
    rebuilt.extend(right.get_a_substring(0, right_len));
    assert_eq!(rebuilt, b"Hello, World!".to_vec());
}

#[test]
fn split_at_zero_yields_empty_left() {
    let rope = hello_world();
    let (left, right) = rope.split_rope(0);
    let right_len = right.node_length();
    assert_eq!(left.node_length(), 0);
    assert_eq!(right.get_a_substring(0, right_len), b"Hello, World!".to_vec());
}

#[test]
fn split_at_total_length_yields_empty_right() {
    let rope = hello_world();
    let (left, right) = rope.split_rope(13);
    let left_len = left.node_length();
    assert_eq!(left.get_a_substring(0, left_len), b"Hello, World!".to_vec());
    assert_eq!(right.node_length(), 0);
}

#[test]
fn split_on_a_bare_leaf() {
    let leaf = Rope::new_leaf(b"abcdef".to_vec());
    let (left, right) = leaf.split_rope(4);
    assert_eq!(left.node_length(), 4);
    assert_eq!(right.node_length(), 2);
    assert_eq!(left.get_a_substring(0, 4), b"abcd".to_vec());
    assert_eq!(right.get_a_substring(0, 2), b"ef".to_vec());
}

#[test]
fn substring_past_the_end_is_empty() {
    let rope = hello_world();
    assert_eq!(rope.get_a_substring(20, 30), Vec::<u8>::new());
}

#[test]
fn substring_clamps_a_long_end() {
    let rope = hello_world();
    assert_eq!(rope.get_a_substring(2, 100), rope.get_a_substring(2, 13));
    assert_eq!(rope.get_a_substring(2, 100), b"llo, World!".to_vec());
}

#[test]
fn substring_with_inverted_bounds_is_empty() {
    let rope = hello_world();
    assert_eq!(rope.get_a_substring(5, 2), Vec::<u8>::new());
    assert_eq!(rope.get_a_substring(4, 4), Vec::<u8>::new());
}

#[test]
fn collect_substring_appends_to_the_accumulator() {
    let rope = hello_world();
    let mut out = b"<<".to_vec();
    rope.collect_substring(7, 12, &mut out);
    assert_eq!(out, b"<<World".to_vec());
}

#[test]
fn new_node_caches_the_left_length_as_weight() {
    let rope = hello_world();
    match &rope {
        Rope::Node { weight, left, right: _ } => {
            assert_eq!(*weight, left.node_length());
            assert_eq!(*weight, 7);
        }
        Rope::Leaf(_) => panic!("concatenation must build an interior node"),
    }
}

fn check_weights(rope: &Rope) {
    match rope {
        Rope::Leaf(_) => {}
        Rope::Node { weight, left, right } => {
            assert_eq!(*weight, left.node_length());
            check_weights(left);
            check_weights(right);
        }
    }
}

#[test]
fn every_node_of_a_split_result_keeps_the_weight_invariant() {
    let ab = Rope::new_leaf(b"ab".to_vec()).concatenate_ropes(Rope::new_leaf(b"cde".to_vec()));
    let fg = Rope::new_leaf(b"fg".to_vec()).concatenate_ropes(Rope::new_leaf(b"h".to_vec()));
    let rope = ab.concatenate_ropes(fg);
    check_weights(&rope);
    let (left, right) = rope.split_rope(4);
    check_weights(&left);
    check_weights(&right);
}
