//! A rope: a persistent binary tree over byte text.
//!
//! A rope is either a leaf holding a contiguous run of bytes, or an interior
//! node holding a weight (the total length of its left subtree, fixed at
//! construction) and two owned children. Splitting, concatenation and
//! substring extraction descend the tree by offset and run in time
//! proportional to its depth, never copying the untouched parts.
//!
//! All indices are raw byte offsets into the stored data; the structure is
//! deliberately encoding-agnostic. Splitting demands an offset within the
//! content; substring extraction instead clamps its bounds and never fails.
//! No rebalancing is performed: repeated concatenation may build a
//! degenerate, linearly deep tree, which stays correct but costs more.

use vstd::prelude::*;

verus! {

/// The bytes of `s` in the range `[start, end)`, with both bounds clamped:
/// an `end` past the length reads to the length, and an empty or inverted
/// range reads nothing. Extraction never fails.
pub open spec fn clamp_range(s: Seq<u8>, start: int, end: int) -> Seq<u8> {
    let hi = if end > s.len() { s.len() as int } else { end };
    if start < 0 || start >= hi {
        Seq::empty()
    } else {
        s.subrange(start, hi)
    }
}

/// Reading a clamped range out of a concatenation is reading the part of the
/// range that falls in the left half, then the part that falls in the right
/// half, each clamped to its own half.
proof fn lemma_clamp_range_split(a: Seq<u8>, b: Seq<u8>, start: int, end: int)
    requires
        0 <= start,
    ensures
        clamp_range(a + b, start, end) == clamp_range(
            a,
            start,
            if end > a.len() { a.len() as int } else { end },
        ) + clamp_range(
            b,
            if start > a.len() { start - a.len() } else { 0 },
            end - a.len(),
        ),
{
    let left_part = clamp_range(a, start, if end > a.len() { a.len() as int } else { end });
    let right_part = clamp_range(
        b,
        if start > a.len() { start - a.len() } else { 0 },
        end - a.len(),
    );
    assert(clamp_range(a + b, start, end) =~= left_part + right_part);
}

/// A node of the rope. Each value is either a `Leaf` owning a run of bytes,
/// or an interior `Node` owning two children and caching, as `weight`, the
/// total byte length of the left child at the time the node was built.
#[derive(Debug)]
pub enum Rope {
    Leaf(Vec<u8>),
    Node { weight: usize, left: Box<Rope>, right: Box<Rope> },
}

impl Rope {
    /// The byte sequence the rope represents: a leaf's own bytes, or the
    /// left child's content followed by the right child's.
    pub open spec fn content(self) -> Seq<u8>
        decreases self,
    {
        match self {
            Rope::Leaf(data) => data@,
            Rope::Node { weight: _, left, right } => left.content() + right.content(),
        }
    }

    /// The total byte length of the rope's content.
    pub open spec fn total_len(self) -> nat {
        self.content().len()
    }

    /// Well-formedness: every interior node's weight equals the total length
    /// of its left subtree, and every subtree's content fits in a `usize`.
    pub open spec fn well_formed(self) -> bool
        decreases self,
    {
        match self {
            Rope::Leaf(_) => true,
            Rope::Node { weight, left, right } => {
                &&& left.well_formed()
                &&& right.well_formed()
                &&& weight == left.content().len()
                &&& left.content().len() + right.content().len() <= usize::MAX
            }
        }
    }

    /// Wraps an owned run of bytes as a leaf. Always succeeds.
    pub fn new_leaf(data: Vec<u8>) -> (r: Rope)
        ensures
            r.well_formed(),
            r.content() == data@,
            r == Rope::Leaf(data),
    {
        Rope::Leaf(data)
    }

    /// The total byte length of the rope's content: a leaf's byte count, or
    /// the cached weight plus the length of the right subtree.
    pub fn node_length(&self) -> (n: usize)
        requires
            self.well_formed(),
        ensures
            n == self.total_len(),
        decreases self,
    {
        match self {
            Rope::Leaf(data) => data.len(),
            Rope::Node { weight, left: _, right } => *weight + right.node_length(),
        }
    }

    /// Builds an interior node over two ropes, caching the left operand's
    /// total length as the new node's weight. The operands are consumed.
    pub fn new_node(left: Rope, right: Rope) -> (r: Rope)
        requires
            left.well_formed(),
            right.well_formed(),
            left.total_len() + right.total_len() <= usize::MAX,
        ensures
            r.well_formed(),
            r.content() == left.content() + right.content(),
            r matches Rope::Node { weight, left: node_left, right: node_right } && {
                &&& weight == left.total_len()
                &&& *node_left == left
                &&& *node_right == right
            },
    {
        let weight = left.node_length();
        Rope::Node { weight, left: Box::new(left), right: Box::new(right) }
    }

    /// Joins two ropes: the receiver becomes the left child and the argument
    /// the right child of a fresh interior node, whose weight is the
    /// receiver's total length.
    pub fn concatenate_ropes(self, rope_to_concat: Rope) -> (r: Rope)
        requires
            self.well_formed(),
            rope_to_concat.well_formed(),
            self.total_len() + rope_to_concat.total_len() <= usize::MAX,
        ensures
            r.well_formed(),
            r.content() == self.content() + rope_to_concat.content(),
            r matches Rope::Node { weight, left: node_left, right: node_right } && {
                &&& weight == self.total_len()
                &&& *node_left == self
                &&& *node_right == rope_to_concat
            },
    {
        Rope::new_node(self, rope_to_concat)
    }

    /// Splits the rope at a byte offset, consuming it and returning the pair
    /// of ropes holding the bytes before and from that offset. Whichever
    /// child contains the cut point is split recursively; its untouched
    /// sibling is reattached to the matching half unchanged.
    pub fn split_rope(self, index: usize) -> (parts: (Rope, Rope))
        requires
            self.well_formed(),
            index <= self.total_len(),
        ensures
            parts.0.well_formed(),
            parts.1.well_formed(),
            parts.0.content() == self.content().subrange(0, index as int),
            parts.1.content() == self.content().subrange(
                index as int,
                self.total_len() as int,
            ),
        decreases self,
    {
        let ghost orig = self;
        match self {
            Rope::Leaf(data) => {
                let mut left_data = data;
                let right_data = left_data.split_off(index);
                (Rope::Leaf(left_data), Rope::Leaf(right_data))
            }
            Rope::Node { weight, left, right } => {
                if index < weight {
                    let (cut_left, cut_right) = (*left).split_rope(index);
                    let rejoined = Rope::new_node(cut_right, *right);
                    proof {
                        assert(rejoined.content() =~= orig.content().subrange(
                            index as int,
                            orig.total_len() as int,
                        ));
                        assert(cut_left.content() =~= orig.content().subrange(0, index as int));
                    }
                    (cut_left, rejoined)
                } else {
                    let (cut_left, cut_right) = (*right).split_rope(index - weight);
                    let joined = Rope::new_node(*left, cut_left);
                    proof {
                        assert(joined.content() =~= orig.content().subrange(0, index as int));
                        assert(cut_right.content() =~= orig.content().subrange(
                            index as int,
                            orig.total_len() as int,
                        ));
                    }
                    (joined, cut_right)
                }
            }
        }
    }

    /// Appends the bytes of this rope in the clamped range `[start, end)` to
    /// the accumulator, in content order. An interior node forwards the range
    /// to whichever children it overlaps, shifted past the left subtree's
    /// weight for the right child.
    pub fn collect_substring(&self, start: usize, end: usize, result: &mut Vec<u8>)
        requires
            self.well_formed(),
        ensures
            final(result)@ == old(result)@ + clamp_range(
                self.content(),
                start as int,
                end as int,
            ),
        decreases self,
    {
        match self {
            Rope::Leaf(data) => {
                let hi = if end > data.len() { data.len() } else { end };
                if start < hi {
                    let ghost entry = result@;
                    let mut i: usize = start;
                    while i < hi
                        invariant
                            start <= i <= hi,
                            hi <= data@.len(),
                            result@ == entry + data@.subrange(start as int, i as int),
                        decreases hi - i,
                    {
                        result.push(data[i]);
                        proof {
                            assert(result@ =~= entry + data@.subrange(
                                start as int,
                                i + 1 as int,
                            ));
                        }
                        i = i + 1;
                    }
                } else {
                    proof {
                        assert(result@ =~= result@ + clamp_range(
                            data@,
                            start as int,
                            end as int,
                        ));
                    }
                }
            }
            Rope::Node { weight, left, right } => {
                let ghost entry = result@;
                let ghost left_bytes = left.content();
                let ghost right_bytes = right.content();
                let end_left = if end > *weight { *weight } else { end };
                if start < *weight {
                    left.collect_substring(start, end_left, result);
                } else {
                    proof {
                        assert(clamp_range(left_bytes, start as int, end_left as int)
                            =~= Seq::<u8>::empty());
                    }
                }
                if end > *weight {
                    let start_right = if start > *weight { start - *weight } else { 0 };
                    right.collect_substring(start_right, end - *weight, result);
                } else {
                    proof {
                        assert(clamp_range(
                            right_bytes,
                            if start > left_bytes.len() { start - left_bytes.len() } else { 0 },
                            end - left_bytes.len(),
                        ) =~= Seq::<u8>::empty());
                    }
                }
                proof {
                    lemma_clamp_range_split(left_bytes, right_bytes, start as int, end as int);
                    assert(result@ =~= entry + clamp_range(
                        self.content(),
                        start as int,
                        end as int,
                    ));
                }
            }
        }
    }

    /// The bytes of this rope in the clamped range `[start, end)`, as a
    /// fresh vector. Out-of-range or inverted bounds yield a truncated or
    /// empty result, never an error.
    pub fn get_a_substring(&self, start: usize, end: usize) -> (result: Vec<u8>)
        requires
            self.well_formed(),
        ensures
            result@ == clamp_range(self.content(), start as int, end as int),
    {
        let mut result: Vec<u8> = Vec::new();
        self.collect_substring(start, end, &mut result);
        proof {
            assert(result@ =~= clamp_range(self.content(), start as int, end as int));
        }
        result
    }
}

/// Length additivity: a rope whose content is one rope's content followed by
/// another's — as `concatenate_ropes` and `new_node` ensure of their result —
/// is as long as the two together.
pub proof fn lemma_length_additivity(joined: Rope, left: Rope, right: Rope)
    requires
        joined.content() == left.content() + right.content(),
    ensures
        joined.total_len() == left.total_len() + right.total_len(),
{
}

/// Full round trip: extracting the clamped range `[0, total_len)` — what
/// `get_a_substring(0, total_len)` returns — reproduces the rope's entire
/// content exactly.
pub proof fn lemma_full_round_trip(r: Rope)
    ensures
        clamp_range(r.content(), 0, r.total_len() as int) == r.content(),
{
    assert(clamp_range(r.content(), 0, r.total_len() as int) =~= r.content());
}

/// Split then reconstruct: the two parts that `split_rope` returns for any
/// valid index, each read out in full by `get_a_substring`, concatenate to
/// the original rope's content.
pub proof fn lemma_split_concatenate_inverse(r: Rope, i: int, left: Rope, right: Rope)
    requires
        0 <= i <= r.total_len(),
        left.content() == r.content().subrange(0, i),
        right.content() == r.content().subrange(i, r.total_len() as int),
    ensures
        clamp_range(left.content(), 0, left.total_len() as int) + clamp_range(
            right.content(),
            0,
            right.total_len() as int,
        ) == r.content(),
{
    lemma_full_round_trip(left);
    lemma_full_round_trip(right);
    assert(left.content() + right.content() =~= r.content());
}

/// Weight invariant: in a well-formed rope — and every rope the public
/// operations return is well-formed — an interior node's weight equals the
/// total length of its left subtree, and both subtrees are again
/// well-formed, so the same holds of every reachable node.
pub proof fn lemma_weight_invariant(r: Rope)
    requires
        r.well_formed(),
    ensures
        r matches Rope::Node { weight, left, right } ==> {
            &&& weight == left.total_len()
            &&& left.well_formed()
            &&& right.well_formed()
        },
{
}

/// Clamping: an `end` past the rope's total length reads the same bytes as
/// `end` equal to the total length.
pub proof fn lemma_clamping(r: Rope, start: int, end: int)
    requires
        end > r.total_len(),
    ensures
        clamp_range(r.content(), start, end) == clamp_range(
            r.content(),
            start,
            r.total_len() as int,
        ),
{
}

} // verus!
