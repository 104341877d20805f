//! Blocks of tokens, and what a list of blocks says of a token index.

use vstd::prelude::*;

verus! {

/// A contiguous range of tokens, position-independent (Plus) or not (Cross).
#[derive(Debug, Clone, PartialEq, Eq)]
pub struct PicBlock {
    /// Index of the block's first token in the full token sequence.
    pub start: usize,
    /// Number of tokens in the block.
    pub len: usize,
    /// Whether the block is position-independent (Plus) or position-dependent (Cross).
    pub is_plus: bool,
    /// Cache key of the block: Plus blocks with the same content hash can share
    /// cached keys and values wherever they stand.
    pub content_hash: Option<u64>,
}

impl PicBlock {
    /// Index just past the block's last token.
    pub open spec fn end(&self) -> int {
        self.start + self.len
    }

    /// Token index `i` lies in the block.
    pub open spec fn spans(&self, i: int) -> bool {
        self.start <= i < self.end()
    }

    /// The block is a Plus block that holds token index `i`.
    pub open spec fn plus_spans(&self, i: int) -> bool {
        self.is_plus && self.spans(i)
    }

    /// The block's end is a machine integer.
    pub open spec fn fits(&self) -> bool {
        self.end() <= usize::MAX
    }

    /// A Plus block with the given cache key.
    pub fn plus(start: usize, len: usize, content_hash: u64) -> (block: PicBlock)
        ensures
            block == (PicBlock { start, len, is_plus: true, content_hash: Some(content_hash) }),
    {
        PicBlock { start, len, is_plus: true, content_hash: Some(content_hash) }
    }

    /// A Cross block, which has no cache key.
    pub fn cross(start: usize, len: usize) -> (block: PicBlock)
        ensures
            block == (PicBlock { start, len, is_plus: false, content_hash: None }),
    {
        PicBlock { start, len, is_plus: false, content_hash: None }
    }

    /// Whether token index `idx` lies in the block.
    pub fn holds_token(&self, idx: usize) -> (found: bool)
        ensures
            found == self.spans(idx as int),
            found == (self.start <= idx < self.start + self.len),
    {
        idx >= self.start && idx - self.start < self.len
    }
}

/// Every block's end is a machine integer.
pub open spec fn blocks_fit(blocks: Seq<PicBlock>) -> bool {
    forall|b: int| 0 <= b < blocks.len() ==> (#[trigger] blocks[b]).fits()
}

/// No token index lies in two blocks of the list.
pub open spec fn blocks_disjoint(blocks: Seq<PicBlock>) -> bool {
    forall|b: int, c: int, i: int|
        0 <= b < blocks.len() && 0 <= c < blocks.len() && #[trigger] blocks[b].spans(i)
            && #[trigger] blocks[c].spans(i) ==> b == c
}

/// No token index lies in two Plus blocks of the list.
pub open spec fn plus_disjoint(blocks: Seq<PicBlock>) -> bool {
    forall|b: int, c: int, i: int|
        0 <= b < blocks.len() && 0 <= c < blocks.len() && #[trigger] blocks[b].plus_spans(i)
            && #[trigger] blocks[c].plus_spans(i) ==> b == c
}

/// Token index `i` lies in some block.
pub open spec fn in_block(blocks: Seq<PicBlock>, i: int) -> bool {
    exists|b: int| 0 <= b < blocks.len() && (#[trigger] blocks[b]).spans(i)
}

/// Token index `i` lies in some Plus block.
pub open spec fn in_plus(blocks: Seq<PicBlock>, i: int) -> bool {
    exists|b: int| 0 <= b < blocks.len() && (#[trigger] blocks[b]).plus_spans(i)
}

/// Block `b` is the first of the list that holds token index `i`.
pub open spec fn is_home(blocks: Seq<PicBlock>, i: int, b: int) -> bool {
    &&& 0 <= b < blocks.len()
    &&& blocks[b].spans(i)
    &&& forall|c: int| 0 <= c < b ==> !(#[trigger] blocks[c]).spans(i)
}

/// Block `b` is the first Plus block of the list that holds token index `i`.
pub open spec fn is_plus_home(blocks: Seq<PicBlock>, i: int, b: int) -> bool {
    &&& 0 <= b < blocks.len()
    &&& blocks[b].plus_spans(i)
    &&& forall|c: int| 0 <= c < b ==> !(#[trigger] blocks[c]).plus_spans(i)
}

/// Number of token indices that the blocks reach over: the largest end of a
/// block, gaps between blocks included, and zero without blocks.
pub open spec fn extent(blocks: Seq<PicBlock>) -> int
    decreases blocks.len(),
{
    if blocks.len() == 0 {
        0
    } else {
        let before = extent(blocks.drop_last());
        let end = blocks.last().end();
        if end > before {
            end
        } else {
            before
        }
    }
}

/// Number of token indices below `n` that lie in no Plus block.
pub open spec fn cross_before(blocks: Seq<PicBlock>, n: int) -> int
    decreases n,
{
    if n <= 0 {
        0
    } else if in_plus(blocks, n - 1) {
        cross_before(blocks, n - 1)
    } else {
        cross_before(blocks, n - 1) + 1
    }
}

/// Position of token index `i`: its offset in the (first) Plus block that holds
/// it, or else its rank among the tokens that lie in no Plus block.
pub open spec fn token_position(blocks: Seq<PicBlock>, i: int) -> int {
    if in_plus(blocks, i) {
        i - blocks[choose|b: int| is_plus_home(blocks, i, b)].start
    } else {
        cross_before(blocks, i)
    }
}

/// `position_ids` holds the position of every token index that the blocks reach over.
pub open spec fn numbers_tokens(position_ids: Seq<usize>, blocks: Seq<PicBlock>) -> bool {
    &&& position_ids.len() == extent(blocks)
    &&& forall|i: int|
        0 <= i < position_ids.len() ==> #[trigger] position_ids[i] == token_position(blocks, i)
}

/// Where some block of a list satisfies `holds`, one is the first that does.
pub proof fn lemma_first_block(blocks: Seq<PicBlock>, holds: spec_fn(PicBlock) -> bool) -> (b: int)
    requires
        exists|b: int| 0 <= b < blocks.len() && holds(#[trigger] blocks[b]),
    ensures
        0 <= b < blocks.len(),
        holds(blocks[b]),
        forall|c: int| 0 <= c < b ==> !holds(#[trigger] blocks[c]),
    decreases blocks.len(),
{
    let found = choose|b: int| 0 <= b < blocks.len() && holds(#[trigger] blocks[b]);
    let front = blocks.take(found);
    if exists|c: int| 0 <= c < front.len() && holds(#[trigger] front[c]) {
        let b = lemma_first_block(front, holds);
        assert forall|c: int| 0 <= c < b implies !holds(#[trigger] blocks[c]) by {
            assert(front[c] == blocks[c]);
        }
        b
    } else {
        assert forall|c: int| 0 <= c < found implies !holds(#[trigger] blocks[c]) by {
            assert(front[c] == blocks[c]);
        }
        found
    }
}

/// The position of a token with Plus home `b` is its offset in that block.
pub proof fn lemma_plus_position(blocks: Seq<PicBlock>, i: int, b: int)
    requires
        is_plus_home(blocks, i, b),
    ensures
        in_plus(blocks, i),
        token_position(blocks, i) == i - blocks[b].start,
{
    let c = choose|c: int| is_plus_home(blocks, i, c);
    assert(is_plus_home(blocks, i, c));
    assert(blocks[b].plus_spans(i) && blocks[c].plus_spans(i));
}

/// The extent is at least the end of every block.
pub proof fn lemma_extent_bounds(blocks: Seq<PicBlock>, b: int)
    requires
        0 <= b < blocks.len(),
    ensures
        blocks[b].end() <= extent(blocks),
    decreases blocks.len(),
{
    if b < blocks.len() - 1 {
        lemma_extent_bounds(blocks.drop_last(), b);
    }
}

} // verus!
