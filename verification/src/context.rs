//! The block layout of a sequence and the positions of its tokens.

use vstd::prelude::*;

use crate::block::{
    blocks_fit, cross_before, extent, in_block, in_plus, is_home, is_plus_home, lemma_plus_position,
    numbers_tokens, token_position, PicBlock,
};

verus! {

/// PIC metadata that flows through the forward pass.
#[derive(Debug, Clone)]
pub struct PicContext {
    /// The blocks that make up the current sequence, in order.
    pub blocks: Vec<PicBlock>,
    /// Position of each token: its offset in its Plus block, or for other tokens
    /// their rank among the tokens outside Plus blocks.
    pub position_ids: Vec<usize>,
    /// Number of tokens that the blocks reach over.
    pub total_len: usize,
    /// When true, the keys of cached Plus blocks already carry the rotary embedding
    /// of positions `0..len`, and the forward pass embeds only new tokens.
    pub has_pre_roped_k: bool,
}

impl PicContext {
    /// Length and positions are those that the blocks give.
    pub open spec fn wf(&self) -> bool {
        &&& blocks_fit(self.blocks@)
        &&& self.total_len == extent(self.blocks@)
        &&& numbers_tokens(self.position_ids@, self.blocks@)
    }

    /// Creates a context from a list of blocks and numbers its tokens.
    pub fn new(blocks: Vec<PicBlock>) -> (ctx: Self)
        requires
            blocks_fit(blocks@),
        ensures
            ctx.wf(),
            ctx.blocks == blocks,
            !ctx.has_pre_roped_k,
    {
        let total_len = blocks_extent(&blocks);
        let mut position_ids: Vec<usize> = Vec::new();
        let mut cross_pos: usize = 0;
        let mut i: usize = 0;
        while i < total_len
            invariant
                i <= total_len,
                cross_pos <= i,
                cross_pos == cross_before(blocks@, i as int),
                position_ids@.len() == i,
                forall|j: int|
                    0 <= j < i ==> #[trigger] position_ids@[j] == token_position(blocks@, j),
            decreases total_len - i,
        {
            match plus_home(&blocks, i) {
                Some(b) => {
                    proof {
                        lemma_plus_position(blocks@, i as int, b as int);
                    }
                    position_ids.push(i - blocks[b].start);
                },
                None => {
                    position_ids.push(cross_pos);
                    cross_pos = cross_pos + 1;
                },
            }
            i = i + 1;
        }
        PicContext { blocks, position_ids, total_len, has_pre_roped_k: false }
    }

    /// Whether a token index belongs to a Plus block.
    pub fn is_plus_token(&self, idx: usize) -> (found: bool)
        ensures
            found == in_plus(self.blocks@, idx as int),
            found <==> exists|b: int|
                0 <= b < self.blocks@.len() && (#[trigger] self.blocks@[b]).is_plus
                    && self.blocks@[b].start <= idx < self.blocks@[b].start + self.blocks@[b].len,
    {
        plus_home(&self.blocks, idx).is_some()
    }

    /// The index in `self.blocks` of the first block that holds a token index.
    pub fn block_for_token(&self, idx: usize) -> (found: Option<usize>)
        ensures
            match found {
                Some(b) => is_home(self.blocks@, idx as int, b as int),
                None => !in_block(self.blocks@, idx as int),
            },
            match found {
                Some(b) => b < self.blocks@.len() && self.blocks@[b as int].start <= idx
                    < self.blocks@[b as int].start + self.blocks@[b as int].len && forall|c: int|
                    0 <= c < b ==> !((#[trigger] self.blocks@[c]).start <= idx
                        < self.blocks@[c].start + self.blocks@[c].len),
                None => forall|c: int|
                    0 <= c < self.blocks@.len() ==> !((#[trigger] self.blocks@[c]).start <= idx
                        < self.blocks@[c].start + self.blocks@[c].len),
            },
    {
        let mut b: usize = 0;
        while b < self.blocks.len()
            invariant
                b <= self.blocks@.len(),
                forall|c: int| 0 <= c < b ==> !(#[trigger] self.blocks@[c]).spans(idx as int),
            decreases self.blocks@.len() - b,
        {
            if self.blocks[b].holds_token(idx) {
                return Some(b);
            }
            b = b + 1;
        }
        None
    }
}

/// The largest end of a block, zero without blocks.
fn blocks_extent(blocks: &Vec<PicBlock>) -> (total: usize)
    requires
        blocks_fit(blocks@),
    ensures
        total == extent(blocks@),
{
    let mut total: usize = 0;
    let mut b: usize = 0;
    while b < blocks.len()
        invariant
            b <= blocks@.len(),
            blocks_fit(blocks@),
            total == extent(blocks@.take(b as int)),
        decreases blocks@.len() - b,
    {
        let block = &blocks[b];
        assert(block.fits());
        assert(blocks@.take(b + 1).drop_last() =~= blocks@.take(b as int));
        let end: usize = block.start + block.len;
        if end > total {
            total = end;
        }
        b = b + 1;
    }
    assert(blocks@.take(b as int) =~= blocks@);
    total
}

/// The first Plus block that holds a token index.
pub(crate) fn plus_home(blocks: &Vec<PicBlock>, idx: usize) -> (found: Option<usize>)
    ensures
        match found {
            Some(b) => is_plus_home(blocks@, idx as int, b as int),
            None => !in_plus(blocks@, idx as int),
        },
{
    let mut b: usize = 0;
    while b < blocks.len()
        invariant
            b <= blocks@.len(),
            forall|c: int| 0 <= c < b ==> !(#[trigger] blocks@[c]).plus_spans(idx as int),
        decreases blocks@.len() - b,
    {
        if blocks[b].is_plus && blocks[b].holds_token(idx) {
            assert(blocks@[b as int].plus_spans(idx as int));
            return Some(b);
        }
        b = b + 1;
    }
    None
}

} // verus!
