//! The block-attention mask.

use vstd::prelude::*;

use crate::block::{in_plus, is_plus_home, PicBlock};
use crate::context::{plus_home, PicContext};

verus! {

/// Token `q` attends to token `k`.
///
/// - A token outside Plus blocks attends to itself and to every earlier token.
/// - A token of a Plus block attends to the tokens outside Plus blocks that stand
///   before its block, and in its own block to itself and to earlier tokens.
/// - A token of a Plus block attends to no token of another Plus block.
///
/// Where Plus blocks overlap, a token's block is the first of them that holds it.
pub open spec fn attends(blocks: Seq<PicBlock>, q: int, k: int) -> bool {
    if !in_plus(blocks, q) {
        k <= q
    } else if !in_plus(blocks, k) {
        exists|b: int| #[trigger] is_plus_home(blocks, q, b) && k < blocks[b].start
    } else {
        k <= q && exists|b: int| #[trigger] is_plus_home(blocks, q, b) && is_plus_home(blocks, k, b)
    }
}

/// An attention mask: a row for each new token, a column for each cached and
/// each new token, stored row by row.
#[derive(Debug, Clone, PartialEq, Eq)]
pub struct PicMask {
    /// Number of new tokens.
    pub rows: usize,
    /// Number of cached and new tokens.
    pub cols: usize,
    /// Whether the row's token attends to the column's token.
    pub attend: Vec<bool>,
}

impl PicMask {
    /// There is one entry for each row and column.
    pub open spec fn wf(&self) -> bool {
        self.attend@.len() == self.rows * self.cols
    }

    /// The entry of a row and a column.
    pub open spec fn entry(&self, row: int, col: int) -> bool {
        self.attend@[row * self.cols + col]
    }

    /// The mask is that of `tgt_len` new tokens after `past_kv_len` cached ones.
    pub open spec fn masks(&self, blocks: Seq<PicBlock>, tgt_len: int, past_kv_len: int) -> bool {
        &&& self.wf()
        &&& self.rows == tgt_len
        &&& self.cols == tgt_len + past_kv_len
        &&& forall|i: int, j: int|
            0 <= i < self.rows && 0 <= j < self.cols ==> #[trigger] self.entry(i, j) == attends(
                blocks,
                past_kv_len + i,
                j,
            )
    }

    /// The number of rows and of columns.
    pub fn dims(&self) -> (dims: (usize, usize))
        ensures
            dims == (self.rows, self.cols),
    {
        (self.rows, self.cols)
    }

    /// Whether the row's token attends to the column's token.
    pub fn attends_at(&self, row: usize, col: usize) -> (attend: bool)
        requires
            self.wf(),
            row < self.rows,
            col < self.cols,
        ensures
            attend == self.entry(row as int, col as int),
            attend == self.attend@[row * self.cols + col],
    {
        proof {
            lemma_entry_in_range(self.rows as int, self.cols as int, row as int, col as int);
            assert(self.attend.len() == self.attend@.len());
        }
        self.attend[row * self.cols + col]
    }
}

impl PicContext {
    /// Builds the block-attention mask of `tgt_len` new tokens after `past_kv_len`
    /// cached ones.
    pub fn make_pic_mask(&self, tgt_len: usize, past_kv_len: usize) -> (mask: PicMask)
        requires
            tgt_len + past_kv_len <= usize::MAX,
        ensures
            mask.masks(self.blocks@, tgt_len as int, past_kv_len as int),
    {
        let full_len: usize = tgt_len + past_kv_len;
        let mut attend: Vec<bool> = Vec::new();
        let mut i: usize = 0;
        while i < tgt_len
            invariant
                i <= tgt_len,
                full_len == tgt_len + past_kv_len,
                attend@.len() == i * full_len,
                forall|r: int, j: int|
                    0 <= r < i && 0 <= j < full_len ==> #[trigger] attend@[r * full_len + j]
                        == attends(self.blocks@, past_kv_len + r, j),
            decreases tgt_len - i,
        {
            let ghost before = attend@;
            let mut row = self.mask_row(past_kv_len + i, full_len);
            let ghost added = row@;
            attend.append(&mut row);
            proof {
                assert((i + 1) * full_len == i * full_len + full_len) by (nonlinear_arith);
                assert forall|r: int, j: int| 0 <= r < i + 1 && 0 <= j < full_len implies
                    #[trigger] attend@[r * full_len + j]
                        == attends(self.blocks@, past_kv_len + r, j) by {
                    if r < i {
                        lemma_entry_in_range(i as int, full_len as int, r, j);
                        assert(attend@[r * full_len + j] == before[r * full_len + j]);
                    } else {
                        assert(attend@[r * full_len + j] == added[j]);
                    }
                }
            }
            i = i + 1;
        }
        let mask = PicMask { rows: tgt_len, cols: full_len, attend };
        assert forall|r: int, j: int|
            0 <= r < tgt_len && 0 <= j < full_len implies #[trigger] mask.entry(r, j)
                == attends(self.blocks@, past_kv_len + r, j) by {
            assert(mask.entry(r, j) == mask.attend@[r * full_len + j]);
        }
        mask
    }

    /// The mask's row for token `q_idx`.
    fn mask_row(&self, q_idx: usize, full_len: usize) -> (row: Vec<bool>)
        ensures
            row@.len() == full_len,
            forall|j: int|
                0 <= j < full_len ==> #[trigger] row@[j] == attends(
                    self.blocks@,
                    q_idx as int,
                    j,
                ),
    {
        let mut row: Vec<bool> = Vec::new();
        let mut j: usize = 0;
        while j < full_len
            invariant
                j <= full_len,
                row@.len() == j,
                forall|c: int|
                    0 <= c < j ==> #[trigger] row@[c] == attends(
                        self.blocks@,
                        q_idx as int,
                        c,
                    ),
            decreases full_len - j,
        {
            let attend = self.attends_token(q_idx, j);
            row.push(attend);
            j = j + 1;
        }
        row
    }

    /// Whether token `q_idx` attends to token `k_idx`.
    pub fn attends_token(&self, q_idx: usize, k_idx: usize) -> (attend: bool)
        ensures
            attend == attends(self.blocks@, q_idx as int, k_idx as int),
    {
        match (plus_home(&self.blocks, q_idx), plus_home(&self.blocks, k_idx)) {
            // Standard causal, over Cross and Plus tokens alike.
            (None, _) => k_idx <= q_idx,
            // Only Cross tokens before the start of the query's block.
            (Some(qb), None) => k_idx < self.blocks[qb].start,
            // Only within the same block, causally.
            (Some(qb), Some(kb)) => qb == kb && k_idx <= q_idx,
        }
    }
}

/// Row-by-row storage has a place for the entry of every row and column.
pub proof fn lemma_entry_in_range(rows: int, cols: int, row: int, col: int)
    by (nonlinear_arith)
    requires
        0 <= row < rows,
        0 <= col < cols,
    ensures
        0 <= row * cols,
        row * cols + col < rows * cols,
{
}

} // verus!
