//! What results satisfy, said of the blocks' fields and of the entries themselves.

use std::hash::DefaultHasher;

use vstd::prelude::*;
use vstd::std_specs::hash::DefaultHasherAdditionalSpecFns;

use crate::block::{
    blocks_fit, extent, in_block, in_plus, is_home, is_plus_home, lemma_extent_bounds,
    lemma_first_block, lemma_plus_position, token_position, PicBlock,
};
use crate::context::PicContext;
use crate::detect::{
    has_content, has_sentinel, is_detected_block, is_detection, is_run, is_sentinel,
    plus_content_feeds_apart,
};
use crate::hash::{
    text_feeds_apart, text_hash, text_writes, token_writes, tokens_feed_apart, tokens_hash,
};
use crate::laws::{law_detection_is_unique, lemma_cross_between};
use crate::mask::{attends, lemma_entry_in_range, PicMask};
use crate::rope::{any_deferred, rope_positions};

verus! {

// ---------------------------------------------------------------------------
// Blocks
// ---------------------------------------------------------------------------

/// A context can be made of blocks exactly where no block's end is past the largest
/// machine integer.
pub proof fn law_blocks_fit_by_their_ends(blocks: Seq<PicBlock>)
    ensures
        blocks_fit(blocks) <==> forall|b: int|
            0 <= b < blocks.len() ==> (#[trigger] blocks[b]).start + blocks[b].len <= usize::MAX,
{
    if forall|b: int|
        0 <= b < blocks.len() ==> (#[trigger] blocks[b]).start + blocks[b].len <= usize::MAX {
        assert(blocks_fit(blocks));
    }
    if blocks_fit(blocks) {
        assert forall|b: int| 0 <= b < blocks.len() implies (#[trigger] blocks[b]).start
            + blocks[b].len <= usize::MAX by {
            assert(blocks[b].fits());
        }
    }
}

/// A token index lies in a Plus block exactly where one of the Plus blocks starts at it
/// or before it and ends after it, and in some block exactly where one of all blocks does.
pub proof fn law_tokens_lie_between_start_and_end(blocks: Seq<PicBlock>, i: int)
    ensures
        in_plus(blocks, i) <==> exists|b: int|
            0 <= b < blocks.len() && (#[trigger] blocks[b]).is_plus && blocks[b].start <= i
                < blocks[b].start + blocks[b].len,
        in_block(blocks, i) <==> exists|b: int|
            0 <= b < blocks.len() && (#[trigger] blocks[b]).start <= i < blocks[b].start
                + blocks[b].len,
{
    if in_plus(blocks, i) {
        let b = choose|b: int| 0 <= b < blocks.len() && (#[trigger] blocks[b]).plus_spans(i);
        assert(blocks[b].is_plus && blocks[b].start <= i < blocks[b].start + blocks[b].len);
    }
    if exists|b: int|
        0 <= b < blocks.len() && (#[trigger] blocks[b]).is_plus && blocks[b].start <= i
            < blocks[b].start + blocks[b].len {
        let b = choose|b: int|
            0 <= b < blocks.len() && (#[trigger] blocks[b]).is_plus && blocks[b].start <= i
                < blocks[b].start + blocks[b].len;
        assert(blocks[b].plus_spans(i));
    }
    if in_block(blocks, i) {
        let b = choose|b: int| 0 <= b < blocks.len() && (#[trigger] blocks[b]).spans(i);
        assert(blocks[b].start <= i < blocks[b].start + blocks[b].len);
    }
    if exists|b: int|
        0 <= b < blocks.len() && (#[trigger] blocks[b]).start <= i < blocks[b].start
            + blocks[b].len {
        let b = choose|b: int|
            0 <= b < blocks.len() && (#[trigger] blocks[b]).start <= i < blocks[b].start
                + blocks[b].len;
        assert(blocks[b].spans(i));
    }
}

/// Of the blocks that start at a token index or before it and end after it, the one that
/// holds it is the first; of the Plus blocks among them likewise.
pub proof fn law_first_block_is_home(blocks: Seq<PicBlock>, i: int, b: int)
    requires
        0 <= b < blocks.len(),
    ensures
        is_home(blocks, i, b) <==> blocks[b].start <= i < blocks[b].start + blocks[b].len && forall|
            c: int,
        |
            0 <= c < b ==> !((#[trigger] blocks[c]).start <= i < blocks[c].start + blocks[c].len),
        is_plus_home(blocks, i, b) <==> blocks[b].is_plus && blocks[b].start <= i < blocks[b].start
            + blocks[b].len && forall|c: int|
            0 <= c < b && (#[trigger] blocks[c]).is_plus ==> !(blocks[c].start <= i
                < blocks[c].start + blocks[c].len),
{
    assert forall|c: int| 0 <= c < b implies ((#[trigger] blocks[c]).spans(i) <==> blocks[c].start
        <= i < blocks[c].start + blocks[c].len) by {
    }
    assert forall|c: int| 0 <= c < b implies ((#[trigger] blocks[c]).plus_spans(i)
        <==> blocks[c].is_plus && blocks[c].start <= i < blocks[c].start + blocks[c].len) by {
    }
}

// ---------------------------------------------------------------------------
// Positions of a context
// ---------------------------------------------------------------------------

/// A context has a position for every token index up to the largest end of a block.
pub proof fn law_context_reaches_to_the_last_end(ctx: PicContext)
    requires
        ctx.wf(),
    ensures
        ctx.position_ids@.len() == ctx.total_len,
        forall|b: int|
            0 <= b < ctx.blocks@.len() ==> (#[trigger] ctx.blocks@[b]).start + ctx.blocks@[b].len
                <= ctx.total_len,
        ctx.total_len == 0 || exists|b: int|
            0 <= b < ctx.blocks@.len() && (#[trigger] ctx.blocks@[b]).start + ctx.blocks@[b].len
                == ctx.total_len,
{
    let blocks = ctx.blocks@;
    assert forall|b: int| 0 <= b < blocks.len() implies (#[trigger] blocks[b]).start + blocks[b].len
        <= ctx.total_len by {
        lemma_extent_bounds(blocks, b);
    }
    lemma_extent_is_an_end(blocks);
}

proof fn lemma_extent_is_an_end(blocks: Seq<PicBlock>)
    ensures
        extent(blocks) == 0 || exists|b: int|
            0 <= b < blocks.len() && (#[trigger] blocks[b]).start + blocks[b].len == extent(blocks),
    decreases blocks.len(),
{
    if blocks.len() > 0 {
        let front = blocks.drop_last();
        lemma_extent_is_an_end(front);
        if extent(blocks) == extent(front) && extent(front) != 0 {
            let b = choose|b: int|
                0 <= b < front.len() && (#[trigger] front[b]).start + front[b].len == extent(front);
            assert(blocks[b].start + blocks[b].len == extent(blocks));
        } else if extent(blocks) != 0 {
            let b = blocks.len() - 1;
            assert(blocks[b].start + blocks[b].len == extent(blocks));
        }
    }
}

/// The position of a token in a Plus block is its distance from the block's start, of
/// the first of these blocks where several hold the token.
pub proof fn law_context_numbers_plus_tokens_by_offset(ctx: PicContext, i: int, b: int)
    requires
        ctx.wf(),
        0 <= b < ctx.blocks@.len(),
        ctx.blocks@[b].is_plus,
        ctx.blocks@[b].start <= i < ctx.blocks@[b].start + ctx.blocks@[b].len,
        forall|c: int|
            0 <= c < b && (#[trigger] ctx.blocks@[c]).is_plus ==> !(ctx.blocks@[c].start <= i
                < ctx.blocks@[c].start + ctx.blocks@[c].len),
    ensures
        i < ctx.position_ids@.len(),
        ctx.position_ids@[i] == i - ctx.blocks@[b].start,
{
    law_first_block_is_home(ctx.blocks@, i, b);
    lemma_extent_bounds(ctx.blocks@, b);
    lemma_plus_position(ctx.blocks@, i, b);
    assert(ctx.position_ids@[i] == token_position(ctx.blocks@, i));
}

/// The first token outside Plus blocks has position zero.
pub proof fn law_context_numbers_cross_tokens_from_zero(ctx: PicContext, i: int)
    requires
        ctx.wf(),
        0 <= i < ctx.position_ids@.len(),
        forall|b: int|
            0 <= b < ctx.blocks@.len() && (#[trigger] ctx.blocks@[b]).is_plus ==> !(
            ctx.blocks@[b].start <= i < ctx.blocks@[b].start + ctx.blocks@[b].len),
        forall|m: int|
            #![trigger ctx.position_ids@[m]]
            0 <= m < i ==> exists|b: int|
                0 <= b < ctx.blocks@.len() && (#[trigger] ctx.blocks@[b]).is_plus
                    && ctx.blocks@[b].start <= m < ctx.blocks@[b].start + ctx.blocks@[b].len,
    ensures
        ctx.position_ids@[i] == 0,
{
    assert forall|m: int| 0 <= m < i implies in_plus(ctx.blocks@, m) by {
        assert(ctx.position_ids@[m] >= 0);
        law_tokens_lie_between_start_and_end(ctx.blocks@, m);
    }
    lemma_cross_between(ctx.blocks@, 0, i);
    law_tokens_lie_between_start_and_end(ctx.blocks@, i);
    assert(ctx.position_ids@[i] == token_position(ctx.blocks@, i));
}

/// Of two tokens outside Plus blocks with nothing but tokens of Plus blocks between
/// them, the later one's position is larger by one.
pub proof fn law_context_numbers_cross_tokens_in_turn(ctx: PicContext, i: int, j: int)
    requires
        ctx.wf(),
        0 <= i < j < ctx.position_ids@.len(),
        forall|b: int|
            0 <= b < ctx.blocks@.len() && (#[trigger] ctx.blocks@[b]).is_plus ==> !(
            ctx.blocks@[b].start <= i < ctx.blocks@[b].start + ctx.blocks@[b].len) && !(
            ctx.blocks@[b].start <= j < ctx.blocks@[b].start + ctx.blocks@[b].len),
        forall|m: int|
            #![trigger ctx.position_ids@[m]]
            i < m < j ==> exists|b: int|
                0 <= b < ctx.blocks@.len() && (#[trigger] ctx.blocks@[b]).is_plus
                    && ctx.blocks@[b].start <= m < ctx.blocks@[b].start + ctx.blocks@[b].len,
    ensures
        ctx.position_ids@[j] == ctx.position_ids@[i] + 1,
{
    assert forall|m: int| i < m < j implies in_plus(ctx.blocks@, m) by {
        assert(ctx.position_ids@[m] >= 0);
        law_tokens_lie_between_start_and_end(ctx.blocks@, m);
    }
    lemma_cross_between(ctx.blocks@, i + 1, j);
    law_tokens_lie_between_start_and_end(ctx.blocks@, i);
    law_tokens_lie_between_start_and_end(ctx.blocks@, j);
    assert(ctx.position_ids@[i] == token_position(ctx.blocks@, i));
    assert(ctx.position_ids@[j] == token_position(ctx.blocks@, j));
}

// ---------------------------------------------------------------------------
// Entries of a mask
// ---------------------------------------------------------------------------

/// A token outside Plus blocks attends to itself and to every earlier token.
pub proof fn law_cross_token_attends_causally(blocks: Seq<PicBlock>, q: int, k: int)
    requires
        forall|b: int|
            0 <= b < blocks.len() && (#[trigger] blocks[b]).is_plus ==> !(blocks[b].start <= q
                < blocks[b].start + blocks[b].len),
    ensures
        attends(blocks, q, k) <==> k <= q,
{
    law_tokens_lie_between_start_and_end(blocks, q);
}

/// A token of Plus block `b` attends to a token outside Plus blocks exactly where that
/// stands before the block.
pub proof fn law_plus_token_attends_to_cross_tokens_before_its_block(
    blocks: Seq<PicBlock>,
    q: int,
    k: int,
    b: int,
)
    requires
        0 <= b < blocks.len(),
        blocks[b].is_plus,
        blocks[b].start <= q < blocks[b].start + blocks[b].len,
        forall|c: int|
            0 <= c < b && (#[trigger] blocks[c]).is_plus ==> !(blocks[c].start <= q
                < blocks[c].start + blocks[c].len),
        forall|c: int|
            0 <= c < blocks.len() && (#[trigger] blocks[c]).is_plus ==> !(blocks[c].start <= k
                < blocks[c].start + blocks[c].len),
    ensures
        attends(blocks, q, k) <==> k < blocks[b].start,
{
    law_tokens_lie_between_start_and_end(blocks, q);
    law_tokens_lie_between_start_and_end(blocks, k);
    law_first_block_is_home(blocks, q, b);
    assert(in_plus(blocks, q) && !in_plus(blocks, k));
    lemma_one_plus_home(blocks, q, b);
}

/// A token of Plus block `b` attends to a token of Plus block `c` exactly where the two
/// are one block and the other token is no later.
pub proof fn law_plus_token_attends_within_its_block(
    blocks: Seq<PicBlock>,
    q: int,
    k: int,
    b: int,
    c: int,
)
    requires
        0 <= b < blocks.len(),
        blocks[b].is_plus,
        blocks[b].start <= q < blocks[b].start + blocks[b].len,
        forall|d: int|
            0 <= d < b && (#[trigger] blocks[d]).is_plus ==> !(blocks[d].start <= q
                < blocks[d].start + blocks[d].len),
        0 <= c < blocks.len(),
        blocks[c].is_plus,
        blocks[c].start <= k < blocks[c].start + blocks[c].len,
        forall|d: int|
            0 <= d < c && (#[trigger] blocks[d]).is_plus ==> !(blocks[d].start <= k
                < blocks[d].start + blocks[d].len),
    ensures
        attends(blocks, q, k) <==> b == c && k <= q,
{
    law_tokens_lie_between_start_and_end(blocks, q);
    law_tokens_lie_between_start_and_end(blocks, k);
    law_first_block_is_home(blocks, q, b);
    law_first_block_is_home(blocks, k, c);
    assert(in_plus(blocks, q) && in_plus(blocks, k));
    lemma_one_plus_home(blocks, q, b);
    lemma_one_plus_home(blocks, k, c);
}

proof fn lemma_one_plus_home(blocks: Seq<PicBlock>, i: int, b: int)
    requires
        is_plus_home(blocks, i, b),
    ensures
        forall|c: int| #[trigger] is_plus_home(blocks, i, c) ==> c == b,
{
    assert forall|c: int| #[trigger] is_plus_home(blocks, i, c) implies c == b by {
        assert(blocks[b].plus_spans(i) && blocks[c].plus_spans(i));
    }
}

/// A mask has a row for each new token and a column for each cached and each new one,
/// and its entry for row `i` and column `j` says whether token `past_kv_len + i` attends
/// to token `j`.
pub proof fn law_mask_has_an_entry_for_every_pair(
    mask: PicMask,
    blocks: Seq<PicBlock>,
    tgt_len: int,
    past_kv_len: int,
    i: int,
    j: int,
)
    requires
        mask.masks(blocks, tgt_len, past_kv_len),
        0 <= past_kv_len,
        0 <= i < tgt_len,
        0 <= j < tgt_len + past_kv_len,
    ensures
        mask.rows == tgt_len,
        mask.cols == tgt_len + past_kv_len,
        mask.attend@.len() == tgt_len * (tgt_len + past_kv_len),
        0 <= i * mask.cols + j < mask.attend@.len(),
        mask.entry(i, j) == mask.attend@[i * mask.cols + j],
        mask.attend@[i * mask.cols + j] == attends(blocks, past_kv_len + i, j),
{
    lemma_entry_in_range(tgt_len, tgt_len + past_kv_len, i, j);
    assert(mask.entry(i, j) == attends(blocks, past_kv_len + i, j));
}

/// In the row of a token outside Plus blocks the entries are true up to the token itself
/// and false after it.
pub proof fn law_mask_row_of_cross_token(
    mask: PicMask,
    blocks: Seq<PicBlock>,
    tgt_len: int,
    past_kv_len: int,
    i: int,
    j: int,
)
    requires
        mask.masks(blocks, tgt_len, past_kv_len),
        0 <= past_kv_len,
        0 <= i < tgt_len,
        0 <= j < tgt_len + past_kv_len,
        forall|b: int|
            0 <= b < blocks.len() && (#[trigger] blocks[b]).is_plus ==> !(blocks[b].start
                <= past_kv_len + i < blocks[b].start + blocks[b].len),
    ensures
        mask.attend@[i * mask.cols + j] <==> j <= past_kv_len + i,
{
    law_mask_has_an_entry_for_every_pair(mask, blocks, tgt_len, past_kv_len, i, j);
    law_cross_token_attends_causally(blocks, past_kv_len + i, j);
}

/// In the row of a token of Plus block `b` the entry of a token outside Plus blocks is
/// true exactly where that token stands before the block.
pub proof fn law_mask_row_of_plus_token_at_cross_token(
    mask: PicMask,
    blocks: Seq<PicBlock>,
    tgt_len: int,
    past_kv_len: int,
    i: int,
    j: int,
    b: int,
)
    requires
        mask.masks(blocks, tgt_len, past_kv_len),
        0 <= past_kv_len,
        0 <= i < tgt_len,
        0 <= j < tgt_len + past_kv_len,
        0 <= b < blocks.len(),
        blocks[b].is_plus,
        blocks[b].start <= past_kv_len + i < blocks[b].start + blocks[b].len,
        forall|c: int|
            0 <= c < b && (#[trigger] blocks[c]).is_plus ==> !(blocks[c].start <= past_kv_len + i
                < blocks[c].start + blocks[c].len),
        forall|c: int|
            0 <= c < blocks.len() && (#[trigger] blocks[c]).is_plus ==> !(blocks[c].start <= j
                < blocks[c].start + blocks[c].len),
    ensures
        mask.attend@[i * mask.cols + j] <==> j < blocks[b].start,
{
    law_mask_has_an_entry_for_every_pair(mask, blocks, tgt_len, past_kv_len, i, j);
    law_plus_token_attends_to_cross_tokens_before_its_block(blocks, past_kv_len + i, j, b);
}

/// In the row of a token of Plus block `b` the entry of a token of Plus block `c` is true
/// exactly where the two are one block and the column's token is no later.
pub proof fn law_mask_row_of_plus_token_at_plus_token(
    mask: PicMask,
    blocks: Seq<PicBlock>,
    tgt_len: int,
    past_kv_len: int,
    i: int,
    j: int,
    b: int,
    c: int,
)
    requires
        mask.masks(blocks, tgt_len, past_kv_len),
        0 <= past_kv_len,
        0 <= i < tgt_len,
        0 <= j < tgt_len + past_kv_len,
        0 <= b < blocks.len(),
        blocks[b].is_plus,
        blocks[b].start <= past_kv_len + i < blocks[b].start + blocks[b].len,
        forall|d: int|
            0 <= d < b && (#[trigger] blocks[d]).is_plus ==> !(blocks[d].start <= past_kv_len + i
                < blocks[d].start + blocks[d].len),
        0 <= c < blocks.len(),
        blocks[c].is_plus,
        blocks[c].start <= j < blocks[c].start + blocks[c].len,
        forall|d: int|
            0 <= d < c && (#[trigger] blocks[d]).is_plus ==> !(blocks[d].start <= j
                < blocks[d].start + blocks[d].len),
    ensures
        mask.attend@[i * mask.cols + j] <==> b == c && j <= past_kv_len + i,
{
    law_mask_has_an_entry_for_every_pair(mask, blocks, tgt_len, past_kv_len, i, j);
    law_plus_token_attends_within_its_block(blocks, past_kv_len + i, j, b, c);
}

/// Where no two Plus blocks overlap, an entry is false where its two tokens lie in two
/// different Plus blocks, and otherwise true exactly where the column's token is no later
/// than the row's.
pub proof fn law_mask_entries(
    mask: PicMask,
    blocks: Seq<PicBlock>,
    tgt_len: int,
    past_kv_len: int,
    i: int,
    j: int,
)
    requires
        mask.masks(blocks, tgt_len, past_kv_len),
        0 <= past_kv_len,
        0 <= i < tgt_len,
        0 <= j < tgt_len + past_kv_len,
        forall|b: int, c: int|
            0 <= b < c < blocks.len() && (#[trigger] blocks[b]).is_plus && (
            #[trigger] blocks[c]).is_plus && blocks[b].len > 0 && blocks[c].len > 0
                ==> blocks[b].start + blocks[b].len <= blocks[c].start || blocks[c].start
                + blocks[c].len <= blocks[b].start,
    ensures
        mask.attend@[i * mask.cols + j] <==> j <= past_kv_len + i && !exists|b: int, c: int|
            0 <= b < blocks.len() && 0 <= c < blocks.len() && b != c && (
            #[trigger] blocks[b]).is_plus && (#[trigger] blocks[c]).is_plus && blocks[b].start
                <= past_kv_len + i < blocks[b].start + blocks[b].len && blocks[c].start <= j
                < blocks[c].start + blocks[c].len,
{
    let q = past_kv_len + i;
    law_tokens_lie_between_start_and_end(blocks, q);
    law_tokens_lie_between_start_and_end(blocks, j);
    if !in_plus(blocks, q) {
        law_mask_row_of_cross_token(mask, blocks, tgt_len, past_kv_len, i, j);
    } else {
        let b = lemma_first_block(blocks, |block: PicBlock| block.plus_spans(q));
        if !in_plus(blocks, j) {
            law_mask_row_of_plus_token_at_cross_token(
                mask,
                blocks,
                tgt_len,
                past_kv_len,
                i,
                j,
                b,
            );
        } else {
            let c = lemma_first_block(blocks, |block: PicBlock| block.plus_spans(j));
            law_mask_row_of_plus_token_at_plus_token(
                mask,
                blocks,
                tgt_len,
                past_kv_len,
                i,
                j,
                b,
                c,
            );
        }
    }
}

// ---------------------------------------------------------------------------
// Content hashes
// ---------------------------------------------------------------------------

/// A content hash is that of a fresh hasher fed the whole token sequence. Other tokens
/// feed it something else, and so have another hash, but for a collision of the hasher
/// on these two inputs.
pub proof fn law_different_tokens_have_different_hashes(tokens: Seq<u32>, other: Seq<u32>)
    requires
        tokens_feed_apart(tokens),
        DefaultHasher::spec_finish(token_writes(tokens)) == DefaultHasher::spec_finish(
            token_writes(other),
        ) ==> token_writes(tokens) == token_writes(other),
    ensures
        tokens_hash(tokens) == DefaultHasher::spec_finish(token_writes(tokens)),
        tokens_hash(other) == DefaultHasher::spec_finish(token_writes(other)),
        token_writes(tokens) == token_writes(other) <==> tokens == other,
        tokens_hash(tokens) == tokens_hash(other) <==> tokens == other,
{
}

/// A content hash is that of a fresh hasher fed the whole text. Another text feeds it
/// something else, and so has another hash, but for a collision of the hasher on these
/// two inputs.
pub proof fn law_different_texts_have_different_hashes(text: Seq<char>, other: Seq<char>)
    requires
        text_feeds_apart(text),
        DefaultHasher::spec_finish(text_writes(text)) == DefaultHasher::spec_finish(
            text_writes(other),
        ) ==> text_writes(text) == text_writes(other),
    ensures
        text_hash(text) == DefaultHasher::spec_finish(text_writes(text)),
        text_hash(other) == DefaultHasher::spec_finish(text_writes(other)),
        text_writes(text) == text_writes(other) <==> text == other,
        text_hash(text) == text_hash(other) <==> text == other,
{
}

// ---------------------------------------------------------------------------
// Detection
// ---------------------------------------------------------------------------

/// A sequence has a sentinel where one of its tokens is the Plus or the Cross token, and
/// content where one of them is neither.
pub proof fn law_sentinels_are_the_two_tokens(tokens: Seq<u32>, plus_token: u32, cross_token: u32)
    ensures
        has_sentinel(tokens, plus_token, cross_token) <==> tokens.contains(plus_token)
            || tokens.contains(cross_token),
        has_content(tokens, plus_token, cross_token) <==> exists|i: int|
            0 <= i < tokens.len() && #[trigger] tokens[i] != plus_token && tokens[i] != cross_token,
{
    if has_sentinel(tokens, plus_token, cross_token) {
        let i = choose|i: int|
            0 <= i < tokens.len() && is_sentinel(#[trigger] tokens[i], plus_token, cross_token);
        assert(tokens.contains(tokens[i]));
    }
    if tokens.contains(plus_token) {
        let i = choose|i: int| 0 <= i < tokens.len() && tokens[i] == plus_token;
        assert(is_sentinel(tokens[i], plus_token, cross_token));
    }
    if tokens.contains(cross_token) {
        let i = choose|i: int| 0 <= i < tokens.len() && tokens[i] == cross_token;
        assert(is_sentinel(tokens[i], plus_token, cross_token));
    }
    if has_content(tokens, plus_token, cross_token) {
        let i = choose|i: int|
            0 <= i < tokens.len() && !is_sentinel(#[trigger] tokens[i], plus_token, cross_token);
        assert(tokens[i] != plus_token && tokens[i] != cross_token);
    }
    if exists|i: int|
        0 <= i < tokens.len() && #[trigger] tokens[i] != plus_token && tokens[i] != cross_token {
        let i = choose|i: int|
            0 <= i < tokens.len() && #[trigger] tokens[i] != plus_token && tokens[i] != cross_token;
        assert(!is_sentinel(tokens[i], plus_token, cross_token));
    }
}

/// A detected block holds one token or more, none of them a sentinel, stands between two
/// sentinels or the ends of the sequence, and before the next block. It is a Plus block
/// exactly where the Plus token stands right before it, and is keyed by the hash of just
/// its tokens then and by nothing otherwise.
pub proof fn law_detected_blocks_stand_between_sentinels(
    tokens: Seq<u32>,
    plus_token: u32,
    cross_token: u32,
    blocks: Seq<PicBlock>,
    b: int,
)
    requires
        is_detection(tokens, plus_token, cross_token, blocks),
        0 <= b < blocks.len(),
    ensures
        blocks[b].len > 0,
        blocks[b].start + blocks[b].len <= tokens.len(),
        forall|i: int|
            blocks[b].start <= i < blocks[b].start + blocks[b].len ==> #[trigger] tokens[i]
                != plus_token && tokens[i] != cross_token,
        blocks[b].start > 0 ==> tokens[blocks[b].start - 1] == plus_token
            || tokens[blocks[b].start - 1] == cross_token,
        blocks[b].start + blocks[b].len < tokens.len() ==> tokens[blocks[b].start + blocks[b].len]
            == plus_token || tokens[blocks[b].start + blocks[b].len] == cross_token,
        b + 1 < blocks.len() ==> blocks[b].start + blocks[b].len < blocks[b + 1].start,
        blocks[b].is_plus <==> blocks[b].start > 0 && tokens[blocks[b].start - 1] == plus_token,
        !blocks[b].is_plus ==> blocks[b].content_hash is None,
        blocks[b].is_plus ==> blocks[b].content_hash == Some(
            DefaultHasher::spec_finish(
                token_writes(
                    tokens.subrange(
                        blocks[b].start as int,
                        blocks[b].start + blocks[b].len,
                    ),
                ),
            ),
        ),
{
    let block = blocks[b];
    assert(is_detected_block(tokens, plus_token, cross_token, block));
    assert forall|i: int| block.start <= i < block.start + block.len implies #[trigger] tokens[i]
        != plus_token && tokens[i] != cross_token by {
        assert(!is_sentinel(tokens[i], plus_token, cross_token));
    }
    if b + 1 < blocks.len() {
        assert(blocks[b].end() < blocks[b + 1].start);
    }
}

/// Every token but the sentinels lies in a detected block.
pub proof fn law_detected_blocks_hold_all_content(
    tokens: Seq<u32>,
    plus_token: u32,
    cross_token: u32,
    blocks: Seq<PicBlock>,
    i: int,
)
    requires
        is_detection(tokens, plus_token, cross_token, blocks),
        0 <= i < tokens.len(),
        tokens[i] != plus_token,
        tokens[i] != cross_token,
    ensures
        exists|b: int|
            0 <= b < blocks.len() && (#[trigger] blocks[b]).start <= i < blocks[b].start
                + blocks[b].len,
{
    assert(!is_sentinel(tokens[i], plus_token, cross_token));
    law_tokens_lie_between_start_and_end(blocks, i);
}

/// Detected Plus blocks have the same key exactly where they hold the same tokens, but
/// for a collision of the hasher on what these feed it.
pub proof fn law_detected_blocks_are_keyed_by_content(
    tokens: Seq<u32>,
    blocks: Seq<PicBlock>,
    b: int,
    other_tokens: Seq<u32>,
    other_blocks: Seq<PicBlock>,
    c: int,
    plus_token: u32,
    cross_token: u32,
)
    requires
        is_detection(tokens, plus_token, cross_token, blocks),
        is_detection(other_tokens, plus_token, cross_token, other_blocks),
        plus_content_feeds_apart(tokens, blocks),
        0 <= b < blocks.len(),
        blocks[b].is_plus,
        0 <= c < other_blocks.len(),
        other_blocks[c].is_plus,
        ({
            let content = tokens.subrange(
                blocks[b].start as int,
                blocks[b].start + blocks[b].len,
            );
            let other = other_tokens.subrange(
                other_blocks[c].start as int,
                other_blocks[c].start + other_blocks[c].len,
            );
            DefaultHasher::spec_finish(token_writes(content)) == DefaultHasher::spec_finish(
                token_writes(other),
            ) ==> token_writes(content) == token_writes(other)
        }),
    ensures
        blocks[b].content_hash == other_blocks[c].content_hash <==> tokens.subrange(
            blocks[b].start as int,
            blocks[b].start + blocks[b].len,
        ) == other_tokens.subrange(
            other_blocks[c].start as int,
            other_blocks[c].start + other_blocks[c].len,
        ),
{
    law_detected_blocks_stand_between_sentinels(tokens, plus_token, cross_token, blocks, b);
    law_detected_blocks_stand_between_sentinels(
        other_tokens,
        plus_token,
        cross_token,
        other_blocks,
        c,
    );
}

/// The prompt of a head, which follows no sentinel, and of segments, each after the Plus
/// token (where its first part says so) or the Cross token.
pub open spec fn prompt(
    head: Seq<u32>,
    segments: Seq<(bool, Seq<u32>)>,
    plus_token: u32,
    cross_token: u32,
) -> Seq<u32>
    decreases segments.len(),
{
    if segments.len() == 0 {
        head
    } else {
        let sentinel = if segments.last().0 {
            plus_token
        } else {
            cross_token
        };
        prompt(head, segments.drop_last(), plus_token, cross_token).push(sentinel)
            + segments.last().1
    }
}

/// `blocks` are a Cross block of the head, where that is not empty, and after it one
/// block for each segment: of its kind, as long as it, and a Plus block keyed by the hash
/// of the segment's tokens.
pub open spec fn mirrors(
    blocks: Seq<PicBlock>,
    head: Seq<u32>,
    segments: Seq<(bool, Seq<u32>)>,
    plus_token: u32,
    cross_token: u32,
) -> bool {
    let first: int = if head.len() > 0 {
        1
    } else {
        0
    };
    &&& blocks.len() == first + segments.len()
    &&& head.len() > 0 ==> blocks[0].start == 0 && blocks[0].len == head.len() && !blocks[0].is_plus
        && blocks[0].content_hash is None
    &&& forall|b: int|
        first <= b < blocks.len() ==> mirrors_segment(
            #[trigger] blocks[b],
            segments[b - first],
            prompt(head, segments.take(b - first), plus_token, cross_token).len() + 1,
        )
}

/// `block` is the segment's block where its tokens start at `start`.
pub open spec fn mirrors_segment(block: PicBlock, segment: (bool, Seq<u32>), start: nat) -> bool {
    &&& block.start == start
    &&& block.len == segment.1.len()
    &&& block.is_plus == segment.0
    &&& block.is_plus ==> block.content_hash == Some(
        DefaultHasher::spec_finish(token_writes(segment.1)),
    )
    &&& !block.is_plus ==> block.content_hash is None
}

/// Detection gives back what a prompt was put together from.
pub proof fn law_detection_recovers_the_segments(
    head: Seq<u32>,
    segments: Seq<(bool, Seq<u32>)>,
    plus_token: u32,
    cross_token: u32,
    blocks: Seq<PicBlock>,
)
    requires
        plus_token != cross_token,
        !head.contains(plus_token),
        !head.contains(cross_token),
        forall|s: int|
            0 <= s < segments.len() ==> (#[trigger] segments[s]).1.len() > 0
                && !segments[s].1.contains(plus_token) && !segments[s].1.contains(cross_token),
        prompt(head, segments, plus_token, cross_token).len() <= usize::MAX,
        is_detection(
            prompt(head, segments, plus_token, cross_token),
            plus_token,
            cross_token,
            blocks,
        ),
    ensures
        mirrors(blocks, head, segments, plus_token, cross_token),
{
    let expected = lemma_prompt_is_detected(head, segments, plus_token, cross_token);
    law_detection_is_unique(
        prompt(head, segments, plus_token, cross_token),
        plus_token,
        cross_token,
        blocks,
        expected,
    );
}

/// The blocks that mirror a prompt are its detection.
proof fn lemma_prompt_is_detected(
    head: Seq<u32>,
    segments: Seq<(bool, Seq<u32>)>,
    plus_token: u32,
    cross_token: u32,
) -> (blocks: Seq<PicBlock>)
    requires
        plus_token != cross_token,
        !head.contains(plus_token),
        !head.contains(cross_token),
        forall|s: int|
            0 <= s < segments.len() ==> (#[trigger] segments[s]).1.len() > 0
                && !segments[s].1.contains(plus_token) && !segments[s].1.contains(cross_token),
        prompt(head, segments, plus_token, cross_token).len() <= usize::MAX,
    ensures
        is_detection(
            prompt(head, segments, plus_token, cross_token),
            plus_token,
            cross_token,
            blocks,
        ),
        mirrors(blocks, head, segments, plus_token, cross_token),
    decreases segments.len(),
{
    let tokens = prompt(head, segments, plus_token, cross_token);
    if segments.len() == 0 {
        assert forall|i: int| 0 <= i < tokens.len() implies !is_sentinel(
            #[trigger] tokens[i],
            plus_token,
            cross_token,
        ) by {
            assert(head.contains(head[i]));
        }
        if head.len() == 0 {
            Seq::empty()
        } else {
            let block = PicBlock {
                start: 0,
                len: head.len() as usize,
                is_plus: false,
                content_hash: None,
            };
            let blocks = seq![block];
            assert forall|i: int| 0 <= i < tokens.len() implies in_block(blocks, i) by {
                assert(blocks[0].spans(i));
            }
            blocks
        }
    } else {
        let last = segments.last();
        let front_segments = segments.drop_last();
        let front = prompt(head, front_segments, plus_token, cross_token);
        assert(segments[segments.len() - 1] == last);
        assert forall|s: int| 0 <= s < front_segments.len() implies (
        #[trigger] front_segments[s]).1.len() > 0 && !front_segments[s].1.contains(plus_token)
            && !front_segments[s].1.contains(cross_token) by {
            assert(front_segments[s] == segments[s]);
        }
        let before = lemma_prompt_is_detected(head, front_segments, plus_token, cross_token);
        let block = PicBlock {
            start: (front.len() + 1) as usize,
            len: last.1.len() as usize,
            is_plus: last.0,
            content_hash: if last.0 {
                Some(tokens_hash(last.1))
            } else {
                None
            },
        };
        let blocks = before.push(block);
        lemma_one_more_segment(front, last, plus_token, cross_token, before, block);
        lemma_mirrors_one_more(head, segments, plus_token, cross_token, before, block);
        blocks
    }
}

/// One more segment and its block.
proof fn lemma_mirrors_one_more(
    head: Seq<u32>,
    segments: Seq<(bool, Seq<u32>)>,
    plus_token: u32,
    cross_token: u32,
    before: Seq<PicBlock>,
    block: PicBlock,
)
    requires
        segments.len() > 0,
        mirrors(before, head, segments.drop_last(), plus_token, cross_token),
        block.start == prompt(head, segments.drop_last(), plus_token, cross_token).len() + 1,
        block.len == segments.last().1.len(),
        block.is_plus == segments.last().0,
        block.content_hash == if block.is_plus {
            Some(tokens_hash(segments.last().1))
        } else {
            None
        },
    ensures
        mirrors(before.push(block), head, segments, plus_token, cross_token),
{
    let blocks = before.push(block);
    let front = segments.drop_last();
    let first: int = if head.len() > 0 {
        1
    } else {
        0
    };
    assert(blocks.len() == first + segments.len());
    assert forall|b: int| first <= b < blocks.len() implies mirrors_segment(
        #[trigger] blocks[b],
        segments[b - first],
        prompt(head, segments.take(b - first), plus_token, cross_token).len() + 1,
    ) by {
        let s = b - first;
        if s < front.len() {
            assert(front[s] == segments[s]);
            assert(front.take(s) =~= segments.take(s));
            assert(blocks[b] == before[b]);
        } else {
            assert(segments.take(s) =~= front);
            assert(blocks[b] == block);
        }
    }
}

/// A sentinel and a segment after a sequence add the segment's block to the detection.
proof fn lemma_one_more_segment(
    front: Seq<u32>,
    segment: (bool, Seq<u32>),
    plus_token: u32,
    cross_token: u32,
    before: Seq<PicBlock>,
    block: PicBlock,
)
    requires
        plus_token != cross_token,
        is_detection(front, plus_token, cross_token, before),
        segment.1.len() > 0,
        !segment.1.contains(plus_token),
        !segment.1.contains(cross_token),
        block.start == front.len() + 1,
        block.len == segment.1.len(),
        block.is_plus == segment.0,
        block.content_hash == if segment.0 {
            Some(tokens_hash(segment.1))
        } else {
            None
        },
    ensures
        ({
            let sentinel = if segment.0 {
                plus_token
            } else {
                cross_token
            };
            is_detection(
                front.push(sentinel) + segment.1,
                plus_token,
                cross_token,
                before.push(block),
            )
        }),
{
    let sentinel = if segment.0 {
        plus_token
    } else {
        cross_token
    };
    let tokens = front.push(sentinel) + segment.1;
    let blocks = before.push(block);
    assert(tokens[front.len() as int] == sentinel);
    assert(tokens.subrange(block.start as int, block.end()) =~= segment.1);
    assert forall|i: int| block.start <= i < block.end() implies !is_sentinel(
        #[trigger] tokens[i],
        plus_token,
        cross_token,
    ) by {
        assert(segment.1.contains(segment.1[i - block.start]));
    }
    assert(is_detected_block(tokens, plus_token, cross_token, block));
    assert forall|b: int| 0 <= b < blocks.len() implies is_detected_block(
        tokens,
        plus_token,
        cross_token,
        #[trigger] blocks[b],
    ) && (b < before.len() ==> blocks[b].end() <= front.len()) by {
        if b < before.len() {
            let old_block = before[b];
            assert(is_detected_block(front, plus_token, cross_token, old_block));
            assert forall|i: int| 0 <= i < front.len() implies front[i] == #[trigger] tokens[i] by {
            }
            assert(tokens.subrange(old_block.start as int, old_block.end()) =~= front.subrange(
                old_block.start as int,
                old_block.end(),
            ));
            assert(is_run(
                tokens,
                plus_token,
                cross_token,
                old_block.start as int,
                old_block.end(),
            ));
        }
    }
    assert forall|b: int, c: int| 0 <= b < c < blocks.len() implies (#[trigger] blocks[b]).end() < (
    #[trigger] blocks[c]).start by {
        if c < before.len() {
            assert(before[b].end() < before[c].start);
        }
    }
    assert forall|i: int|
        0 <= i < tokens.len() && !is_sentinel(
            #[trigger] tokens[i],
            plus_token,
            cross_token,
        ) implies in_block(blocks, i) by {
        if i < front.len() {
            assert(front[i] == tokens[i]);
            assert(in_block(before, i));
            let b = choose|b: int| 0 <= b < before.len() && (#[trigger] before[b]).spans(i);
            assert(blocks[b].spans(i));
        } else {
            assert(blocks[before.len() as int].spans(i));
        }
    }
}

// ---------------------------------------------------------------------------
// Rotary embedding
// ---------------------------------------------------------------------------

/// There is a position for each token index from `from` up to `to`: the context's where
/// it has one, and past the context the index itself.
pub proof fn law_rope_positions_are_those_of_the_context(
    position_ids: Seq<usize>,
    from: int,
    to: int,
    i: int,
)
    requires
        0 <= from <= i < to <= usize::MAX,
    ensures
        rope_positions(position_ids, from, to).len() == to - from,
        i < position_ids.len() ==> rope_positions(position_ids, from, to)[i - from]
            == position_ids[i],
        i >= position_ids.len() ==> rope_positions(position_ids, from, to)[i - from] == i,
{
}

/// Some entry is deferred exactly where `true` is among the entries.
pub proof fn law_any_deferred_by_entries(is_deferred: Seq<bool>)
    ensures
        any_deferred(is_deferred) <==> is_deferred.contains(true),
{
    if any_deferred(is_deferred) {
        let i = choose|i: int| 0 <= i < is_deferred.len() && #[trigger] is_deferred[i];
        assert(is_deferred[i] == true);
    }
}

} // verus!
