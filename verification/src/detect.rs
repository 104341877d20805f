//! Detection of blocks by sentinel tokens in a token sequence.

use vstd::prelude::*;

use crate::block::{blocks_fit, in_block, PicBlock};
use crate::hash::{content_hash_tokens, tokens_feed_apart, tokens_hash};
use crate::results::law_sentinels_are_the_two_tokens;

verus! {

/// `token` is one of the two sentinels.
pub open spec fn is_sentinel(token: u32, plus_token: u32, cross_token: u32) -> bool {
    token == plus_token || token == cross_token
}

/// Some token of the sequence is a sentinel.
pub open spec fn has_sentinel(tokens: Seq<u32>, plus_token: u32, cross_token: u32) -> bool {
    exists|i: int|
        0 <= i < tokens.len() && is_sentinel(#[trigger] tokens[i], plus_token, cross_token)
}

/// Some token of the sequence is no sentinel.
pub open spec fn has_content(tokens: Seq<u32>, plus_token: u32, cross_token: u32) -> bool {
    exists|i: int|
        0 <= i < tokens.len() && !is_sentinel(#[trigger] tokens[i], plus_token, cross_token)
}

/// The tokens from `start` up to `end` are a longest run without a sentinel.
pub open spec fn is_run(
    tokens: Seq<u32>,
    plus_token: u32,
    cross_token: u32,
    start: int,
    end: int,
) -> bool {
    &&& 0 <= start < end <= tokens.len()
    &&& start > 0 ==> is_sentinel(tokens[start - 1], plus_token, cross_token)
    &&& end < tokens.len() ==> is_sentinel(tokens[end], plus_token, cross_token)
    &&& forall|i: int|
        start <= i < end ==> !is_sentinel(#[trigger] tokens[i], plus_token, cross_token)
}

/// `block` is a run of the sequence: a Plus block, keyed by the hash of its tokens,
/// where the sentinel before it is the Plus sentinel, and otherwise a Cross block.
pub open spec fn is_detected_block(
    tokens: Seq<u32>,
    plus_token: u32,
    cross_token: u32,
    block: PicBlock,
) -> bool {
    &&& is_run(tokens, plus_token, cross_token, block.start as int, block.end())
    &&& block.is_plus == (block.start > 0 && tokens[block.start - 1] == plus_token)
    &&& block.content_hash == if block.is_plus {
        Some(tokens_hash(tokens.subrange(block.start as int, block.end())))
    } else {
        None
    }
}

/// `blocks` are the runs of the sequence, all of them, in order.
pub open spec fn is_detection(
    tokens: Seq<u32>,
    plus_token: u32,
    cross_token: u32,
    blocks: Seq<PicBlock>,
) -> bool {
    &&& forall|b: int|
        0 <= b < blocks.len() ==> is_detected_block(
            tokens,
            plus_token,
            cross_token,
            #[trigger] blocks[b],
        )
    &&& forall|b: int, c: int|
        0 <= b < c < blocks.len() ==> (#[trigger] blocks[b]).end() < (#[trigger] blocks[c]).start
    &&& forall|i: int|
        0 <= i < tokens.len() && !is_sentinel(#[trigger] tokens[i], plus_token, cross_token)
            ==> in_block(blocks, i)
}

/// No other token sequence would feed a hasher what a Plus block's tokens feed it.
pub open spec fn plus_content_feeds_apart(tokens: Seq<u32>, blocks: Seq<PicBlock>) -> bool {
    forall|b: int|
        0 <= b < blocks.len() && (#[trigger] blocks[b]).is_plus ==> tokens_feed_apart(
            tokens.subrange(blocks[b].start as int, blocks[b].end()),
        )
}

/// Scans a token sequence for Plus and Cross sentinels and returns its blocks.
///
/// The blocks cover the whole sequence but for the sentinels themselves; tokens
/// before the first sentinel form a Cross block. Returns `None` where there is no
/// sentinel, or nothing but sentinels.
pub fn detect_pic_blocks(tokens: &[u32], plus_token: u32, cross_token: u32) -> (found: Option<
    Vec<PicBlock>,
>)
    ensures
        found is Some <==> has_sentinel(tokens@, plus_token, cross_token) && has_content(
            tokens@,
            plus_token,
            cross_token,
        ),
        found is Some <==> (tokens@.contains(plus_token) || tokens@.contains(cross_token)) && exists|
            i: int,
        |
            0 <= i < tokens@.len() && #[trigger] tokens@[i] != plus_token && tokens@[i]
                != cross_token,
        found matches Some(blocks) ==> is_detection(tokens@, plus_token, cross_token, blocks@)
            && blocks@.len() > 0 && blocks_fit(blocks@),
        found matches Some(blocks) ==> plus_content_feeds_apart(tokens@, blocks@),
{
    proof {
        law_sentinels_are_the_two_tokens(tokens@, plus_token, cross_token);
    }
    if !contains_sentinel(tokens, plus_token, cross_token) {
        return None;
    }
    let mut blocks: Vec<PicBlock> = Vec::new();
    let mut current_start: usize = 0;
    let mut current_is_plus = false;
    let mut i: usize = 0;
    while i < tokens.len()
        invariant
            current_start <= i <= tokens@.len(),
            scanned(
                tokens@,
                plus_token,
                cross_token,
                blocks@,
                current_start as int,
                current_is_plus,
                i as int,
            ),
            blocks_fit(blocks@),
            plus_content_feeds_apart(tokens@, blocks@),
        decreases tokens@.len() - i,
    {
        if tokens[i] == plus_token || tokens[i] == cross_token {
            // Close the current block if it holds a token.
            if i > current_start {
                let block = close_block(tokens, current_start, i, current_is_plus);
                let ghost earlier = blocks@;
                blocks.push(block);
                proof {
                    lemma_push_block(
                        tokens@,
                        plus_token,
                        cross_token,
                        earlier,
                        current_start as int,
                        current_is_plus,
                        i as int,
                        block,
                    );
                }
            }
            // A new block starts after this sentinel.
            current_is_plus = tokens[i] == plus_token;
            current_start = i + 1;
        }
        i = i + 1;
    }
    if i > current_start {
        let block = close_block(tokens, current_start, i, current_is_plus);
        let ghost earlier = blocks@;
        blocks.push(block);
        proof {
            lemma_push_block(
                tokens@,
                plus_token,
                cross_token,
                earlier,
                current_start as int,
                current_is_plus,
                i as int,
                block,
            );
        }
    }
    if blocks.is_empty() {
        None
    } else {
        assert(!is_sentinel(tokens@[blocks@[0].start as int], plus_token, cross_token));
        Some(blocks)
    }
}

/// Whether some token is a sentinel.
fn contains_sentinel(tokens: &[u32], plus_token: u32, cross_token: u32) -> (found: bool)
    ensures
        found == has_sentinel(tokens@, plus_token, cross_token),
{
    let mut i: usize = 0;
    while i < tokens.len()
        invariant
            i <= tokens@.len(),
            forall|j: int|
                0 <= j < i ==> !is_sentinel(#[trigger] tokens@[j], plus_token, cross_token),
        decreases tokens@.len() - i,
    {
        if tokens[i] == plus_token || tokens[i] == cross_token {
            assert(is_sentinel(tokens@[i as int], plus_token, cross_token));
            return true;
        }
        i = i + 1;
    }
    false
}

/// The block of the tokens from `start` up to `end`.
fn close_block(tokens: &[u32], start: usize, end: usize, is_plus: bool) -> (block: PicBlock)
    requires
        start <= end <= tokens@.len(),
    ensures
        block.start == start,
        block.end() == end,
        block.is_plus == is_plus,
        is_plus ==> tokens_feed_apart(tokens@.subrange(start as int, end as int)),
        block.content_hash == if is_plus {
            Some(tokens_hash(tokens@.subrange(start as int, end as int)))
        } else {
            None
        },
{
    if is_plus {
        PicBlock::plus(start, end - start, content_hash_tokens(&tokens[start..end]))
    } else {
        PicBlock::cross(start, end - start)
    }
}

/// The scan has reached index `i`, with the run that started at `start` still open
/// and `blocks` holding the runs before it.
spec fn scanned(
    tokens: Seq<u32>,
    plus_token: u32,
    cross_token: u32,
    blocks: Seq<PicBlock>,
    start: int,
    is_plus: bool,
    i: int,
) -> bool {
    &&& 0 <= start <= i <= tokens.len()
    &&& start > 0 ==> is_sentinel(tokens[start - 1], plus_token, cross_token)
    &&& is_plus == (start > 0 && tokens[start - 1] == plus_token)
    &&& forall|j: int|
        start <= j < i ==> !is_sentinel(#[trigger] tokens[j], plus_token, cross_token)
    &&& forall|b: int|
        0 <= b < blocks.len() ==> is_detected_block(
            tokens,
            plus_token,
            cross_token,
            #[trigger] blocks[b],
        ) && blocks[b].end() < start
    &&& forall|b: int, c: int|
        0 <= b < c < blocks.len() ==> (#[trigger] blocks[b]).end() < (#[trigger] blocks[c]).start
    &&& forall|j: int|
        0 <= j < start && !is_sentinel(#[trigger] tokens[j], plus_token, cross_token) ==> in_block(
            blocks,
            j,
        )
}

/// Closing the open run at `end` adds it to the runs found so far.
proof fn lemma_push_block(
    tokens: Seq<u32>,
    plus_token: u32,
    cross_token: u32,
    blocks: Seq<PicBlock>,
    start: int,
    is_plus: bool,
    end: int,
    block: PicBlock,
)
    requires
        scanned(tokens, plus_token, cross_token, blocks, start, is_plus, end),
        block.start == start,
        block.end() == end,
        is_detected_block(tokens, plus_token, cross_token, block),
    ensures
        forall|b: int|
            0 <= b < blocks.len() + 1 ==> is_detected_block(
                tokens,
                plus_token,
                cross_token,
                #[trigger] blocks.push(block)[b],
            ) && blocks.push(block)[b].end() <= end,
        forall|b: int, c: int|
            0 <= b < c < blocks.len() + 1 ==> (#[trigger] blocks.push(block)[b]).end() < (
            #[trigger] blocks.push(block)[c]).start,
        forall|j: int|
            0 <= j < end && !is_sentinel(#[trigger] tokens[j], plus_token, cross_token)
                ==> in_block(blocks.push(block), j),
{
    let all = blocks.push(block);
    assert forall|j: int|
        0 <= j < end && !is_sentinel(#[trigger] tokens[j], plus_token, cross_token) implies in_block(
        all,
        j,
    ) by {
        if j < start {
            let b = choose|b: int| 0 <= b < blocks.len() && (#[trigger] blocks[b]).spans(j);
            assert(all[b].spans(j));
        } else {
            assert(all[blocks.len() as int].spans(j));
        }
    }
}

} // verus!
