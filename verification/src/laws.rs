//! What holds of the library as a whole.

use candle_core::{Error, Tensor};
use vstd::prelude::*;

use crate::attention::{
    attends_embedded, cache_fits, checked_deferred_outcome, deferred_outcome, embeds_at,
    new_tokens_fit, one_position_per_token, pre_roped_outcome, PicError, PicRope,
};
use crate::block::{
    blocks_disjoint, cross_before, extent, in_block, in_plus, is_plus_home, lemma_extent_bounds,
    lemma_first_block, lemma_plus_position, plus_disjoint, token_position, PicBlock,
};
use crate::context::PicContext;
use crate::detect::{is_detected_block, is_detection, is_run, is_sentinel};
use crate::mask::{attends, PicMask};
use crate::rope::{any_deferred, rope_positions};
use crate::tensor::tensor_dims;

verus! {

// ---------------------------------------------------------------------------
// Positions
// ---------------------------------------------------------------------------

/// Where no two Plus blocks overlap, the tokens of a Plus block have positions
/// `0..len`, wherever the block stands and whatever stands around it.
pub proof fn law_plus_positions_are_local(blocks: Seq<PicBlock>, b: int, offset: int)
    requires
        plus_disjoint(blocks),
        0 <= b < blocks.len(),
        blocks[b].is_plus,
        0 <= offset < blocks[b].len,
    ensures
        token_position(blocks, blocks[b].start + offset) == offset,
{
    let i = blocks[b].start + offset;
    assert(blocks[b].plus_spans(i));
    assert(is_plus_home(blocks, i, b));
    lemma_plus_position(blocks, i, b);
}

/// Embedding a context's keys gives the keys of a Plus block the positions `0..len`,
/// those at which they are embedded when the block is saved for reuse.
pub proof fn law_saved_keys_fit_every_context(ctx: PicContext, b: int)
    requires
        ctx.wf(),
        plus_disjoint(ctx.blocks@),
        0 <= b < ctx.blocks@.len(),
        ctx.blocks@[b].is_plus,
    ensures
        rope_positions(ctx.position_ids@, ctx.blocks@[b].start as int, ctx.blocks@[b].end())
            == Seq::new(ctx.blocks@[b].len as nat, |offset: int| offset as usize),
{
    let block = ctx.blocks@[b];
    let here = rope_positions(ctx.position_ids@, block.start as int, block.end());
    lemma_extent_bounds(ctx.blocks@, b);
    assert forall|offset: int| 0 <= offset < block.len implies #[trigger] here[offset]
        == offset as usize by {
        law_plus_positions_are_local(ctx.blocks@, b, offset);
        assert(ctx.position_ids@[block.start + offset] == token_position(
            ctx.blocks@,
            block.start + offset,
        ));
    }
    assert(here =~= Seq::new(block.len as nat, |offset: int| offset as usize));
}

/// Tokens outside Plus blocks are numbered one after the other: the first is zero,
/// a later one has a larger position, and the next one's is larger by one.
pub proof fn law_cross_positions_are_sequential(blocks: Seq<PicBlock>, i: int, j: int)
    requires
        0 <= i < j,
        !in_plus(blocks, i),
        !in_plus(blocks, j),
    ensures
        token_position(blocks, i) < token_position(blocks, j),
        (forall|m: int| i < m < j ==> in_plus(blocks, m)) ==> token_position(blocks, j)
            == token_position(blocks, i) + 1,
        (forall|m: int| 0 <= m < i ==> in_plus(blocks, m)) ==> token_position(blocks, i) == 0,
{
    lemma_cross_between(blocks, i + 1, j);
    lemma_cross_between(blocks, 0, i);
}

/// The rank among the tokens outside Plus blocks grows by one for each of these tokens.
pub proof fn lemma_cross_between(blocks: Seq<PicBlock>, i: int, j: int)
    requires
        0 <= i <= j,
    ensures
        cross_before(blocks, i) <= cross_before(blocks, j) <= cross_before(blocks, i) + j - i,
        (forall|m: int| i <= m < j ==> in_plus(blocks, m)) ==> cross_before(blocks, j)
            == cross_before(blocks, i),
    decreases j - i,
{
    if i < j {
        lemma_cross_between(blocks, i, j - 1);
    }
}

/// No position is larger than the token's index.
pub proof fn law_positions_are_bounded(blocks: Seq<PicBlock>, i: int)
    requires
        0 <= i,
    ensures
        0 <= token_position(blocks, i) <= i,
{
    lemma_cross_between(blocks, 0, i);
    if in_plus(blocks, i) {
        let b = lemma_first_block(blocks, |block: PicBlock| block.plus_spans(i));
        assert(is_plus_home(blocks, i, b));
        lemma_plus_position(blocks, i, b);
    }
}

/// Without Plus blocks every token's position is its index, and so is the position
/// that is embedded for it, within the context and past it.
pub proof fn law_without_plus_positions_are_indices(ctx: PicContext, from: int, to: int)
    requires
        ctx.wf(),
        forall|b: int| 0 <= b < ctx.blocks@.len() ==> !(#[trigger] ctx.blocks@[b]).is_plus,
        0 <= from <= to,
    ensures
        forall|i: int| 0 <= i ==> #[trigger] token_position(ctx.blocks@, i) == i,
        rope_positions(ctx.position_ids@, from, to) == Seq::new(
            (to - from) as nat,
            |i: int| (from + i) as usize,
        ),
{
    let blocks = ctx.blocks@;
    assert forall|i: int| 0 <= i implies #[trigger] token_position(blocks, i) == i by {
        assert(!in_plus(blocks, i));
        lemma_all_cross(blocks, i);
    }
    let here = rope_positions(ctx.position_ids@, from, to);
    assert forall|i: int| 0 <= i < to - from implies #[trigger] here[i] == (from + i) as usize by {
        if from + i < ctx.position_ids@.len() {
            assert(ctx.position_ids@[from + i] == token_position(blocks, from + i));
        }
    }
    assert(here =~= Seq::new((to - from) as nat, |i: int| (from + i) as usize));
}

proof fn lemma_all_cross(blocks: Seq<PicBlock>, n: int)
    requires
        0 <= n,
        forall|b: int| 0 <= b < blocks.len() ==> !(#[trigger] blocks[b]).is_plus,
    ensures
        cross_before(blocks, n) == n,
    decreases n,
{
    if n > 0 {
        assert(!in_plus(blocks, n - 1));
        lemma_all_cross(blocks, n - 1);
    }
}

// ---------------------------------------------------------------------------
// Attention mask
// ---------------------------------------------------------------------------

/// No token attends to a later one, and every token attends to itself.
pub proof fn law_mask_is_causal(blocks: Seq<PicBlock>, q: int, k: int)
    ensures
        attends(blocks, q, k) ==> k <= q,
        attends(blocks, q, q),
{
    if in_plus(blocks, q) {
        let b = lemma_first_block(blocks, |block: PicBlock| block.plus_spans(q));
        assert(is_plus_home(blocks, q, b));
    }
}

/// Where no two Plus blocks overlap, tokens of different Plus blocks do not attend to
/// one another.
pub proof fn law_plus_blocks_are_isolated(blocks: Seq<PicBlock>, b: int, c: int, q: int, k: int)
    requires
        plus_disjoint(blocks),
        0 <= b < blocks.len(),
        0 <= c < blocks.len(),
        b != c,
        blocks[b].plus_spans(q),
        blocks[c].plus_spans(k),
    ensures
        !attends(blocks, q, k),
        !attends(blocks, k, q),
{
    assert forall|d: int| is_plus_home(blocks, q, d) implies d == b by {
        assert(blocks[d].plus_spans(q));
    }
    assert forall|d: int| is_plus_home(blocks, k, d) implies d == c by {
        assert(blocks[d].plus_spans(k));
    }
}

/// Where no two Plus blocks overlap, attention within a Plus block is causal, by the
/// tokens' offsets alone.
pub proof fn law_plus_block_attends_to_itself(blocks: Seq<PicBlock>, b: int, q: int, k: int)
    requires
        plus_disjoint(blocks),
        0 <= b < blocks.len(),
        blocks[b].is_plus,
        0 <= q < blocks[b].len,
        0 <= k < blocks[b].len,
    ensures
        attends(blocks, blocks[b].start + q, blocks[b].start + k) <==> k <= q,
{
    let i = blocks[b].start + q;
    let j = blocks[b].start + k;
    assert(blocks[b].plus_spans(i) && blocks[b].plus_spans(j));
    assert(is_plus_home(blocks, i, b));
    assert(is_plus_home(blocks, j, b));
}

/// Where no two Plus blocks overlap, a token attends to itself and to every earlier
/// token but those of another Plus block when it stands in a Plus block itself.
pub proof fn law_mask_rule(blocks: Seq<PicBlock>, q: int, k: int)
    requires
        plus_disjoint(blocks),
    ensures
        attends(blocks, q, k) <==> k <= q && (in_plus(blocks, q) && in_plus(blocks, k) ==> exists|
            b: int,
        |
            0 <= b < blocks.len() && #[trigger] blocks[b].plus_spans(q) && blocks[b].plus_spans(k)),
{
    law_mask_is_causal(blocks, q, k);
    if in_plus(blocks, q) {
        let b = choose|b: int| 0 <= b < blocks.len() && (#[trigger] blocks[b]).plus_spans(q);
        assert(is_plus_home(blocks, q, b));
        if !in_plus(blocks, k) {
            if k <= q && k >= blocks[b].start {
                assert(blocks[b].plus_spans(k));
            }
        } else {
            let c = choose|c: int| 0 <= c < blocks.len() && (#[trigger] blocks[c]).plus_spans(k);
            if b != c {
                law_plus_blocks_are_isolated(blocks, b, c, q, k);
            } else {
                law_plus_block_attends_to_itself(
                    blocks,
                    b,
                    q - blocks[b].start,
                    k - blocks[b].start,
                );
            }
        }
    }
}

/// Without Plus blocks the mask is the standard causal one.
pub proof fn law_without_plus_mask_is_causal(blocks: Seq<PicBlock>, q: int, k: int)
    requires
        forall|b: int| 0 <= b < blocks.len() ==> !(#[trigger] blocks[b]).is_plus,
    ensures
        attends(blocks, q, k) <==> k <= q,
{
}

/// A token in a gap between blocks is numbered and attends as a Cross token does.
pub proof fn law_gap_tokens_are_cross(blocks: Seq<PicBlock>, i: int, k: int)
    requires
        !in_block(blocks, i),
    ensures
        token_position(blocks, i) == cross_before(blocks, i),
        attends(blocks, i, k) <==> k <= i,
{
    if in_plus(blocks, i) {
        let b = choose|b: int| 0 <= b < blocks.len() && (#[trigger] blocks[b]).plus_spans(i);
        assert(blocks[b].spans(i));
    }
}

/// Masking token by token or all at once is the same: the mask of new tokens after
/// cached ones holds the last rows of the mask of all of them.
pub proof fn law_mask_of_continuation(
    blocks: Seq<PicBlock>,
    step: PicMask,
    whole: PicMask,
    tgt_len: int,
    past_kv_len: int,
    i: int,
    j: int,
)
    requires
        0 <= past_kv_len,
        step.masks(blocks, tgt_len, past_kv_len),
        whole.masks(blocks, tgt_len + past_kv_len, 0),
        0 <= i < tgt_len,
        0 <= j < tgt_len + past_kv_len,
    ensures
        step.entry(i, j) == whole.entry(past_kv_len + i, j),
{
}

// ---------------------------------------------------------------------------
// Rotary embedding
// ---------------------------------------------------------------------------

/// A token is embedded at the same position whether its key is embedded when it is
/// appended or later together with the whole cache, and a query at the position of
/// its own key.
pub proof fn law_positions_do_not_depend_on_the_step(
    position_ids: Seq<usize>,
    from: int,
    to: int,
    total: int,
)
    requires
        0 <= from <= to <= total,
    ensures
        rope_positions(position_ids, from, to) == rope_positions(position_ids, 0, total).subrange(
            from,
            to,
        ),
{
    assert(rope_positions(position_ids, from, to) =~= rope_positions(
        position_ids,
        0,
        total,
    ).subrange(from, to));
}

/// Some entry is deferred after appending exactly where one was before or one of
/// the new entries is; an empty map has none.
pub proof fn law_deferred_entries_add_up(before: Seq<bool>, new: Seq<bool>)
    ensures
        any_deferred(before + new) <==> any_deferred(before) || any_deferred(new),
        !any_deferred(Seq::<bool>::empty()),
{
    let all = before + new;
    if any_deferred(before) {
        let i = choose|i: int| 0 <= i < before.len() && #[trigger] before[i];
        assert(all[i]);
    }
    if any_deferred(new) {
        let i = choose|i: int| 0 <= i < new.len() && #[trigger] new[i];
        assert(all[before.len() + i]);
    }
    if any_deferred(all) {
        let i = choose|i: int| 0 <= i < all.len() && #[trigger] all[i];
        if i < before.len() {
            assert(before[i]);
        } else {
            assert(new[i - before.len()]);
        }
    }
}

// ---------------------------------------------------------------------------
// Attention
// ---------------------------------------------------------------------------

/// The token indices from `from` up to `to`, the positions of standard attention.
pub open spec fn indices(from: int, to: int) -> Seq<usize> {
    Seq::new((to - from) as nat, |i: int| (from + i) as usize)
}

/// `out` is the outcome of standard attention over `s` tokens and nothing cached:
/// queries and keys are embedded at their indices, and attention runs over them.
pub open spec fn standard_outcome<R, S>(
    q: Tensor,
    k: Tensor,
    v: Tensor,
    s: int,
    rope: &R,
    mask: Option<&Tensor>,
    attend: S,
    out: Result<Tensor, PicError>,
) -> bool where
    R: PicRope + ?Sized,
    S: FnOnce(&Tensor, &Tensor, &Tensor, Option<&Tensor>) -> Result<Tensor, Error>,
 {
    exists|embedded: Result<(Tensor, Tensor), Error>|
        #[trigger] embeds_at(rope, q, k, indices(0, s), indices(0, s), embedded)
            && attends_embedded(embedded, v, mask, attend, out)
}

/// `append` on the cache `empty` succeeds and returns just what was appended.
pub open spec fn appends_to_empty<C, A>(append: A, empty: C) -> bool where
    A: FnOnce(&mut C, &Tensor, &Tensor) -> Result<(Tensor, Tensor), Error>,
 {
    forall|
        lent: &mut C,
        keys: &Tensor,
        values: &Tensor,
        cached: Result<(Tensor, Tensor), Error>,
    |
        *lent == empty && #[trigger] append.ensures((lent, keys, values), cached) ==> cached == Ok::<
            (Tensor, Tensor),
            Error,
        >((*keys, *values))
}

/// Without Plus blocks attention over an empty cache does what standard attention
/// does, whether keys are appended raw or embedded.
pub proof fn law_without_plus_attention_is_standard<R, C, A, S>(
    q: Tensor,
    k: Tensor,
    v: Tensor,
    ctx: PicContext,
    rope: &R,
    empty: C,
    append: A,
    mask: Option<&Tensor>,
    attend: S,
    out: Result<Tensor, PicError>,
) where
    R: PicRope + ?Sized,
    A: FnOnce(&mut C, &Tensor, &Tensor) -> Result<(Tensor, Tensor), Error>,
    S: FnOnce(&Tensor, &Tensor, &Tensor, Option<&Tensor>) -> Result<Tensor, Error>,

    requires
        ctx.wf(),
        forall|b: int| 0 <= b < ctx.blocks@.len() ==> !(#[trigger] ctx.blocks@[b]).is_plus,
        tensor_dims(q).len() > 2,
        tensor_dims(k).len() > 2,
        tensor_dims(k)[2] == tensor_dims(q)[2],
        appends_to_empty(append, empty),
        ctx.has_pre_roped_k ==> exists|lent: &mut C|
            *lent == empty && #[trigger] pre_roped_outcome(
                q,
                k,
                v,
                rope_positions(ctx.position_ids@, 0, tensor_dims(q)[2] as int),
                rope,
                append,
                lent,
                mask,
                attend,
                out,
            ),
        !ctx.has_pre_roped_k ==> exists|lent: &mut C|
            *lent == empty && #[trigger] deferred_outcome(
                q,
                k,
                v,
                ctx.position_ids@,
                rope,
                append,
                lent,
                mask,
                attend,
                out,
            ),
    ensures
        standard_outcome(q, k, v, tensor_dims(q)[2] as int, rope, mask, attend, out),
{
    let s = tensor_dims(q)[2] as int;
    law_without_plus_positions_are_indices(ctx, 0, s);
    assert(rope_positions(ctx.position_ids@, 0, s) =~= indices(0, s));
    assert(rope_positions(ctx.position_ids@, s - s, s) =~= indices(0, s));
}

/// The rotary embedding returns the same whenever it embeds these queries and keys at
/// the same positions.
pub open spec fn embeds_alike<R>(rope: &R, q: Tensor, k: Tensor) -> bool where
    R: PicRope + ?Sized,
 {
    forall|
        q_positions: Seq<usize>,
        k_positions: Seq<usize>,
        one: Result<(Tensor, Tensor), Error>,
        other: Result<(Tensor, Tensor), Error>,
    |
        #[trigger] embeds_at(rope, q, k, q_positions, k_positions, one) && #[trigger] embeds_at(
            rope,
            q,
            k,
            q_positions,
            k_positions,
            other,
        ) ==> one == other
}

/// Two attention kernels return the same for the same arguments.
pub open spec fn attend_alike<S, T>(one: S, other: T) -> bool where
    S: FnOnce(&Tensor, &Tensor, &Tensor, Option<&Tensor>) -> Result<Tensor, Error>,
    T: FnOnce(&Tensor, &Tensor, &Tensor, Option<&Tensor>) -> Result<Tensor, Error>,
 {
    forall|
        q: &Tensor,
        k: &Tensor,
        v: &Tensor,
        mask: Option<&Tensor>,
        a: Result<Tensor, Error>,
        b: Result<Tensor, Error>,
    |
        #[trigger] one.ensures((q, k, v, mask), a) && #[trigger] other.ensures((q, k, v, mask), b)
            ==> a == b
}

/// On an empty cache both ways of embedding give the same outcome. Where attention
/// succeeds, the caches differ in their keys only: raw keys where embedding is
/// deferred, embedded ones where it is not.
///
/// `held` reads the keys and values that a cache holds.
pub proof fn law_both_embeddings_agree<R, C, D, A, B, S, T>(
    q: Tensor,
    k: Tensor,
    v: Tensor,
    position_ids: Seq<usize>,
    rope: &R,
    mask: Option<&Tensor>,
    pre_empty: C,
    pre_after: C,
    pre_append: A,
    pre_attend: S,
    pre_held: spec_fn(C) -> (Tensor, Tensor),
    pre_out: Result<Tensor, PicError>,
    raw_empty: D,
    raw_after: D,
    raw_append: B,
    raw_attend: T,
    raw_held: spec_fn(D) -> (Tensor, Tensor),
    raw_out: Result<Tensor, PicError>,
) where
    R: PicRope + ?Sized,
    A: FnOnce(&mut C, &Tensor, &Tensor) -> Result<(Tensor, Tensor), Error>,
    B: FnOnce(&mut D, &Tensor, &Tensor) -> Result<(Tensor, Tensor), Error>,
    S: FnOnce(&Tensor, &Tensor, &Tensor, Option<&Tensor>) -> Result<Tensor, Error>,
    T: FnOnce(&Tensor, &Tensor, &Tensor, Option<&Tensor>) -> Result<Tensor, Error>,

    requires
        tensor_dims(q).len() > 2,
        tensor_dims(k).len() > 2,
        tensor_dims(k)[2] == tensor_dims(q)[2],
        embeds_alike(rope, q, k),
        attend_alike(pre_attend, raw_attend),
        // Appending to the empty caches returns, and leaves in them, what was appended.
        appends_to_empty(pre_append, pre_empty),
        appends_to_empty(raw_append, raw_empty),
        forall|lent: &mut C, keys: &Tensor, values: &Tensor, all: (Tensor, Tensor)|
            *lent == pre_empty && #[trigger] pre_append.ensures((lent, keys, values), Ok(all))
                ==> pre_held(*final(lent)) == all,
        forall|lent: &mut D, keys: &Tensor, values: &Tensor, all: (Tensor, Tensor)|
            *lent == raw_empty && #[trigger] raw_append.ensures((lent, keys, values), Ok(all))
                ==> raw_held(*final(lent)) == all,
        exists|lent: &mut C|
            *lent == pre_empty && *final(lent) == pre_after && #[trigger] pre_roped_outcome(
                q,
                k,
                v,
                rope_positions(position_ids, 0, tensor_dims(q)[2] as int),
                rope,
                pre_append,
                lent,
                mask,
                pre_attend,
                pre_out,
            ),
        exists|lent: &mut D|
            *lent == raw_empty && *final(lent) == raw_after && #[trigger] deferred_outcome(
                q,
                k,
                v,
                position_ids,
                rope,
                raw_append,
                lent,
                mask,
                raw_attend,
                raw_out,
            ),
    ensures
        pre_out == raw_out,
        raw_held(raw_after) == (k, v),
        pre_out is Ok ==> pre_held(pre_after).1 == v && exists|q_roped: Tensor|
            #[trigger] embeds_at(
                rope,
                q,
                k,
                rope_positions(position_ids, 0, tensor_dims(q)[2] as int),
                rope_positions(position_ids, 0, tensor_dims(q)[2] as int),
                Ok((q_roped, pre_held(pre_after).0)),
            ),
{
}

/// Where cached keys carry their embedding, the new queries and keys are embedded at the
/// new tokens' positions, the embedded keys and the values are appended, and attention
/// runs over the embedded queries and all keys and values of the cache, under the mask.
/// The first of these steps that fails decides the error.
///
/// `roped` is what the embedding returns for those arguments, `cached` what appending
/// its keys to the cache `before` returns.
pub proof fn law_pre_roped_steps<R, C, A, S>(
    q: Tensor,
    k: Tensor,
    v: Tensor,
    positions: Seq<usize>,
    rope: &R,
    before: C,
    append: A,
    mask: Option<&Tensor>,
    attend: S,
    out: Result<Tensor, PicError>,
    roped: Result<(Tensor, Tensor), Error>,
    cached: Result<(Tensor, Tensor), Error>,
) where
    R: PicRope + ?Sized,
    A: FnOnce(&mut C, &Tensor, &Tensor) -> Result<(Tensor, Tensor), Error>,
    S: FnOnce(&Tensor, &Tensor, &Tensor, Option<&Tensor>) -> Result<Tensor, Error>,

    requires
        forall|q_pos: &[usize], k_pos: &[usize], returned: Result<(Tensor, Tensor), Error>|
            q_pos@ == positions && k_pos@ == positions && #[trigger] call_ensures(
                R::pic_forward_per_token,
                (rope, &q, &k, q_pos, k_pos),
                returned,
            ) ==> returned == roped,
        roped matches Ok((_, k_roped)) ==> forall|
            lent: &mut C,
            returned: Result<(Tensor, Tensor), Error>,
        |
            *lent == before && #[trigger] append.ensures((lent, &k_roped, &v), returned) ==> returned
                == cached,
        exists|lent: &mut C|
            *lent == before && #[trigger] pre_roped_outcome(
                q,
                k,
                v,
                positions,
                rope,
                append,
                lent,
                mask,
                attend,
                out,
            ),
    ensures
        roped matches Err(e) ==> out == Err::<Tensor, PicError>(PicError::Rope(e)),
        roped is Ok && cached is Err ==> out == Err::<Tensor, PicError>(
            PicError::Cache(cached->Err_0),
        ),
        roped matches Ok((q_roped, _)) ==> (cached matches Ok((k_all, v_all)) ==> match out {
            Ok(t) => attend.ensures((&q_roped, &k_all, &v_all, mask), Ok(t)),
            Err(e) => (e is Attention) && attend.ensures(
                (&q_roped, &k_all, &v_all, mask),
                Err(e->Attention_0),
            ),
        }),
{
}

/// Where cached keys are raw, the raw keys and the values are appended, all keys of the
/// cache are embedded at the positions of its tokens and the queries at those of the last
/// of them, and attention runs over the embedded queries and keys and all values, under
/// the mask. The first of these steps that fails decides the error.
///
/// `cached` is what appending to the cache `before` returns, `roped` what the embedding
/// returns for the queries and those keys.
pub proof fn law_deferred_steps<R, C, A, S>(
    q: Tensor,
    k: Tensor,
    v: Tensor,
    position_ids: Seq<usize>,
    rope: &R,
    before: C,
    append: A,
    mask: Option<&Tensor>,
    attend: S,
    out: Result<Tensor, PicError>,
    cached: Result<(Tensor, Tensor), Error>,
    roped: Result<(Tensor, Tensor), Error>,
) where
    R: PicRope + ?Sized,
    A: FnOnce(&mut C, &Tensor, &Tensor) -> Result<(Tensor, Tensor), Error>,
    S: FnOnce(&Tensor, &Tensor, &Tensor, Option<&Tensor>) -> Result<Tensor, Error>,

    requires
        forall|lent: &mut C, returned: Result<(Tensor, Tensor), Error>|
            *lent == before && #[trigger] append.ensures((lent, &k, &v), returned) ==> returned
                == cached,
        cached matches Ok((k_all, _)) ==> forall|
            q_pos: &[usize],
            k_pos: &[usize],
            returned: Result<(Tensor, Tensor), Error>,
        |
            tensor_dims(k_all).len() > 2 && q_pos@ == rope_positions(
                position_ids,
                tensor_dims(k_all)[2] - tensor_dims(q)[2],
                tensor_dims(k_all)[2] as int,
            ) && k_pos@ == rope_positions(position_ids, 0, tensor_dims(k_all)[2] as int)
                && #[trigger] call_ensures(
                R::pic_forward_per_token,
                (rope, &q, &k_all, q_pos, k_pos),
                returned,
            ) ==> returned == roped,
        exists|lent: &mut C|
            *lent == before && #[trigger] deferred_outcome(
                q,
                k,
                v,
                position_ids,
                rope,
                append,
                lent,
                mask,
                attend,
                out,
            ),
    ensures
        cached matches Err(e) ==> out == Err::<Tensor, PicError>(PicError::Cache(e)),
        cached matches Ok((k_all, _)) ==> (tensor_dims(k_all).len() <= 2 ==> (out matches Err(
            PicError::Shape(_),
        ))),
        cached matches Ok((k_all, v_all)) ==> (tensor_dims(k_all).len() > 2 ==> match roped {
            Err(e) => out == Err::<Tensor, PicError>(PicError::Rope(e)),
            Ok((q_roped, k_roped)) => match out {
                Ok(t) => attend.ensures((&q_roped, &k_roped, &v_all, mask), Ok(t)),
                Err(e) => (e is Attention) && attend.ensures(
                    (&q_roped, &k_roped, &v_all, mask),
                    Err(e->Attention_0),
                ),
            },
        }),
{
}

/// The checked call on a cache of raw keys returns `None` exactly where the cache, once
/// appended to, does not go with the queries, and otherwise what the unchecked call may
/// return.
///
/// `cached` is what appending to the cache `before` returns.
pub proof fn law_checked_call_agrees_with_the_unchecked<R, C, A, S>(
    q: Tensor,
    k: Tensor,
    v: Tensor,
    position_ids: Seq<usize>,
    rope: &R,
    before: C,
    after: C,
    append: A,
    mask: Option<&Tensor>,
    attend: S,
    out: Option<Result<Tensor, PicError>>,
    cached: Result<(Tensor, Tensor), Error>,
) where
    R: PicRope + ?Sized,
    A: FnOnce(&mut C, &Tensor, &Tensor) -> Result<(Tensor, Tensor), Error>,
    S: FnOnce(&Tensor, &Tensor, &Tensor, Option<&Tensor>) -> Result<Tensor, Error>,

    requires
        forall|lent: &mut C, returned: Result<(Tensor, Tensor), Error>|
            *lent == before && #[trigger] append.ensures((lent, &k, &v), returned) ==> returned
                == cached,
        exists|lent: &mut C|
            *lent == before && *final(lent) == after && #[trigger] checked_deferred_outcome(
                q,
                k,
                v,
                position_ids,
                rope,
                append,
                lent,
                mask,
                attend,
                out,
            ),
    ensures
        out is None <==> (cached matches Ok((k_all, _)) && !(tensor_dims(q).len() > 2
            && tensor_dims(q)[0] == 1 && (tensor_dims(k_all).len() <= 2 || tensor_dims(k_all)[0]
            == 1 && tensor_dims(q)[2] <= tensor_dims(k_all)[2]))),
        out matches Some(done) ==> exists|lent: &mut C|
            *lent == before && *final(lent) == after && #[trigger] deferred_outcome(
                q,
                k,
                v,
                position_ids,
                rope,
                append,
                lent,
                mask,
                attend,
                done,
            ),
{
    let lent = choose|lent: &mut C|
        *lent == before && *final(lent) == after && #[trigger] checked_deferred_outcome(
            q,
            k,
            v,
            position_ids,
            rope,
            append,
            lent,
            mask,
            attend,
            out,
        );
    assert(append.ensures((lent, &k, &v), cached));
    if let Some(done) = out {
        assert(deferred_outcome(
            q,
            k,
            v,
            position_ids,
            rope,
            append,
            lent,
            mask,
            attend,
            done,
        ));
    }
}

/// New tokens can be embedded exactly where queries and keys are single batches of the
/// same number of tokens whose indices are machine integers; queries go with a cache
/// exactly where both are single batches and the cache holds as many tokens at least, or
/// has no token axis, which is reported as an error of its own.
pub proof fn law_shapes_that_fit(q: Tensor, k: Tensor, past_kv_len: int)
    ensures
        new_tokens_fit(q, k, past_kv_len) <==> tensor_dims(q).len() > 2 && tensor_dims(k).len() > 2
            && tensor_dims(q)[0] == 1 && tensor_dims(k)[0] == 1 && tensor_dims(q)[2] == tensor_dims(
            k,
        )[2] && past_kv_len + tensor_dims(q)[2] <= usize::MAX,
        cache_fits(q, k) <==> tensor_dims(q).len() > 2 && tensor_dims(q)[0] == 1 && (tensor_dims(
            k,
        ).len() <= 2 || tensor_dims(k)[0] == 1 && tensor_dims(q)[2] <= tensor_dims(k)[2]),
{
}

/// The positions that are embedded for the new tokens and for a whole cache that fits
/// are as many as the embedding asks for.
pub proof fn law_positions_go_with_the_tokens(
    q: Tensor,
    k: Tensor,
    position_ids: Seq<usize>,
    past_kv_len: int,
)
    requires
        tensor_dims(q).len() > 2,
        tensor_dims(k).len() > 2,
        tensor_dims(q)[2] <= tensor_dims(k)[2],
    ensures
        forall|positions: Seq<usize>| #[trigger]
            one_position_per_token(q, positions) <==> positions.len() == tensor_dims(q)[2],
        one_position_per_token(
            q,
            rope_positions(position_ids, past_kv_len, past_kv_len + tensor_dims(q)[2]),
        ),
        one_position_per_token(
            q,
            rope_positions(
                position_ids,
                tensor_dims(k)[2] - tensor_dims(q)[2],
                tensor_dims(k)[2] as int,
            ),
        ),
        one_position_per_token(k, rope_positions(position_ids, 0, tensor_dims(k)[2] as int)),
{
}

// ---------------------------------------------------------------------------
// Detection
// ---------------------------------------------------------------------------

/// Detected blocks do not overlap, end within the sequence, and hold every token
/// but the sentinels.
pub proof fn law_detection_partitions_tokens(
    tokens: Seq<u32>,
    plus_token: u32,
    cross_token: u32,
    blocks: Seq<PicBlock>,
)
    requires
        is_detection(tokens, plus_token, cross_token, blocks),
    ensures
        blocks_disjoint(blocks),
        plus_disjoint(blocks),
        extent(blocks) <= tokens.len(),
        forall|i: int|
            0 <= i < tokens.len() ==> (in_block(blocks, i) <==> !is_sentinel(
                #[trigger] tokens[i],
                plus_token,
                cross_token,
            )),
{
    assert forall|b: int, c: int, i: int|
        0 <= b < blocks.len() && 0 <= c < blocks.len() && #[trigger] blocks[b].spans(i)
            && #[trigger] blocks[c].spans(i) implies b == c by {
        if b < c {
            assert(blocks[b].end() < blocks[c].start);
        } else if c < b {
            assert(blocks[c].end() < blocks[b].start);
        }
    }
    assert forall|b: int, c: int, i: int|
        0 <= b < blocks.len() && 0 <= c < blocks.len() && #[trigger] blocks[b].plus_spans(i)
            && #[trigger] blocks[c].plus_spans(i) implies b == c by {
        assert(blocks[b].spans(i) && blocks[c].spans(i));
    }
    lemma_extent_at_most(blocks, tokens.len() as int);
}

proof fn lemma_extent_at_most(blocks: Seq<PicBlock>, bound: int)
    requires
        0 <= bound,
        forall|b: int| 0 <= b < blocks.len() ==> (#[trigger] blocks[b]).end() <= bound,
    ensures
        extent(blocks) <= bound,
    decreases blocks.len(),
{
    if blocks.len() > 0 {
        lemma_extent_at_most(blocks.drop_last(), bound);
        assert(blocks[blocks.len() - 1].end() <= bound);
    }
}

/// A Plus block's content hash depends on its tokens alone: blocks with the same
/// tokens have the same hash, in whichever sequence and wherever in it they stand.
pub proof fn law_content_hash_is_position_independent(
    tokens: Seq<u32>,
    block: PicBlock,
    other_tokens: Seq<u32>,
    other: PicBlock,
    plus_token: u32,
    cross_token: u32,
)
    requires
        is_detected_block(tokens, plus_token, cross_token, block),
        is_detected_block(other_tokens, plus_token, cross_token, other),
        block.is_plus,
        other.is_plus,
        tokens.subrange(block.start as int, block.end()) == other_tokens.subrange(
            other.start as int,
            other.end(),
        ),
    ensures
        block.content_hash is Some,
        block.content_hash == other.content_hash,
{
}

/// A token sequence has one detection.
pub proof fn law_detection_is_unique(
    tokens: Seq<u32>,
    plus_token: u32,
    cross_token: u32,
    blocks: Seq<PicBlock>,
    other: Seq<PicBlock>,
)
    requires
        is_detection(tokens, plus_token, cross_token, blocks),
        is_detection(tokens, plus_token, cross_token, other),
    ensures
        blocks == other,
{
    lemma_common_prefix(
        tokens,
        plus_token,
        cross_token,
        blocks,
        other,
        if blocks.len() < other.len() {
            blocks.len() as int
        } else {
            other.len() as int
        },
    );
    if blocks.len() < other.len() {
        let n = blocks.len() as int;
        let c = lemma_run_is_found(tokens, plus_token, cross_token, other[n], blocks);
        assert(other[c] == other[n]);
        assert(other[c].end() < other[n].start);
    } else if other.len() < blocks.len() {
        let n = other.len() as int;
        let c = lemma_run_is_found(tokens, plus_token, cross_token, blocks[n], other);
        assert(blocks[c] == blocks[n]);
        assert(blocks[c].end() < blocks[n].start);
    }
    assert(blocks =~= other);
}

/// Two detections agree on their first `n` blocks.
proof fn lemma_common_prefix(
    tokens: Seq<u32>,
    plus_token: u32,
    cross_token: u32,
    blocks: Seq<PicBlock>,
    other: Seq<PicBlock>,
    n: int,
)
    requires
        is_detection(tokens, plus_token, cross_token, blocks),
        is_detection(tokens, plus_token, cross_token, other),
        0 <= n <= blocks.len(),
        n <= other.len(),
    ensures
        forall|b: int| 0 <= b < n ==> #[trigger] blocks[b] == other[b],
    decreases n,
{
    if n > 0 {
        lemma_common_prefix(tokens, plus_token, cross_token, blocks, other, n - 1);
        let m = n - 1;
        let c = lemma_run_is_found(tokens, plus_token, cross_token, blocks[m], other);
        let d = lemma_run_is_found(tokens, plus_token, cross_token, other[m], blocks);
        if c < m {
            assert(blocks[c] == other[c]);
            assert(blocks[c].end() < blocks[m].start);
        }
        if d < m {
            assert(blocks[d] == other[d]);
            assert(other[d].end() < other[m].start);
        }
        if c > m {
            assert(other[m].end() < other[c].start);
            if d > m {
                assert(blocks[m].end() < blocks[d].start);
            }
        }
    }
}

/// A run of the sequence is among the blocks of a detection.
proof fn lemma_run_is_found(
    tokens: Seq<u32>,
    plus_token: u32,
    cross_token: u32,
    block: PicBlock,
    blocks: Seq<PicBlock>,
) -> (c: int)
    requires
        is_detected_block(tokens, plus_token, cross_token, block),
        is_detection(tokens, plus_token, cross_token, blocks),
    ensures
        0 <= c < blocks.len(),
        blocks[c] == block,
{
    let i = block.start as int;
    assert(!is_sentinel(tokens[i], plus_token, cross_token));
    let c = choose|c: int| 0 <= c < blocks.len() && (#[trigger] blocks[c]).spans(i);
    let found = blocks[c];
    assert(is_run(tokens, plus_token, cross_token, found.start as int, found.end()));
    if found.start < block.start {
        assert(!is_sentinel(tokens[block.start - 1], plus_token, cross_token));
    }
    if found.end() < block.end() {
        assert(!is_sentinel(tokens[found.end()], plus_token, cross_token));
    }
    if block.end() < found.end() {
        assert(!is_sentinel(tokens[block.end()], plus_token, cross_token));
    }
    c
}

} // verus!
