//! Attention with deferred rotary embedding.

use candle_core::{Error, Tensor};
use vstd::prelude::*;

use crate::context::PicContext;
use crate::rope::{compute_pic_rope_positions, rope_positions, rope_positions_between};
use crate::tensor::{tensor_dim, tensor_dims};

verus! {

/// A rotary embedding that takes a position for each token.
pub trait PicRope: Send + Sync {
    /// Embeds queries and keys at the given positions.
    ///
    /// The batch size must be one, and there is one position for each token of `q`
    /// and of `k`.
    fn pic_forward_per_token(
        &self,
        q: &Tensor,
        k: &Tensor,
        q_positions: &[usize],
        k_positions: &[usize],
    ) -> (out: Result<(Tensor, Tensor), Error>)
        requires
            one_position_per_token(*q, q_positions@),
            one_position_per_token(*k, k_positions@),
            tensor_dims(*q)[0] == 1,
            tensor_dims(*k)[0] == 1,
    ;

    /// Embeds keys at the given positions, one for each token.
    ///
    /// For keys that are embedded when a block is saved for reuse.
    fn pic_forward_k_only(&self, k: &Tensor, k_positions: &[usize]) -> (out: Result<Tensor, Error>)
        requires
            one_position_per_token(*k, k_positions@),
    ;
}

/// The tensor, of shape `(batch, heads, seq_len, head_dim)`, has as many tokens as
/// there are positions.
pub open spec fn one_position_per_token(tensor: Tensor, positions: Seq<usize>) -> bool {
    &&& tensor_dims(tensor).len() > 2
    &&& tensor_dims(tensor)[2] == positions.len()
}

/// Why attention failed: the step and the tensor library's error.
#[derive(Debug)]
pub enum PicError {
    /// A tensor has no token axis.
    Shape(Error),
    /// Appending to the key/value cache failed.
    Cache(Error),
    /// The rotary embedding failed.
    Rope(Error),
    /// The attention itself failed.
    Attention(Error),
}

/// `embedded` is what the rotary embedding may return for these queries and keys
/// at these positions.
pub open spec fn embeds_at<R>(
    rope: &R,
    q: Tensor,
    k: Tensor,
    q_positions: Seq<usize>,
    k_positions: Seq<usize>,
    embedded: Result<(Tensor, Tensor), Error>,
) -> bool where R: PicRope + ?Sized {
    exists|q_pos: &[usize], k_pos: &[usize]|
        q_pos@ == q_positions && k_pos@ == k_positions && #[trigger] call_ensures(
            R::pic_forward_per_token,
            (rope, &q, &k, q_pos, k_pos),
            embedded,
        )
}

/// `out` is the outcome of attention over these embedded queries and keys.
pub open spec fn attends_with<S>(
    attend: S,
    q_roped: Tensor,
    k_roped: Tensor,
    v_all: Tensor,
    mask: Option<&Tensor>,
    out: Result<Tensor, PicError>,
) -> bool where S: FnOnce(&Tensor, &Tensor, &Tensor, Option<&Tensor>) -> Result<Tensor, Error> {
    match out {
        Ok(t) => attend.ensures((&q_roped, &k_roped, &v_all, mask), Ok(t)),
        Err(PicError::Attention(e)) => attend.ensures(
            (&q_roped, &k_roped, &v_all, mask),
            Err(e),
        ),
        Err(_) => false,
    }
}

/// `out` is the outcome where cached keys carry their embedding, once the new
/// tokens are embedded: the embedded keys are appended to the cache, lent to `append`
/// as `lent`, and attention runs over all that the cache then holds.
pub open spec fn appends_embedded<C, A, S>(
    embedded: Result<(Tensor, Tensor), Error>,
    v: Tensor,
    append: A,
    lent: &mut C,
    mask: Option<&Tensor>,
    attend: S,
    out: Result<Tensor, PicError>,
) -> bool where
    A: FnOnce(&mut C, &Tensor, &Tensor) -> Result<(Tensor, Tensor), Error>,
    S: FnOnce(&Tensor, &Tensor, &Tensor, Option<&Tensor>) -> Result<Tensor, Error>,
 {
    match embedded {
        Err(e) => out == Err::<Tensor, PicError>(PicError::Rope(e)),
        Ok((q_roped, k_roped)) => exists|cached: Result<(Tensor, Tensor), Error>|
            #[trigger] append.ensures((lent, &k_roped, &v), cached) && match cached {
                Err(e) => out == Err::<Tensor, PicError>(PicError::Cache(e)),
                Ok((k_all, v_all)) => attends_with(attend, q_roped, k_all, v_all, mask, out),
            },
    }
}

/// `out` is the outcome where cached keys carry their embedding: the new tokens'
/// queries and keys are embedded, both at `positions`, and then appended.
pub open spec fn pre_roped_outcome<R, C, A, S>(
    q: Tensor,
    k: Tensor,
    v: Tensor,
    positions: Seq<usize>,
    rope: &R,
    append: A,
    lent: &mut C,
    mask: Option<&Tensor>,
    attend: S,
    out: Result<Tensor, PicError>,
) -> bool where
    R: PicRope + ?Sized,
   
    A: FnOnce(&mut C, &Tensor, &Tensor) -> Result<(Tensor, Tensor), Error>,
    S: FnOnce(&Tensor, &Tensor, &Tensor, Option<&Tensor>) -> Result<Tensor, Error>,
 {
    exists|embedded: Result<(Tensor, Tensor), Error>|
        #[trigger] embeds_at(rope, q, k, positions, positions, embedded)
            && appends_embedded(embedded, v, append, lent, mask, attend, out)
}

/// `out` is the outcome where cached keys are raw, once `q` and all keys of the
/// cache are embedded: attention runs over them.
pub open spec fn attends_embedded<S>(
    embedded: Result<(Tensor, Tensor), Error>,
    v_all: Tensor,
    mask: Option<&Tensor>,
    attend: S,
    out: Result<Tensor, PicError>,
) -> bool where S: FnOnce(&Tensor, &Tensor, &Tensor, Option<&Tensor>) -> Result<Tensor, Error> {
    match embedded {
        Err(e) => out == Err::<Tensor, PicError>(PicError::Rope(e)),
        Ok((q_roped, k_roped)) => attends_with(attend, q_roped, k_roped, v_all, mask, out),
    }
}

/// `out` is the outcome where cached keys are raw, once the new keys are appended:
/// every key `k_all` that the cache then holds is embedded at its own position,
/// together with the new tokens' queries, which stand last.
pub open spec fn embeds_cache<R, S>(
    q: Tensor,
    k_all: Tensor,
    v_all: Tensor,
    position_ids: Seq<usize>,
    rope: &R,
    mask: Option<&Tensor>,
    attend: S,
    out: Result<Tensor, PicError>,
) -> bool where
    R: PicRope + ?Sized,
    S: FnOnce(&Tensor, &Tensor, &Tensor, Option<&Tensor>) -> Result<Tensor, Error> {
    if tensor_dims(k_all).len() <= 2 {
        out matches Err(PicError::Shape(_))
    } else {
        exists|embedded: Result<(Tensor, Tensor), Error>|
            #[trigger] embeds_at(
                rope,
                q,
                k_all,
                rope_positions(
                    position_ids,
                    tensor_dims(k_all)[2] - tensor_dims(q)[2],
                    tensor_dims(k_all)[2] as int,
                ),
                rope_positions(position_ids, 0, tensor_dims(k_all)[2] as int),
                embedded,
            ) && attends_embedded(embedded, v_all, mask, attend, out)
    }
}

/// `out` is the outcome where cached keys are raw: the raw keys are appended to
/// the cache, lent to `append` as `lent`, and what the cache then holds is embedded.
pub open spec fn deferred_outcome<R, C, A, S>(
    q: Tensor,
    k: Tensor,
    v: Tensor,
    position_ids: Seq<usize>,
    rope: &R,
    append: A,
    lent: &mut C,
    mask: Option<&Tensor>,
    attend: S,
    out: Result<Tensor, PicError>,
) -> bool where
    R: PicRope + ?Sized,
   
    A: FnOnce(&mut C, &Tensor, &Tensor) -> Result<(Tensor, Tensor), Error>,
    S: FnOnce(&Tensor, &Tensor, &Tensor, Option<&Tensor>) -> Result<Tensor, Error>,
 {
    exists|cached: Result<(Tensor, Tensor), Error>|
        #[trigger] append.ensures((lent, &k, &v), cached) && match cached {
            Err(e) => out == Err::<Tensor, PicError>(PicError::Cache(e)),
            Ok((k_all, v_all)) => embeds_cache(
                q,
                k_all,
                v_all,
                position_ids,
                rope,
                mask,
                attend,
                out,
            ),
        }
}

/// The new tokens can be embedded on their own: queries and keys are batches of
/// one with the same number of tokens, and token indices are machine integers.
pub open spec fn new_tokens_fit(q: Tensor, k: Tensor, past_kv_len: int) -> bool {
    &&& tensor_dims(q).len() > 2
    &&& tensor_dims(q)[0] == 1
    &&& tensor_dims(k).len() > 2
    &&& tensor_dims(k)[0] == 1
    &&& tensor_dims(k)[2] == tensor_dims(q)[2]
    &&& past_kv_len + tensor_dims(q)[2] <= usize::MAX
}

/// The queries can be embedded together with the keys of the cache: both are
/// batches of one, and the cache holds at least the new tokens.
pub open spec fn cache_fits(q: Tensor, k_all: Tensor) -> bool {
    &&& tensor_dims(q).len() > 2
    &&& tensor_dims(q)[0] == 1
    &&& tensor_dims(k_all).len() > 2 ==> {
        &&& tensor_dims(k_all)[0] == 1
        &&& tensor_dims(q)[2] <= tensor_dims(k_all)[2]
    }
}

/// Embeds the new tokens, appends them to the cache and attends over it.
///
/// The step for a cache whose keys carry their embedding.
pub fn attend_pre_roped<R, C, A, S>(
    q: &Tensor,
    k: &Tensor,
    v: &Tensor,
    pic_ctx: &PicContext,
    rope: &R,
    seq_len: usize,
    past_kv_len: usize,
    cache: &mut C,
    append: A,
    attention_mask: Option<&Tensor>,
    attend: S,
) -> (out: Result<Tensor, PicError>) where
    R: PicRope + ?Sized,
    A: FnOnce(&mut C, &Tensor, &Tensor) -> Result<(Tensor, Tensor), Error>,
    S: FnOnce(&Tensor, &Tensor, &Tensor, Option<&Tensor>) -> Result<Tensor, Error>,

    requires
        forall|lent: &mut C, keys: &Tensor, values: &Tensor| #[trigger]
            append.requires((lent, keys, values)),
        forall|queries: &Tensor, keys: &Tensor, values: &Tensor, mask: Option<&Tensor>| #[trigger]
            attend.requires((queries, keys, values, mask)),
        new_tokens_fit(*q, *k, past_kv_len as int),
        seq_len == tensor_dims(*q)[2],
    ensures
        exists|lent: &mut C|
            *lent == *old(cache) && *final(lent) == *final(cache) && #[trigger] pre_roped_outcome(
                *q,
                *k,
                *v,
                rope_positions(pic_ctx.position_ids@, past_kv_len as int, past_kv_len + seq_len),
                rope,
                append,
                lent,
                attention_mask,
                attend,
                out,
            ),
        out matches Err(PicError::Rope(_)) ==> *final(cache) == *old(cache),
{
    let (q_positions, _) = compute_pic_rope_positions(pic_ctx, seq_len, past_kv_len);
    let k_new_positions = rope_positions_between(pic_ctx, past_kv_len, past_kv_len + seq_len);
    let (q_pos, k_pos) = (q_positions.as_slice(), k_new_positions.as_slice());
    let embedded = rope.pic_forward_per_token(q, k, q_pos, k_pos);
    assert(embeds_at(rope, *q, *k, q_pos@, k_pos@, embedded));
    let ghost embedding = embedded;
    let ghost positions = q_pos@;
    let (q_roped, k_roped) = match embedded {
        Err(e) => {
            let out = Err(PicError::Rope(e));
            assert(pre_roped_outcome(
                *q,
                *k,
                *v,
                positions,
                rope,
                append,
                cache,
                attention_mask,
                attend,
                out,
            ));
            return out;
        },
        Ok(roped) => roped,
    };
    let cached = append(cache, &k_roped, v);
    let ghost appended = cached;
    let out = match cached {
        Err(e) => Err(PicError::Cache(e)),
        Ok((k_all, v_all)) => match attend(&q_roped, &k_all, &v_all, attention_mask) {
            Err(e) => Err(PicError::Attention(e)),
            Ok(t) => Ok(t),
        },
    };
    proof {
        let lent = choose|lent: &mut C|
            *lent == *old(cache) && *final(lent) == *final(cache) && #[trigger] append.ensures(
                (lent, &k_roped, v),
                appended,
            );
        assert(appends_embedded(embedding, *v, append, lent, attention_mask, attend, out));
        assert(pre_roped_outcome(
            *q,
            *k,
            *v,
            positions,
            rope,
            append,
            lent,
            attention_mask,
            attend,
            out,
        ));
    }
    out
}

/// Embeds all keys of a cache, to which the raw keys of the new tokens were
/// appended, together with the new tokens' queries, and attends over them.
pub fn attend_deferred<R, S>(
    q: &Tensor,
    k_all: &Tensor,
    v_all: &Tensor,
    pic_ctx: &PicContext,
    rope: &R,
    seq_len: usize,
    attention_mask: Option<&Tensor>,
    attend: S,
) -> (out: Result<Tensor, PicError>) where
    R: PicRope + ?Sized,
    S: FnOnce(&Tensor, &Tensor, &Tensor, Option<&Tensor>) -> Result<Tensor, Error>,

    requires
        forall|queries: &Tensor, keys: &Tensor, values: &Tensor, mask: Option<&Tensor>| #[trigger]
            attend.requires((queries, keys, values, mask)),
        cache_fits(*q, *k_all),
        seq_len == tensor_dims(*q)[2],
    ensures
        embeds_cache(
            *q,
            *k_all,
            *v_all,
            pic_ctx.position_ids@,
            rope,
            attention_mask,
            attend,
            out,
        ),
{
    let total_len = match tensor_dim(k_all, 2) {
        Err(e) => return Err(PicError::Shape(e)),
        Ok(n) => n,
    };
    let past_kv_len: usize = total_len - seq_len;
    let (q_positions, k_positions) = compute_pic_rope_positions(pic_ctx, seq_len, past_kv_len);
    let (q_pos, k_pos) = (q_positions.as_slice(), k_positions.as_slice());
    let embedded = rope.pic_forward_per_token(q, k_all, q_pos, k_pos);
    assert(embeds_at(rope, *q, *k_all, q_pos@, k_pos@, embedded));
    let ghost embedding = embedded;
    let out = match embedded {
        Err(e) => Err(PicError::Rope(e)),
        Ok((q_roped, k_roped)) => match attend(&q_roped, &k_roped, v_all, attention_mask) {
            Err(e) => Err(PicError::Attention(e)),
            Ok(t) => Ok(t),
        },
    };
    assert(attends_embedded(embedding, *v_all, attention_mask, attend, out));
    assert(q_positions@ == rope_positions(
        pic_ctx.position_ids@,
        tensor_dims(*k_all)[2] - tensor_dims(*q)[2],
        tensor_dims(*k_all)[2] as int,
    ));
    out
}

/// Runs attention with deferred rotary embedding.
///
/// `q`, `k` and `v` are the projections of the new tokens, of shape
/// `(batch, heads, seq_len, head_dim)`, not yet embedded. `cache` is the key/value
/// cache, which holds `past_kv_len` tokens, `append` adds keys and values to it and
/// returns all that it then holds, and `attend` runs scaled dot-product attention.
///
/// The cache changes only as `append` changes it. It is left as it was where `q` has
/// no token axis, and where the embedding of new tokens fails before they are appended.
pub fn pic_sdpa_attention<R, C, A, S>(
    q: &Tensor,
    k: &Tensor,
    v: &Tensor,
    pic_ctx: &PicContext,
    rope: &R,
    past_kv_len: usize,
    cache: &mut C,
    append: A,
    attention_mask: Option<&Tensor>,
    attend: S,
) -> (out: Result<Tensor, PicError>) where
    R: PicRope + ?Sized,
    A: FnOnce(&mut C, &Tensor, &Tensor) -> Result<(Tensor, Tensor), Error>,
    S: FnOnce(&Tensor, &Tensor, &Tensor, Option<&Tensor>) -> Result<Tensor, Error>,

    requires
        forall|lent: &mut C, keys: &Tensor, values: &Tensor| #[trigger]
            append.requires((lent, keys, values)),
        forall|queries: &Tensor, keys: &Tensor, values: &Tensor, mask: Option<&Tensor>| #[trigger]
            attend.requires((queries, keys, values, mask)),
        tensor_dims(*q).len() > 2 && pic_ctx.has_pre_roped_k ==> new_tokens_fit(
            *q,
            *k,
            past_kv_len as int,
        ),
        tensor_dims(*q).len() > 2 && !pic_ctx.has_pre_roped_k ==> forall|
            lent: &mut C,
            k_all: Tensor,
            v_all: Tensor,
        |
            *lent == *old(cache) && #[trigger] append.ensures((lent, k, v), Ok((k_all, v_all)))
                ==> cache_fits(*q, k_all),
    ensures
        tensor_dims(*q).len() <= 2 ==> (out matches Err(PicError::Shape(_))),
        tensor_dims(*q).len() <= 2 ==> *final(cache) == *old(cache),
        tensor_dims(*q).len() > 2 && pic_ctx.has_pre_roped_k ==> exists|lent: &mut C|
            *lent == *old(cache) && *final(lent) == *final(cache) && #[trigger] pre_roped_outcome(
                *q,
                *k,
                *v,
                rope_positions(
                    pic_ctx.position_ids@,
                    past_kv_len as int,
                    past_kv_len + tensor_dims(*q)[2],
                ),
                rope,
                append,
                lent,
                attention_mask,
                attend,
                out,
            ),
        // Where the embedding of new tokens fails, nothing was appended.
        pic_ctx.has_pre_roped_k && (out matches Err(PicError::Rope(_))) ==> *final(cache) == *old(
            cache,
        ),
        tensor_dims(*q).len() > 2 && !pic_ctx.has_pre_roped_k ==> exists|lent: &mut C|
            *lent == *old(cache) && *final(lent) == *final(cache) && #[trigger] deferred_outcome(
                *q,
                *k,
                *v,
                pic_ctx.position_ids@,
                rope,
                append,
                lent,
                attention_mask,
                attend,
                out,
            ),
{
    let seq_len = match tensor_dim(q, 2) {
        Err(e) => return Err(PicError::Shape(e)),
        Ok(n) => n,
    };
    if pic_ctx.has_pre_roped_k {
        attend_pre_roped(
            q,
            k,
            v,
            pic_ctx,
            rope,
            seq_len,
            past_kv_len,
            cache,
            append,
            attention_mask,
            attend,
        )
    } else {
        let cached = append(cache, k, v);
        let ghost appended = cached;
        let out = match cached {
            Err(e) => Err(PicError::Cache(e)),
            Ok((k_all, v_all)) => attend_deferred(
                q,
                &k_all,
                &v_all,
                pic_ctx,
                rope,
                seq_len,
                attention_mask,
                attend,
            ),
        };
        proof {
            let lent = choose|lent: &mut C|
                *lent == *old(cache) && *final(lent) == *final(cache) && #[trigger] append.ensures(
                    (lent, k, v),
                    appended,
                );
            assert(deferred_outcome(
                *q,
                *k,
                *v,
                pic_ctx.position_ids@,
                rope,
                append,
                lent,
                attention_mask,
                attend,
                out,
            ));
        }
        out
    }
}

/// `out` is the outcome where cached keys are raw, of the checked call: as
/// without the check, and `None` where the appended cache does not fit the queries.
pub open spec fn checked_deferred_outcome<R, C, A, S>(
    q: Tensor,
    k: Tensor,
    v: Tensor,
    position_ids: Seq<usize>,
    rope: &R,
    append: A,
    lent: &mut C,
    mask: Option<&Tensor>,
    attend: S,
    out: Option<Result<Tensor, PicError>>,
) -> bool where
    R: PicRope + ?Sized,
    A: FnOnce(&mut C, &Tensor, &Tensor) -> Result<(Tensor, Tensor), Error>,
    S: FnOnce(&Tensor, &Tensor, &Tensor, Option<&Tensor>) -> Result<Tensor, Error>,
 {
    exists|cached: Result<(Tensor, Tensor), Error>|
        #[trigger] append.ensures((lent, &k, &v), cached) && match cached {
            Err(e) => out == Some(Err::<Tensor, PicError>(PicError::Cache(e))),
            Ok((k_all, v_all)) => match out {
                None => !cache_fits(q, k_all),
                Some(done) => cache_fits(q, k_all) && embeds_cache(
                    q,
                    k_all,
                    v_all,
                    position_ids,
                    rope,
                    mask,
                    attend,
                    done,
                ),
            },
        }
}

/// Runs attention with deferred rotary embedding where the shapes fit, and returns
/// `None` where they do not.
pub fn checked_pic_sdpa_attention<R, C, A, S>(
    q: &Tensor,
    k: &Tensor,
    v: &Tensor,
    pic_ctx: &PicContext,
    rope: &R,
    past_kv_len: usize,
    cache: &mut C,
    append: A,
    attention_mask: Option<&Tensor>,
    attend: S,
) -> (out: Option<Result<Tensor, PicError>>) where
    R: PicRope + ?Sized,
    A: FnOnce(&mut C, &Tensor, &Tensor) -> Result<(Tensor, Tensor), Error>,
    S: FnOnce(&Tensor, &Tensor, &Tensor, Option<&Tensor>) -> Result<Tensor, Error>,

    requires
        forall|lent: &mut C, keys: &Tensor, values: &Tensor| #[trigger]
            append.requires((lent, keys, values)),
        forall|queries: &Tensor, keys: &Tensor, values: &Tensor, mask: Option<&Tensor>| #[trigger]
            attend.requires((queries, keys, values, mask)),
    ensures
        tensor_dims(*q).len() <= 2 ==> (out matches Some(Err(PicError::Shape(_)))),
        tensor_dims(*q).len() <= 2 ==> *final(cache) == *old(cache),
        tensor_dims(*q).len() > 2 && pic_ctx.has_pre_roped_k ==> (out is Some <==> new_tokens_fit(
            *q,
            *k,
            past_kv_len as int,
        )),
        tensor_dims(*q).len() > 2 && pic_ctx.has_pre_roped_k && out is Some ==> exists|
            lent: &mut C,
        |
            *lent == *old(cache) && *final(lent) == *final(cache) && #[trigger] pre_roped_outcome(
                *q,
                *k,
                *v,
                rope_positions(
                    pic_ctx.position_ids@,
                    past_kv_len as int,
                    past_kv_len + tensor_dims(*q)[2],
                ),
                rope,
                append,
                lent,
                attention_mask,
                attend,
                out->0,
            ),
        // Where new tokens do not fit or their embedding fails, nothing was appended.
        pic_ctx.has_pre_roped_k && (out is None || (out matches Some(Err(PicError::Rope(_)))))
            ==> *final(cache) == *old(cache),
        tensor_dims(*q).len() > 2 && !pic_ctx.has_pre_roped_k ==> exists|lent: &mut C|
            *lent == *old(cache) && *final(lent) == *final(cache)
                && #[trigger] checked_deferred_outcome(
                *q,
                *k,
                *v,
                pic_ctx.position_ids@,
                rope,
                append,
                lent,
                attention_mask,
                attend,
                out,
            ),
{
    let seq_len = match tensor_dim(q, 2) {
        Err(e) => return Some(Err(PicError::Shape(e))),
        Ok(n) => n,
    };
    if pic_ctx.has_pre_roped_k {
        if !axis_is(q, 0, 1) || !axis_is(k, 0, 1) || !axis_is(k, 2, seq_len) || past_kv_len
            > usize::MAX - seq_len {
            return None;
        }
        Some(
            pic_sdpa_attention(
                q,
                k,
                v,
                pic_ctx,
                rope,
                past_kv_len,
                cache,
                append,
                attention_mask,
                attend,
            ),
        )
    } else {
        let cached = append(cache, k, v);
        let ghost appended = cached;
        let out = match cached {
            Err(e) => Some(Err(PicError::Cache(e))),
            Ok((k_all, v_all)) => if cache_is_fit(q, &k_all, seq_len) {
                Some(
                    attend_deferred(
                        q,
                        &k_all,
                        &v_all,
                        pic_ctx,
                        rope,
                        seq_len,
                        attention_mask,
                        attend,
                    ),
                )
            } else {
                None
            },
        };
        proof {
            let lent = choose|lent: &mut C|
                *lent == *old(cache) && *final(lent) == *final(cache) && #[trigger] append.ensures(
                    (lent, k, v),
                    appended,
                );
            assert(checked_deferred_outcome(
                *q,
                *k,
                *v,
                pic_ctx.position_ids@,
                rope,
                append,
                lent,
                attention_mask,
                attend,
                out,
            ));
        }
        out
    }
}

/// Whether the queries can be embedded together with the keys of the cache.
fn cache_is_fit(q: &Tensor, k_all: &Tensor, seq_len: usize) -> (fits: bool)
    requires
        tensor_dims(*q).len() > 2,
        seq_len == tensor_dims(*q)[2],
    ensures
        fits == cache_fits(*q, *k_all),
{
    match tensor_dim(k_all, 2) {
        Err(_) => axis_is(q, 0, 1),
        Ok(total_len) => axis_is(q, 0, 1) && axis_is(k_all, 0, 1) && seq_len <= total_len,
    }
}

/// Whether the tensor has an axis of that index and size.
fn axis_is(tensor: &Tensor, axis: usize, size: usize) -> (holds: bool)
    ensures
        holds == (axis < tensor_dims(*tensor).len() && tensor_dims(*tensor)[axis as int] == size),
{
    match tensor_dim(tensor, axis) {
        Ok(n) => n == size,
        Err(_) => false,
    }
}

} // verus!
