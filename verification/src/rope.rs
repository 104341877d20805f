//! Positions for deferred rotary embedding.

use vstd::prelude::*;

use crate::context::PicContext;

verus! {

/// Which tokens of a cached key sequence have deferred rotary embedding.
///
/// Stored alongside the key/value cache, to know which entries still need the
/// embedding at attention time.
#[derive(Debug, Clone)]
pub struct DeferredRopeMap {
    /// For each cached token, whether its key is raw and needs the embedding at
    /// attention time.
    pub is_deferred: Vec<bool>,
    /// For each cached token, the position to embed, or the position that was
    /// already embedded.
    pub rope_positions: Vec<usize>,
}

impl DeferredRopeMap {
    /// Both columns track the same tokens.
    pub open spec fn wf(&self) -> bool {
        self.is_deferred@.len() == self.rope_positions@.len()
    }

    /// An empty map.
    pub fn new() -> (map: Self)
        ensures
            map.wf(),
            map.is_deferred@ == Seq::<bool>::empty(),
            map.rope_positions@ == Seq::<usize>::empty(),
    {
        DeferredRopeMap { is_deferred: Vec::new(), rope_positions: Vec::new() }
    }

    /// Appends an entry for each new token.
    pub fn extend(&mut self, deferred: &[bool], positions: &[usize])
        requires
            deferred@.len() == positions@.len(),
        ensures
            final(self).is_deferred@ == old(self).is_deferred@ + deferred@,
            final(self).rope_positions@ == old(self).rope_positions@ + positions@,
            old(self).wf() ==> final(self).wf(),
    {
        self.is_deferred.extend_from_slice(deferred);
        self.rope_positions.extend_from_slice(positions);
        assert(self.is_deferred@ =~= old(self).is_deferred@ + deferred@);
        assert(self.rope_positions@ =~= old(self).rope_positions@ + positions@);
    }

    /// Whether any entry needs deferred embedding.
    pub fn has_deferred(&self) -> (found: bool)
        ensures
            found == any_deferred(self.is_deferred@),
            found <==> self.is_deferred@.contains(true),
    {
        let mut i: usize = 0;
        while i < self.is_deferred.len()
            invariant
                i <= self.is_deferred@.len(),
                forall|j: int| 0 <= j < i ==> !#[trigger] self.is_deferred@[j],
            decreases self.is_deferred@.len() - i,
        {
            if self.is_deferred[i] {
                return true;
            }
            i = i + 1;
        }
        false
    }

    /// Number of cached tokens that are tracked.
    pub fn len(&self) -> (len: usize)
        ensures
            len == self.is_deferred@.len(),
    {
        self.is_deferred.len()
    }

    /// Whether no cached token is tracked.
    pub fn is_empty(&self) -> (empty: bool)
        ensures
            empty == (self.is_deferred@.len() == 0),
    {
        self.is_deferred.is_empty()
    }

    /// Forgets every entry, for when the cache is cleared.
    pub fn reset(&mut self)
        ensures
            final(self).wf(),
            final(self).is_deferred@ == Seq::<bool>::empty(),
            final(self).rope_positions@ == Seq::<usize>::empty(),
    {
        self.is_deferred.clear();
        self.rope_positions.clear();
    }
}

/// Some entry is deferred.
pub open spec fn any_deferred(is_deferred: Seq<bool>) -> bool {
    exists|i: int| 0 <= i < is_deferred.len() && #[trigger] is_deferred[i]
}

impl Default for DeferredRopeMap {
    fn default() -> (map: Self)
        ensures
            map.wf(),
            map.is_deferred@ == Seq::<bool>::empty(),
            map.rope_positions@ == Seq::<usize>::empty(),
    {
        Self::new()
    }
}

/// The position to embed for token index `i`: the one that the context assigns,
/// and past the context the index itself.
pub open spec fn rope_position(position_ids: Seq<usize>, i: int) -> usize {
    if i < position_ids.len() {
        position_ids[i]
    } else {
        i as usize
    }
}

/// The positions to embed for the token indices from `from` up to `to`.
pub open spec fn rope_positions(position_ids: Seq<usize>, from: int, to: int) -> Seq<usize> {
    Seq::new((to - from) as nat, |i: int| rope_position(position_ids, from + i))
}

/// The positions to embed for the token indices from `from` up to `to`.
pub fn rope_positions_between(pic_ctx: &PicContext, from: usize, to: usize) -> (positions: Vec<
    usize,
>)
    requires
        from <= to,
    ensures
        positions@ == rope_positions(pic_ctx.position_ids@, from as int, to as int),
        positions@.len() == to - from,
        forall|i: int|
            0 <= i < to - from ==> #[trigger] positions@[i] == if from + i
                < pic_ctx.position_ids@.len() {
                pic_ctx.position_ids@[from + i] as int
            } else {
                from + i
            },
{
    let mut positions: Vec<usize> = Vec::new();
    let mut i: usize = from;
    while i < to
        invariant
            from <= i <= to,
            positions@ =~= rope_positions(pic_ctx.position_ids@, from as int, i as int),
        decreases to - i,
    {
        if i < pic_ctx.position_ids.len() {
            positions.push(pic_ctx.position_ids[i]);
        } else {
            positions.push(i);
        }
        i = i + 1;
    }
    positions
}

/// Computes the positions of the queries and of the keys for per-token embedding.
///
/// Queries are the `seq_len` new tokens, keys the `past_kv_len` cached and then the
/// new ones.
pub fn compute_pic_rope_positions(
    pic_ctx: &PicContext,
    seq_len: usize,
    past_kv_len: usize,
) -> (positions: (Vec<usize>, Vec<usize>))
    requires
        past_kv_len + seq_len <= usize::MAX,
    ensures
        positions.0@ == rope_positions(
            pic_ctx.position_ids@,
            past_kv_len as int,
            past_kv_len + seq_len,
        ),
        positions.1@ == rope_positions(pic_ctx.position_ids@, 0, past_kv_len + seq_len),
        positions.0@.len() == seq_len,
        forall|i: int|
            0 <= i < seq_len ==> #[trigger] positions.0@[i] == if past_kv_len + i
                < pic_ctx.position_ids@.len() {
                pic_ctx.position_ids@[past_kv_len + i] as int
            } else {
                past_kv_len + i
            },
        positions.1@.len() == past_kv_len + seq_len,
        forall|i: int|
            0 <= i < past_kv_len + seq_len ==> #[trigger] positions.1@[i] == if i
                < pic_ctx.position_ids@.len() {
                pic_ctx.position_ids@[i] as int
            } else {
                i
            },
{
    let total_kv_len: usize = past_kv_len + seq_len;
    let q_positions = rope_positions_between(pic_ctx, past_kv_len, total_kv_len);
    let k_positions = rope_positions_between(pic_ctx, 0, total_kv_len);
    (q_positions, k_positions)
}

} // verus!
