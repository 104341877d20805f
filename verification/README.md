# pic

Position-independent caching (PIC) of transformer key/value blocks, verified with
Verus.

A prompt is a sequence of *Cross* blocks (system prompt, question) and *Plus* blocks
(retrieved documents). The keys of a Plus block are cached so that they can be reused
at any position: tokens of a Plus block are numbered from zero within the block, Plus
blocks do not attend to one another, and the rotary embedding is applied at attention
time, or at positions `0..len` when the block is saved.

- `src/block.rs`, `src/context.rs`: blocks, and the numbering of tokens.
- `src/mask.rs`: the block-attention mask.
- `src/rope.rs`: positions for deferred rotary embedding, and the record of deferred entries.
- `src/attention.rs`: the steps of attention, over the `PicRope` trait and the caller's
  cache and attention kernel.
- `src/detect.rs`, `src/sentinel.rs`: blocks marked by sentinel tokens.
- `src/hash.rs`: content hashes, the cache keys.
- `src/stats.rs`: hit and miss counters.
- `src/tensor.rs`: what the library takes from `candle_core`.
- `src/laws.rs`: what holds of the library as a whole.
- `app/`: process-wide counters, environment variables, mask tensors.
