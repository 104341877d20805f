//! Position-independent caching (PIC) of transformer key/value blocks.
//!
//! A prompt is split into *Cross* blocks, whose tokens depend on where they
//! stand, and *Plus* blocks (documents of a retrieval prompt, say), whose cached
//! keys can be reused at any position. Keys of a Plus block are stored without
//! their rotary embedding, or with the embedding for positions `0..len`, and the
//! attention mask keeps Plus blocks from seeing one another.
//!
//! The modules hold the block layout and its position numbering, the attention
//! mask, the positions and the order of steps for deferred rotary embedding,
//! the content hashes that key the cache, the detection of blocks by sentinel
//! tokens and the cache statistics.

pub mod attention;
pub mod block;
pub mod context;
pub mod detect;
pub mod hash;
pub mod laws;
pub mod mask;
pub mod results;
pub mod rope;
pub mod sentinel;
pub mod stats;
pub mod tensor;

pub use attention::{checked_pic_sdpa_attention, pic_sdpa_attention, PicError, PicRope};
pub use block::PicBlock;
pub use context::PicContext;
pub use detect::detect_pic_blocks;
pub use hash::{content_hash_text, content_hash_tokens};
pub use mask::PicMask;
pub use rope::{compute_pic_rope_positions, DeferredRopeMap};
pub use sentinel::{pic_cross_token, pic_plus_token};
pub use stats::{record_cache_hit, record_cache_miss, take_cache_stats, CacheStats};
