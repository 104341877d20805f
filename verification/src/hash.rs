//! Content hashes, the keys of the block cache.
//!
//! A hash is computed from a block's content alone, never from where the block
//! stands, so that equal content has equal keys in every request.

use std::hash::{DefaultHasher, Hash, Hasher};

use vstd::prelude::*;
use vstd::std_specs::hash::DefaultHasherAdditionalSpecFns;

verus! {

/// What the standard library's `Hash` for `[u32]` feeds into a hasher for these
/// tokens, write by write.
pub uninterp spec fn token_writes(tokens: Seq<u32>) -> Seq<Seq<u8>>;

/// What the standard library's `Hash` for `str` feeds into a hasher for this
/// text, write by write.
pub uninterp spec fn text_writes(text: Seq<char>) -> Seq<Seq<u8>>;

/// The content hash of a token sequence.
pub open spec fn tokens_hash(tokens: Seq<u32>) -> u64 {
    DefaultHasher::spec_finish(token_writes(tokens))
}

/// The content hash of a text.
pub open spec fn text_hash(text: Seq<char>) -> u64 {
    DefaultHasher::spec_finish(text_writes(text))
}

/// Calls `<[u32] as Hash>::hash` of the standard library.
///
/// Claimed of it: what it appends to the hasher's input is fixed by the tokens
/// and does not depend on what was fed before, and other tokens would have appended
/// something else (`Hash` documents that unequal values write different sequences).
/// Which bytes these are depends on the target's byte order and word size and is
/// left unsaid.
#[verifier::external_body]
fn feed_tokens(tokens: &[u32], hasher: &mut DefaultHasher)
    ensures
        final(hasher)@ == old(hasher)@ + token_writes(tokens@),
        forall|other: Seq<u32>|
            final(hasher)@ == old(hasher)@ + #[trigger] token_writes(other) ==> other == tokens@,
{
    tokens.hash(hasher);
}

/// Calls `<str as Hash>::hash` of the standard library.
///
/// Claimed of it: what it appends to the hasher's input is fixed by the text
/// and does not depend on what was fed before, and another text would have appended
/// something else (`Hash` documents that unequal values write different sequences).
/// Which bytes these are is left unsaid.
#[verifier::external_body]
fn feed_text(text: &str, hasher: &mut DefaultHasher)
    ensures
        final(hasher)@ == old(hasher)@ + text_writes(text@),
        forall|other: Seq<char>|
            final(hasher)@ == old(hasher)@ + #[trigger] text_writes(other) ==> other == text@,
{
    text.hash(hasher);
}

/// No other token sequence feeds a hasher what these tokens feed it.
pub open spec fn tokens_feed_apart(tokens: Seq<u32>) -> bool {
    forall|other: Seq<u32>| #[trigger]
        token_writes(other) == token_writes(tokens) ==> other == tokens
}

/// No other text feeds a hasher what this text feeds it.
pub open spec fn text_feeds_apart(text: Seq<char>) -> bool {
    forall|other: Seq<char>| #[trigger] text_writes(other) == text_writes(text) ==> other == text
}

/// Computes the content hash of a slice of token ids.
///
/// The hash is that of a fresh hasher fed the whole slice; no other slice would have
/// fed it the same.
pub fn content_hash_tokens(tokens: &[u32]) -> (hash: u64)
    ensures
        hash == tokens_hash(tokens@),
        hash == DefaultHasher::spec_finish(token_writes(tokens@)),
        tokens_feed_apart(tokens@),
{
    let mut hasher = DefaultHasher::new();
    let ghost fresh = hasher@;
    feed_tokens(tokens, &mut hasher);
    proof {
        assert forall|other: Seq<u32>| #[trigger]
            token_writes(other) == token_writes(tokens@) implies other == tokens@ by {
            assert(hasher@ == fresh + token_writes(other));
        }
        assert(hasher@ =~= token_writes(tokens@));
    }
    hasher.finish()
}

/// Computes the content hash of a text.
///
/// The hash is that of a fresh hasher fed the whole text; no other text would have
/// fed it the same. The same text has the same hash wherever it appears, also where
/// a tokenizer would cut it differently.
pub fn content_hash_text(text: &str) -> (hash: u64)
    ensures
        hash == text_hash(text@),
        hash == DefaultHasher::spec_finish(text_writes(text@)),
        text_feeds_apart(text@),
{
    let mut hasher = DefaultHasher::new();
    let ghost fresh = hasher@;
    feed_text(text, &mut hasher);
    proof {
        assert forall|other: Seq<char>| #[trigger]
            text_writes(other) == text_writes(text@) implies other == text@ by {
            assert(hasher@ == fresh + text_writes(other));
        }
        assert(hasher@ =~= text_writes(text@));
    }
    hasher.finish()
}

} // verus!
