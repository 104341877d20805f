use candle_core::{DType, Device, Tensor};
use pic::{PicBlock, PicContext, PicMask};

fn cross(start: usize, len: usize) -> PicBlock {
    PicBlock {
        start,
        len,
        is_plus: false,
        content_hash: None,
    }
}

fn plus(start: usize, len: usize) -> PicBlock {
    PicBlock {
        start,
        len,
        is_plus: true,
        content_hash: Some(start as u64 * 1000 + len as u64),
    }
}

/// The additive mask: zero where a token attends, minus infinity where it does not.
fn mask_tensor(
    ctx: &PicContext,
    tgt_len: usize,
    past_kv_len: usize,
    device: &Device,
    dtype: DType,
) -> candle_core::Result<Tensor> {
    let mask = ctx.make_pic_mask(tgt_len, past_kv_len);
    let data: Vec<f32> = mask
        .attend
        .iter()
        .map(|&a| if a { 0.0 } else { f32::NEG_INFINITY })
        .collect();
    Tensor::from_vec(data, mask.dims(), device)?.to_dtype(dtype)
}

fn mask_to_vec(mask: &Tensor) -> Vec<f32> {
    mask.to_dtype(DType::F32)
        .unwrap()
        .to_vec2::<f32>()
        .unwrap()
        .into_iter()
        .flatten()
        .collect()
}

fn attends(val: f32) -> bool {
    val == 0.0
}

fn blocked(val: f32) -> bool {
    val.is_infinite() && val.is_sign_negative()
}

fn rows(mask: &PicMask) -> Vec<Vec<bool>> {
    (0..mask.rows)
        .map(|q| (0..mask.cols).map(|k| mask.attends_at(q, k)).collect())
        .collect()
}

#[test]
fn test_make_pic_mask_basic_rules() {
    // Layout: Cross(3) Plus_A(2) Plus_B(2) Cross(1)
    // Indices: 0 1 2 | 3 4 | 5 6 | 7
    let ctx = PicContext::new(vec![cross(0, 3), plus(3, 2), plus(5, 2), cross(7, 1)]);

    let mask = mask_tensor(&ctx, 8, 0, &Device::Cpu, DType::F32).unwrap();
    let vals = mask_to_vec(&mask);
    let n = 8;
    let at = |q: usize, k: usize| vals[q * n + k];

    // Cross -> Cross: standard causal
    assert!(attends(at(0, 0))); // token 0 sees itself
    assert!(blocked(at(0, 1))); // token 0 doesn't see future
    assert!(attends(at(2, 0))); // token 2 sees token 0
    assert!(attends(at(2, 2))); // token 2 sees itself

    // Plus_A -> Cross: sees cross tokens before Plus_A's block start (0,1,2)
    assert!(attends(at(3, 0)));
    assert!(attends(at(3, 2)));
    assert!(attends(at(4, 0)));

    // Plus_A -> Plus_A: causal within block
    assert!(attends(at(3, 3))); // first token of A sees itself
    assert!(attends(at(4, 3))); // second token of A sees first
    assert!(attends(at(4, 4))); // second token sees itself

    // Plus_A -> Plus_B: blocked (different Plus blocks)
    assert!(blocked(at(3, 5)));
    assert!(blocked(at(4, 6)));

    // Plus_B -> Plus_A: blocked
    assert!(blocked(at(5, 3)));
    assert!(blocked(at(6, 4)));

    // Plus_B -> Plus_B: causal within block
    assert!(attends(at(5, 5)));
    assert!(attends(at(6, 5)));
    assert!(attends(at(6, 6)));

    // Plus_B -> Cross: sees cross tokens before Plus_B's start (0,1,2)
    assert!(attends(at(5, 0)));
    assert!(attends(at(5, 2)));
    // Plus_B should NOT see the cross tokens at Plus_A's positions
    // (those are Plus, not Cross, so this is Plus->Plus cross-block)
    assert!(blocked(at(5, 3)));

    // Cross(7) -> Plus: cross after Plus can see Plus tokens
    assert!(attends(at(7, 3))); // sees Plus_A
    assert!(attends(at(7, 5))); // sees Plus_B
    assert!(attends(at(7, 7))); // sees itself

    // Cross(7) -> Cross: causal
    assert!(attends(at(7, 0)));
    assert!(attends(at(7, 2)));
}

#[test]
fn test_make_pic_mask_with_past_kv() {
    // past_kv_len=2, so q indices start at 2 in the context
    // Layout: Cross(2) [past] | Plus(2) Cross(1) [new]
    let ctx = PicContext::new(vec![cross(0, 2), plus(2, 2), cross(4, 1)]);

    let tgt_len = 3; // tokens 2,3,4 are new
    let past_kv_len = 2;
    let mask = mask_tensor(&ctx, tgt_len, past_kv_len, &Device::Cpu, DType::F32).unwrap();
    let vals = mask_to_vec(&mask);
    let full_len = tgt_len + past_kv_len; // 5
    let at = |q: usize, k: usize| vals[q * full_len + k];

    // q=0 is token index 2 (Plus), q=1 is token 3 (Plus), q=2 is token 4 (Cross)
    // Plus(idx=2) -> Cross(idx=0): should attend (cross before plus block)
    assert!(attends(at(0, 0)));
    assert!(attends(at(0, 1)));
    // Plus(idx=2) -> Plus(idx=2): attend (same block, self)
    assert!(attends(at(0, 2)));

    // Cross(idx=4) -> all prior: attends
    assert!(attends(at(2, 0)));
    assert!(attends(at(2, 4)));
}

#[test]
fn test_make_pic_mask_shape() {
    let ctx = PicContext::new(vec![cross(0, 4), plus(4, 3)]);
    let mask = mask_tensor(&ctx, 7, 0, &Device::Cpu, DType::F32).unwrap();
    assert_eq!(mask.dims(), &[7, 7]);

    let mask_past = mask_tensor(&ctx, 3, 4, &Device::Cpu, DType::F32).unwrap();
    assert_eq!(mask_past.dims(), &[3, 7]);
}

#[test]
fn mask_entries_of_a_small_layout() {
    // Cross(1) Plus(2) Plus(1) Cross(1)
    let ctx = PicContext::new(vec![cross(0, 1), plus(1, 2), plus(3, 1), cross(4, 1)]);
    let mask = ctx.make_pic_mask(5, 0);
    assert_eq!(mask.dims(), (5, 5));
    let (x, o) = (true, false);
    assert_eq!(
        rows(&mask),
        vec![
            vec![x, o, o, o, o],
            vec![x, x, o, o, o],
            vec![x, x, x, o, o],
            vec![x, o, o, x, o],
            vec![x, x, x, x, x],
        ]
    );
}

#[test]
fn mask_without_plus_is_causal() {
    let ctx = PicContext::new(vec![cross(0, 2), cross(2, 3)]);
    let mask = ctx.make_pic_mask(7, 0);
    for q in 0..7 {
        for k in 0..7 {
            assert_eq!(mask.attends_at(q, k), k <= q);
        }
    }
}

#[test]
fn mask_of_continuation_is_the_end_of_the_whole_mask() {
    let ctx = PicContext::new(vec![cross(0, 2), plus(2, 3), plus(5, 2), cross(8, 2)]);
    let whole = ctx.make_pic_mask(10, 0);
    let step = ctx.make_pic_mask(4, 6);
    assert_eq!(rows(&whole)[6..], rows(&step)[..]);
}

#[test]
fn gap_and_later_tokens_attend_as_cross() {
    // Index 2 lies in no block, index 6 past all blocks.
    let ctx = PicContext::new(vec![plus(0, 2), plus(3, 2)]);
    assert!(ctx.attends_token(2, 0));
    assert!(ctx.attends_token(2, 2));
    assert!(!ctx.attends_token(2, 3));
    assert!(ctx.attends_token(6, 4));
    // A Plus token sees the gap token before its block, not the one after it.
    assert!(ctx.attends_token(3, 2));
    assert!(!ctx.attends_token(1, 2));
}

#[test]
fn overlapping_blocks_are_decided_by_the_first() {
    // Index 3 lies in both Plus blocks; its home is the first.
    let ctx = PicContext::new(vec![plus(1, 4), plus(3, 4)]);
    assert!(ctx.attends_token(4, 3));
    assert!(!ctx.attends_token(5, 3));
    assert!(ctx.attends_token(6, 5));
    assert!(ctx.attends_token(3, 0));
}

#[test]
fn mask_of_no_tokens_is_empty() {
    let ctx = PicContext::new(vec![cross(0, 2)]);
    let mask = ctx.make_pic_mask(0, 2);
    assert_eq!(mask.dims(), (0, 2));
    assert!(mask.attend.is_empty());
}

#[test]
fn masks_are_causal_and_every_token_sees_itself() {
    let ctx = PicContext::new(vec![plus(0, 2), cross(1, 3), plus(3, 4), plus(5, 3)]);
    for q in 0..10 {
        assert!(ctx.attends_token(q, q));
        for k in q + 1..10 {
            assert!(!ctx.attends_token(q, k));
        }
    }
}

#[test]
fn a_cross_block_over_plus_blocks_changes_nothing() {
    let bare = PicContext::new(vec![plus(2, 2), plus(5, 2)]);
    for blocks in [
        vec![cross(0, 10), plus(2, 2), plus(5, 2)],
        vec![plus(2, 2), plus(5, 2), cross(0, 10)],
    ] {
        let ctx = PicContext::new(blocks);
        // The Plus blocks stay isolated, and see the Cross tokens before them.
        assert!(!ctx.attends_token(5, 2));
        assert!(ctx.attends_token(5, 1));
        assert!(ctx.attends_token(5, 4));
        assert!(ctx.attends_token(6, 5));
        assert_eq!(ctx.make_pic_mask(10, 0), bare.make_pic_mask(10, 0));
    }
}
