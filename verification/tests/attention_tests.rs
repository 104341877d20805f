use std::sync::Mutex;

use candle_core::{DType, Device, Error, Result, Tensor};
use pic::{checked_pic_sdpa_attention, pic_sdpa_attention, PicBlock, PicContext, PicError, PicRope};

fn cross(start: usize, len: usize) -> PicBlock {
    PicBlock {
        start,
        len,
        is_plus: false,
        content_hash: None,
    }
}

fn plus(start: usize, len: usize) -> PicBlock {
    PicBlock {
        start,
        len,
        is_plus: true,
        content_hash: Some(start as u64 * 1000 + len as u64),
    }
}

/// The additive mask: zero where a token attends, minus infinity where it does not.
fn mask_tensor(
    ctx: &PicContext,
    tgt_len: usize,
    past_kv_len: usize,
    device: &Device,
    dtype: DType,
) -> candle_core::Result<Tensor> {
    let mask = ctx.make_pic_mask(tgt_len, past_kv_len);
    let data: Vec<f32> = mask
        .attend
        .iter()
        .map(|&a| if a { 0.0 } else { f32::NEG_INFINITY })
        .collect();
    Tensor::from_vec(data, mask.dims(), device)?.to_dtype(dtype)
}

const HEAD_DIM: usize = 4;
const NUM_HEADS: usize = 2;
const EPS: f64 = 1e-4;

/// Rotary embedding by halves, with base 10000.
struct RotaryEmbedding;

impl RotaryEmbedding {
    fn rotate(&self, x: &Tensor, positions: &[usize]) -> Result<Tensor> {
        let half = HEAD_DIM / 2;
        let mut cos = Vec::new();
        let mut sin = Vec::new();
        for &p in positions {
            for i in 0..half {
                let angle = p as f32 / 10000f32.powf(2.0 * i as f32 / HEAD_DIM as f32);
                cos.push(angle.cos());
                sin.push(angle.sin());
            }
        }
        let cos = Tensor::from_vec(cos, (positions.len(), half), &Device::Cpu)?;
        let sin = Tensor::from_vec(sin, (positions.len(), half), &Device::Cpu)?;
        let x1 = x.narrow(3, 0, half)?;
        let x2 = x.narrow(3, half, half)?;
        let y1 = (x1.broadcast_mul(&cos)? - x2.broadcast_mul(&sin)?)?;
        let y2 = (x2.broadcast_mul(&cos)? + x1.broadcast_mul(&sin)?)?;
        Tensor::cat(&[&y1, &y2], 3)
    }

    fn forward_per_token(
        &self,
        q: &Tensor,
        k: &Tensor,
        q_positions: &[usize],
        k_positions: &[usize],
    ) -> Result<(Tensor, Tensor)> {
        Ok((self.rotate(q, q_positions)?, self.rotate(k, k_positions)?))
    }
}

impl PicRope for RotaryEmbedding {
    fn pic_forward_per_token(
        &self,
        q: &Tensor,
        k: &Tensor,
        q_positions: &[usize],
        k_positions: &[usize],
    ) -> Result<(Tensor, Tensor)> {
        self.forward_per_token(q, k, q_positions, k_positions)
    }

    fn pic_forward_k_only(&self, k: &Tensor, k_positions: &[usize]) -> Result<Tensor> {
        self.rotate(k, k_positions)
    }
}

/// A key/value cache that concatenates along the token axis.
struct KvCache {
    all: Option<(Tensor, Tensor)>,
}

impl KvCache {
    fn current_seq_len(&self) -> usize {
        match &self.all {
            Some((k, _)) => k.dim(2).unwrap(),
            None => 0,
        }
    }

    fn append(&mut self, k: &Tensor, v: &Tensor) -> Result<(Tensor, Tensor)> {
        let all = match &self.all {
            Some((k_old, v_old)) => (Tensor::cat(&[k_old, k], 2)?, Tensor::cat(&[v_old, v], 2)?),
            None => (k.clone(), v.clone()),
        };
        self.all = Some(all.clone());
        Ok(all)
    }
}

/// Scaled dot-product attention.
fn run_attention(q: &Tensor, k: &Tensor, v: &Tensor, mask: Option<&Tensor>) -> Result<Tensor> {
    let scale = 1.0 / (HEAD_DIM as f64).sqrt();
    let mut scores = (q.matmul(&k.transpose(2, 3)?.contiguous()?)? * scale)?;
    if let Some(mask) = mask {
        scores = scores.broadcast_add(mask)?;
    }
    let weights = scores.broadcast_sub(&scores.max_keepdim(3)?)?.exp()?;
    let weights = weights.broadcast_div(&weights.sum_keepdim(3)?)?;
    weights.matmul(&v.contiguous()?)
}

fn run(
    q: &Tensor,
    k: &Tensor,
    v: &Tensor,
    ctx: &PicContext,
    rope: &dyn PicRope,
    cache: &mut KvCache,
    mask: Option<&Tensor>,
) -> std::result::Result<Tensor, PicError> {
    let past_kv_len = cache.current_seq_len();
    pic_sdpa_attention(
        q,
        k,
        v,
        ctx,
        rope,
        past_kv_len,
        cache,
        |cache, k, v| cache.append(k, v),
        mask,
        |q, k, v, m| run_attention(q, k, v, m),
    )
}

fn test_rope() -> RotaryEmbedding {
    RotaryEmbedding
}

/// A tensor of shape (1, NUM_HEADS, seq_len, HEAD_DIM) filled with `val`.
fn make_tensor(seq_len: usize, val: f32) -> Tensor {
    Tensor::full(val, (1, NUM_HEADS, seq_len, HEAD_DIM), &Device::Cpu).unwrap()
}

fn make_kv_cache() -> KvCache {
    KvCache { all: None }
}

#[test]
fn test_pic_sdpa_output_shape() {
    let rope = test_rope();
    let seq_len = 6;

    let q = make_tensor(seq_len, 1.0);
    let k = make_tensor(seq_len, 1.0);
    let v = make_tensor(seq_len, 1.0);
    let mut cache = make_kv_cache();

    let ctx = PicContext::new(vec![cross(0, 3), plus(3, 3)]);
    let mask = mask_tensor(&ctx, seq_len, 0, &Device::Cpu, DType::F32).unwrap();

    let out = run(&q, &k, &v, &ctx, &rope, &mut cache, Some(&mask))
    .unwrap();

    assert_eq!(out.dims(), &[1, NUM_HEADS, seq_len, HEAD_DIM]);
    let vals: Vec<f32> = out.flatten_all().unwrap().to_vec1().unwrap();
    assert!(vals.iter().all(|v| v.is_finite()), "Output must be finite");
}

#[test]
fn test_pic_sdpa_populates_cache() {
    let rope = test_rope();
    let seq_len = 6;

    let q = make_tensor(seq_len, 1.0);
    let k = make_tensor(seq_len, 1.0);
    let v = make_tensor(seq_len, 1.0);
    let mut cache = make_kv_cache();

    let ctx = PicContext::new(vec![cross(0, 3), plus(3, 3)]);
    let mask = mask_tensor(&ctx, seq_len, 0, &Device::Cpu, DType::F32).unwrap();

    let _ = run(&q, &k, &v, &ctx, &rope, &mut cache, Some(&mask))
    .unwrap();

    assert_eq!(cache.current_seq_len(), seq_len);
}

#[test]
fn test_pic_sdpa_cross_only_matches_standard() {
    let rope = test_rope();
    let seq_len = 4;

    let q = make_tensor(seq_len, 1.0);
    let k = make_tensor(seq_len, 0.5);
    let v = make_tensor(seq_len, 0.3);

    // All-cross PIC context (no Plus blocks)
    let ctx = PicContext::new(vec![cross(0, seq_len)]);
    let mask = mask_tensor(&ctx, seq_len, 0, &Device::Cpu, DType::F32).unwrap();

    let mut cache_pic = make_kv_cache();
    let out_pic = run(&q, &k, &v, &ctx, &rope, &mut cache_pic, Some(&mask))
    .unwrap();

    // Standard path: apply RoPE manually, then SDPA
    let mut cache_std = make_kv_cache();
    let positions: Vec<usize> = (0..seq_len).collect();
    let (q_roped, k_roped) = rope.forward_per_token(&q, &k, &positions, &positions).unwrap();
    let (k_all, v_all) = cache_std.append(&k_roped, &v).unwrap();
    let out_std = run_attention(&q_roped, &k_all, &v_all, Some(&mask))
    .unwrap();

    let diff = (&out_pic - &out_std)
        .unwrap()
        .abs()
        .unwrap()
        .max(0)
        .unwrap()
        .max(0)
        .unwrap()
        .max(0)
        .unwrap()
        .max(0)
        .unwrap()
        .to_scalar::<f32>()
        .unwrap() as f64;
    assert!(
        diff < EPS,
        "All-cross PIC should match standard SDPA, diff={diff}"
    );
}

#[test]
fn test_pic_sdpa_plus_blocks_isolated() {
    let rope = test_rope();

    // Layout: Cross(2) Plus_A(2) Plus_B(2)
    let seq_len = 6;
    let q = make_tensor(seq_len, 1.0);
    let k = make_tensor(seq_len, 1.0);
    let v_a = Tensor::from_vec(
        vec![1.0f32; NUM_HEADS * seq_len * HEAD_DIM],
        (1, NUM_HEADS, seq_len, HEAD_DIM),
        &Device::Cpu,
    )
    .unwrap();

    let ctx = PicContext::new(vec![cross(0, 2), plus(2, 2), plus(4, 2)]);
    let mask = mask_tensor(&ctx, seq_len, 0, &Device::Cpu, DType::F32).unwrap();

    let mut cache_a = make_kv_cache();
    let out_a = run(&q, &k, &v_a, &ctx, &rope, &mut cache_a, Some(&mask))
    .unwrap();

    // Change Plus_B's V values (indices 4,5) but keep everything else the same
    let mut v_b_data = vec![1.0f32; NUM_HEADS * seq_len * HEAD_DIM];
    // Modify Plus_B slice: for each head, positions 4 and 5
    for h in 0..NUM_HEADS {
        for s in 4..6 {
            for d in 0..HEAD_DIM {
                v_b_data[h * seq_len * HEAD_DIM + s * HEAD_DIM + d] = 99.0;
            }
        }
    }
    let v_b = Tensor::from_vec(
        v_b_data,
        (1, NUM_HEADS, seq_len, HEAD_DIM),
        &Device::Cpu,
    )
    .unwrap();

    let mut cache_b = make_kv_cache();
    let out_b = run(&q, &k, &v_b, &ctx, &rope, &mut cache_b, Some(&mask))
    .unwrap();

    // Plus_A tokens (indices 2,3) should produce the same output regardless of Plus_B's V
    let out_a_plus_a = out_a.narrow(2, 2, 2).unwrap();
    let out_b_plus_a = out_b.narrow(2, 2, 2).unwrap();
    let diff = (&out_a_plus_a - &out_b_plus_a)
        .unwrap()
        .abs()
        .unwrap()
        .max(0)
        .unwrap()
        .max(0)
        .unwrap()
        .max(0)
        .unwrap()
        .max(0)
        .unwrap()
        .to_scalar::<f32>()
        .unwrap() as f64;
    assert!(
        diff < EPS,
        "Plus_A output should be isolated from Plus_B content changes, diff={diff}"
    );
}

#[test]
fn test_pic_sdpa_decode_step() {
    let rope = test_rope();

    // First: fill 6 tokens
    let fill_len = 6;
    let q = make_tensor(fill_len, 1.0);
    let k = make_tensor(fill_len, 1.0);
    let v = make_tensor(fill_len, 1.0);
    let mut cache = make_kv_cache();

    let ctx = PicContext::new(vec![cross(0, 3), plus(3, 3)]);
    let mask = mask_tensor(&ctx, fill_len, 0, &Device::Cpu, DType::F32).unwrap();

    let _ = run(&q, &k, &v, &ctx, &rope, &mut cache, Some(&mask))
    .unwrap();
    assert_eq!(cache.current_seq_len(), fill_len);

    // Decode: 1 new token
    let q_dec = make_tensor(1, 0.5);
    let k_dec = make_tensor(1, 0.5);
    let v_dec = make_tensor(1, 0.5);

    // For decode, extend context: the new token is cross at position 6
    let mut ctx_dec = PicContext::new(vec![cross(0, 3), plus(3, 3), cross(6, 1)]);
    ctx_dec.has_pre_roped_k = true;

    let out_dec = run(&q_dec, &k_dec, &v_dec, &ctx_dec, &rope, &mut cache, None)
    .unwrap();

    assert_eq!(out_dec.dims(), &[1, NUM_HEADS, 1, HEAD_DIM]);
    assert_eq!(cache.current_seq_len(), fill_len + 1);
    let vals: Vec<f32> = out_dec.flatten_all().unwrap().to_vec1().unwrap();
    assert!(vals.iter().all(|v| v.is_finite()), "Decode output must be finite");
}

#[test]
fn test_pic_sdpa_pre_roped_k_path() {
    let rope = test_rope();
    let seq_len = 4;

    let q = make_tensor(seq_len, 1.0);
    let k = make_tensor(seq_len, 1.0);
    let v = make_tensor(seq_len, 1.0);
    let mut cache = make_kv_cache();

    let mut ctx = PicContext::new(vec![cross(0, 2), plus(2, 2)]);
    ctx.has_pre_roped_k = true;

    let mask = mask_tensor(&ctx, seq_len, 0, &Device::Cpu, DType::F32).unwrap();

    let out = run(&q, &k, &v, &ctx, &rope, &mut cache, Some(&mask))
    .unwrap();

    assert_eq!(out.dims(), &[1, NUM_HEADS, seq_len, HEAD_DIM]);
    let vals: Vec<f32> = out.flatten_all().unwrap().to_vec1().unwrap();
    assert!(vals.iter().all(|v| v.is_finite()), "Pre-roped K path output must be finite");
}

/// Hands its arguments back and keeps the positions it was given.
struct RecordingRope {
    calls: Mutex<Vec<(Vec<usize>, Vec<usize>)>>,
}

impl PicRope for RecordingRope {
    fn pic_forward_per_token(
        &self,
        q: &Tensor,
        k: &Tensor,
        q_positions: &[usize],
        k_positions: &[usize],
    ) -> Result<(Tensor, Tensor)> {
        assert_eq!(q.dim(2)?, q_positions.len());
        assert_eq!(k.dim(2)?, k_positions.len());
        self.calls.lock().unwrap().push((q_positions.to_vec(), k_positions.to_vec()));
        Ok((q.clone(), k.clone()))
    }

    fn pic_forward_k_only(&self, k: &Tensor, _: &[usize]) -> Result<Tensor> {
        Ok(k.clone())
    }
}

/// Always fails.
struct BrokenRope;

impl PicRope for BrokenRope {
    fn pic_forward_per_token(
        &self,
        _: &Tensor,
        _: &Tensor,
        _: &[usize],
        _: &[usize],
    ) -> Result<(Tensor, Tensor)> {
        Err(Error::Msg("no embedding".to_string()))
    }

    fn pic_forward_k_only(&self, _: &Tensor, _: &[usize]) -> Result<Tensor> {
        Err(Error::Msg("no embedding".to_string()))
    }
}

fn recording() -> RecordingRope {
    RecordingRope { calls: Mutex::new(vec![]) }
}

#[test]
fn deferred_step_embeds_the_whole_cache() {
    let rope = recording();
    let mut cache = make_kv_cache();
    cache.append(&make_tensor(3, 1.0), &make_tensor(3, 1.0)).unwrap();
    let ctx = PicContext::new(vec![cross(0, 2), plus(2, 2)]);
    let x = make_tensor(2, 1.0);
    run(&x, &x, &x, &ctx, &rope, &mut cache, None).unwrap();
    assert_eq!(cache.current_seq_len(), 5);
    let calls = rope.calls.lock().unwrap();
    assert_eq!(*calls, vec![(vec![1, 4], vec![0, 1, 0, 1, 4])]);
}

#[test]
fn pre_roped_step_embeds_the_new_tokens() {
    let rope = recording();
    let mut cache = make_kv_cache();
    cache.append(&make_tensor(3, 1.0), &make_tensor(3, 1.0)).unwrap();
    let mut ctx = PicContext::new(vec![cross(0, 2), plus(2, 2)]);
    ctx.has_pre_roped_k = true;
    let x = make_tensor(2, 1.0);
    run(&x, &x, &x, &ctx, &rope, &mut cache, None).unwrap();
    assert_eq!(cache.current_seq_len(), 5);
    let calls = rope.calls.lock().unwrap();
    assert_eq!(*calls, vec![(vec![1, 4], vec![1, 4])]);
}

#[test]
fn deferred_cache_holds_raw_keys_and_pre_roped_cache_embedded_ones() {
    let rope = test_rope();
    let x = make_tensor(3, 1.0);
    let mut ctx = PicContext::new(vec![cross(0, 1), plus(1, 2)]);

    let mut raw = make_kv_cache();
    run(&x, &x, &x, &ctx, &rope, &mut raw, None).unwrap();
    let kept = raw.all.unwrap().0;
    assert_eq!(
        kept.flatten_all().unwrap().to_vec1::<f32>().unwrap(),
        x.flatten_all().unwrap().to_vec1::<f32>().unwrap()
    );

    ctx.has_pre_roped_k = true;
    let mut embedded = make_kv_cache();
    run(&x, &x, &x, &ctx, &rope, &mut embedded, None).unwrap();
    let kept = embedded.all.unwrap().0;
    let expected = rope.pic_forward_k_only(&x, &[0, 0, 1]).unwrap();
    assert_eq!(
        kept.flatten_all().unwrap().to_vec1::<f32>().unwrap(),
        expected.flatten_all().unwrap().to_vec1::<f32>().unwrap()
    );
}

#[test]
fn both_ways_of_embedding_give_the_same_output() {
    let rope = test_rope();
    let q = make_tensor(4, 0.7);
    let k = make_tensor(4, 0.4);
    let v = Tensor::arange(0f32, 32f32, &Device::Cpu)
        .unwrap()
        .reshape((1, NUM_HEADS, 4, HEAD_DIM))
        .unwrap();
    let mut ctx = PicContext::new(vec![cross(0, 1), plus(1, 3)]);
    let mask = mask_tensor(&ctx, 4, 0, &Device::Cpu, DType::F32).unwrap();
    let (mut raw, mut embedded) = (make_kv_cache(), make_kv_cache());
    let deferred = run(&q, &k, &v, &ctx, &rope, &mut raw, Some(&mask)).unwrap();
    ctx.has_pre_roped_k = true;
    let eager = run(&q, &k, &v, &ctx, &rope, &mut embedded, Some(&mask)).unwrap();
    assert_eq!(raw.current_seq_len(), 4);
    assert_eq!(embedded.current_seq_len(), 4);
    let raw_v: Vec<f32> = raw.all.unwrap().1.flatten_all().unwrap().to_vec1().unwrap();
    let embedded_v: Vec<f32> = embedded.all.unwrap().1.flatten_all().unwrap().to_vec1().unwrap();
    assert_eq!(raw_v, embedded_v);
    let a: Vec<f32> = deferred.flatten_all().unwrap().to_vec1().unwrap();
    let b: Vec<f32> = eager.flatten_all().unwrap().to_vec1().unwrap();
    assert_eq!(a, b);
}

#[test]
fn a_query_without_a_token_axis_is_a_shape_error() {
    let flat = Tensor::full(1f32, (2, 3), &Device::Cpu).unwrap();
    for pre_roped in [false, true] {
        let mut ctx = PicContext::new(vec![cross(0, 3)]);
        ctx.has_pre_roped_k = pre_roped;
        let mut cache = make_kv_cache();
        let out = run(&flat, &flat, &flat, &ctx, &recording(), &mut cache, None);
        assert!(matches!(out, Err(PicError::Shape(_))));
        assert!(cache.all.is_none());
    }
}

#[test]
fn cached_keys_without_a_token_axis_are_a_shape_error() {
    let x = make_tensor(2, 1.0);
    let flat = Tensor::full(1f32, (2, 3), &Device::Cpu).unwrap();
    let ctx = PicContext::new(vec![cross(0, 2)]);
    let out = pic_sdpa_attention(
        &x,
        &x,
        &x,
        &ctx,
        &recording(),
        0,
        &mut (),
        |_, _, v| Ok((flat.clone(), v.clone())),
        None,
        |q, k, v, m| run_attention(q, k, v, m),
    );
    assert!(matches!(out, Err(PicError::Shape(_))));
}

#[test]
fn each_failing_step_has_its_error() {
    let x = make_tensor(2, 1.0);
    for pre_roped in [false, true] {
        let mut ctx = PicContext::new(vec![cross(0, 2)]);
        ctx.has_pre_roped_k = pre_roped;

        let mut cache = make_kv_cache();
        cache.append(&make_tensor(3, 1.0), &make_tensor(3, 1.0)).unwrap();
        let out = run(&x, &x, &x, &ctx, &BrokenRope, &mut cache, None);
        assert!(matches!(out, Err(PicError::Rope(Error::Msg(_)))));
        // Embedded keys are appended after the embedding, raw ones before it.
        assert_eq!(cache.current_seq_len(), if pre_roped { 3 } else { 5 });

        let out = pic_sdpa_attention(
            &x,
            &x,
            &x,
            &ctx,
            &recording(),
            0,
            &mut (),
            |_, _, _| Err(Error::Msg("cache full".to_string())),
            None,
            |q, k, v, m| run_attention(q, k, v, m),
        );
        assert!(matches!(out, Err(PicError::Cache(Error::Msg(_)))));

        let out = pic_sdpa_attention(
            &x,
            &x,
            &x,
            &ctx,
            &recording(),
            0,
            &mut (),
            |_, k, v| Ok((k.clone(), v.clone())),
            None,
            |_, _, _, _| Err(Error::Msg("no attention".to_string())),
        );
        assert!(matches!(out, Err(PicError::Attention(Error::Msg(_)))));
    }
}

#[test]
fn the_checked_call_refuses_what_does_not_fit() {
    let x = make_tensor(2, 1.0);
    let longer = make_tensor(3, 1.0);
    let two = Tensor::full(1f32, (2, NUM_HEADS, 2, HEAD_DIM), &Device::Cpu).unwrap();
    let mut ctx = PicContext::new(vec![cross(0, 2)]);

    // Raw cache: fewer keys than queries, a batch of two, and a fitting call.
    for (q, k, fits) in [(&longer, &x, false), (&two, &two, false), (&x, &longer, true)] {
        let out = checked_pic_sdpa_attention(
            q,
            k,
            k,
            &ctx,
            &recording(),
            0,
            &mut (),
            |_, k, v| Ok((k.clone(), v.clone())),
            None,
            |q, k, v, m| run_attention(q, k, v, m),
        );
        assert_eq!(out.is_some(), fits);
    }

    // Embedded cache: as many keys as queries, and indices that are machine integers.
    // What does not fit is not appended.
    ctx.has_pre_roped_k = true;
    for (q, k, past, fits) in [
        (&x, &longer, 0, false),
        (&two, &two, 0, false),
        (&x, &x, usize::MAX, false),
        (&x, &x, 5, true),
    ] {
        let mut cache = make_kv_cache();
        let out = checked_pic_sdpa_attention(
            q,
            k,
            k,
            &ctx,
            &recording(),
            past,
            &mut cache,
            |cache, k, v| cache.append(k, v),
            None,
            |q, k, v, m| run_attention(q, k, v, m),
        );
        assert_eq!(out.is_some(), fits);
        assert_eq!(cache.all.is_some(), fits);
    }
}

#[test]
fn the_checked_call_does_what_the_call_does() {
    let rope = test_rope();
    let x = make_tensor(3, 0.5);
    let ctx = PicContext::new(vec![cross(0, 1), plus(1, 2)]);
    let plain = run(&x, &x, &x, &ctx, &rope, &mut make_kv_cache(), None).unwrap();
    let checked = checked_pic_sdpa_attention(
        &x,
        &x,
        &x,
        &ctx,
        &rope,
        0,
        &mut (),
        |_, k, v| Ok((k.clone(), v.clone())),
        None,
        |q, k, v, m| run_attention(q, k, v, m),
    );
    let checked = checked.unwrap().unwrap();
    let a: Vec<f32> = plain.flatten_all().unwrap().to_vec1().unwrap();
    let b: Vec<f32> = checked.flatten_all().unwrap().to_vec1().unwrap();
    assert_eq!(a, b);
}
