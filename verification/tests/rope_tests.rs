use pic::{compute_pic_rope_positions, DeferredRopeMap, PicBlock, PicContext};

fn cross(start: usize, len: usize) -> PicBlock {
    PicBlock {
        start,
        len,
        is_plus: false,
        content_hash: None,
    }
}

fn plus(start: usize, len: usize) -> PicBlock {
    PicBlock {
        start,
        len,
        is_plus: true,
        content_hash: Some(start as u64 * 1000 + len as u64),
    }
}

#[test]
fn test_compute_pic_rope_positions_no_past() {
    let ctx = PicContext::new(vec![cross(0, 3), plus(3, 2), cross(5, 2)]);
    let (q_pos, k_pos) = compute_pic_rope_positions(&ctx, 7, 0);

    // Q positions = position_ids[0..7]
    assert_eq!(q_pos, ctx.position_ids);
    // K positions = same (no past)
    assert_eq!(k_pos, ctx.position_ids);
}

#[test]
fn test_compute_pic_rope_positions_with_past() {
    let ctx = PicContext::new(vec![cross(0, 3), plus(3, 2), cross(5, 2)]);

    // Simulating: past_kv_len=3 (cross tokens cached), seq_len=4 (processing rest)
    let (q_pos, k_pos) = compute_pic_rope_positions(&ctx, 4, 3);

    // Q covers indices 3..7 → position_ids[3..7]
    assert_eq!(q_pos, &ctx.position_ids[3..7]);
    // K covers indices 0..7 → position_ids[0..7]
    assert_eq!(k_pos, ctx.position_ids);
}

#[test]
fn test_compute_pic_rope_positions_beyond_context() {
    // When indices exceed position_ids, falls back to identity
    let ctx = PicContext::new(vec![cross(0, 3)]);

    let (q_pos, k_pos) = compute_pic_rope_positions(&ctx, 2, 3);

    // Q covers indices 3,4 — both beyond position_ids (len=3), so fallback
    assert_eq!(q_pos, vec![3, 4]);
    // K covers 0..5 — first 3 from position_ids, rest fallback
    assert_eq!(k_pos, vec![0, 1, 2, 3, 4]);
}

#[test]
fn test_deferred_rope_map() {
    let mut map = DeferredRopeMap::new();
    assert!(!map.has_deferred());

    map.extend(&[false, false, true, true], &[0, 1, 0, 1]);
    assert!(map.has_deferred());
    assert_eq!(map.len(), 4);

    map.reset();
    assert!(map.is_empty());
}

#[test]
fn test_deferred_rope_map_no_deferred() {
    let mut map = DeferredRopeMap::new();
    map.extend(&[false, false, false], &[0, 1, 2]);
    assert!(!map.has_deferred());
    assert_eq!(map.len(), 3);
}

#[test]
fn test_deferred_rope_map_multiple_extends() {
    let mut map = DeferredRopeMap::new();
    map.extend(&[false], &[0]);
    map.extend(&[true, true], &[0, 1]);
    assert!(map.has_deferred());
    assert_eq!(map.len(), 3);
}

#[test]
fn query_positions_are_the_end_of_the_key_positions() {
    let ctx = PicContext::new(vec![cross(0, 2), plus(2, 3), cross(5, 2)]);
    let (q_pos, k_pos) = compute_pic_rope_positions(&ctx, 6, 4);
    assert_eq!(q_pos, vec![2, 2, 3, 7, 8, 9]);
    assert_eq!(k_pos, vec![0, 1, 0, 1, 2, 2, 3, 7, 8, 9]);
}

#[test]
fn positions_without_plus_are_indices() {
    let ctx = PicContext::new(vec![cross(0, 5)]);
    let (q_pos, k_pos) = compute_pic_rope_positions(&ctx, 3, 4);
    assert_eq!(q_pos, vec![4, 5, 6]);
    assert_eq!(k_pos, vec![0, 1, 2, 3, 4, 5, 6]);
}

#[test]
fn no_tokens_have_no_positions() {
    let ctx = PicContext::new(vec![plus(0, 5)]);
    assert_eq!(compute_pic_rope_positions(&ctx, 0, 0), (vec![], vec![]));
}

#[test]
fn extending_appends_both_columns() {
    let mut map = DeferredRopeMap::default();
    assert!(map.is_empty());
    map.extend(&[true, false], &[4, 9]);
    map.extend(&[], &[]);
    map.extend(&[true], &[2]);
    assert_eq!(map.is_deferred, vec![true, false, true]);
    assert_eq!(map.rope_positions, vec![4, 9, 2]);
    map.reset();
    assert_eq!(map.len(), 0);
    assert!(!map.has_deferred());
    assert!(map.rope_positions.is_empty());
}
