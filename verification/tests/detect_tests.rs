use pic::{content_hash_tokens, detect_pic_blocks, PicBlock, PicContext};

#[test]
fn test_detect_pic_blocks_no_sentinels() {
    assert!(detect_pic_blocks(&[1, 2, 3, 4], 100, 101).is_none());
}

#[test]
fn test_detect_pic_blocks_simple() {
    // cross_token(101), 10, 11, plus_token(100), 20, 21, 22, cross_token(101), 30
    let tokens = vec![101, 10, 11, 100, 20, 21, 22, 101, 30];
    let blocks = detect_pic_blocks(&tokens, 100, 101).unwrap();

    assert_eq!(blocks.len(), 3);

    assert_eq!(blocks[0].start, 1);
    assert_eq!(blocks[0].len, 2);
    assert!(!blocks[0].is_plus);
    assert!(blocks[0].content_hash.is_none());

    assert_eq!(blocks[1].start, 4);
    assert_eq!(blocks[1].len, 3);
    assert!(blocks[1].is_plus);
    assert!(blocks[1].content_hash.is_some());

    assert_eq!(blocks[2].start, 8);
    assert_eq!(blocks[2].len, 1);
    assert!(!blocks[2].is_plus);
}

#[test]
fn test_detect_pic_blocks_content_hash_stable() {
    let tokens_a = vec![100, 20, 21, 22];
    let tokens_b = vec![100, 20, 21, 22];
    let blocks_a = detect_pic_blocks(&tokens_a, 100, 101).unwrap();
    let blocks_b = detect_pic_blocks(&tokens_b, 100, 101).unwrap();
    assert_eq!(blocks_a[0].content_hash, blocks_b[0].content_hash);
}

#[test]
fn test_detect_pic_blocks_tokens_before_sentinel() {
    // Tokens 1,2,3 appear before any sentinel — should be treated as Cross
    let tokens = vec![1, 2, 3, 100, 10, 11];
    let blocks = detect_pic_blocks(&tokens, 100, 101).unwrap();

    assert_eq!(blocks.len(), 2);
    // Pre-sentinel tokens: Cross
    assert_eq!(blocks[0].start, 0);
    assert_eq!(blocks[0].len, 3);
    assert!(!blocks[0].is_plus);
    // After plus sentinel
    assert_eq!(blocks[1].start, 4);
    assert_eq!(blocks[1].len, 2);
    assert!(blocks[1].is_plus);
}

#[test]
fn test_detect_pic_blocks_consecutive_sentinels() {
    // Two sentinels in a row: plus then cross — empty plus block is skipped
    let tokens = vec![100, 101, 10, 11];
    let blocks = detect_pic_blocks(&tokens, 100, 101).unwrap();

    // The plus sentinel at 0 starts a block at 1, but cross sentinel at 1
    // closes it immediately (len=0), so it's skipped.
    assert_eq!(blocks.len(), 1);
    assert_eq!(blocks[0].start, 2);
    assert!(!blocks[0].is_plus);
}

#[test]
fn test_detect_pic_blocks_sentinel_at_end() {
    // Sentinel as the very last token — no content after it
    let tokens = vec![101, 10, 11, 100];
    let blocks = detect_pic_blocks(&tokens, 100, 101).unwrap();

    // Only the cross block [10, 11] should appear
    assert_eq!(blocks.len(), 1);
    assert_eq!(blocks[0].start, 1);
    assert_eq!(blocks[0].len, 2);
    assert!(!blocks[0].is_plus);
}

#[test]
fn test_detect_pic_blocks_only_plus() {
    let tokens = vec![100, 10, 20, 30];
    let blocks = detect_pic_blocks(&tokens, 100, 101).unwrap();

    assert_eq!(blocks.len(), 1);
    assert!(blocks[0].is_plus);
    assert_eq!(blocks[0].start, 1);
    assert_eq!(blocks[0].len, 3);
}

#[test]
fn test_detect_pic_blocks_multiple_plus() {
    // plus(10,11) plus(20,21)
    let tokens = vec![100, 10, 11, 100, 20, 21];
    let blocks = detect_pic_blocks(&tokens, 100, 101).unwrap();

    assert_eq!(blocks.len(), 2);
    assert!(blocks[0].is_plus);
    assert_eq!(blocks[0].start, 1);
    assert_eq!(blocks[0].len, 2);
    assert!(blocks[1].is_plus);
    assert_eq!(blocks[1].start, 4);
    assert_eq!(blocks[1].len, 2);

    // Different content → different hashes
    assert_ne!(blocks[0].content_hash, blocks[1].content_hash);
}

#[test]
fn test_detect_pic_blocks_empty_input() {
    assert!(detect_pic_blocks(&[], 100, 101).is_none());
}

#[test]
fn test_detect_pic_blocks_only_sentinel() {
    // A single sentinel with no content produces no blocks
    let tokens = vec![100];
    let blocks = detect_pic_blocks(&tokens, 100, 101);
    assert!(blocks.is_none());
}

#[test]
fn plus_blocks_are_keyed_by_their_tokens() {
    let blocks = detect_pic_blocks(&[7, 100, 20, 21, 101, 8], 100, 101).unwrap();
    assert_eq!(
        blocks,
        vec![
            PicBlock::cross(0, 1),
            PicBlock::plus(2, 2, content_hash_tokens(&[20, 21])),
            PicBlock::cross(5, 1),
        ]
    );
}

#[test]
fn content_hash_does_not_depend_on_where_the_block_stands() {
    let near = detect_pic_blocks(&[100, 5, 6, 7], 100, 101).unwrap();
    let far = detect_pic_blocks(&[1, 2, 101, 3, 100, 5, 6, 7, 101, 4], 100, 101).unwrap();
    assert_eq!(near[0].start, 1);
    assert_eq!(far[2].start, 5);
    assert!(near[0].content_hash.is_some());
    assert_eq!(near[0].content_hash, far[2].content_hash);
}

#[test]
fn one_token_as_both_sentinels_starts_plus_blocks() {
    let blocks = detect_pic_blocks(&[1, 9, 2, 9, 3], 9, 9).unwrap();
    assert_eq!(blocks.iter().map(|b| b.is_plus).collect::<Vec<_>>(), vec![false, true, true]);
}

#[test]
fn nothing_but_sentinels_has_no_blocks() {
    assert!(detect_pic_blocks(&[100, 101, 101, 100], 100, 101).is_none());
}

#[test]
fn detected_blocks_hold_every_token_but_the_sentinels() {
    let tokens = [1, 100, 100, 2, 3, 101, 4, 100, 5, 101];
    let ctx = PicContext::new(detect_pic_blocks(&tokens, 100, 101).unwrap());
    for (i, &t) in tokens.iter().enumerate() {
        assert_eq!(ctx.block_for_token(i).is_some(), t != 100 && t != 101);
    }
    assert!(ctx.is_plus_token(3));
    assert!(!ctx.is_plus_token(6));
    assert!(ctx.is_plus_token(8));
}
