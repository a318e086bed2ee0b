use tetris_core::score::score_text;

#[test]
fn a_score_is_shown_with_five_digits() {
    assert_eq!(score_text(0), "00000");
    assert_eq!(score_text(7), "00007");
    assert_eq!(score_text(256), "00256");
    assert_eq!(score_text(4096), "04096");
    assert_eq!(score_text(99999), "99999");
}

#[test]
fn a_large_score_takes_the_digits_it_needs() {
    assert_eq!(score_text(100000), "100000");
    assert_eq!(score_text(1234567), "1234567");
    assert_eq!(score_text(98765432), "98765432");
    assert_eq!(score_text(999999999), "999999999");
    assert_eq!(score_text(1000000000), "1000000000");
    assert_eq!(score_text(u32::MAX), "4294967295");
}

#[test]
fn score_text_agrees_with_padded_formatting() {
    let mut score: u32 = 1;
    for _ in 0..200 {
        assert_eq!(score_text(score), format!("{:0>5}", score));
        score = score.wrapping_mul(7).wrapping_add(3);
    }
}
