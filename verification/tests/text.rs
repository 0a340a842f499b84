use lucent_lang::text::{decimal_text, left_aligned_text, right_aligned_text, zero_padded_text};

#[test]
fn decimal_text_of_numbers() {
    assert_eq!("0", decimal_text(0));
    assert_eq!("7", decimal_text(7));
    assert_eq!("9", decimal_text(9));
    assert_eq!("10", decimal_text(10));
    assert_eq!("255", decimal_text(255));
    assert_eq!("1000", decimal_text(1000));
    assert_eq!("4294967295", decimal_text(u32::MAX as usize));
    assert_eq!(usize::MAX.to_string(), decimal_text(usize::MAX));
    for n in 0..2000usize {
        assert_eq!(n.to_string(), decimal_text(n));
    }
}

#[test]
fn zero_padded_text_pads_to_the_width() {
    assert_eq!("0000", zero_padded_text(0, 4));
    assert_eq!("0002", zero_padded_text(2, 4));
    assert_eq!("0512", zero_padded_text(512, 4));
    assert_eq!("9999", zero_padded_text(9999, 4));
    assert_eq!("10000", zero_padded_text(10000, 4));
    assert_eq!("7", zero_padded_text(7, 0));
    assert_eq!("7", zero_padded_text(7, 1));
    for n in [0usize, 5, 42, 999, 1000, 12345, 1234567] {
        assert_eq!(format!("{:04}", n), zero_padded_text(n, 4));
        assert_eq!(format!("{:08}", n), zero_padded_text(n, 8));
    }
}

#[test]
fn left_aligned_text_pads_after_the_text() {
    assert_eq!("1   ", left_aligned_text("1", 4));
    assert_eq!("|   ", left_aligned_text("|", 4));
    assert_eq!("1234", left_aligned_text("1234", 4));
    assert_eq!("12345", left_aligned_text("12345", 4));
    assert_eq!("    ", left_aligned_text("", 4));
    assert_eq!("OP_CONSTANT     ", left_aligned_text("OP_CONSTANT", 16));
    assert_eq!(format!("{:<16}", "OP_CONSTANT"), left_aligned_text("OP_CONSTANT", 16));
    assert_eq!(format!("{:04}", String::from("12")), left_aligned_text("12", 4));
}

#[test]
fn right_aligned_text_pads_before_the_text() {
    assert_eq!("   0", right_aligned_text("0", 4));
    assert_eq!(" 255", right_aligned_text("255", 4));
    assert_eq!("4660", right_aligned_text("4660", 4));
    assert_eq!("65535", right_aligned_text("65535", 4));
    assert_eq!(format!("{:4}", 17usize), right_aligned_text("17", 4));
}

#[test]
fn alignment_counts_characters() {
    assert_eq!("é   ", left_aligned_text("é", 4));
    assert_eq!("   é", right_aligned_text("é", 4));
}
