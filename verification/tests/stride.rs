use deep_thought::allocation::{stride_packed, stride_strided};

#[test]
fn test_stride_packed() {
    let stride = stride_packed(&[2, 3, 4], 2);
    assert_eq!(stride, [24, 8, 2]);
}

#[test]
fn test_stride_strided() {
    let _stride = stride_strided(&[2, 3, 4], 2);
}

#[test]
fn stride_strided_word_aligned() {
    // an element of two bytes is padded up to one full machine word of eight
    let stride = stride_strided(&[2, 3, 4], 2);
    assert_eq!(stride, [96, 32, 8]);
}

#[test]
fn stride_packed_single_axis() {
    let stride = stride_packed(&[7], 4);
    assert_eq!(stride, [4]);
}

#[test]
fn stride_strided_exact_word() {
    // an element of exactly one word is not padded
    let stride = stride_strided(&[3, 2], 8);
    assert_eq!(stride, [16, 8]);
}
