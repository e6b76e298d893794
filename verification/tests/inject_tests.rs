use ell_http::inject::{copy_narrow, copy_wide};

#[test]
fn copy_wide_cuts_to_buffer() {
    assert_eq!(copy_wide("hi", 2), (vec![0x68, 0, 0x69, 0], 4));
    assert_eq!(copy_wide("hi", 10), (vec![0x68, 0, 0x69, 0, 0, 0], 6));
    assert_eq!(copy_wide("", 0), (vec![], 0));
}

#[test]
fn copy_narrow_as_c_string() {
    assert_eq!(copy_narrow("ab", 10), (b"ab\0".to_vec(), 3));
    assert_eq!(copy_narrow("abcdef", 4), (b"abcd".to_vec(), 4));
    assert_eq!(copy_narrow("a\0b", 10), (vec![], 0));
}
