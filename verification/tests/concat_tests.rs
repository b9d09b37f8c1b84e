use concat_kernel::boolean_array;
use concat_kernel::int64_array;
use concat_kernel::int8_array;
use concat_kernel::large_utf8_array;
use concat_kernel::same_data;
use concat_kernel::utf8_array;
use concat_kernel::ArrayData;
use concat_kernel::ConcatError;

fn s(x: &str) -> Option<Vec<u8>> {
    Some(x.as_bytes().to_vec())
}

#[test]
fn test_concat_empty_vec() {
    let re = concat_kernel::kernel::concat(&vec![]);
    assert!(re.is_err());
}

#[test]
fn test_concat_one_element_vec() {
    let arr = int64_array(vec![Some(-1), Some(2), None]);
    let result = concat_kernel::kernel::concat(&vec![arr.share()]).unwrap();
    assert!(
        arr.equals(&result),
        "concatenating single element array gives back the same result"
    );
}

#[test]
fn test_concat_incompatible_datatypes() {
    let re = concat_kernel::kernel::concat(&vec![
        int64_array(vec![Some(-1), Some(2), None]),
        utf8_array(vec![s("hello"), s("bar"), s("world")]),
    ]);
    assert!(re.is_err());
}

#[test]
fn test_concat_string_arrays() {
    let arr = concat_kernel::kernel::concat(&vec![
        utf8_array(vec![s("hello"), s("world")]),
        utf8_array(vec![s("2"), s("3"), s("4")]),
        utf8_array(vec![s("foo"), s("bar"), None, s("baz")]),
    ])
    .unwrap();

    let expected_output = utf8_array(vec![
        s("hello"),
        s("world"),
        s("2"),
        s("3"),
        s("4"),
        s("foo"),
        s("bar"),
        None,
        s("baz"),
    ]);

    assert!(arr.equals(&expected_output));
}

#[test]
fn test_concat_primitive_arrays() {
    let arr = concat_kernel::kernel::concat(&vec![
        int64_array(vec![Some(-1), Some(-1), Some(2), None, None]),
        int64_array(vec![Some(101), Some(102), Some(103), None]),
        int64_array(vec![Some(256), Some(512), Some(1024)]),
    ])
    .unwrap();

    let expected_output = int64_array(vec![
        Some(-1),
        Some(-1),
        Some(2),
        None,
        None,
        Some(101),
        Some(102),
        Some(103),
        None,
        Some(256),
        Some(512),
        Some(1024),
    ]);

    assert!(arr.equals(&expected_output));
}

#[test]
fn test_concat_primitive_array_slices() {
    let input_1 = int64_array(vec![Some(-1), Some(-1), Some(2), None, None]).slice(1, 3);
    let input_2 = int64_array(vec![Some(101), Some(102), Some(103), None]).slice(1, 3);
    let arr = concat_kernel::kernel::concat(&vec![input_1, input_2]).unwrap();

    let expected_output =
        int64_array(vec![Some(-1), Some(2), None, Some(102), Some(103), None]);

    assert!(arr.equals(&expected_output));
}

#[test]
fn test_concat_boolean_primitive_arrays() {
    let arr = concat_kernel::kernel::concat(&vec![
        boolean_array(vec![
            Some(true),
            Some(true),
            Some(false),
            None,
            None,
            Some(false),
        ]),
        boolean_array(vec![None, Some(false), Some(true), Some(false)]),
    ])
    .unwrap();

    let expected_output = boolean_array(vec![
        Some(true),
        Some(true),
        Some(false),
        None,
        None,
        Some(false),
        None,
        Some(false),
        Some(true),
        Some(false),
    ]);

    assert!(arr.equals(&expected_output));
}

#[test]
fn test_string_array_slices() {
    let input_1 = utf8_array(vec![s("hello"), s("A"), s("B"), s("C")]);
    let input_2 = utf8_array(vec![s("world"), s("D"), s("E"), s("Z")]);

    let arr =
        concat_kernel::kernel::concat(&vec![input_1.slice(1, 3), input_2.slice(1, 2)]).unwrap();

    let expected_output = utf8_array(vec![s("A"), s("B"), s("C"), s("D"), s("E")]);

    assert!(arr.equals(&expected_output));
}

#[test]
fn test_string_array_with_null_slices() {
    let input_1 = utf8_array(vec![s("hello"), None, s("A"), s("C")]);
    let input_2 = utf8_array(vec![None, s("world"), s("D"), None]);

    let arr =
        concat_kernel::kernel::concat(&vec![input_1.slice(1, 3), input_2.slice(1, 2)]).unwrap();

    let expected_output = utf8_array(vec![None, s("A"), s("C"), s("world"), s("D")]);

    assert!(arr.equals(&expected_output));
}

#[test]
fn test_concat_string_sizes() {
    let a = large_utf8_array((0..150).map(|_| s("foo")).collect());
    let b = large_utf8_array((0..150).map(|_| s("foo")).collect());
    let c = large_utf8_array(vec![s("foo"), s("bar"), None, s("baz")]);
    // 150 * 3 = 450
    // 150 * 3 = 450
    // 3 * 3   = 9
    // ------------+
    // 909
    // closest 64 byte aligned cap = 960

    let arr = concat_kernel::kernel::concat(&vec![a, b, c]).unwrap();
    // this would have been 1280 if we did not precompute the value lengths.
    assert_eq!(arr.value_buffer().capacity(), 960);
}

#[test]
fn test_concat_single_shares_buffers() {
    let a = utf8_array(vec![s("hello"), s("world")]);
    let out = concat_kernel::kernel::concat(&vec![a.share()]).unwrap();
    assert!(out.equals(&a));
    assert!(out.value_buffer().same_object(a.value_buffer()));
}

#[test]
fn test_concat_empty_error_kind() {
    match concat_kernel::kernel::concat(&vec![]) {
        Err(e) => assert_eq!(e, ConcatError::EmptyInput),
        Ok(_) => panic!(),
    }
}

#[test]
fn test_concat_type_mismatch_error_kind() {
    let re = concat_kernel::kernel::concat(&vec![
        utf8_array(vec![s("a")]),
        large_utf8_array(vec![s("b")]),
    ]);
    match re {
        Err(e) => assert_eq!(e, ConcatError::TypeMismatch),
        Ok(_) => panic!(),
    }
}

#[test]
fn test_compute_str_values_length_exact() {
    let arrays = vec![
        utf8_array(vec![s("ab"), s("c")]),
        utf8_array(vec![s("defg")]),
    ];
    assert_eq!(concat_kernel::compute_str_values_length(&arrays), 7);
}

#[test]
fn test_share_preserves_contents() {
    let a = int64_array(vec![Some(5), None, Some(7)]);
    let b = a.share();
    assert!(a.equals(&b));
    assert_eq!(b.len(), 3);
}

fn dict_from_keys8(keys: Vec<Option<i8>>, values: Vec<Option<Vec<u8>>>) -> ArrayData {
    concat_kernel::dictionary_array(int8_array(keys), utf8_array(values)).unwrap()
}

fn dict_from_keys32(keys: Vec<Option<i32>>, values: Vec<Option<Vec<u8>>>) -> ArrayData {
    concat_kernel::dictionary_array(concat_kernel::int32_array(keys), utf8_array(values))
        .unwrap()
}

fn collect_string_dictionary(dictionary: &ArrayData) -> Vec<Option<String>> {
    let keys = dictionary.dict_keys();
    let values = dictionary.dict_values();
    let mut out: Vec<Option<String>> = Vec::new();
    for i in 0..keys.len() {
        if keys.is_valid(i) {
            let key = keys.key_int(i) as usize;
            let bytes = values.bytes_at(key);
            out.push(Some(String::from_utf8(bytes).unwrap()));
        } else {
            out.push(None);
        }
    }
    out
}

fn concat_dictionary(input_1: ArrayData, input_2: ArrayData) -> Vec<Option<String>> {
    let concat = concat_kernel::kernel::concat(&vec![input_1, input_2]).unwrap();
    collect_string_dictionary(&concat)
}

#[test]
fn test_string_dictionary_array() {
    // "hello", "A", "B", "hello", "hello", "C" dictionary-encoded.
    let input_1 = dict_from_keys32(
        vec![Some(0), Some(1), Some(2), Some(0), Some(0), Some(3)],
        vec![s("hello"), s("A"), s("B"), s("C")],
    );
    // "hello", "E", "E", "hello", "F", "E" dictionary-encoded.
    let input_2 = dict_from_keys32(
        vec![Some(0), Some(1), Some(1), Some(0), Some(2), Some(1)],
        vec![s("hello"), s("E"), s("F")],
    );

    let expected: Vec<_> = vec![
        "hello", "A", "B", "hello", "hello", "C", "hello", "E", "E", "hello", "F", "E",
    ]
    .into_iter()
    .map(|x| Some(x.to_string()))
    .collect();

    let concat = concat_dictionary(input_1, input_2);
    assert_eq!(concat, expected);
}

#[test]
fn test_string_dictionary_array_nulls() {
    let input_1 = dict_from_keys32(
        vec![Some(0), Some(1), None, Some(2)],
        vec![s("foo"), s("bar"), s("fiz")],
    );
    let input_2 = dict_from_keys32(vec![None], vec![]);
    let expected = vec![
        Some("foo".to_string()),
        Some("bar".to_string()),
        None,
        Some("fiz".to_string()),
        None,
    ];

    let concat = concat_dictionary(input_1, input_2);
    assert_eq!(concat, expected);
}

#[test]
fn test_dictionary_concat_reuse() {
    // "a", "a", "b", "c" dictionary-encoded over the dictionary "a", "b", "c".
    let array = dict_from_keys8(
        vec![Some(0), Some(0), Some(1), Some(2)],
        vec![s("a"), s("b"), s("c")],
    );
    let copy = array.share();

    // dictionary is "a", "b", "c"
    assert!(array
        .dict_values()
        .equals(&utf8_array(vec![s("a"), s("b"), s("c")])));
    assert!(array
        .dict_keys()
        .equals(&int8_array(vec![Some(0), Some(0), Some(1), Some(2)])));

    // concatenate it with itself
    let combined = concat_kernel::kernel::concat(&vec![copy.share(), array.share()]).unwrap();

    assert!(
        combined
            .dict_values()
            .equals(&utf8_array(vec![s("a"), s("b"), s("c")])),
        "Actual: {:#?}",
        combined
    );

    assert!(combined.dict_keys().equals(&int8_array(vec![
        Some(0),
        Some(0),
        Some(1),
        Some(2),
        Some(0),
        Some(0),
        Some(1),
        Some(2)
    ])));

    // Should have reused the dictionary
    assert!(same_data(array.dict_values(), combined.dict_values()));
    assert!(same_data(copy.dict_values(), combined.dict_values()));

    let new = dict_from_keys8(vec![Some(0)], vec![s("d")]);
    let combined =
        concat_kernel::kernel::concat(&vec![copy.share(), array.share(), new.share()]).unwrap();

    // Should not have reused the dictionary
    assert!(!same_data(array.dict_values(), combined.dict_values()));
    assert!(!same_data(copy.dict_values(), combined.dict_values()));
    assert!(!same_data(new.dict_values(), combined.dict_values()));
}

#[test]
fn test_concat_int8_arrays() {
    let arr = concat_kernel::kernel::concat(&vec![
        int8_array(vec![Some(1), None]),
        int8_array(vec![Some(-3), Some(4)]),
    ])
    .unwrap();
    let expected = int8_array(vec![Some(1), None, Some(-3), Some(4)]);
    assert!(arr.equals(&expected));
}

#[test]
fn test_concat_int32_arrays() {
    let arr = concat_kernel::kernel::concat(&vec![
        concat_kernel::int32_array(vec![Some(10), Some(20)]),
        concat_kernel::int32_array(vec![None, Some(30)]),
    ])
    .unwrap();
    let expected = concat_kernel::int32_array(vec![Some(10), Some(20), None, Some(30)]);
    assert!(arr.equals(&expected));
}

#[test]
fn test_concat_large_string_arrays() {
    let arr = concat_kernel::kernel::concat(&vec![
        large_utf8_array(vec![s("hello"), None]),
        large_utf8_array(vec![s("world")]),
    ])
    .unwrap();
    let expected = large_utf8_array(vec![s("hello"), None, s("world")]);
    assert!(arr.equals(&expected));
}

#[test]
fn test_string_slice_then_concat_uses_live_range_bytes() {
    // Slicing away the front element must also drop its bytes from the
    // computed value-buffer requirement of a later concatenation.
    let a = utf8_array(vec![s("abcd"), s("ef")]).slice(1, 1);
    let arrays = vec![a];
    // "ef" is a suffix of the values buffer: 2 live bytes remain.
    assert_eq!(concat_kernel::compute_str_values_length(&arrays), 2);
}

#[test]
fn test_bitmap_and_merge() {
    let a = concat_kernel::Bitmap::from_vec(vec![true, true, false, false]);
    let b = concat_kernel::Bitmap::from_vec(vec![true, false, true, false]);
    let m = a.and(&b);
    assert_eq!(m.len(), 4);
    assert!(m.is_set(0));
    assert!(!m.is_set(1));
    assert!(!m.is_set(2));
    assert!(!m.is_set(3));
}

#[test]
fn test_buffer_builder_capacity() {
    // Reserving the exact size up front yields one granule-rounded
    // allocation; growing element by element doubles instead.
    let mut exact: concat_kernel::BufferBuilder<u8> = concat_kernel::BufferBuilder::new(909);
    let src = concat_kernel::Buffer::from_vec(vec![7u8; 909]);
    exact.append_from(&src, 0, 909);
    let frozen = exact.finish();
    assert_eq!(frozen.capacity(), 960);
    assert_eq!(frozen.len(), 909);

    let mut grown: concat_kernel::BufferBuilder<u8> = concat_kernel::BufferBuilder::new(10);
    for _ in 0..65 {
        grown.append(1u8);
    }
    let frozen = grown.finish();
    assert_eq!(frozen.capacity(), 128);
    assert_eq!(frozen.len(), 65);
}
