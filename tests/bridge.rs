use gray_matter::bridge::{
    dispatch, named_variant_payload, read_pod, variant_payload, PodArrayAccess, PodMapAccess,
    Request, VariantKind, Visit,
};
use gray_matter::{Error, Pod};

#[test]
fn any_follows_the_stored_kind() {
    assert_eq!(dispatch(&Pod::Null, Request::Any), Ok(Visit::Unit));
    assert_eq!(dispatch(&Pod::Integer(-4), Request::Any), Ok(Visit::I64(-4)));
    assert_eq!(dispatch(&Pod::Boolean(true), Request::Any), Ok(Visit::Bool(true)));
    assert_eq!(dispatch(&Pod::String("a".into()), Request::Any), Ok(Visit::Str));
    assert_eq!(dispatch(&Pod::new_array(), Request::Any), Ok(Visit::Elements));
    assert_eq!(dispatch(&Pod::new_hash(), Request::Any), Ok(Visit::Entries));
    let bits = 1.5_f64.to_bits();
    assert_eq!(dispatch(&Pod::Float(bits), Request::Any), Ok(Visit::Float(bits)));
}

#[test]
fn integers_convert_by_width() {
    assert_eq!(dispatch(&Pod::Integer(300), Request::U8), Ok(Visit::U8(44)));
    assert_eq!(dispatch(&Pod::Integer(-1), Request::U16), Ok(Visit::U16(65535)));
    assert_eq!(dispatch(&Pod::Integer(7), Request::I32), Ok(Visit::I32(7)));
    assert_eq!(dispatch(&Pod::Integer(7), Request::I128), Ok(Visit::I128(7)));
    assert_eq!(
        dispatch(&Pod::Boolean(true), Request::I64),
        Err(Error::TypeError("integer".to_string()))
    );
}

#[test]
fn floats_accept_integers() {
    assert_eq!(dispatch(&Pod::Integer(2), Request::F64), Ok(Visit::IntAsFloat(2)));
    assert_eq!(
        dispatch(&Pod::Null, Request::F64),
        Err(Error::TypeError("float".to_string()))
    );
    assert_eq!(
        dispatch(&Pod::Null, Request::F32),
        Err(Error::TypeError("float or integer".to_string()))
    );
}

#[test]
fn char_needs_one_character() {
    assert_eq!(dispatch(&Pod::String("é".into()), Request::Char), Ok(Visit::Char('é')));
    assert_eq!(
        dispatch(&Pod::String("ab".into()), Request::Char),
        Err(Error::TypeError("expected single character".to_string()))
    );
    assert_eq!(
        dispatch(&Pod::Integer(1), Request::Char),
        Err(Error::TypeError("string".to_string()))
    );
}

#[test]
fn option_unit_and_shapes() {
    assert_eq!(dispatch(&Pod::Null, Request::Optional), Ok(Visit::Absent));
    assert_eq!(dispatch(&Pod::Integer(1), Request::Optional), Ok(Visit::Present));
    assert_eq!(
        dispatch(&Pod::Integer(1), Request::Unit),
        Err(Error::TypeError("null".to_string()))
    );
    assert_eq!(
        dispatch(&Pod::Integer(1), Request::Sequence),
        Err(Error::TypeError("array".to_string()))
    );
    assert_eq!(
        dispatch(&Pod::Integer(1), Request::Struct),
        Err(Error::TypeError("hash map".to_string()))
    );
    assert_eq!(dispatch(&Pod::Integer(1), Request::IgnoredAny), Ok(Visit::Unit));
}

#[test]
fn enum_shapes() {
    assert_eq!(dispatch(&Pod::String("A".into()), Request::Enum), Ok(Visit::NamedVariant));
    let mut one = Pod::new_hash();
    one.set("B", Pod::Integer(1));
    assert_eq!(dispatch(&one, Request::Enum), Ok(Visit::KeyedVariant));
    one.set("C", Pod::Integer(2));
    assert_eq!(
        dispatch(&one, Request::Enum),
        Err(Error::TypeError("single-key map for enum".to_string()))
    );
    assert_eq!(
        dispatch(&Pod::Null, Request::Enum),
        Err(Error::TypeError("string or single-key map for enum".to_string()))
    );
}

#[test]
fn array_cursor() {
    let mut c = PodArrayAccess::new(2);
    assert_eq!(c.size_hint(), 2);
    assert_eq!(c.next_index(), Some(0));
    assert_eq!(c.size_hint(), 1);
    assert_eq!(c.next_index(), Some(1));
    assert_eq!(c.next_index(), None);
    assert_eq!(c.size_hint(), 0);
}

#[test]
fn map_cursor_value_before_key_fails() {
    let mut c = PodMapAccess::new(1);
    assert_eq!(c.next_value(), Err(Error::ValueMissingError));
    assert_eq!(c.next_key(), Some(0));
    assert_eq!(c.size_hint(), 0);
    assert_eq!(c.next_value(), Ok(0));
    assert_eq!(c.next_value(), Err(Error::ValueMissingError));
    assert_eq!(c.next_key(), None);
}

#[test]
fn test_pod_to_pod_deserialize() {
    let original = Pod::String("hello world".to_string());
    let converted: Pod = read_pod(&original);
    assert_eq!(converted, Pod::String("hello world".to_string()));

    let mut original_hash = Pod::new_hash();
    original_hash.set("key1", Pod::String("value1".to_string()));
    original_hash.set("key2", Pod::Integer(42));
    original_hash.set("key3", Pod::Boolean(true));

    let converted_hash: Pod = read_pod(&original_hash);
    assert_eq!(converted_hash, original_hash);

    let original_array = Pod::Array(vec![
        Pod::String("item1".to_string()),
        Pod::Integer(123),
        Pod::Boolean(false),
    ]);

    let converted_array: Pod = read_pod(&original_array);
    assert_eq!(converted_array, original_array);

    let mut complex_pod = Pod::new_hash();
    complex_pod.set("nested", Pod::new_hash());
    let mut nested = complex_pod.get("nested");
    nested.set("array", Pod::Array(vec![Pod::String("nested_item".to_string())]));
    complex_pod.set("nested", nested);

    let converted_complex: Pod = read_pod(&complex_pod);
    assert_eq!(converted_complex, complex_pod);
}

#[test]
fn read_pod_keeps_floats_and_nulls() {
    let bits = 2.5_f64.to_bits();
    let p = Pod::Array(vec![Pod::Float(bits), Pod::Null, Pod::new_array()]);
    assert_eq!(read_pod(&p), p);
}

#[test]
fn keyed_variant_payloads() {
    assert_eq!(variant_payload(&Pod::Null, VariantKind::Unit), Ok(Visit::Unit));
    assert_eq!(
        variant_payload(&Pod::Integer(1), VariantKind::Unit),
        Err(Error::TypeError("null for unit variant".to_string()))
    );
    assert_eq!(variant_payload(&Pod::Integer(1), VariantKind::Newtype), Ok(Visit::Newtype));
    assert_eq!(variant_payload(&Pod::new_array(), VariantKind::Tuple), Ok(Visit::Elements));
    assert_eq!(
        variant_payload(&Pod::Null, VariantKind::Tuple),
        Err(Error::TypeError("array for tuple variant".to_string()))
    );
    assert_eq!(variant_payload(&Pod::new_hash(), VariantKind::Struct), Ok(Visit::Entries));
    assert_eq!(
        variant_payload(&Pod::new_array(), VariantKind::Struct),
        Err(Error::TypeError("hash map for struct variant".to_string()))
    );
}

#[test]
fn named_variant_payloads() {
    assert_eq!(named_variant_payload(VariantKind::Unit), Ok(Visit::Unit));
    assert_eq!(
        named_variant_payload(VariantKind::Newtype),
        Err(Error::UnsupportedError(
            "newtype variant not supported for string enum".to_string()
        ))
    );
    assert!(matches!(
        named_variant_payload(VariantKind::Tuple),
        Err(Error::UnsupportedError(_))
    ));
    assert!(matches!(
        named_variant_payload(VariantKind::Struct),
        Err(Error::UnsupportedError(_))
    ));
}
