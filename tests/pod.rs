use gray_matter::{Error, Pod};

#[test]
fn test_partial_compare_null() {
    assert!(Pod::Null == Pod::Null);
}

#[test]
fn test_partial_compare_boolean() {
    assert!(Pod::Boolean(true) == Pod::Boolean(true));
    assert!(Pod::Boolean(true) != Pod::Boolean(false));
}

#[test]
fn test_partial_compare_string() {
    assert!(Pod::String("hello".into()) == Pod::String("hello".into()));
    assert!(Pod::String("hello".into()) != Pod::String("world".into()));
}

#[test]
fn test_partial_compare_array() {
    let mut a = Pod::new_array();
    let mut b = a.clone();
    assert!(a == b);
    a.push(Pod::Boolean(true)).unwrap();
    b.push(Pod::Boolean(true)).unwrap();
    assert!(a == b);
    a.push(Pod::String("hello".into())).unwrap();
    b.push(Pod::String("hello".into())).unwrap();
    assert!(a == b);
    a.push(Pod::String("world".into())).unwrap();
    b.push(Pod::String("world!".into())).unwrap();
    assert!(a != b);
}

#[test]
fn test_partial_compare_hash() {
    let mut a = Pod::new_hash();
    let mut b = a.clone();
    assert!(a == b);
    a.set("hello", Pod::String("world".into()));
    b.set("hello", Pod::String("world".into()));
    assert!(a == b);
    a.set("map", a.clone());
    b.set("map", b.clone());
    assert!(a == b);
    a.set("boolean", Pod::Boolean(true));
    b.set("boolean", Pod::Boolean(false));
    assert!(a != b);
    assert!(a.remove("boolean".to_string()) == Pod::Boolean(true));
    assert!(b.remove("boolean".to_string()) == Pod::Boolean(false));
    assert!(a == b);
    b.set("hello", Pod::String("world!".into()));
    assert!(a != b);
}

#[test]
fn test_partial_compare_integer() {
    let a = Pod::Integer(16);
    let b = Pod::Integer(16);
    assert!(a == b);
}

#[test]
fn test_partial_compare_float() {
    let a = Pod::Float(16.01_f64.to_bits());
    let b = Pod::Float(16.01_f64.to_bits());
    assert!(a == b);
}

#[test]
fn test_len_and_is_empty_of_pod() {
    let mut a = Pod::new_array();
    a.set_at(0, Pod::String("hello".into()));
    assert!(a.len() == 1);
    let mut b = Pod::new_hash();
    b.set("hello", Pod::String("world".into()));
    b.set("boolean", Pod::Boolean(true));
    assert!(b.len() == 2);
    assert!(Pod::String("hello".into()).is_empty());
}

#[test]
fn test_index_usize() {
    let mut a = Pod::new_array();
    a.set_at(0, Pod::String("hello".into()));
    a.set_at(1, Pod::Boolean(true));
    let b = a.clone();
    assert!(b.at(0) == Pod::String("hello".into()));
    assert!(b.at(1) == Pod::Boolean(true));
    let mut string = a.at(0);
    string.set_at(0, Pod::String("world".to_string()));
    assert!(string == Pod::Array(vec![Pod::String("world".to_string())]));
}

#[test]
fn test_index_str() {
    let mut a = Pod::new_hash();
    a.set("hello", Pod::String("world".into()));
    a.set("bool", Pod::Boolean(false));
    let b = a.clone();
    assert!(a.get("hello") == b.get("hello"));
    assert!(a.get("bool") == b.get("bool"));
    let mut string = a.get("hello");
    string.set("world", Pod::String("world".to_string()));
    assert!(
        string
            == Pod::Hash(vec![(
                "world".to_string(),
                Pod::String("world".to_string())
            )])
    );
}

#[test]
fn test_pod_from_into() {
    let a: String = Pod::from("hello".to_string()).as_string().unwrap();
    assert!(a == *"hello");
    let b: i64 = Pod::from(1).as_i64().unwrap();
    assert!(b == 1);
    let c: f64 = f64::from_bits(Pod::Float(2.33_f64.to_bits()).as_f64().unwrap());
    assert!(c == 2.33);
    let d: bool = Pod::from(true).as_bool().unwrap();
    assert!(d);
    let e_i = vec![Pod::String("hello".to_string())];
    let e: Vec<Pod> = Pod::from(e_i.clone()).as_vec().unwrap();
    assert!(e == e_i);
    let f_i = vec![("hello".to_string(), Pod::String("world".to_string()))];
    let f: Vec<(String, Pod)> = Pod::from(f_i.clone()).as_hashmap().unwrap();
    assert!(f == f_i);
}

// Further behaviour of the value model.

#[test]
fn mapping_equality_ignores_order() {
    let mut a = Pod::new_hash();
    a.set("x", Pod::Integer(1));
    a.set("y", Pod::Integer(2));
    let mut b = Pod::new_hash();
    b.set("y", Pod::Integer(2));
    b.set("x", Pod::Integer(1));
    assert!(a == b);
    b.set("x", Pod::Integer(3));
    assert!(a != b);
}

#[test]
fn set_at_pads_with_null() {
    let mut a = Pod::new_array();
    a.set_at(2, Pod::Boolean(true));
    assert_eq!(a, Pod::Array(vec![Pod::Null, Pod::Null, Pod::Boolean(true)]));
    a.set_at(0, Pod::Integer(5));
    assert_eq!(a, Pod::Array(vec![Pod::Integer(5), Pod::Null, Pod::Boolean(true)]));
    let mut n = Pod::Integer(1);
    n.set_at(1, Pod::Integer(2));
    assert_eq!(n, Pod::Array(vec![Pod::Null, Pod::Integer(2)]));
}

#[test]
fn reads_out_of_range_give_null() {
    let a = Pod::Array(vec![Pod::Integer(1)]);
    assert_eq!(a.at(1), Pod::Null);
    assert_eq!(Pod::Integer(1).at(0), Pod::Null);
    let mut h = Pod::new_hash();
    h.set("k", Pod::Integer(1));
    assert_eq!(h.get("missing"), Pod::Null);
    assert_eq!(Pod::Boolean(true).get("k"), Pod::Null);
}

#[test]
fn set_key_converts_to_mapping() {
    let mut p = Pod::Integer(7);
    p.set("k", Pod::Boolean(true));
    assert_eq!(p, Pod::Hash(vec![("k".to_string(), Pod::Boolean(true))]));
    p.set("k", Pod::Boolean(false));
    assert_eq!(p.len(), 1);
    assert_eq!(p.get("k"), Pod::Boolean(false));
}

#[test]
fn typed_extraction_errors_name_the_kind() {
    assert_eq!(Pod::Null.as_string(), Err(Error::TypeError("String".to_string())));
    assert_eq!(Pod::Null.as_i64(), Err(Error::TypeError("Integer".to_string())));
    assert_eq!(Pod::Null.as_f64(), Err(Error::TypeError("Float".to_string())));
    assert_eq!(Pod::Null.as_bool(), Err(Error::TypeError("Boolean".to_string())));
    assert_eq!(Pod::Null.as_vec(), Err(Error::TypeError("Array".to_string())));
    assert_eq!(Pod::Null.as_hashmap(), Err(Error::TypeError("Hash".to_string())));
    assert_eq!(Pod::Integer(1).as_i64(), Ok(1));
    assert_eq!(Pod::Boolean(false).as_bool(), Ok(false));
}

#[test]
fn push_and_insert_on_wrong_kind() {
    let mut p = Pod::Integer(1);
    assert_eq!(p.push(Pod::Null), Err(Error::TypeError("Array".to_string())));
    assert_eq!(p.insert("k".to_string(), Pod::Null), Err(Error::TypeError("Hash".to_string())));
    assert_eq!(p, Pod::Integer(1));
}

#[test]
fn pop_take_remove() {
    let mut a = Pod::Array(vec![Pod::Integer(1), Pod::Integer(2)]);
    assert_eq!(a.pop(), Pod::Integer(2));
    assert_eq!(a.pop(), Pod::Integer(1));
    assert_eq!(a.pop(), Pod::Null);
    assert_eq!(Pod::Integer(3).pop(), Pod::Null);
    let mut t = Pod::Integer(9);
    assert_eq!(t.take(), Pod::Integer(9));
    assert_eq!(t, Pod::Null);
    let mut h = Pod::new_hash();
    h.insert("a".to_string(), Pod::Integer(1)).unwrap();
    h.insert("a".to_string(), Pod::Integer(2)).unwrap();
    assert_eq!(h.len(), 1);
    assert_eq!(h.remove("a".to_string()), Pod::Integer(2));
    assert_eq!(h.remove("a".to_string()), Pod::Null);
    assert!(h.is_empty());
}

#[test]
fn error_constructors() {
    assert_eq!(Error::type_error("x"), Error::TypeError("x".to_string()));
    assert_eq!(Error::deserialize_error("y"), Error::DeserializeError("y".to_string()));
    assert_eq!(Error::value_missing(), Error::ValueMissingError);
    assert_eq!(Error::unsupported("z"), Error::UnsupportedError("z".to_string()));
}
