use haru::vmbindings::carray::CArray;
use haru::vmbindings::cnativeval::{NativeValue, NativeValueType};
use haru::vmbindings::internedstringmap::InternedStringMap;
use haru::vmbindings::string::HaruString;
use haru::vmbindings::vmerror::{RaisedValue, VmError};
use std::rc::Rc;

#[test]
fn carray_stack() {
    let mut a: CArray<i64> = CArray::new();
    assert_eq!(a.len(), 0);
    a.push(1);
    a.push(2);
    a.push(3);
    assert_eq!(*a.top(), 3);
    *a.top_mut() = 30;
    assert_eq!(*a.index(2), 30);
    a.pop();
    assert_eq!(a.len(), 2);
    assert_eq!(a.as_slice(), &[1, 2]);
    let mut it = a.iter();
    assert_eq!(it.next(), Some(&1));
    assert_eq!(it.next(), Some(&2));
    assert_eq!(it.next(), None);
}

#[test]
fn carray_insert_delete() {
    let mut a: CArray<i64> = CArray::new_nil();
    for v in 0..6 {
        a.push(v);
    }
    a.insert(1, 10);
    assert_eq!(a.as_slice(), &[0, 10, 1, 2, 3, 4, 5]);
    a.delete(1, 3);
    assert_eq!(a.as_slice(), &[0, 3, 4, 5]);
}

#[test]
fn interned_strings() {
    let mut m = InternedStringMap::new();
    // strings of 2 to 19 bytes are not interned
    assert_eq!(m.get_or_insert("ab"), None);
    assert_eq!(m.get_or_insert("a"), Some(0));
    let long = "abcdefghijklmnopqrstuvwxyz";
    assert_eq!(m.get_or_insert(long), Some(1));
    // interning again gives the same index
    assert_eq!(m.get_or_insert("a"), Some(0));
    assert_eq!(m.get_or_insert(long), Some(1));
    assert_eq!(m.get(1), long);
}

#[test]
fn haru_string_copy_on_write() {
    let shared = Rc::new("abc".to_string());
    let mut s = HaruString::new_cow(shared.clone());
    assert!(s.is_cow());
    assert_eq!(s.as_string(), "abc");
    s.to_mut().push('d');
    assert!(!s.is_cow());
    assert_eq!(s.as_string(), "abcd");
    // the shared string is not changed
    assert_eq!(*shared, "abc");
    let t = HaruString::from_str("xy");
    assert!(!t.is_cow());
    assert_eq!(HaruString::from_string("z".to_string()).as_string(), "z");
}

#[test]
fn vm_error_messages() {
    assert_eq!(VmError::ERROR_OP_ADD.message(), "Invalid arguments for addition");
    assert_eq!(
        VmError::ERROR_OP_LEQ.message(),
        "Invalid arguments for less than or equal to"
    );
    assert_eq!(
        VmError::ERROR_UNDEFINED_GLOBAL_VAR.message(),
        "Global variable is not defined"
    );
    assert_eq!(VmError::ERROR_NO_ERROR.message(), "[vmerror]");
    assert_eq!(VmError::ERROR_OP_MOD.method_for_op(), "modulo");
    assert!(VmError::ERROR_OP_NEQ.is_op_error());
    assert!(!VmError::ERROR_UNKNOWN_KEY.is_op_error());
}

#[test]
fn native_value_tags() {
    assert_eq!(NativeValueType::TYPE_INT.tag(), 1);
    assert_eq!(NativeValueType::TYPE_ARRAY.tag(), 6);
    assert_eq!(NativeValueType::from_tag(4), Some(NativeValueType::TYPE_STR));
    assert_eq!(NativeValueType::from_tag(0), None);
    assert_eq!(NativeValue(7).0, 7);
}

#[test]
fn vm_error_hints() {
    let rec = RaisedValue::Record {
        what: Some("\"bad\"".to_string()),
        why: None,
        where_: Some("3".to_string()),
    };
    assert_eq!(
        VmError::ERROR_UNHANDLED_EXCEPTION.hint(&rec).unwrap(),
        "The exception gave the following hints:\n  what => \"bad\"\n  where => 3"
    );
    let empty = RaisedValue::Record { what: None, why: None, where_: None };
    assert_eq!(
        VmError::ERROR_UNHANDLED_EXCEPTION.hint(&empty).unwrap(),
        "The exception was a record"
    );
    let other = RaisedValue::Other("1".to_string());
    assert_eq!(VmError::ERROR_UNHANDLED_EXCEPTION.hint(&other).unwrap(), "The exception was 1");
    assert_eq!(VmError::ERROR_OP_ADD.hint(&other), None);
}

#[test]
fn carray_delete_suffix_and_insert_last() {
    let mut a: CArray<i64> = CArray::new();
    a.push(1);
    a.push(2);
    a.push(3);
    a.delete(1, 2);
    assert_eq!(a.as_slice(), &[1]);
    a.push(3);
    a.insert(1, 2);
    assert_eq!(a.as_slice(), &[1, 2, 3]);
}

#[test]
fn haru_strings_compare_by_text() {
    let a = HaruString::new_cow(Rc::new("abc".to_string()));
    let b = HaruString::from_str("abc");
    let c = HaruString::from_str("abd");
    assert!(a.same_text(&b));
    assert!(!a.same_text(&c));
}

#[test]
fn interned_strings_distinct() {
    let mut m = InternedStringMap::new();
    let a = "abcdefghijklmnopqrstuvwxyz";
    let b = "abcdefghijklmnopqrstuvwxyZ";
    let i = m.get_or_insert(a).unwrap();
    let j = m.get_or_insert(b).unwrap();
    assert_ne!(i, j);
    assert_eq!(m.get_or_insert(a), Some(i));
}
