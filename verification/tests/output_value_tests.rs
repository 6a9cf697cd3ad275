use binggan::output_value::OutputValue;

struct NeedsDrop(u8);

impl Drop for NeedsDrop {
    fn drop(&mut self) {}
}

impl OutputValue for NeedsDrop {
    fn format(&self) -> Option<String> {
        Some(self.0.to_string())
    }
}

struct ZeroSizedNeedsDrop;

impl Drop for ZeroSizedNeedsDrop {
    fn drop(&mut self) {}
}

impl OutputValue for ZeroSizedNeedsDrop {
    fn format(&self) -> Option<String> {
        None
    }
}

#[test]
fn format_u64_test() {
    let value = 123456789u64;
    assert_eq!(value.format(), Some("123_456_789".to_string()));
}

#[test]
fn should_buffer_outputs_respects_drop_semantics() {
    assert!(NeedsDrop::defer_drop());
    assert!(!bool::defer_drop());

    // Zero-sized types should not allocate buffering slots
    assert!(!ZeroSizedNeedsDrop::defer_drop());
}

#[test]
fn format_of_plain_values() {
    assert_eq!(().format(), None);
    assert_eq!(true.format(), Some("true".to_string()));
    assert_eq!(false.format(), Some("false".to_string()));
    assert_eq!((-42i64).format(), Some("-42".to_string()));
    assert_eq!(42i64.format(), Some("42".to_string()));
    assert_eq!(1000usize.format(), Some("1_000".to_string()));
    assert_eq!(None::<u64>.format(), None);
    assert_eq!(Some(12u64).format(), Some("12".to_string()));
    assert_eq!("out".to_string().format(), Some("out".to_string()));
}

#[test]
fn format_of_durations() {
    let d = std::time::Duration::from_nanos(1234);
    assert_eq!(d.format(), Some("1234ns".to_string()));
    let d = std::time::Duration::from_millis(1500);
    assert_eq!(d.format(), Some("1.5s".to_string()));
}

#[test]
fn format_of_collections() {
    let v: Vec<u8> = vec![1, 2, 3];
    assert_eq!(v.format(), Some("3".to_string()));
    assert_eq!(<Vec<u8> as OutputValue>::column_title(), "Vec(len)");
    let mut m = std::collections::HashMap::new();
    m.insert(1u32, 2u32);
    assert_eq!(m.format(), Some("1".to_string()));
    assert_eq!(
        <std::collections::HashMap<u32, u32> as OutputValue>::column_title(),
        "Map(len)"
    );
    assert_eq!(<u64 as OutputValue>::column_title(), "Output");
}
