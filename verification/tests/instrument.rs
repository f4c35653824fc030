//! Ambient capture: per-span stores, the innermost-first lookup, the
//! lossless conversions and the join of one field.

use tracing_wide::__private::instrument::{get, join_field, Probe, ViaFromCaptured, ViaNotCapturable};
use tracing_wide::instrument::{layer, CapturedFields, CapturedValue, FromCaptured};

fn span(entries: &[(&'static str, CapturedValue)]) -> CapturedFields {
    CapturedFields(entries.to_vec())
}

#[test]
fn upsert_replaces_or_appends() {
    let mut fields = CapturedFields(Vec::new());
    fields.upsert("component", CapturedValue::Str("billing".to_string()));
    fields.upsert("attempt", CapturedValue::U64(3));
    fields.upsert("component", CapturedValue::Str("ledger".to_string()));
    assert_eq!(
        fields.0,
        vec![
            ("component", CapturedValue::Str("ledger".to_string())),
            ("attempt", CapturedValue::U64(3)),
        ]
    );
    assert_eq!(fields.value_of("attempt"), Some(CapturedValue::U64(3)));
    assert_eq!(fields.value_of("missing"), None);
}

#[test]
fn innermost_span_wins_a_name_collision() {
    let inner = span(&[("component", CapturedValue::Str("inner".to_string()))]);
    let outer = span(&[
        ("component", CapturedValue::Str("outer".to_string())),
        ("attempt", CapturedValue::U64(3)),
    ]);
    let scope = [inner, outer];
    assert_eq!(get(&scope, "component"), Some(CapturedValue::Str("inner".to_string())));
    assert_eq!(get(&scope, "attempt"), Some(CapturedValue::U64(3)));
    assert_eq!(get(&scope, "payload"), None);
    assert_eq!(get(&[], "component"), None);
}

#[test]
fn join_fills_a_none_option_from_the_span_scope() {
    let scope = [span(&[
        ("component", CapturedValue::Str("billing".to_string())),
        ("attempt", CapturedValue::U64(3)),
    ])];
    let mut attempt: Option<usize> = None;
    let mut component: Option<String> = None;
    join_field(&mut attempt, "attempt", &scope);
    join_field(&mut component, "component", &scope);
    assert_eq!(attempt, Some(3));
    assert_eq!(component, Some("billing".to_string()));
}

#[test]
fn join_keeps_an_existing_some_field() {
    let scope = [span(&[("component", CapturedValue::Str("ambient".to_string()))])];
    let mut component = Some("local".to_string());
    join_field(&mut component, "component", &scope);
    assert_eq!(component, Some("local".to_string()));
}

#[test]
fn join_without_a_capture_is_a_quiet_miss() {
    let mut component: Option<String> = None;
    join_field(&mut component, "component", &[]);
    assert_eq!(component, None);
    let scope = [span(&[("attempt", CapturedValue::I64(-1))])];
    let mut attempt: Option<u32> = None;
    join_field(&mut attempt, "attempt", &scope);
    assert_eq!(attempt, None, "a negative value does not fill an unsigned field");
}

#[test]
fn integer_conversions_are_lossless() {
    assert_eq!(u8::from_captured(&CapturedValue::U64(255)), Some(255));
    assert_eq!(u8::from_captured(&CapturedValue::U64(256)), None);
    assert_eq!(u8::from_captured(&CapturedValue::I64(-1)), None);
    assert_eq!(i8::from_captured(&CapturedValue::I64(-128)), Some(-128));
    assert_eq!(i8::from_captured(&CapturedValue::I64(-129)), None);
    assert_eq!(i8::from_captured(&CapturedValue::U128(127)), Some(127));
    assert_eq!(u16::from_captured(&CapturedValue::I128(65535)), Some(65535));
    assert_eq!(u32::from_captured(&CapturedValue::U64(1 << 32)), None);
    assert_eq!(i32::from_captured(&CapturedValue::I64(i32::MIN as i64)), Some(i32::MIN));
    assert_eq!(u64::from_captured(&CapturedValue::U128(u64::MAX as u128 + 1)), None);
    assert_eq!(i64::from_captured(&CapturedValue::U64(u64::MAX)), None);
    assert_eq!(u128::from_captured(&CapturedValue::U128(u128::MAX)), Some(u128::MAX));
    assert_eq!(u128::from_captured(&CapturedValue::I128(-5)), None);
    assert_eq!(i128::from_captured(&CapturedValue::U128(u128::MAX)), None);
    assert_eq!(i128::from_captured(&CapturedValue::I128(i128::MIN)), Some(i128::MIN));
    assert_eq!(usize::from_captured(&CapturedValue::U64(3)), Some(3));
    assert_eq!(isize::from_captured(&CapturedValue::I64(-3)), Some(-3));
    assert_eq!(u64::from_captured(&CapturedValue::Str("3".to_string())), None);
    assert_eq!(u64::from_captured(&CapturedValue::Bool(true)), None);
}

#[test]
fn bool_and_string_conversions() {
    assert_eq!(bool::from_captured(&CapturedValue::Bool(true)), Some(true));
    assert_eq!(bool::from_captured(&CapturedValue::U64(1)), None);
    assert_eq!(String::from_captured(&CapturedValue::Str("s".to_string())), Some("s".to_string()));
    assert_eq!(
        String::from_captured(&CapturedValue::Debug("Point { x: 1 }".to_string())),
        Some("Point { x: 1 }".to_string())
    );
    assert_eq!(String::from_captured(&CapturedValue::F64(0.5f64.to_bits())), None);
}

#[test]
fn probes_pick_the_conversion_or_none() {
    let value = CapturedValue::U64(7);
    let probe = Probe::<u8>::new();
    assert_eq!(ViaFromCaptured::__tracing_wide_from_captured(&probe, &value), Some(7));
    let fallback = &Probe::<Vec<u8>>::new();
    assert_eq!(ViaNotCapturable::__tracing_wide_from_captured(&fallback, &value), None);
    let _layer = layer();
}

/// A field type with no conversion from a captured value.
struct Opaque;

#[test]
fn probes_join_a_convertible_field_and_leave_the_rest() {
    let scope = [span(&[
        ("attempt", CapturedValue::U64(4)),
        ("opaque", CapturedValue::U64(1)),
    ])];
    let mut attempt: Option<u8> = None;
    let mut kept: Option<u8> = Some(9);
    let mut opaque: Option<Opaque> = None;
    (&Probe::<u8>::new()).__tracing_wide_join(&mut attempt, "attempt", &scope);
    (&Probe::<u8>::new()).__tracing_wide_join(&mut kept, "attempt", &scope);
    (&Probe::<Opaque>::new()).__tracing_wide_join(&mut opaque, "opaque", &scope);
    assert_eq!(attempt, Some(4));
    assert_eq!(kept, Some(9), "a Some field is never overwritten");
    assert!(opaque.is_none(), "a type without a conversion never fills");
}

#[test]
fn each_recorded_name_reads_its_last_value() {
    let mut fields = span(&[("region", CapturedValue::Str("eu".to_string()))]);
    for (name, value) in [
        ("attempt", CapturedValue::U64(1)),
        ("attempt", CapturedValue::U64(2)),
        ("ok", CapturedValue::Bool(false)),
        ("attempt", CapturedValue::U64(3)),
    ] {
        fields.upsert(name, value);
    }
    assert_eq!(fields.value_of("attempt"), Some(CapturedValue::U64(3)));
    assert_eq!(fields.value_of("ok"), Some(CapturedValue::Bool(false)));
    assert_eq!(fields.value_of("region"), Some(CapturedValue::Str("eu".to_string())));
    assert_eq!(fields.0.len(), 3);
}
