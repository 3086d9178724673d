use bronze::opt::MsgOption;
use bronze::opt::Number;
use bronze::opt::from_u16;
use bronze::opt::new;

#[test]
fn test_number_wire_values() {
    assert!(Number::from_u16(0) == Number::ReservedOrUnknown);
    assert!(Number::from_u16(6) == Number::Observe);
    assert!(Number::from_u16(11) == Number::UriPath);
    assert!(Number::from_u16(12) == Number::ContentFormat);
    assert!(Number::from_u16(14) == Number::MaxAge);
    assert!(Number::from_u16(15) == Number::UriQuery);
    assert!(Number::from_u16(35) == Number::ProxyUri);
    assert!(Number::from_u16(284) == Number::NoResponse);
    assert!(Number::from_u16(13) == Number::Unknown(13));

    assert!(Number::UriPath.as_u16() == 11);
    assert!(Number::NoResponse.as_u16() == 284);
    assert!(Number::Unknown(538).as_u16() == 538);
}

#[test]
fn test_number_classification() {
    // UriPath = 11 = 0b01011: critical, unsafe to forward, cache key.
    assert!(Number::UriPath.is_critical());
    assert!(!Number::UriPath.is_elective());
    assert!(Number::UriPath.is_unsafe_to_forward());
    assert!(!Number::UriPath.is_safe_to_forward());
    assert!(!Number::UriPath.is_no_cache_key());
    assert!(Number::UriPath.is_cache_key());

    // IfMatch = 1 = 0b00001: critical but safe to forward.
    assert!(Number::IfMatch.is_critical());
    assert!(!Number::IfMatch.is_unsafe_to_forward());
    assert!(Number::IfMatch.is_safe_to_forward());

    // Observe = 6 = 0b00110: elective, unsafe to forward.
    assert!(!Number::Observe.is_critical());
    assert!(Number::Observe.is_elective());
    assert!(Number::Observe.is_unsafe_to_forward());
    assert!(!Number::Observe.is_safe_to_forward());

    // 28 = 0b11100: bits 4-1 read 0b1110, so no-cache-key.
    assert!(Number::Unknown(28).is_no_cache_key());
    assert!(!Number::Unknown(28).is_cache_key());
    // MaxAge = 14 = 0b01110: bit 4 clear, still a cache key.
    assert!(!Number::MaxAge.is_no_cache_key());
    assert!(Number::MaxAge.is_cache_key());
}

#[test]
fn test_option_constructors() {
    let a = new(Number::UriPath, vec![1, 2, 3]);
    assert!(a.number == Number::UriPath);
    assert!(a.value == [1, 2, 3]);

    let b = from_u16(11, vec![9]);
    assert!(b.number == Number::UriPath);
    assert!(b.value == [9]);

    let c = from_u16(999, vec![]);
    assert!(c.number == Number::Unknown(999));

    assert!(a == MsgOption { number: Number::UriPath, value: vec![1, 2, 3] });
}
