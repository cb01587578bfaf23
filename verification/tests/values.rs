use defunct::ptr::Ptr;
use defunct::values::{Cases, Symbol, Tag, Val};

#[test]
fn integers_round_trip() {
    for i in [0, 1, -1, 42, i32::MAX, i32::MIN] {
        let v = Val::from_int(i);
        assert!(v.is_int());
        assert!(!v.is_num());
        assert!(!v.is_ptr());
        assert_eq!(v.get_int(), Some(i));
        assert_eq!(v.get(), Cases::Int(i));
    }
    assert_eq!(Val::from_int(5).bits(), 0xFFFF_0000_0000_0005);
    assert_eq!(Val::from_int(-1).bits(), 0xFFFF_FFFF_FFFF_FFFF);
}

#[test]
fn doubles_round_trip() {
    for f in [0.0f64, -0.0, 1.5, -2.25, 1e300, f64::INFINITY, f64::NEG_INFINITY, f64::NAN] {
        let v = Val::from_num(f.to_bits());
        assert!(v.is_num());
        assert!(!v.is_int());
        assert!(!v.is_ptr());
        assert_eq!(v.get_num(), Some(f.to_bits()));
        assert_eq!(v.get(), Cases::Num(f.to_bits()));
    }
    assert_eq!(Val::from_num(0).bits(), 0x0001_0000_0000_0000);
}

#[test]
fn negative_nan_patterns_are_not_numbers() {
    let v = Val::from_num(0xFFFF_0000_0000_0000);
    assert!(!v.is_num());
    assert_eq!(v, Val::nil());
    let w = Val::from_num(0xFFFE_0000_0000_0001);
    assert!(!w.is_num());
    assert!(w.is_int());
}

#[test]
fn pointers_keep_tag_and_address() {
    let v = Val::from_ptr(Tag::Vector, 0x0400_0040);
    assert!(v.is_ptr());
    assert!(!v.is_int());
    assert!(!v.is_num());
    assert_eq!(v.bits(), 0x0400_0043);
    assert_eq!(v.get(), Cases::Vector(0x0400_0040));
    assert_eq!(Val::from_ptr(Tag::Symbol, 0x0400_0000).get(), Cases::Symbol(Symbol(0x0400_0000)));
    assert_eq!(Val::from_ptr(Tag::NativeFn, 8).get(), Cases::NativeFn(8));
}

#[test]
fn sentinels() {
    assert_eq!(Val::nil().bits(), 0);
    assert_eq!(Val::t().bits(), 0x10);
    assert_eq!(Val::nil().get(), Cases::Symbol(Symbol(0)));
    assert_eq!(Val::t().get(), Cases::Symbol(Symbol(0x10)));
}

#[test]
fn tagged_pointers() {
    let p = Ptr::new(Tag::Vector, 0x1000);
    assert_eq!(p.to_bits(), 0x1003);
    assert_eq!(p.to_raw(), (Tag::Vector, 0x1000));
    assert_eq!(Ptr::test_ptr().to_raw(), (Tag::Symbol, 0xAAAABADD8));
    assert_eq!(Val::from_ptr(Tag::Vector, 0x1000).get_ptr(), Some(p));
    assert_eq!(Val::from_int(3).get_ptr(), None);
}

#[test]
fn hash_words() {
    assert_eq!(Val::from_int(-1).hash_word(), 0xFFFF_FFFF);
    assert_eq!(Val::from_int(7).hash_word(), 7);
    assert_eq!(Val::from_num(2.5f64.to_bits()).hash_word(), 2.5f64.to_bits());
    assert_eq!(Val::from_ptr(Tag::Vector, 0x1000).hash_word(), 0x1003);
    assert_eq!(Val::nil().hash_word(), 0);
}

#[test]
fn whitespace_is_what_unicode_calls_white_space() {
    for n in 0..=0x10FFFFu32 {
        if let Some(c) = char::from_u32(n) {
            assert_eq!(defunct::text::is_unicode_whitespace(c), c.is_whitespace(), "{:x}", n);
        }
    }
}
