use defunct::assembler::{opcode_of, operand_kind, parse_decimal, parse_immediate, OperandKind};
use defunct::bytecode::{to_op, OpCode, NUM_OPCODES};
use defunct::compiler::{assemble, IdentTable, Numbers};
use defunct::global::Global;
use defunct::values::boolean::{from_bool, nil, t};
use defunct::values::native_fns::{Intrinsic, NativeFn, NUM_INTRINSICS};
use defunct::values::{byte_to_tag, Cases, Tag, Val};
use defunct::intrinsics::ErrorKind;
use defunct::vm::{compute, Computed};

#[test]
fn opcodes_round_trip() {
    for code in 0..NUM_OPCODES {
        assert_eq!(to_op(code).code(), code);
    }
    assert_eq!(OpCode::Const.code(), 0);
    assert_eq!(OpCode::Halt.code(), NUM_OPCODES - 1);
    assert!(OpCode::Call.has_immediate());
    assert!(OpCode::Closure.has_immediate());
    assert!(!OpCode::Add.has_immediate());
    assert!(!OpCode::Halt.has_immediate());
    assert_eq!(opcode_of(&"popsave".to_string()), Some(OpCode::PopSave));
    assert_eq!(opcode_of(&"symset".to_string()), Some(OpCode::SymSet));
    assert_eq!(opcode_of(&"Const".to_string()), None);
    assert_eq!(operand_kind(OpCode::Const), OperandKind::Constant);
    assert_eq!(operand_kind(OpCode::Jmp), OperandKind::Label);
    assert_eq!(operand_kind(OpCode::Ret), OperandKind::Immediate);
    assert_eq!(operand_kind(OpCode::Eq), OperandKind::Nothing);
}

#[test]
fn tags_round_trip() {
    let tags = [
        Tag::Symbol, Tag::Function, Tag::Cons, Tag::Vector, Tag::ValMap, Tag::Object, Tag::Error,
        Tag::NativeFn,
    ];
    for (i, tag) in tags.iter().enumerate() {
        assert_eq!(tag.code(), i as u64);
        assert_eq!(byte_to_tag(i as u8), *tag);
        let v = Val::from_ptr(*tag, 0x1000);
        assert_eq!(v.get_addr(), 0x1000);
        assert_eq!(v.bits(), 0x1000 + i as u64);
    }
    assert_eq!(Val::from_ptr(Tag::Cons, 8).get(), Cases::Cons(8));
    assert_eq!(Val::from_ptr(Tag::ValMap, 8).get(), Cases::ValMap(8));
    assert_eq!(Val::from_ptr(Tag::Object, 8).get(), Cases::Object(8));
    assert_eq!(Val::from_ptr(Tag::Error, 8).get(), Cases::Error(8));
    assert_eq!(Val::from_ptr(Tag::Function, 8).get(), Cases::Function(8));
    assert!(!Val::from_ptr(Tag::Symbol, 0x0001_0000_0000_0000).is_ptr());
    assert_eq!(nil(), Val::nil());
    assert_eq!(t(), Val::t());
    assert_eq!(from_bool(true), t());
    assert_eq!(from_bool(false), nil());
}

#[test]
fn host_functions_have_handles() {
    for i in 0..NUM_INTRINSICS {
        let f = Intrinsic::from_index(i);
        assert_eq!(f.index(), i);
        assert_eq!(f.addr(), (i + 1) * 8);
        let v = NativeFn(f).to_val();
        assert_eq!(v.get(), Cases::NativeFn((i + 1) * 8));
        assert_eq!(NativeFn::from_addr(v.get_addr()), Some(NativeFn(f)));
        assert_eq!(NativeFn(f).addr(), f.addr());
    }
    assert_eq!(NativeFn::from_addr(0), None);
    assert_eq!(NativeFn::from_addr(12), None);
    assert_eq!(NativeFn::from_addr(13 * 8), None);
    assert_eq!(Intrinsic::MapPut.name(), "map-put!");
    assert_eq!(Intrinsic::VectorLength.name(), "vector-length");
}

#[test]
fn immediates_and_decimals() {
    assert_eq!(parse_immediate("#0"), Some(0));
    assert_eq!(parse_immediate("#255"), Some(255));
    assert_eq!(parse_immediate("#007"), Some(7));
    assert_eq!(parse_immediate("#+5"), Some(5));
    assert_eq!(parse_immediate("#256"), None);
    assert_eq!(parse_immediate("#"), None);
    assert_eq!(parse_immediate("#-1"), None);
    assert_eq!(parse_immediate("#1x"), None);
    assert_eq!(parse_immediate("12"), None);
    assert_eq!(parse_immediate(""), None);
    let chars: Vec<char> = "x18446744073709551615y".chars().collect();
    assert_eq!(parse_decimal(&chars, 1, 21, u64::MAX), Some(u64::MAX));
    assert_eq!(parse_decimal(&chars, 1, 21, u64::MAX - 1), None);
    assert_eq!(parse_decimal(&chars, 1, 3, 100), Some(18));
    assert_eq!(parse_decimal(&chars, 0, 3, 100), None);
    assert_eq!(parse_decimal(&chars, 1, 1, 100), None);
    let big: Vec<char> = "99999999999999999999".chars().collect();
    assert_eq!(parse_decimal(&big, 0, big.len(), u64::MAX), None);
}

#[test]
fn assembled_bytes() {
    let mut global = Global::new();
    let mut idents = IdentTable::new();
    let mut numbers = Numbers::new();
    numbers.set(idents.intern("-2.5"), (-2.5f64).to_bits());
    let code = assemble(
        "const 30\n  const -2.5 trailing words\n\n.top\n brnil .end\r\n jmp .end\n call #2\n.end\n const %17\n const :k\n halt",
        &mut idents,
        &numbers,
        &mut global,
    )
    .unwrap();
    let k = global.intern("k").unwrap().as_val();
    assert_eq!(
        code.code,
        vec![
            OpCode::Const.code(), 0,
            OpCode::Const.code(), 1,
            OpCode::BrNil.code(), 4,
            OpCode::Jmp.code(), 3,
            OpCode::Call.code(), 2,
            OpCode::Const.code(), 2,
            OpCode::Const.code(), 3,
            OpCode::Halt.code(),
        ]
    );
    assert_eq!(
        code.consts,
        vec![Val::from_int(30), Val::from_num((-2.5f64).to_bits()), Val(17), k]
    );
    let empty = assemble("", &mut idents, &numbers, &mut global).unwrap();
    assert!(empty.code.is_empty());
    assert!(empty.consts.is_empty());
}

#[test]
fn computed_in_the_machine() {
    let word = Val::from_int;
    assert!(matches!(compute(OpCode::Add, word(2), word(3)), Computed::Value(v) if v == word(5)));
    assert!(matches!(compute(OpCode::Div, word(-7), word(-2)), Computed::Value(v) if v == word(3)));
    assert!(matches!(compute(OpCode::Div, word(7), word(-2)), Computed::Value(v) if v == word(-3)));
    assert!(matches!(compute(OpCode::Div, word(i32::MIN), word(-1)), Computed::Fail(ErrorKind::IntegerOverflow)));
    assert!(matches!(compute(OpCode::Mul, word(65536), word(65536)), Computed::Fail(ErrorKind::IntegerOverflow)));
    assert!(matches!(compute(OpCode::Sub, word(i32::MIN), word(1)), Computed::Fail(ErrorKind::IntegerOverflow)));
    assert!(matches!(compute(OpCode::Gte, word(3), word(3)), Computed::Value(v) if v == Val::t()));
    assert!(matches!(compute(OpCode::Gt, word(3), word(3)), Computed::Value(v) if v == Val::nil()));
    assert!(matches!(compute(OpCode::Lte, word(3), word(4)), Computed::Value(v) if v == Val::t()));
    assert!(matches!(compute(OpCode::Lt, word(1), Val::from_num(0)), Computed::Host));
    assert!(matches!(compute(OpCode::Lt, word(1), Val::nil()), Computed::Fail(ErrorKind::TypeError)));
    assert!(matches!(compute(OpCode::Eq, Val::nil(), Val::nil()), Computed::Value(v) if v == Val::t()));
    assert!(matches!(compute(OpCode::Halt, word(1), word(1)), Computed::Fail(ErrorKind::BadOpcode)));
}
