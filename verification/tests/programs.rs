use defunct::assembler::AsmError;
use defunct::bytecode::OpCode;
use defunct::compiler::{
    assemble, compile, CompileError, EmitError, Ident, IdentTable, Numbers, ParseError, Primitives,
    Reader, Specials,
};
use defunct::global::{Global, HeapObject};
use defunct::intrinsics::ErrorKind;
use defunct::values::{Cases, Closure, Val};
use defunct::vm::{Event, Vm};

fn resolve_numbers(idents: &IdentTable, numbers: &mut Numbers) {
    for i in 0..idents.len() {
        let id = Ident(i);
        if let Ok(f) = idents.get_name(id).parse::<f64>() {
            numbers.set(id, f.to_bits());
        }
    }
}

fn as_f64(v: Val) -> f64 {
    match v.get() {
        Cases::Int(i) => i as f64,
        Cases::Num(bits) => f64::from_bits(bits),
        _ => panic!("not a number"),
    }
}

fn boolean(b: bool) -> Val {
    if b {
        Val::t()
    } else {
        Val::nil()
    }
}

fn arith(op: OpCode, left: Val, right: Val) -> Val {
    let a = as_f64(left);
    let b = as_f64(right);
    match op {
        OpCode::Add => Val::from_num((a + b).to_bits()),
        OpCode::Sub => Val::from_num((a - b).to_bits()),
        OpCode::Mul => Val::from_num((a * b).to_bits()),
        OpCode::Div => Val::from_num((a / b).to_bits()),
        OpCode::Lt => boolean(a < b),
        OpCode::Gt => boolean(a > b),
        OpCode::Lte => boolean(a <= b),
        OpCode::Gte => boolean(a >= b),
        _ => panic!("not an arithmetic operation"),
    }
}

fn drive(vm: &mut Vm, global: &mut Global) -> Val {
    let mut event = vm.run(global, 1_000_000).expect("the machine failed");
    loop {
        match event {
            Event::Halted(v) => return v,
            Event::Next => {}
            Event::Arith { op, left, right } => vm.push(arith(op, left, right)),
            Event::Print(v) => println!("{:?}", v),
            Event::NeedsIndex { f, argc } => {
                let index = as_f64(vm.peek(argc as usize - 2));
                if index < 0.0 {
                    panic!("negative index");
                }
                event = vm.resume_native(global, f, argc, index as i32);
                continue;
            }
            Event::Failed(kind) => panic!("the machine failed: {:?}", kind),
        }
        event = vm.run(global, 1_000_000).expect("the machine failed");
    }
}

fn compile_source(global: &mut Global, src: &str) -> Result<Vec<Val>, CompileError> {
    let mut idents = IdentTable::new();
    let specials = Specials::new_in(&mut idents);
    let primitives = Primitives::new_in(&mut idents);
    let mut reader = Reader::new(src);
    let form = reader.read(&mut idents).expect("Could not read the source.");
    let mut numbers = Numbers::new();
    resolve_numbers(&idents, &mut numbers);
    compile(&form, &idents, &specials, &primitives, &numbers, global)
}

fn eval(global: &mut Global, src: &str) -> Val {
    let objs = compile_source(global, src).expect("Could not compile bytecode.");
    let entry = *objs.last().unwrap();
    let mut vm = Vm::new(global, entry, &[], false).expect("Could not start the machine.");
    drive(&mut vm, global)
}

fn eval_and_assert_eq(global: &mut Global, src: &str, test_val: Val) {
    let result = eval(global, src);
    assert_eq!(result, test_val);
}

fn num(f: f64) -> Val {
    Val::from_num(f.to_bits())
}

fn assembled(global: &mut Global, text: &str) -> Val {
    let mut idents = IdentTable::new();
    let mut numbers = Numbers::new();
    for word in text.split_whitespace() {
        let first = word.chars().next().unwrap();
        if first == '-' || first.is_ascii_digit() {
            if let Ok(f) = word.parse::<f64>() {
                let id = idents.intern(word);
                numbers.set(id, f.to_bits());
            }
        }
    }
    let code = assemble(text, &mut idents, &numbers, global).unwrap();
    global.new_object(HeapObject::Code(code)).unwrap()
}

#[test]
fn test_let() {
    let mut global = Global::new();

    eval_and_assert_eq(
        &mut global,
        "
    (let [x 1
          y 2]
      (+ x y))
    ",
        num(3.0f64),
    );

    eval_and_assert_eq(
        &mut global,
        "
    (let [x 40
          y 50]
      (let [z 100]
        (+ (* x y) z))))
    ",
        num(2100.0f64),
    );

    eval_and_assert_eq(
        &mut global,
        "
    (let [x 1]
      (let [x 2]
        (let [x 3]
          x)))
    ",
        num(3.0f64),
    );

    eval_and_assert_eq(
        &mut global,
        "
    (let []
      (* 100 100))
    ",
        num(10000.0f64),
    );

    eval_and_assert_eq(
        &mut global,
        "
    (let []
      (+ 2 3)
      (+ 5 2)
      (/ 200 2)
      (* 300 3))
    ",
        num(900.0f64),
    )
}

#[test]
fn test_if() {
    let mut global = Global::new();
    eval_and_assert_eq(
        &mut global,
        "
  (if (> 1.0 2.0)
    0.0
    99.0)
  ",
        num(99.0),
    );

    eval_and_assert_eq(
        &mut global,
        "
  (let [x 30.0]
     (if (>= x 50.0)
       (if (<= x 75.0)
         3
         4)
       (if (<= x 25.0)
         1
         2)))
  ",
        num(2.0),
    )
}

#[test]
fn if_takes_the_then_branch() {
    let mut global = Global::new();
    eval_and_assert_eq(&mut global, "(if (< 1.0 2.0) 7.0 99.0)", num(7.0));
    eval_and_assert_eq(
        &mut global,
        "(let [x 60.0] (if (>= x 50.0) (if (<= x 75.0) 3 4) (if (<= x 25.0) 1 2)))",
        num(3.0),
    );
    eval_and_assert_eq(&mut global, "(+ (if (< 1 2) 10 20) (if (> 1 2) 1 2))", num(12.0));
}

#[test]
fn test_fn() {
    let mut global = Global::new();
    let src = "
  (let [f (fn [x] (+ x 20.0))]
    (f 40.0))
  ";
    eval_and_assert_eq(&mut global, src, num(60.0));

    let src = "
  (let [f (fn [x]
            (let [f (fn [x] (+ x 3))]
              (f (* x 2.0))))]
    (f 20.0))
  ";
    eval_and_assert_eq(&mut global, src, num(43.0));

    let src = "
  (let [x0 0
        x1 1
        x2 2
        x3 3
        x4 4
        f (fn [x4] (* 10 x4))]
    (f x2))
  ";
    eval_and_assert_eq(&mut global, src, num(20.0))
}

#[test]
fn maps_basic_operations() {
    let mut global = Global::new();
    let src = "
    (let [m {}]
      (map-put! m :a 1)
      (map-put! m :b 2)
      (map-put! m :c 3)
      (map-get m :b))
    ";

    eval_and_assert_eq(&mut global, src, num(2.0));

    let src = "(let [m {:a 1 :b 2}] (map-length m))";
    eval_and_assert_eq(&mut global, src, Val::from_int(2));

    let src = "
    (let [m {:a 1 :b 2}]
      (map-clear! m)
      (map-length m))
    ";
    eval_and_assert_eq(&mut global, src, Val::from_int(0));

    let src = "(let [m {:a 1, :b 2}] (map-remove! m :a) (map-get m :a))";
    eval_and_assert_eq(&mut global, src, Val::nil());

    let src = "(let [m {:a 1, :b 2}] (map-remove! m :a))";
    eval_and_assert_eq(&mut global, src, num(1.0));
}

#[test]
fn map_put_then_get_on_the_same_map() {
    let mut global = Global::new();
    let src = "(let [m {:a 1 :b 2}] (map-put! m :c 3) (map-get m :c))";
    eval_and_assert_eq(&mut global, src, num(3.0));
    let src = "(let [m {:a 1 :b 2}] (map-put! m :a 5))";
    eval_and_assert_eq(&mut global, src, num(1.0));
}

#[test]
fn vectors_basic_operations() {
    let mut global = Global::new();
    let src = "
    (let [v []]
      (vector-push! v 0)
      (vector-push! v 1) 
      (vector-push! v 2)
      (vector-push! v 3)
      (vector-push! v 4)
      (vector-get v 2))
    ";
    eval_and_assert_eq(&mut global, src, num(2.0));

    let src = "(let [v [1 2 3 4 5]] (vector-length v))";
    eval_and_assert_eq(&mut global, src, Val::from_int(5));

    let src = "(let [v [1 2 3 4 5]] (vector-set! v 3 -1.0) (vector-get v 3))";
    eval_and_assert_eq(&mut global, src, num(-1.0));

    let src = "
    (let [v [1 2 3]]
      (vector-pop! v)
      (vector-pop! v)
      (vector-pop! v)
      (vector-length v))
    ";
    eval_and_assert_eq(&mut global, src, Val::from_int(0));
}

#[test]
#[should_panic]
fn bounds_respected() {
    let mut global = Global::new();
    let src = "
    (let [v []]
      (vector-get v 0))
    ";
    eval(&mut global, src);
}

#[test]
#[should_panic]
fn bounds_respected2() {
    let mut global = Global::new();
    let src = "
    (let [v [1 2 3 4]]
      (vector-get v -1))
    ";
    eval(&mut global, src);
}

#[test]
#[should_panic]
fn bounds_respected3() {
    let mut global = Global::new();
    let src = "
    (let [v [1]]
      (vector-pop! v)
      (vector-pop! v))
    ";
    eval(&mut global, src);
}

#[test]
#[should_panic]
fn bounds_respected4() {
    let mut global = Global::new();
    let src = "
    (let [v [1]]
      (vector-set! v 1 100))
    ";
    eval(&mut global, src);
}

#[test]
fn functions() {
    let mut global = Global::new();
    let func_obj = assembled(
        &mut global,
        "
    dup #0
    dup #1
    lt
    brnil .gte
    ret #1
.gte
    ret #0
    ",
    );

    let closure = Closure { env: vec![], code_obj: func_obj.get_addr() };
    let ptr = global.new_object(HeapObject::Closure(closure)).unwrap();
    let bits = ptr.bits();

    let entrypoint = assembled(
        &mut global,
        &format!(
            "
    const 30
    const 100 
    const %{}
    call #2
    const :toodaloo
    halt
    ",
            bits
        ),
    );

    let mut vm = Vm::new(&mut global, entrypoint, &[], true).unwrap();
    let result = drive(&mut vm, &mut global);
    println!("Result: {:?}", result);
    let toodaloo = global.intern("toodaloo").unwrap();
    // Where slot 0 is less than slot 1 this function returns slot 1: the
    // larger of its arguments.
    assert_eq!(result, Val::from_int(100));
    assert_eq!(vm.depth(), 2);
    assert_eq!(vm.peek(0), toodaloo.as_val());
    assert_eq!(vm.peek(1), Val::from_int(100));
}

#[test]
fn a_program_halts_with_the_value_in_slot_zero() {
    let mut global = Global::new();
    let smaller = assembled(
        &mut global,
        "
    dup #0
    dup #1
    lt
    brnil .gte
    ret #0
.gte
    ret #1
    ",
    );
    let closure = Closure { env: vec![], code_obj: smaller.get_addr() };
    let ptr = global.new_object(HeapObject::Closure(closure)).unwrap();
    for (a, b) in [(30, 100), (100, 30)] {
        let entrypoint = assembled(
            &mut global,
            &format!(
                "
    const {}
    const {}
    const %{}
    call #2
    const :toodaloo
    halt
    ",
                a,
                b,
                ptr.bits()
            ),
        );
        let mut vm = Vm::new(&mut global, entrypoint, &[], false).unwrap();
        assert_eq!(vm.run(&mut global, 100).unwrap(), Event::Halted(Val::from_int(30)));
        assert_eq!(vm.depth(), 2);
    }
    for (a, b) in [("30.0", "100.0"), ("100.0", "30.0"), ("30", "100.0"), ("1e2", "3e1")] {
        let entrypoint = assembled(
            &mut global,
            &format!("const {}\nconst {}\nconst %{}\ncall #2\nconst :toodaloo\nhalt\n", a, b, ptr.bits()),
        );
        let mut vm = Vm::new(&mut global, entrypoint, &[], false).unwrap();
        let result = drive(&mut vm, &mut global);
        assert_eq!(as_f64(result), 30.0);
        assert_eq!(vm.depth(), 2);
        let toodaloo = global.intern("toodaloo").unwrap();
        assert_eq!(vm.peek(0), toodaloo.as_val());
    }
}

#[test]
fn call_and_return_leave_the_result_in_place_of_the_arguments() {
    let mut global = Global::new();
    let func_obj = assembled(
        &mut global,
        "
    dup #0
    dup #1
    lt
    brnil .gte
    ret #1
.gte
    ret #0
    ",
    );
    let closure = Closure { env: vec![], code_obj: func_obj.get_addr() };
    let ptr = global.new_object(HeapObject::Closure(closure)).unwrap();
    for (a, b, expected) in [(30, 100, 100), (100, 30, 100), (-5, -7, -5)] {
        let entry = assembled(
            &mut global,
            &format!("const 7\nconst %{}\nconst %{}\nconst %{}\ncall #2\nhalt\n",
                Val::from_int(a).bits(), Val::from_int(b).bits(), ptr.bits()),
        );
        let mut vm = Vm::new(&mut global, entry, &[], false).unwrap();
        let result = drive(&mut vm, &mut global);
        assert_eq!(result, Val::from_int(7));
        assert_eq!(vm.depth(), 2);
        assert_eq!(vm.peek(0), Val::from_int(expected));
        assert_eq!(vm.peek(1), Val::from_int(7));
    }
}

#[test]
fn maps() {
    let mut global = Global::new();
    let entrypoint = assembled(
        &mut global,
        "
    mapnew
    dup #0
    const :age
    const 30
    mapset
    dup #0
    const :children
    const 2
    mapset
    const :age
    mapget
    halt
    ",
    );
    let mut vm = Vm::new(&mut global, entrypoint, &[], false).unwrap();
    let result = drive(&mut vm, &mut global);
    println!("Result: {:?}", result);
    assert_eq!(result, Val::from_int(30));
}

#[test]
fn vectors() {
    let mut global = Global::new();
    let entrypoint = assembled(
        &mut global,
        "
    vecnew
    dup #0
    const :age
    vecpush
    dup #0
    const 30
    vecpush
    dup #0
    const :children
    vecpush
    dup #0 
    const 2
    vecpush
    halt
    ",
    );
    let mut vm = Vm::new(&mut global, entrypoint, &[], false).unwrap();
    let result = drive(&mut vm, &mut global);
    println!("Result: {:?}", result);
    let addr = match result.get() {
        Cases::Vector(addr) => addr,
        other => panic!("not a vector: {:?}", other),
    };
    let age = global.intern("age").unwrap().as_val();
    match global.object(addr) {
        Some(HeapObject::Vector(v)) => {
            assert_eq!(v.iter()[0], age);
            assert_eq!(v.iter()[1], Val::from_int(30));
            assert_eq!(v.iter()[3], Val::from_int(2));
            assert_eq!(v.count(), 4);
        }
        _ => panic!("no vector at the address"),
    }
}

#[test]
fn integer_arithmetic_stays_in_the_machine() {
    let mut global = Global::new();
    for (text, expected) in [
        ("const 6\nconst 7\nmul\nhalt", 42),
        ("const 6\nconst 7\nsub\nhalt", -1),
        ("const 6\nconst 7\nadd\nhalt", 13),
        ("const 45\nconst 7\ndiv\nhalt", 6),
    ] {
        let entry = assembled(&mut global, text);
        let mut vm = Vm::new(&mut global, entry, &[], false).unwrap();
        assert_eq!(vm.run(&mut global, 100).unwrap(), Event::Halted(Val::from_int(expected)));
    }
    let entry = assembled(&mut global, &format!("const %{}\nconst 2\ndiv\nhalt", Val::from_int(-7).bits()));
    let mut vm = Vm::new(&mut global, entry, &[], false).unwrap();
    assert_eq!(vm.run(&mut global, 100).unwrap(), Event::Halted(Val::from_int(-3)));
    let entry = assembled(&mut global, "const 1\nconst 2\nlt\nhalt");
    let mut vm = Vm::new(&mut global, entry, &[], false).unwrap();
    assert_eq!(vm.run(&mut global, 100).unwrap(), Event::Halted(Val::t()));
    let entry = assembled(&mut global, "const 1\nconst 1.0\neq\nhalt");
    let mut vm = Vm::new(&mut global, entry, &[], false).unwrap();
    assert_eq!(vm.run(&mut global, 100).unwrap(), Event::Halted(Val::nil()));
}

#[test]
fn doubles_go_to_the_host() {
    let mut global = Global::new();
    let entry = assembled(&mut global, "const 1\nconst 2.5\nadd\nhalt");
    let mut vm = Vm::new(&mut global, entry, &[], false).unwrap();
    assert_eq!(
        vm.run(&mut global, 100).unwrap(),
        Event::Arith { op: OpCode::Add, left: Val::from_int(1), right: num(2.5) }
    );
    assert_eq!(vm.depth(), 0);
    vm.push(num(3.5));
    assert_eq!(vm.run(&mut global, 100).unwrap(), Event::Halted(num(3.5)));
}

#[test]
fn machine_failures_name_their_kind_and_place() {
    let mut global = Global::new();
    let cases = [
        ("pop #1\nhalt", ErrorKind::StackUnderflow, 0),
        ("const 1\nconst 0\ndiv\nhalt", ErrorKind::DivisionByZero, 4),
        ("const 2147483647\nconst 1\nadd\nhalt", ErrorKind::IntegerOverflow, 4),
        ("const :a\nconst 1\nadd\nhalt", ErrorKind::TypeError, 4),
        ("const 1\ncall #0\nhalt", ErrorKind::NotCallable, 2),
        ("const 1\nret #0", ErrorKind::FrameUnderflow, 2),
        ("dup #3\nhalt", ErrorKind::BadSlot, 0),
        ("const 1", ErrorKind::BadCode, 2),
        ("const :nobody\nsymget\nhalt", ErrorKind::Unbound, 2),
        ("const %0\nconst 1\nsymset\nhalt", ErrorKind::AssignToConstant, 4),
        ("vecnew\nvecpop\nhalt", ErrorKind::EmptyVector, 1),
        ("vecnew\nconst 0\nvecget\nhalt", ErrorKind::IndexOutOfBounds, 3),
        ("const 1\nclosure 5\nhalt", ErrorKind::TypeError, 2),
    ];
    for (text, kind, ip) in cases {
        let entry = assembled(&mut global, text);
        let mut vm = Vm::new(&mut global, entry, &[], false).unwrap();
        let err = vm.run(&mut global, 100).unwrap_err();
        assert_eq!((err.kind, err.ip), (kind, ip), "{}", text);
    }
    let mut vm = Vm::new(&mut global, Val::from_int(3), &[], false);
    assert_eq!(vm.as_mut().err(), Some(&mut ErrorKind::TypeError));
}

#[test]
fn machine_failures_on_bad_code() {
    let mut global = Global::new();
    let cases = [
        (vec![200u8], ErrorKind::BadOpcode),
        (vec![OpCode::Const.code(), 3, OpCode::Halt.code()], ErrorKind::BadConstant),
        (vec![OpCode::Closure.code(), 0], ErrorKind::BadConstant),
        (vec![], ErrorKind::BadCode),
    ];
    for (code, kind) in cases {
        let bytecode = defunct::bytecode::ByteCode { consts: vec![], code };
        let entry = global.new_object(HeapObject::Code(bytecode)).unwrap();
        let mut vm = Vm::new(&mut global, entry, &[], false).unwrap();
        let depth = vm.depth();
        assert_eq!(vm.step(&mut global), Event::Failed(kind));
        assert_eq!(vm.depth(), depth);
    }
    let objs = compile_source(&mut global, "(vector-length)").unwrap();
    let mut vm = Vm::new(&mut global, *objs.last().unwrap(), &[], false).unwrap();
    assert_eq!(vm.run(&mut global, 100).unwrap_err().kind, ErrorKind::BadArity);
    let objs = compile_source(&mut global, "(vector-length 5)").unwrap();
    let mut vm = Vm::new(&mut global, *objs.last().unwrap(), &[], false).unwrap();
    assert_eq!(vm.run(&mut global, 100).unwrap_err().kind, ErrorKind::TypeError);
}

#[test]
fn names_too_long_for_the_heap() {
    let mut global = Global::new();
    let long = "x".repeat(40000);
    assert_eq!(global.intern(&long), None);
    assert_eq!(
        compile_source(&mut global, &long).unwrap_err(),
        CompileError::Emit(EmitError::OutOfMemory)
    );
    let mut idents = IdentTable::new();
    let numbers = Numbers::new();
    assert_eq!(
        assemble(&format!("const :{}", long), &mut idents, &numbers, &mut global).unwrap_err(),
        AsmError::OutOfMemory
    );
    assert!(global.intern(&"y".repeat(32000)).is_some());
}

#[test]
fn fuel_runs_out() {
    let mut global = Global::new();
    let entry = assembled(&mut global, "const 1\nconst 2\nconst 3\nhalt");
    let mut vm = Vm::new(&mut global, entry, &[Val::from_int(9)], false).unwrap();
    assert_eq!(vm.depth(), 1);
    assert_eq!(vm.run(&mut global, 2).unwrap(), Event::Next);
    assert_eq!(vm.depth(), 3);
    assert_eq!(vm.ip(), 4);
    assert_eq!(vm.step(&mut global), Event::Next);
    assert_eq!(vm.step(&mut global), Event::Halted(Val::from_int(9)));
    assert_eq!(vm.depth(), 4);
    assert_eq!(vm.pop(), Val::from_int(3));
    assert!(!vm.debug());
}

#[test]
fn symbols_are_set_and_read() {
    let mut global = Global::new();
    eval_and_assert_eq(&mut global, "(do (set answer 42.0) answer)", num(42.0));
    eval_and_assert_eq(&mut global, "answer", num(42.0));
    let answer = global_symbol(&mut global, "answer");
    eval_and_assert_eq(&mut global, ":answer", answer);
    eval_and_assert_eq(&mut global, "(do)", Val::nil());
    eval_and_assert_eq(&mut global, "(eq :a :a)", Val::t());
    eval_and_assert_eq(&mut global, "(eq :a :b)", Val::nil());
}

fn global_symbol(global: &mut Global, name: &str) -> Val {
    global.intern(name).unwrap().as_val()
}

#[test]
fn a_minus_sign_alone_is_a_name() {
    let mut global = Global::new();
    eval_and_assert_eq(&mut global, "(- 5.0 2.0)", num(3.0));
    eval_and_assert_eq(&mut global, "(- -5 -2)", num(-3.0));
    eval_and_assert_eq(&mut global, "(let [-x 4] (* -x -x))", num(16.0));
}

#[test]
fn exit_halts_with_its_argument() {
    let mut global = Global::new();
    eval_and_assert_eq(&mut global, "(do (exit 5.0) 7.0)", num(5.0));
}

#[test]
fn print_goes_to_the_host() {
    let mut global = Global::new();
    let objs = compile_source(&mut global, "(print 5.0)").unwrap();
    let mut vm = Vm::new(&mut global, *objs.last().unwrap(), &[], false).unwrap();
    assert_eq!(vm.run(&mut global, 100).unwrap(), Event::Print(num(5.0)));
    assert_eq!(vm.run(&mut global, 100).unwrap(), Event::Halted(Val::nil()));
}

#[test]
fn compile_errors() {
    let mut global = Global::new();
    assert_eq!(
        compile_source(&mut global, "(if 1 2)").unwrap_err(),
        CompileError::Parse(ParseError::MalformedIf)
    );
    assert_eq!(
        compile_source(&mut global, "(cond 1 2)").unwrap_err(),
        CompileError::Emit(EmitError::CondNotSupported)
    );
    match compile_source(&mut global, "(let [x 1] (set x 2))").unwrap_err() {
        CompileError::Emit(EmitError::CannotSetLocal(_)) => {}
        other => panic!("{:?}", other),
    }
    let many = format!("(do {})", "1 ".repeat(200));
    assert_eq!(
        compile_source(&mut global, &many).unwrap_err(),
        CompileError::Emit(EmitError::TooManyInstructions)
    );
    let params: String = (0..300).map(|i| format!("p{} ", i)).collect();
    assert_eq!(
        compile_source(&mut global, &format!("(fn [{}] 1)", params)).unwrap_err(),
        CompileError::Emit(EmitError::SlotTooLarge(300))
    );
}

#[test]
fn assembler_errors() {
    let mut global = Global::new();
    let mut idents = IdentTable::new();
    let numbers = Numbers::new();
    let mut run = |text: &str| assemble(text, &mut idents, &numbers, &mut global).unwrap_err();
    assert!(matches!(run("frobnicate"), AsmError::UnknownInstruction(_)));
    assert!(matches!(run("const banana"), AsmError::InvalidConstant(_)));
    assert!(matches!(run("const 1.5"), AsmError::InvalidConstant(_)));
    assert!(matches!(run("dup 3"), AsmError::InvalidImmediate(_)));
    assert!(matches!(run("dup #300"), AsmError::InvalidImmediate(_)));
    assert_eq!(run("dup"), AsmError::MissingOperand);
    assert!(matches!(run("jmp .nowhere"), AsmError::UnknownLabel(_)));
    assert!(matches!(run(".back\nhalt\njmp .back"), AsmError::LabelOutOfRange(_)));
    assert_eq!(run(&"halt\n".repeat(256)), AsmError::TooManyInstructions);
}
