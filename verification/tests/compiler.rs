use defunct::bytecode::OpCode;
use defunct::compiler::emit::{emit as emit_code, Emitter, Scope};
use defunct::compiler::read::{check_number, is_number_char, is_number_start_char, is_symbol_char, is_symbol_start_char, is_whitespace};
use defunct::compiler::{
    parse, EmitError, Expr, Ident, IdentTable, Numbers, ParseError, Primitives, ReadError,
    ReadErrorReason, Reader, Sexp, Specials,
};
use defunct::global::{Global, HeapObject};
use defunct::values::{Cases, Val};

fn read_one(src: &str, idents: &mut IdentTable) -> Result<Sexp, ReadError> {
    let mut reader = Reader::new(src);
    reader.read(idents)
}

fn read_error(src: &str) -> ReadError {
    let mut idents = IdentTable::new();
    match read_one(src, &mut idents) {
        Ok(_) => panic!("read without an error: {}", src),
        Err(e) => e,
    }
}

fn numbers_of(idents: &IdentTable) -> Numbers {
    let mut numbers = Numbers::new();
    for i in 0..idents.len() {
        if let Ok(f) = idents.get_name(Ident(i)).parse::<f64>() {
            numbers.set(Ident(i), f.to_bits());
        }
    }
    numbers
}

#[test]
fn sexp() {
    let mut idents = IdentTable::new();
    let list_str = r"
        (defn add3 [x y z]
          (let ((*sum* (+ x y z)))
            sum))
        ";
    let sexp = read_one(list_str, &mut idents).expect("failed to read sexp");

    let name_of = |ident: &defunct::compiler::Ident| idents.get_name(*ident);
    match sexp {
        Sexp::List(items) => match (&items[0], &items[1], &items[2], &items[3]) {
            (Sexp::Ident(defn), Sexp::Ident(add3), Sexp::Vector(bindings), Sexp::List(body))
                if name_of(defn) == "defn" && name_of(add3) == "add3" =>
            {
                for b in bindings {
                    match b {
                        Sexp::Ident(_) => {
                            continue;
                        }
                        _ => {
                            panic!("Expected a symbol in bindings list.")
                        }
                    }
                }
                match &body[..] {
                    [Sexp::Ident(head), Sexp::List(bindings), Sexp::Ident(sum)]
                        if name_of(head) == "let" && name_of(sum) == "sum" =>
                    {
                        match &bindings[..] {
                            [Sexp::List(items)] => match &items[..] {
                                [Sexp::Ident(sum), Sexp::List(binding)] => match &binding[..] {
                                    [Sexp::Ident(_plus), Sexp::Ident(x), Sexp::Ident(y), Sexp::Ident(z)]
                                        if name_of(sum) == "*sum*"
                                            && name_of(x) == "x"
                                            && name_of(y) == "y"
                                            && name_of(z) == "z" =>
                                    {
                                        return;
                                    }
                                    _ => panic!("Failed at point a"),
                                },
                                _ => panic!("Failed at point b"),
                            },
                            _ => panic!("Failed at point c"),
                        }
                    }
                    _ => panic!("Failed at point d"),
                }
            }
            _ => panic!("Failed at point e"),
        },
        _ => panic!("Failed at point f"),
    }
}

#[test]
fn parsing() {
    let mut idents = IdentTable::new();
    let list_str = r"
        (let [x 0
              y 1
              z (* 62 42)]
          (let [sum (+ x (+ y z))]
            (if (< sum 1000)
              1000
              (* sum sum))))
        ";
    let sexp = read_one(list_str, &mut idents).unwrap();
    let specials = Specials::new_in(&mut idents);
    let primitives = Primitives::new_in(&mut idents);
    let parsed = parse(&sexp, &specials, &primitives).unwrap();
    let numbers = numbers_of(&idents);

    let name_of = |ident: &defunct::compiler::Ident| idents.get_name(*ident);
    let value_of = |ident: &defunct::compiler::Ident| numbers.get(*ident).map(f64::from_bits);
    match parsed {
        Expr::Let { bindings, body: _ } => match &bindings[..] {
            [(x, Expr::NumLiteral(zero)), (y, Expr::NumLiteral(one)), (z, Expr::PrimOp { op: times, left: _, right: _ })]
                if name_of(x) == "x"
                    && name_of(y) == "y"
                    && name_of(z) == "z"
                    && name_of(times) == "*"
                    && value_of(zero) == Some(0.0)
                    && value_of(one) == Some(1.0) =>
            {
                return;
            }
            _ => panic!("Failed to parse at point a"),
        },
        _ => panic!("Failed ot parse at point b"),
    }
}

#[test]
fn emit() {
    let mut global = Global::new();
    let mut idents = IdentTable::new();
    let specials = Specials::new_in(&mut idents);

    let src = r"
(set transform
  (fn [t]
    (let [x (* t t)
          y (+ t 1)
          z (* 62 42)]
      (let [sum (+ x (+ y z))]
        (if (< sum 1000)
          1000
          (* sum sum))))))

        ";
    let sexp = read_one(src, &mut idents).unwrap();
    let primitives = Primitives::new_in(&mut idents);
    let parsed = parse(&sexp, &specials, &primitives).unwrap();
    let numbers = numbers_of(&idents);
    let objects = emit_code(&idents, &primitives, &numbers, &mut global, &parsed).unwrap();
    assert_eq!(objects.len(), 2);
    for obj in objects.iter() {
        let addr = match obj.get() {
            Cases::Object(addr) => addr,
            other => panic!("not a code object: {:?}", other),
        };
        match global.object(addr) {
            Some(HeapObject::Code(bytecode)) => println!("\n{:?}", bytecode),
            _ => panic!("no code object at the address"),
        }
    }
}

fn code_of(global: &mut Global, src: &str) -> (Vec<u8>, Vec<Val>) {
    let mut idents = IdentTable::new();
    let specials = Specials::new_in(&mut idents);
    let primitives = Primitives::new_in(&mut idents);
    let sexp = read_one(src, &mut idents).unwrap();
    let parsed = parse(&sexp, &specials, &primitives).unwrap();
    let numbers = numbers_of(&idents);
    let objects = emit_code(&idents, &primitives, &numbers, global, &parsed).unwrap();
    match global.object(objects.last().unwrap().get_addr()) {
        Some(HeapObject::Code(bytecode)) => (bytecode.code.clone(), bytecode.consts.clone()),
        _ => panic!("no code object at the address"),
    }
}

#[test]
fn emitted_code_for_a_let() {
    let mut global = Global::new();
    let (code, consts) = code_of(&mut global, "(let [x 1 y 2] (+ x y))");
    let c = OpCode::Const.code();
    let expected = vec![
        c, 0, c, 1,
        OpCode::Dup.code(), 0, OpCode::Dup.code(), 1, OpCode::Add.code(),
        OpCode::PopSave.code(), 2,
        OpCode::Halt.code(),
    ];
    assert_eq!(code, expected);
    assert_eq!(consts, vec![Val::from_num(1.0f64.to_bits()), Val::from_num(2.0f64.to_bits())]);
}

#[test]
fn emitted_jumps_land_on_the_else_branch_and_past_it() {
    let mut global = Global::new();
    let (code, _) = code_of(&mut global, "(if (< 1 2) 10 (+ 20 30))");
    let c = OpCode::Const.code();
    let expected = vec![
        c, 0, c, 1, OpCode::Lt.code(),
        OpCode::BrNil.code(), 4,
        c, 2,
        OpCode::Jmp.code(), 6,
        c, 3, c, 4, OpCode::Add.code(),
        OpCode::Halt.code(),
    ];
    assert_eq!(code, expected);
    let br = 6;
    let jmp = 10;
    assert_eq!(br + 1 + code[br] as usize, 11);
    assert_eq!(code[11], c);
    assert_eq!(jmp + code[jmp] as usize, 16);
    assert_eq!(code[16], OpCode::Halt.code());
}

#[test]
fn emitted_code_for_a_function() {
    let mut global = Global::new();
    let mut idents = IdentTable::new();
    let specials = Specials::new_in(&mut idents);
    let primitives = Primitives::new_in(&mut idents);
    let sexp = read_one("(fn [a b] (return b) a)", &mut idents).unwrap();
    let parsed = parse(&sexp, &specials, &primitives).unwrap();
    let numbers = Numbers::new();
    let objects = emit_code(&idents, &primitives, &numbers, &mut global, &parsed).unwrap();
    assert_eq!(objects.len(), 2);
    let body = match global.object(objects[0].get_addr()) {
        Some(HeapObject::Code(bytecode)) => bytecode.code.clone(),
        _ => panic!(),
    };
    assert_eq!(
        body,
        vec![
            OpCode::Dup.code(), 1, OpCode::Ret.code(), 2,
            OpCode::Pop.code(), 1,
            OpCode::Dup.code(), 0,
            OpCode::Ret.code(), 2,
        ]
    );
    let (top, consts) = match global.object(objects[1].get_addr()) {
        Some(HeapObject::Code(bytecode)) => (bytecode.code.clone(), bytecode.consts.clone()),
        _ => panic!(),
    };
    assert_eq!(top, vec![OpCode::Closure.code(), 0, OpCode::Halt.code()]);
    assert_eq!(consts, vec![objects[0]]);
}

#[test]
fn emitted_code_for_literals_and_globals() {
    let mut global = Global::new();
    let (code, consts) = code_of(&mut global, "[7 :k]");
    let k = global.intern("k").unwrap().as_val();
    assert_eq!(
        code,
        vec![
            OpCode::VecNew.code(),
            OpCode::Dup.code(), 0, OpCode::Const.code(), 0, OpCode::VecPush.code(),
            OpCode::Dup.code(), 0, OpCode::Const.code(), 1, OpCode::VecPush.code(),
            OpCode::Halt.code(),
        ]
    );
    assert_eq!(consts, vec![Val::from_num(7.0f64.to_bits()), k]);
    let (code, consts) = code_of(&mut global, "(set g (h 1))");
    let g = global.intern("g").unwrap().as_val();
    let h = global.intern("h").unwrap().as_val();
    assert_eq!(
        code,
        vec![
            OpCode::Const.code(), 0,
            OpCode::Const.code(), 1,
            OpCode::Const.code(), 2, OpCode::SymGet.code(),
            OpCode::Call.code(), 1,
            OpCode::SymSet.code(),
            OpCode::Halt.code(),
        ]
    );
    assert_eq!(consts, vec![g, Val::from_num(1.0f64.to_bits()), h]);
}

#[test]
fn emit_errors() {
    let mut global = Global::new();
    let mut idents = IdentTable::new();
    let specials = Specials::new_in(&mut idents);
    let primitives = Primitives::new_in(&mut idents);
    let sexp = read_one("(+ 1 x)", &mut idents).unwrap();
    let parsed = parse(&sexp, &specials, &primitives).unwrap();
    let numbers = Numbers::new();
    assert!(matches!(
        emit_code(&idents, &primitives, &numbers, &mut global, &parsed),
        Err(EmitError::UnresolvedNumber(_))
    ));
    let stranger = Expr::Ident(Ident(1000));
    assert_eq!(
        emit_code(&idents, &primitives, &numbers, &mut global, &stranger),
        Err(EmitError::UnknownIdent(Ident(1000)))
    );
    let x = idents.intern("x");
    let bad = Expr::PrimOp { op: x, left: Box::new(Expr::Ident(x)), right: Box::new(Expr::Ident(x)) };
    assert_eq!(
        emit_code(&idents, &primitives, &numbers, &mut global, &bad),
        Err(EmitError::UnknownPrimitive(x))
    );
    let many: String = (0..130).map(|i| format!("k{} ", i)).collect();
    let sexp = read_one(&format!("(do {})", many), &mut idents).unwrap();
    let parsed = parse(&sexp, &specials, &primitives).unwrap();
    assert_eq!(
        emit_code(&idents, &primitives, &numbers, &mut global, &parsed),
        Err(EmitError::TooManyInstructions)
    );
    let mut emitter = Emitter::new();
    assert!(emitter.emit(&Expr::Keyword(x), &idents, &primitives, &numbers, &mut global).is_ok());
}

#[test]
fn scope_finds_the_innermost_binding() {
    let mut scope = Scope::new();
    let x = Ident(3);
    let y = Ident(4);
    assert_eq!(scope.lookup(&x), None);
    scope.push(&x, 0);
    scope.push(&y, 1);
    scope.push(&x, 2);
    assert_eq!(scope.len(), 3);
    assert_eq!(scope.lookup(&x), Some(2));
    assert_eq!(scope.lookup(&y), Some(1));
    scope.pop();
    assert_eq!(scope.lookup(&x), Some(0));
    scope.pop();
    scope.pop();
    assert_eq!(scope.lookup(&x), None);
    assert_eq!(scope.len(), 0);
}

#[test]
fn parse_errors() {
    let cases = [
        ("()", ParseError::EmptyList),
        ("(if a b)", ParseError::MalformedIf),
        ("(if a b c d)", ParseError::MalformedIf),
        ("(let [x 1])", ParseError::MalformedLet),
        ("(let (x 1) x)", ParseError::LetBindingsNotInVector),
        ("(let [x] x)", ParseError::UnbalancedLetBindings),
        ("(let [1 x] x)", ParseError::LetBindingsAreNotSymbols),
        ("(fn (x) x)", ParseError::FnBindingsNotInVector),
        ("(fn)", ParseError::FnBindingsNotInVector),
        ("(fn [1] x)", ParseError::FnBindingsAreNotSymbols),
        ("(cond a)", ParseError::UnbalancedCond),
        ("(set x)", ParseError::MalformedSet),
        ("(set 1 2)", ParseError::MalformedSet),
        ("(return)", ParseError::MalformedRet),
        ("(return 1 2)", ParseError::MalformedRet),
        ("(+ 1)", ParseError::PrimOpWrongArity),
        ("(eq 1 2 3)", ParseError::PrimOpWrongArity),
        ("(f (if a))", ParseError::MalformedIf),
        ("[(let [x] x) (if)]", ParseError::UnbalancedLetBindings),
    ];
    for (src, expected) in cases {
        let mut idents = IdentTable::new();
        let specials = Specials::new_in(&mut idents);
        let primitives = Primitives::new_in(&mut idents);
        let sexp = read_one(src, &mut idents).unwrap();
        match parse(&sexp, &specials, &primitives) {
            Err(e) => assert_eq!(e, expected, "{}", src),
            Ok(_) => panic!("parsed without an error: {}", src),
        }
    }
}

#[test]
fn parse_shapes() {
    let mut idents = IdentTable::new();
    let specials = Specials::new_in(&mut idents);
    let primitives = Primitives::new_in(&mut idents);
    let mut parse_src = |src: &str| {
        let sexp = read_one(src, &mut idents).unwrap();
        parse(&sexp, &specials, &primitives).unwrap()
    };
    assert!(matches!(parse_src("(cond a b c d)"), Expr::Cond(cases) if cases.len() == 2));
    assert!(matches!(parse_src("(do 1 2 3)"), Expr::Do(body) if body.len() == 3));
    assert!(matches!(parse_src("(f 1 2)"), Expr::Apply { _fn, args } if args.len() == 2 && matches!(*_fn, Expr::Ident(_))));
    assert!(matches!(parse_src("((f) 1)"), Expr::Apply { _fn, args } if args.len() == 1 && matches!(*_fn, Expr::Apply { .. })));
    assert!(matches!(parse_src("(:k m)"), Expr::Apply { _fn, .. } if matches!(*_fn, Expr::Keyword(_))));
    assert!(matches!(parse_src("([1 2] 0)"), Expr::Apply { _fn, .. } if matches!(*_fn, Expr::VectorLiteral(_))));
    assert!(matches!(parse_src("{:a 1}"), Expr::MapLiteral(items) if items.len() == 1));
    assert!(matches!(parse_src("(set x 1)"), Expr::Assign(_, _)));
    assert!(matches!(parse_src("(return x)"), Expr::Ret(_)));
    assert!(matches!(parse_src("(fn [a b] a b)"), Expr::Fn { bindings, body } if bindings.len() == 2 && matches!(*body, Expr::Do(ref b) if b.len() == 2)));
    assert!(matches!(parse_src("(<= 1 2)"), Expr::PrimOp { .. }));
    assert_eq!(primitives.get(idents.intern("<=")), Some(OpCode::Lte));
    assert_eq!(primitives.get(idents.intern("eq")), Some(OpCode::Eq));
    assert_eq!(primitives.get(idents.intern("if")), None);
}

#[test]
fn read_errors_carry_their_place() {
    assert_eq!(read_error(""), ReadError { line: 0, col: 0, reason: ReadErrorReason::EOF });
    assert_eq!(read_error("  \n  "), ReadError { line: 1, col: 2, reason: ReadErrorReason::EOF });
    assert_eq!(read_error("(a b"), ReadError { line: 0, col: 4, reason: ReadErrorReason::EOF });
    assert_eq!(
        read_error("(a\n b]"),
        ReadError { line: 1, col: 2, reason: ReadErrorReason::UnbalancedBracket }
    );
    assert_eq!(read_error("(a }").reason, ReadErrorReason::UnbalancedBrace);
    assert_eq!(read_error("[a )").reason, ReadErrorReason::UnbalancedParen);
    assert_eq!(read_error("[a }").reason, ReadErrorReason::UnbalancedBrace);
    assert_eq!(read_error("{a b )").reason, ReadErrorReason::UnbalancedParen);
    assert_eq!(read_error("{a b ]").reason, ReadErrorReason::UnbalancedBracket);
    assert_eq!(
        read_error("{a b c}"),
        ReadError { line: 0, col: 6, reason: ReadErrorReason::UnbalancedMapItems }
    );
    assert_eq!(read_error(": a").reason, ReadErrorReason::BareColon);
    assert_eq!(read_error(":").reason, ReadErrorReason::EOF);
    assert_eq!(read_error(")").reason, ReadErrorReason::UnexpectedChar(')'));
    assert_eq!(read_error("  @").reason, ReadErrorReason::UnexpectedChar('@'));
    assert_eq!(read_error("(a @)").col, 3);
    for src in ["1.2.3", "1_000", "1-2", ".", "-.", "5-"] {
        let mut idents = IdentTable::new();
        match read_one(src, &mut idents) {
            Err(ReadError { reason: ReadErrorReason::NumberParseErr(id), .. }) => {
                assert_eq!(idents.get_name(id), src)
            }
            other => panic!("{}: {:?}", src, other.is_ok()),
        }
    }
}

#[test]
fn read_forms() {
    let mut idents = IdentTable::new();
    for src in ["0", "12", "-1.0", ".5", "5.", "-.5", "007"] {
        match read_one(src, &mut idents) {
            Ok(Sexp::Number(id)) => assert_eq!(idents.get_name(id), src),
            _ => panic!("not a number: {}", src),
        }
    }
    for src in ["-", "-x", "+", "<=", "a1", "*sum*", "vector-push!", "é"] {
        match read_one(src, &mut idents) {
            Ok(Sexp::Ident(id)) => assert_eq!(idents.get_name(id), src),
            _ => panic!("not a name: {}", src),
        }
    }
    match read_one(" ,, :key ", &mut idents) {
        Ok(Sexp::Keyword(id)) => assert_eq!(idents.get_name(id), "key"),
        _ => panic!("not a keyword"),
    }
    match read_one("{:a 1, :b [2 3], c ()}", &mut idents) {
        Ok(Sexp::MapLit(items)) => {
            assert_eq!(items.len(), 3);
            assert!(matches!(&items[1].1, Sexp::Vector(v) if v.len() == 2));
            assert!(matches!(&items[2].1, Sexp::List(v) if v.is_empty()));
            assert!(items[2].0.is_symbol());
            assert!(items[2].1.is_list());
            assert!(items[1].1.is_vector());
            assert!(items[0].1.is_number());
            assert!(items[2].0.is(idents.intern("c")));
            assert!(!items[2].0.is(idents.intern("d")));
        }
        _ => panic!("not a map"),
    }
    let mut reader = Reader::new("a (b) c");
    assert!(matches!(reader.read(&mut idents), Ok(Sexp::Ident(_))));
    assert!(matches!(reader.read(&mut idents), Ok(Sexp::List(_))));
    assert!(matches!(reader.read(&mut idents), Ok(Sexp::Ident(_))));
    assert!(matches!(
        reader.read(&mut idents),
        Err(ReadError { line: 0, col: 7, reason: ReadErrorReason::EOF })
    ));
}

#[test]
fn character_classes() {
    for c in "+-*/_!<>=aZ9é".chars() {
        assert!(is_symbol_char(c));
        assert!(is_symbol_start_char(c));
    }
    for c in "()[]{}:, .#%".chars() {
        assert!(!is_symbol_char(c));
    }
    for c in "0123456789.-".chars() {
        assert!(is_number_start_char(c));
        assert!(is_number_char(c));
    }
    assert!(is_number_char('_'));
    assert!(!is_number_start_char('_'));
    assert!(!is_number_char('+'));
    for c in " \t\n\r,\u{a0}\u{2003}\u{3000}\u{85}".chars() {
        assert!(is_whitespace(c));
    }
    for c in "a.;\u{200b}".chars() {
        assert!(!is_whitespace(c));
    }
    for (text, expected) in [("12", true), ("-1.5", true), ("1.", true), (".5", true), ("", false), ("-", false), (".", false), ("1.2.3", false), ("1x", false), ("--1", false), ("1_0", false)] {
        let chars: Vec<char> = text.chars().collect();
        assert_eq!(check_number(&chars, 0, chars.len()), expected, "{}", text);
        assert_eq!(text.parse::<f64>().is_ok(), expected, "{}", text);
    }
}

#[test]
fn identifiers_are_interned_once() {
    let mut idents = IdentTable::new();
    let a = idents.intern("alpha");
    let b = idents.intern("beta");
    assert_eq!(a, Ident(0));
    assert_eq!(b, Ident(1));
    assert_eq!(idents.intern(&String::from("alpha")), a);
    assert_eq!(idents.len(), 2);
    assert_eq!(idents.get_name(a), "alpha");
    assert_eq!(idents.get_name(b), "beta");
    let specials = Specials::new_in(&mut idents);
    assert_eq!(idents.get_name(specials._fn), "fn");
    assert_eq!(idents.get_name(specials._let), "let");
    assert_eq!(idents.get_name(specials._if), "if");
    assert_eq!(idents.get_name(specials._cond), "cond");
    assert_eq!(idents.get_name(specials._set), "set");
    assert_eq!(idents.get_name(specials._do), "do");
    assert_eq!(idents.get_name(specials._ret), "return");
    assert_eq!(idents.len(), 9);
}
