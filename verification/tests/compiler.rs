use ggbc::ast::{parse, parse_expression_input, Statement as AstStatement};
use ggbc::ir::alloc_register::RegisterAlloc;
use ggbc::ir::expression::compile_expression_into_stack;
use ggbc::ir::allocation::{Alloc, Endianness, FnAlloc, Space};
use ggbc::ir::optimize::optimize;
use ggbc::ir::layout::{compute_type_size, equivalent_types, size_of, Layout};
use ggbc::ir::statement::{Destination, Location, Pointer, Source, Statement, NOP_PERSIST, NOP_UNREACHABLE};
use ggbc::ir::{CompileError, Ir};

fn compile(input: &str, order: Endianness) -> Result<Ir, CompileError> {
    let ast = parse(input).unwrap();
    Ir::new(&ast, order)
}

fn text(statement: &Statement) -> String {
    String::from_utf8(statement.display().fmt()).unwrap()
}

fn main_text(ir: &Ir) -> Vec<String> {
    ir.routines[ir.handlers.main].statements.iter().map(text).collect()
}

#[test]
fn empty_program_stops() {
    let ir = compile("", Endianness::Little).unwrap();
    assert_eq!(1, ir.routines.len());
    assert_eq!(0, ir.handlers.main);
    assert!(ir.handlers.vblank.is_none());
    assert!(ir.const_.is_empty());
    assert_eq!(vec!["NOP 0".to_string(), "STOP".to_string()], main_text(&ir));
}

#[test]
fn assignment_to_static() {
    let ir = compile("static x :: u8; x = 1;", Endianness::Little).unwrap();
    assert_eq!(
        vec!["NOP 0".to_string(), "LD (static@0000) ← #1".to_string(), "STOP".to_string()],
        main_text(&ir)
    );
}

#[test]
fn second_static_follows_the_first() {
    let ir = compile("static a :: [u8; 3]; static b :: u8; b = 7;", Endianness::Little).unwrap();
    assert_eq!("LD (static@0003) ← #7", main_text(&ir)[1]);
}

#[test]
fn constant_bytes_follow_the_byte_order() {
    let little = compile("const P :: &u8 = 0x1234;", Endianness::Little).unwrap();
    assert_eq!(vec![0x34, 0x12], little.const_);
    let big = compile("const P :: &u8 = 0x1234;", Endianness::Big).unwrap();
    assert_eq!(vec![0x12, 0x34], big.const_);
}

#[test]
fn constant_byte() {
    let ir = compile("const A :: u8 = 42; const B :: u8 = 0x10;", Endianness::Little).unwrap();
    assert_eq!(vec![42, 0x10], ir.const_);
}

#[test]
fn dropped_values_compile_to_nothing() {
    let ir = compile("y; 1;", Endianness::Little).unwrap();
    assert_eq!(vec!["NOP 0".to_string(), "STOP".to_string()], main_text(&ir));
}

#[test]
fn undefined_symbol_is_refused() {
    assert_eq!(Some(CompileError::Undefined), compile("y = 1;", Endianness::Little).err());
}

#[test]
fn redefined_symbol_is_refused() {
    assert_eq!(
        Some(CompileError::Redefined),
        compile("static x :: u8; static x :: u8;", Endianness::Little).err()
    );
}

#[test]
fn unsupported_type_is_refused() {
    assert_eq!(Some(CompileError::Unsupported), compile("static x :: u16;", Endianness::Little).err());
}

#[test]
fn non_constant_address_is_refused() {
    assert_eq!(Some(CompileError::NotConstant), compile("static@y x :: u8;", Endianness::Little).err());
}

#[test]
fn array_in_byte_expression_is_refused() {
    assert_eq!(
        Some(CompileError::Mismatch),
        compile("static a :: [u8; 2]; static b :: u8; b = a;", Endianness::Little).err()
    );
}

#[test]
fn byte_overflow_is_refused() {
    assert_eq!(Some(CompileError::Limit), compile("let x :: u8 = 256;", Endianness::Little).err());
}

#[test]
fn static_space_overflow_is_refused() {
    assert_eq!(
        Some(CompileError::Limit),
        compile("static a :: [u8; 0xffff]; static b :: [u8; 2];", Endianness::Little).err()
    );
}

#[test]
fn display_of_statements() {
    let ld = Statement::Ld {
        source: Source::Register(3),
        destination: Destination::Pointer { base: Pointer::Stack(0x12), offset: None },
    };
    assert_eq!("LD (stack@0012) ← %3", text(&ld));
    assert_eq!("RET", text(&Statement::Ret));
    assert_eq!("NOP 42", text(&Statement::Nop(42)));
}

fn let_type(input: &str) -> ggbc::ast::Type<'_> {
    let mut ast = parse(input).unwrap();
    match ast.inner.pop().unwrap() {
        AstStatement::Let(let_) => let_.field.type_,
        _ => panic!(),
    }
}

#[test]
fn sizes_of_types() {
    assert_eq!(1, size_of(&let_type("let x :: u8 = 0;")));
    assert_eq!(2, size_of(&let_type("let x :: &u8 = 0;")));
    assert_eq!(12, size_of(&let_type("let x :: [&u8; (* 2 3)] = 0;")));
    assert_eq!(5, size_of(&let_type("let x :: struct { a, b :: u8, c :: [u8; 3] } = 0;")));
    assert_eq!(3, size_of(&let_type("let x :: union { a, b :: u8, c :: [u8; 3] } = 0;")));
    assert_eq!(Some(8), compute_type_size(&let_type("let x :: [&u8; 4] = 0;")));
    assert_eq!(None, compute_type_size(&let_type("let x :: u16 = 0;")));
    assert_eq!(None, compute_type_size(&let_type("let x :: [[u8; 300]; 300] = 0;")));
}

#[test]
fn equivalence_of_types() {
    let a = let_type("let x :: [&u8; 4] = 0;");
    let b = let_type("let x :: [&u8; (+ 2 2)] = 0;");
    let c = let_type("let x :: [&i8; 4] = 0;");
    let d = let_type("let x :: [&u8; 5] = 0;");
    assert!(equivalent_types(&a, &b));
    assert!(!equivalent_types(&a, &c));
    assert!(!equivalent_types(&a, &d));
}

#[test]
fn struct_members_follow_each_other() {
    let ir = compile(
        "static s :: struct { a :: u8, b :: [u8; 2], c :: u8 }; s::c = 5; s::a = 4;",
        Endianness::Little,
    )
    .unwrap();
    assert_eq!("LD (static@0003) ← #5", main_text(&ir)[1]);
    assert_eq!("LD (static@0000) ← #4", main_text(&ir)[2]);
}

#[test]
fn union_members_share_their_offset() {
    let ir = compile(
        "static u :: union { a :: u8, b :: [u8; 4] }; static z :: u8; u::a = 1; z = 2;",
        Endianness::Little,
    )
    .unwrap();
    assert_eq!("LD (static@0000) ← #1", main_text(&ir)[1]);
    assert_eq!("LD (static@0004) ← #2", main_text(&ir)[2]);
}

#[test]
fn nested_members_are_named_by_their_path() {
    let ir = compile(
        "static s :: struct { p :: struct { x, y :: u8 }, q :: u8 }; s::p::y = 2; s::q = 3;",
        Endianness::Little,
    )
    .unwrap();
    assert_eq!("LD (static@0001) ← #2", main_text(&ir)[1]);
    assert_eq!("LD (static@0002) ← #3", main_text(&ir)[2]);
}

#[test]
fn absolute_struct_members() {
    let ir = compile("static@0x8000 io :: struct { a, b :: u8 }; io::b = 9;", Endianness::Little).unwrap();
    assert_eq!("LD (abs@8001) ← #9", main_text(&ir)[1]);
}

#[test]
fn struct_name_alone_is_not_a_symbol() {
    assert_eq!(
        Some(CompileError::Undefined),
        compile("static s :: struct { a :: u8 }; s = 1;", Endianness::Little).err()
    );
}

fn jump(r: i8) -> Statement {
    Statement::Jmp { location: Location::Relative(r) }
}

#[test]
fn optimize_marks_then_deletes_unreachable_statements() {
    // 0: nop, 1: jump over 2, 2: unreachable, 3: stop
    let mut code = vec![Statement::Nop(NOP_PERSIST), jump(1), Statement::Ret, Statement::Stop];
    assert!(optimize(&mut code));
    assert_eq!("NOP 3", text(&code[2]));
    assert_eq!(NOP_UNREACHABLE, 3);
    assert!(optimize(&mut code));
    assert_eq!(3, code.len());
    assert_eq!("JMP 0", text(&code[1]));
    assert_eq!("STOP", text(&code[2]));
}

#[test]
fn optimize_threads_jumps() {
    // 1 jumps to 3, which jumps to 5: 1 is redirected to 5
    let mut code = vec![Statement::Nop(NOP_PERSIST), jump(1), Statement::Stop, jump(1), Statement::Stop, Statement::Stop];
    assert!(optimize(&mut code));
    assert_eq!("NOP 3", text(&code[2]));
    assert_eq!("NOP 3", text(&code[4]));
    assert!(optimize(&mut code));
    assert_eq!("JMP 3", text(&code[1]));
    assert_eq!("JMP 1", text(&code[3]));
}

#[test]
fn allocated_static_is_found_by_its_name() {
    let mut ast = parse("static x :: [u8; 4];").unwrap();
    let st = match ast.inner.pop().unwrap() {
        AstStatement::Static(st) => st,
        _ => panic!(),
    };
    let mut alloc = Alloc::new(Endianness::Little);
    assert!(alloc.is_undefined(b"x"));
    alloc.alloc_static(&st.field).unwrap();
    let sym = alloc.symbol(b"x").unwrap();
    assert_eq!(0, sym.offset);
    assert_eq!(4, sym.size);
    assert!(matches!(sym.space, Space::Static));
    assert!(alloc.symbol(b"y").is_none());
    assert_eq!(Some(CompileError::Redefined), alloc.alloc_static(&st.field).err());
}

#[test]
fn loop_with_break() {
    let ir = compile("loop { break; }", Endianness::Little).unwrap();
    assert_eq!(
        vec!["NOP 0".to_string(), "JMP 1".to_string(), "NOP 3".to_string(), "STOP".to_string()],
        main_text(&ir)
    );
}

#[test]
fn if_jumps_over_its_block() {
    let ir = compile("static x :: u8; if x { x = 1; }", Endianness::Little).unwrap();
    assert_eq!(
        vec![
            "NOP 0".to_string(),
            "JMPCMPNOT 1 (static@0000)".to_string(),
            "LD (static@0000) ← #1".to_string(),
            "STOP".to_string()
        ],
        main_text(&ir)
    );
}

#[test]
fn functions_get_routines_of_their_own() {
    let ir = compile("fn f { } fn g { }", Endianness::Little).unwrap();
    assert_eq!(3, ir.routines.len());
    assert_eq!(2, ir.handlers.main);
    assert_eq!(Some(b"f".to_vec()), ir.routines[0].debug_name);
    assert_eq!(Some(b"g".to_vec()), ir.routines[1].debug_name);
    assert_eq!(vec!["RET".to_string()], ir.routines[0].statements.iter().map(text).collect::<Vec<_>>());
    assert_eq!(Some(CompileError::Redefined), compile("fn f { } fn f { }", Endianness::Little).err());
}

#[test]
fn optimize_reports_no_change_on_a_self_jump() {
    // 0 jumps over 1 to 2; 1 jumps to itself: nothing to mark, thread or delete
    let mut code = vec![
        Statement::JmpCmp { location: Location::Relative(1), source: Source::Register(0) },
        jump(-1),
        Statement::Stop,
    ];
    assert!(!optimize(&mut code));
    assert_eq!(3, code.len());
    assert_eq!("JMP -1", text(&code[1]));
    assert_eq!("STOP", text(&code[2]));
}

#[test]
fn display_of_and() {
    let and = Statement::And {
        left: Source::Register(0),
        right: Source::Register(1),
        destination: Destination::Register(2),
    };
    assert_eq!("AND %2 ← %0 %1", text(&and));
}

#[test]
fn types_are_equivalent_to_themselves() {
    for input in [
        "let x :: u16 = 0;",
        "let x :: Foo = 0;",
        "let x :: struct { a, b :: u8, c :: [u8; 3] } = 0;",
        "let x :: union { a :: u8, c :: &Foo } = 0;",
    ] {
        let t = let_type(input);
        assert!(equivalent_types(&t, &t), "{}", input);
    }
    let s = let_type("let x :: struct { a :: u8 } = 0;");
    let u = let_type("let x :: union { a :: u8 } = 0;");
    let r = let_type("let x :: struct { b :: u8 } = 0;");
    assert!(!equivalent_types(&s, &u));
    assert!(!equivalent_types(&s, &r));
    assert!(!equivalent_types(&let_type("let x :: Foo = 0;"), &let_type("let x :: Bar = 0;")));
}

#[test]
fn stack_expression_goes_through_registers() {
    let expression = parse_expression_input("(+ (+ 200 100) 1)").unwrap();
    let alloc = Alloc::new(Endianness::Little);
    let fn_alloc = FnAlloc::new();
    let mut registers = RegisterAlloc::default();
    let mut code = Vec::new();
    let r = compile_expression_into_stack(&expression, &Layout::U8, &alloc, &mut registers, &fn_alloc, 4, &mut code);
    assert_eq!(Ok(()), r);
    assert_eq!(0, registers.bitset());
    let last = text(code.last().unwrap());
    assert!(last.starts_with("ADD (stack@0004)"), "{}", last);
}

#[test]
fn optimize_marks_and_deletes_an_unreachable_tail() {
    // the load after STOP is unreachable and would fall off the end
    let mut code = vec![
        Statement::Nop(NOP_PERSIST),
        Statement::Stop,
        Statement::Ld { source: Source::Literal(1), destination: Destination::Register(0) },
    ];
    assert!(optimize(&mut code));
    assert_eq!(3, code.len());
    assert_eq!("NOP 3", text(&code[2]));
    assert_eq!("STOP", text(&code[1]));
    assert!(optimize(&mut code));
    assert_eq!(2, code.len());
    assert_eq!("STOP", text(&code[1]));
    assert!(!optimize(&mut code));
}

#[test]
fn optimize_threads_a_chain_of_jumps() {
    // 0 lands on 1, which lands on 3
    let mut code = vec![jump(0), jump(1), Statement::Stop, Statement::Stop];
    assert!(optimize(&mut code));
    assert_eq!("NOP 3", text(&code[2]));
    let mut code = vec![Statement::Nop(NOP_PERSIST), jump(0), jump(0), Statement::Stop];
    assert!(optimize(&mut code));
    assert_eq!("JMP 1", text(&code[1]));
    assert_eq!("JMP 0", text(&code[2]));
}

#[test]
fn static_record_is_copied_through_the_stack_space() {
    let ir = compile("static z :: u8; static a :: [u8; 2]; let x :: [u8; 2] = a;", Endianness::Little).unwrap();
    let lines = main_text(&ir);
    assert!(lines.iter().any(|l| l == "LD (stack@0000) ← (stack@0001)"), "{:?}", lines);
    assert!(lines.iter().any(|l| l == "LD (stack@0001) ← (stack@0002)"), "{:?}", lines);
}
