use ggbc::ast::{parse, parse_expression_input, Ast, Expression, Statement};

fn parse_program(input: &str) -> Ast<'_> {
    parse(input).unwrap()
}

#[test]
fn panic() {
    parse_program("!!");
}

#[test]
fn mod_() {
    parse_program("mod foo { mod bar { } } mod baz { }");
}

#[test]
fn struct_() {
    parse_program("struct Foo { }");
    parse_program("struct Foo { a :: u8 }");
    parse_program("struct Foo { a :: u8, b :: u16 }");
    parse_program("struct Foo { a :: u8, b :: u16 , c :: struct { } }");
    parse_program("struct Foo { a :: u8, b :: u16 , c :: struct { a::[u8;42] } }");
}

#[test]
fn union_() {
    parse_program("union Foo { }");
    parse_program("union Foo { a :: u8 }");
    parse_program("union Foo { a :: u8, b :: u16 }");
    parse_program("union Foo { a :: u8, b :: u16 , c :: union { } }");
    parse_program("union Foo { a :: u8, b :: u16 , c :: union { a::[u8;42] } }");
}

#[test]
fn assembly() {
    parse_program("asm { }");
}

#[test]
#[should_panic]
fn asm_panic() {
    parse_program("asm { loop { } }");
}

#[test]
fn static_() {
    parse_program("static FOO :: [u8; 0x800];");
    parse_program("static@0x8000 FOO :: [u8; 0x800];");
    parse_program("static@0x8000 FOO :: [u8; 0x800];");
}

#[test]
#[should_panic]
fn static_panic() {
    parse_program("static FOO :: u8 = 0;");
    parse_program("static FOO :: u8 = 0;");
}

#[test]
fn ast_const_() {
    parse_program("const FOO :: u8 = 42;");
    parse_program("const FOO :: u8 = 42;");
}

#[test]
#[should_panic]
fn const_panic() {
    parse_program("const FOO, BAR :: u8 = 0;");
}

#[test]
fn ast_for_() {
    parse_program("for i::u8 in 0.. 42 { }");
    parse_program("for i::u8 in 0..=42 { }");
    parse_program("for i::u8 in 0..=+42 { }");
}

#[test]
fn loop_() {
    parse_program("loop {}");
    parse_program("loop {} loop {}");
    parse_program("loop {loop{}} loop {}");
}

#[test]
fn let_() {
    parse_program("let foo::u8 = 42;");
    parse_program("let foo_bar::u16 = 0xffff;");
}

#[test]
#[should_panic]
fn let_panic() {
    parse_program("let foo = 42;");
}

#[test]
fn fn_() {
    parse_program("fn foo { }");
    parse_program("fn foo u8 { }");
    parse_program("fn foo(bar::u8) { }");
    parse_program("fn foo(bar::u8) u8 { }");
    parse_program("fn foo(bar::u8, baz::u16) u8 { }");
}

#[test]
fn inline() {
    parse_program("1;");
    parse_program("foo;");
    parse_program("foo();");
    parse_program("foo::bar(0, 1, 2);");
    parse_program("foo = 42;");
    parse_program("foo += 42;");
}

#[test]
fn statements_are_read_in_order() {
    let ast = parse_program("loop { } let x :: u8 = 1; if x { } else { }");
    assert_eq!(3, ast.inner.len());
    assert!(matches!(ast.inner[0], Statement::Loop(_)));
    assert!(matches!(ast.inner[1], Statement::Let(_)));
    assert!(matches!(ast.inner[2], Statement::IfElse(_)));
}

#[test]
fn unclosed_block_is_refused() {
    assert!(parse("loop {").is_err());
    assert!(parse("}").is_err());
}

#[test]
fn statement_form_follows_its_keyword() {
    let ast = parse_program("break; continue struct A { } union B { } { } !!");
    assert_eq!(6, ast.inner.len());
    match &ast.inner[0] {
        Statement::Break(j) => assert!(j.semi_colon.is_some()),
        _ => panic!("break"),
    }
    match &ast.inner[1] {
        Statement::Continue(j) => assert!(j.semi_colon.is_none()),
        _ => panic!("continue"),
    }
    assert!(matches!(ast.inner[2], Statement::Struct(_)));
    assert!(matches!(ast.inner[3], Statement::Union(_)));
    assert!(matches!(ast.inner[4], Statement::Scope(_)));
    assert!(matches!(ast.inner[5], Statement::Panic(_)));
}

#[test]
fn paths_are_read_whole() {
    let ast = parse_program("a::b::c;");
    match &ast.inner[0] {
        Statement::Inline(i) => match &i.inner {
            Expression::Path(p) => {
                assert_eq!(b"a", p.head.text);
                assert_eq!(2, p.tail.len());
                assert_eq!(b"c", p.tail[1].1.text);
            }
            _ => panic!("path"),
        },
        _ => panic!("inline"),
    }
}

#[test]
fn expressions_are_read_whole() {
    let e = parse_expression_input("a + b * c(1)[2]").unwrap();
    assert!(matches!(e, Expression::Binary(_)));
    assert!(parse_expression_input("a +").is_err());
    assert!(parse_expression_input("a b").is_err());
    // `a [1]` is an index, so the prefix expression lacks its right operand
    assert!(parse_expression_input("(* a [1])").is_err());
    assert!(parse_expression_input("(* a 1)").is_ok());
}

#[test]
fn malformed_programs_are_refused() {
    assert!(parse("let foo = 42;").is_err());
    assert!(parse("static FOO :: u8 = 0;").is_err());
    assert!(parse("const FOO, BAR :: u8 = 0;").is_err());
    assert!(parse("asm { loop { } }").is_err());
    assert!(parse("for i :: u8 in 0 { }").is_err());
    assert!(parse("let x :: u8 = 1").is_ok());
}
