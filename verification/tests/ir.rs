use ggbc::ast::{parse, parse_expression_input, Statement as AstStatement};
use ggbc::ir::alloc_register::RegisterAlloc;
use ggbc::ir::expression::compute_const_expr;
use ggbc::ir::layout::Layout;

#[test]
fn alloc_registers() {
    let mut alloc = RegisterAlloc::default();

    alloc.allocate();
    alloc.allocate();
    alloc.allocate();
    alloc.allocate();
    assert_eq!(0b1111, alloc.bitset());
    alloc.set(1, false);
    assert_eq!(0b1101, alloc.bitset());
    alloc.allocate();
    assert_eq!(0b1111, alloc.bitset());
}

#[test]
fn set() {
    let mut alloc = RegisterAlloc::default();
    alloc.set(0, true);
    alloc.set(2, true);
    alloc.set(4, true);
    alloc.set(6, true);
    assert!(alloc.get(0));
    assert!(!alloc.get(1));
    assert!(alloc.get(2));
    assert!(!alloc.get(3));
    assert!(alloc.get(4));
    assert!(!alloc.get(5));
    assert!(alloc.get(6));
    assert_eq!(0b1010101, alloc.bitset());
    alloc.set(2, false);
    alloc.set(4, false);
    alloc.set(6, false);
    assert_eq!(0b1, alloc.bitset());
    assert_eq!(1, alloc.min());
}

#[test]
fn const_expr() {
    let expr = parse_expression_input("(+ 0x0505 0xfafa)").unwrap();
    assert_eq!(Some(0xffff), compute_const_expr(&expr));
}

#[test]
fn layout_test() {
    let mut ast = parse("let _:[&u8 (+ 2 2)] = 0").unwrap();
    let type_ = match ast.inner.pop().unwrap() {
        AstStatement::Let(let_) => let_.field.type_,
        _ => panic!(),
    };
    let layout = Layout::from_type(&type_).unwrap();

    assert_eq!(Layout::Array { inner: Box::new(Layout::Pointer(Box::new(Layout::U8))), len: 4 }, layout);
}
