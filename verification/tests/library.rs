use ggbc::error::{Error, Errors};
use ggbc::registers::Registers;
use ggbc::scope::Context;

#[test]
fn scope_root_is_level_zero() {
    let context = Context::new();
    assert_eq!(0, context.level());
    assert!(!context.contains("foo"));
}

#[test]
fn scope_define_then_contains() {
    let mut context = Context::new();
    context.define("foo");
    assert!(context.contains("foo"));
    assert!(!context.contains("bar"));
    context.define("foo");
    assert!(context.undefine("foo"));
    assert!(!context.contains("foo"));
    assert!(!context.undefine("foo"));
}

#[test]
fn scope_inner_sees_outer() {
    let mut context = Context::new();
    context.define("outer");
    context.push();
    assert_eq!(1, context.level());
    context.define("inner");
    assert!(context.contains("outer"));
    assert!(context.contains("inner"));
    assert!(!context.undefine("outer"));
    assert!(context.contains("outer"));
    context.pop();
    assert_eq!(0, context.level());
    assert!(context.contains("outer"));
    assert!(!context.contains("inner"));
}

#[test]
fn scope_shadowed_name_survives_inner_undefine() {
    let mut context = Context::new();
    context.define("x");
    context.push();
    context.define("x");
    assert!(context.undefine("x"));
    assert!(context.contains("x"));
    context.pop();
}

#[test]
fn registers_start_at_default() {
    let registers: Registers<u8> = Registers::with_capacity(4);
    assert_eq!(&[0u8, 0, 0, 0][..], registers.as_slice());
}

#[test]
fn registers_set_then_get() {
    let mut registers: Registers<u16> = Registers::with_capacity(3);
    registers.set(1, 0xbeef);
    assert_eq!(0xbeef, registers.get(1));
    assert_eq!(0, registers.get(0));
    assert_eq!(0, registers.get(2));
    registers.set(1, 7);
    assert_eq!(7, registers.get(1));
}

#[test]
#[allow(unused_must_use)]
fn errors_keep_their_order() {
    let mut errors = Errors::new();
    assert!(errors.as_slice().is_empty());
    errors.push(Error::Eof);
    errors.push(Error::Eof);
    assert_eq!(2, errors.as_slice().len());
    assert_eq!(Error::Eof, errors.as_slice()[1]);
}

#[test]
fn main_program_is_outside_every_function() {
    let mut context = ggbc::ir::Context::new();
    assert!(context.is_main());
    context.begin_fn();
    assert!(!context.is_main());
    context.begin_fn();
    context.end_fn();
    assert!(!context.is_main());
    context.end_fn();
    assert!(context.is_main());
}

#[test]
fn main_level_follows_begins_and_ends() {
    let mut context = ggbc::ir::Context::new();
    let calls = [true, true, false, true, false, false];
    let mut begins = 0;
    let mut ends = 0;
    for begin in calls {
        if begin {
            context.begin_fn();
            begins += 1;
        } else {
            context.end_fn();
            ends += 1;
        }
        assert_eq!(begins == ends, context.is_main());
    }
}
