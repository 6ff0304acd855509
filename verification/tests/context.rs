use ratatui_router::context::Context;

#[derive(Debug, PartialEq, Clone, Copy)]
enum TestVal {
    I64(i64),
    I8(i8),
}

const TOK_I64: u64 = 1;
const TOK_I8: u64 = 2;

#[test]
fn test_context() {
    let mut context: Context<TestVal> = Context::new();
    assert_eq!(context.is_context_exists(TOK_I64), false);
    context.create_context(TOK_I64, TestVal::I64(12));
    assert_eq!(context.is_context_exists(TOK_I64), true);
    context.create_context(TOK_I8, TestVal::I8(1));
    let val = context.get_context(TOK_I64);
    assert_eq!(*context.read(&val), TestVal::I64(12));
    let bumped = match *context.read(&val) {
        TestVal::I64(x) => TestVal::I64(x + 12),
        other => other,
    };
    context.write(&val, bumped);
    assert_eq!(*context.read(&val), TestVal::I64(24));
    let val_i8 = context.get_context(TOK_I8);
    let val2 = context.get_context(TOK_I64);
    assert_eq!(*context.read(&val2), TestVal::I64(24));
    context.write(&val_i8, TestVal::I8(12));
    assert_eq!(*context.read(&val_i8), TestVal::I8(12));
}

#[test]
fn context_exists_only_after_create() {
    let mut context: Context<TestVal> = Context::new();
    assert!(!context.is_context_exists(TOK_I64));
    assert!(!context.is_context_exists(TOK_I8));
    context.create_context(TOK_I64, TestVal::I64(0));
    assert!(context.is_context_exists(TOK_I64));
    assert!(!context.is_context_exists(TOK_I8));
    context.create_context(TOK_I8, TestVal::I8(0));
    assert!(context.is_context_exists(TOK_I64));
    assert!(context.is_context_exists(TOK_I8));
}

#[test]
fn create_then_get_reads_back() {
    let mut context: Context<i64> = Context::new();
    context.create_context(7, 41);
    let handle = context.get_context(7);
    assert_eq!(*context.read(&handle), 41);
}

#[test]
fn handles_on_one_cell_share_writes() {
    let mut context: Context<i64> = Context::new();
    context.create_context(3, 12);
    let h1 = context.get_context(3);
    let h2 = context.get_context(3);
    let v = *context.read(&h1);
    context.write(&h1, v + 12);
    assert_eq!(*context.read(&h2), 24);
}

#[test]
fn stale_handle_keeps_pointing_at_the_old_cell() {
    let mut context: Context<i64> = Context::new();
    context.create_context(9, 5);
    let before = context.get_context(9);
    context.create_context(9, 100);
    let after = context.get_context(9);
    assert_eq!(*context.read(&before), 5);
    assert_eq!(*context.read(&after), 100);
    context.write(&after, 101);
    assert_eq!(*context.read(&before), 5);
}
