use philo::encode::binary_operation;
use philo::encode::expression;
use philo::errors::CompileError;
use philo::regalloc::RegisterAllocator;
use philo::regalloc::Width;
use philo::regalloc::REG_COUNT;
use philo::statement::Expression;
use philo::symtab::Storage;
use philo::symtab::SymbolTable;
use philo::text::i64_dec;
use philo::text::u64_dec;

#[test]
fn number_operand_is_immediate() {
    let table = SymbolTable::new();
    assert_eq!(expression(&Expression::Number(5), &table).unwrap(), "$5");
    assert_eq!(expression(&Expression::Number(-12), &table).unwrap(), "$-12");
}

#[test]
fn identifier_operand_is_bound_storage() {
    let mut table = SymbolTable::new();
    table.declare(String::from("x"), Storage::Register(String::from("%rcx")));
    table.declare(String::from("m"), Storage::MemorySlot(String::from("m")));
    assert_eq!(expression(&Expression::Identifier(String::from("x")), &table).unwrap(), "%rcx");
    assert_eq!(expression(&Expression::Identifier(String::from("m")), &table).unwrap(), "[m]");
}

#[test]
fn unknown_identifier_operand_fails() {
    let table = SymbolTable::new();
    assert_eq!(
        expression(&Expression::Identifier(String::from("q")), &table),
        Err(CompileError::UnknownVariable)
    );
}

#[test]
fn nested_operation_has_no_operand_text() {
    let table = SymbolTable::new();
    let nested = Expression::BinaryOperation {
        left: Box::new(Expression::Number(1)),
        operator: String::from("+"),
        right: Box::new(Expression::Number(2)),
    };
    assert_eq!(expression(&nested, &table), Err(CompileError::UnsupportedExpression));
}

#[test]
fn direct_addition_of_leaf_operands() {
    let table = SymbolTable::new();
    let pool = RegisterAllocator::new();
    let out = binary_operation(
        &Expression::Number(1),
        "+",
        &Expression::Number(2),
        &table,
        &pool,
    )
    .unwrap();
    assert_eq!(out, "    add $1, $2\n");
}

#[test]
fn direct_division_carries_sign_extension() {
    let table = SymbolTable::new();
    let pool = RegisterAllocator::new();
    let out = binary_operation(
        &Expression::Number(8),
        "/",
        &Expression::Number(2),
        &table,
        &pool,
    )
    .unwrap();
    assert_eq!(out, "    cqo\n    idiv $8, $2\n");
}

#[test]
fn direct_comparison_uses_free_byte_register() {
    let table = SymbolTable::new();
    let pool = RegisterAllocator::new();
    let out = binary_operation(
        &Expression::Number(1),
        "<",
        &Expression::Number(2),
        &table,
        &pool,
    )
    .unwrap();
    assert_eq!(out, "    cmp $1, $2\n    setl %al\n    movzb %al, $2\n");
}

#[test]
fn direct_comparison_fails_on_exhausted_pool() {
    let table = SymbolTable::new();
    let mut pool = RegisterAllocator::new();
    for _ in 0..REG_COUNT {
        pool.acquire(Width::W64).unwrap();
    }
    assert_eq!(
        binary_operation(&Expression::Number(1), "<", &Expression::Number(2), &table, &pool),
        Err(CompileError::RegistersExhausted)
    );
}

#[test]
fn direct_unsupported_operator_fails() {
    let table = SymbolTable::new();
    let pool = RegisterAllocator::new();
    assert_eq!(
        binary_operation(&Expression::Number(1), "^", &Expression::Number(2), &table, &pool),
        Err(CompileError::UnsupportedOperator)
    );
}

#[test]
fn decimal_rendering() {
    assert_eq!(u64_dec(0).as_str(), "0");
    assert_eq!(u64_dec(10).as_str(), "10");
    assert_eq!(u64_dec(90210).as_str(), "90210");
    assert_eq!(i64_dec(0).as_str(), "0");
    assert_eq!(i64_dec(-1).as_str(), "-1");
    assert_eq!(i64_dec(i64::MAX).as_str(), "9223372036854775807");
    assert_eq!(i64_dec(i64::MIN).as_str(), "-9223372036854775808");
}
