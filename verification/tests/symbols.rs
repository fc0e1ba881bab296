use philo::errors::CompileError;
use philo::symtab::Storage;
use philo::symtab::SymbolTable;

#[test]
fn declare_then_resolve() {
    let mut table = SymbolTable::new();
    table.declare(String::from("x"), Storage::Register(String::from("%rdx")));
    assert_eq!(table.resolve("x").unwrap(), &Storage::Register(String::from("%rdx")));
}

#[test]
fn resolve_unknown_fails() {
    let table = SymbolTable::new();
    assert_eq!(table.resolve("ghostly"), Err(CompileError::UnknownVariable));
}

#[test]
fn redeclaration_overwrites() {
    let mut table = SymbolTable::new();
    table.declare(String::from("x"), Storage::Register(String::from("%rax")));
    table.declare(String::from("x"), Storage::MemorySlot(String::from("x")));
    assert_eq!(table.resolve("x").unwrap(), &Storage::MemorySlot(String::from("x")));
}

#[test]
fn declared_binding_persists_across_other_declarations() {
    let mut table = SymbolTable::new();
    table.declare(String::from("x"), Storage::Register(String::from("%rdx")));
    table.declare(String::from("a"), Storage::Register(String::from("%rsi")));
    table.declare(String::from("b"), Storage::MemorySlot(String::from("b")));
    assert_eq!(table.resolve("x").unwrap(), &Storage::Register(String::from("%rdx")));

    let mut other = SymbolTable::new();
    other.declare(String::from("b"), Storage::MemorySlot(String::from("b")));
    other.declare(String::from("x"), Storage::Register(String::from("%rdx")));
    other.declare(String::from("a"), Storage::Register(String::from("%rsi")));
    assert_eq!(other.resolve("x").unwrap(), &Storage::Register(String::from("%rdx")));
}

#[test]
fn clear_drops_all_bindings() {
    let mut table = SymbolTable::new();
    table.declare(String::from("x"), Storage::Register(String::from("%rax")));
    table.clear();
    assert_eq!(table.resolve("x"), Err(CompileError::UnknownVariable));
}
