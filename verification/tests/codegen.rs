use philo::compiler::Compiler;
use philo::errors::CompileError;
use philo::statement::AstNode;
use philo::statement::Expression;
use philo::statement::ForStatement;
use philo::statement::FunctionDef;
use philo::statement::IfStatement;
use philo::statement::Statement;
use philo::statement::VariableDeclaration;
use philo::statement::WhileStatement;

fn decl(name: &str, ty: &str, value: Expression) -> Statement {
    Statement::VariableDeclaration(VariableDeclaration {
        name: String::from(name),
        var_type: String::from(ty),
        value: Box::new(value),
    })
}

fn ident(name: &str) -> Expression {
    Expression::Identifier(String::from(name))
}

fn binop(left: Expression, op: &str, right: Expression) -> Expression {
    Expression::BinaryOperation {
        left: Box::new(left),
        operator: String::from(op),
        right: Box::new(right),
    }
}

fn compile_program(stmts: Vec<Statement>) -> Result<String, CompileError> {
    let mut c = Compiler::new();
    match c.compile(AstNode::Program(stmts)) {
        Ok(()) => Ok(String::from(c.output())),
        Err(e) => Err(e),
    }
}

#[test]
fn register_bound_declaration_emits_single_move() {
    let out = compile_program(vec![decl("x", "%rax", Expression::Number(5))]).unwrap();
    assert_eq!(out, "    mov $5, %rax\n");
}

#[test]
fn memory_bound_declaration_uses_slot_named_after_variable() {
    let out = compile_program(vec![decl("m", "i32", Expression::Number(7))]).unwrap();
    assert_eq!(out, "    mov $7, [m]\n");
}

#[test]
fn empty_type_tag_binds_memory_slot() {
    let out = compile_program(vec![decl("e", "", Expression::Number(1))]).unwrap();
    assert_eq!(out, "    mov $1, [e]\n");
}

#[test]
fn negative_literal_moves_signed_immediate() {
    let out = compile_program(vec![decl("n", "%rcx", Expression::Number(-3))]).unwrap();
    assert_eq!(out, "    mov $-3, %rcx\n");
}

#[test]
fn identifier_initializer_moves_from_bound_storage() {
    let out = compile_program(vec![
        decl("x", "%rcx", Expression::Number(1)),
        decl("y", "%rbx", ident("x")),
    ])
    .unwrap();
    assert_eq!(out, "    mov $1, %rcx\n    mov %rcx, %rbx\n");
}

#[test]
fn sum_of_two_variables_uses_operand_stack_discipline() {
    let out = compile_program(vec![
        decl("x", "%rcx", Expression::Number(1)),
        decl("y", "%rdx", Expression::Number(2)),
        decl("z", "%rsi", binop(ident("x"), "+", ident("y"))),
    ])
    .unwrap();
    let expected = "    mov $1, %rcx\n    mov $2, %rdx\n    mov %rcx, %rax\n    push %rax\n    mov %rdx, %rax\n    pop %rbx\n    add %rbx, %rax\n    mov %rax, %rsi\n";
    assert_eq!(out, expected);
}

#[test]
fn nested_expression_keeps_push_pop_pairing() {
    let out = compile_program(vec![
        decl("x", "%rcx", Expression::Number(1)),
        decl("y", "%rdx", Expression::Number(2)),
        decl("z", "%rsi", binop(binop(ident("x"), "+", ident("y")), "*", ident("x"))),
    ])
    .unwrap();
    let expected = "    mov $1, %rcx\n    mov $2, %rdx\n    mov %rcx, %rax\n    push %rax\n    mov %rdx, %rax\n    pop %rbx\n    add %rbx, %rax\n    push %rax\n    mov %rcx, %rax\n    pop %rbx\n    imul %rbx, %rax\n    mov %rax, %rsi\n";
    assert_eq!(out, expected);
}

#[test]
fn unknown_identifier_fails_without_partial_output() {
    let mut c = Compiler::new();
    let r = c.compile(AstNode::Program(vec![
        decl("x", "%rcx", Expression::Number(1)),
        decl("z", "%rsi", binop(ident("q"), "+", Expression::Number(1))),
    ]));
    assert_eq!(r, Err(CompileError::UnknownVariable));
    assert_eq!(c.output(), "    mov $1, %rcx\n");
}

#[test]
fn unknown_identifier_alone_emits_nothing() {
    let mut c = Compiler::new();
    let r = c.compile(AstNode::Program(vec![decl("z", "%rsi", ident("q"))]));
    assert_eq!(r, Err(CompileError::UnknownVariable));
    assert_eq!(c.output(), "");
}

#[test]
fn unsupported_operator_aborts_expression() {
    let mut c = Compiler::new();
    let r = c.compile(AstNode::Program(vec![decl(
        "z",
        "%rsi",
        binop(Expression::Number(1), "%", Expression::Number(2)),
    )]));
    assert_eq!(r, Err(CompileError::UnsupportedOperator));
    assert_eq!(c.output(), "");
}

#[test]
fn division_emits_sign_extension_before_divide_in_declaration() {
    let out = compile_program(vec![
        decl("x", "%rcx", Expression::Number(8)),
        decl("y", "%rdx", Expression::Number(2)),
        decl("q", "%rdi", binop(ident("x"), "/", ident("y"))),
    ])
    .unwrap();
    let expected = "    mov $8, %rcx\n    mov $2, %rdx\n    mov %rcx, %rax\n    push %rax\n    mov %rdx, %rax\n    pop %rbx\n    cqo\n    idiv %rbx\n    mov %rax, %rdi\n";
    assert_eq!(out, expected);
    assert!(out.contains("    cqo\n    idiv %rbx\n"));
}

#[test]
fn division_emits_sign_extension_before_divide_in_condition() {
    let out = compile_program(vec![
        decl("x", "%rcx", Expression::Number(8)),
        Statement::If(IfStatement {
            condition: Box::new(binop(ident("x"), "/", Expression::Number(2))),
            then_branch: vec![],
            else_branch: None,
        }),
    ])
    .unwrap();
    let expected = "    mov $8, %rcx\n    ; If statement\n    mov %rcx, %rax\n    push %rax\n    mov $2, %rax\n    pop %rbx\n    cqo\n    idiv %rbx\n    cmp $0, %rax\n    je .if_end_0\n.if_end_0:\n";
    assert_eq!(out, expected);
    assert!(out.contains("    cqo\n    idiv %rbx\n"));
}

#[test]
fn comparison_produces_boolean_value() {
    let out = compile_program(vec![
        decl("x", "%rcx", Expression::Number(1)),
        decl("y", "%rdx", Expression::Number(2)),
        decl("b", "%rsi", binop(ident("x"), "<", ident("y"))),
    ])
    .unwrap();
    assert!(out.contains("    cmp %rbx, %rax\n    setl %al\n    movzb %al, %rax\n"));
    assert!(out.ends_with("    mov %rax, %rsi\n"));
}

#[test]
fn two_ifs_use_distinct_label_pairs() {
    let out = compile_program(vec![
        Statement::If(IfStatement {
            condition: Box::new(Expression::Number(1)),
            then_branch: vec![],
            else_branch: None,
        }),
        Statement::If(IfStatement {
            condition: Box::new(Expression::Number(2)),
            then_branch: vec![],
            else_branch: None,
        }),
    ])
    .unwrap();
    let expected = "    ; If statement\n    mov $1, %rax\n    cmp $0, %rax\n    je .if_end_0\n.if_end_0:\n    ; If statement\n    mov $2, %rax\n    cmp $0, %rax\n    je .if_end_1\n.if_end_1:\n";
    assert_eq!(out, expected);
}

#[test]
fn if_with_else_uses_both_labels_of_one_pair() {
    let out = compile_program(vec![Statement::If(IfStatement {
        condition: Box::new(Expression::Number(1)),
        then_branch: vec![decl("a", "%rcx", Expression::Number(1))],
        else_branch: Some(vec![decl("b", "%rdx", Expression::Number(2))]),
    })])
    .unwrap();
    let expected = "    ; If statement\n    mov $1, %rax\n    cmp $0, %rax\n    je .if_end_0\n    mov $1, %rcx\n    jmp .else_end_0\n.if_end_0:\n    mov $2, %rdx\n.else_end_0:\n";
    assert_eq!(out, expected);
}

#[test]
fn function_emits_label_prologue_body_epilogue() {
    let out = compile_program(vec![Statement::Function(FunctionDef {
        name: String::from("main"),
        params: vec![],
        return_type: Some(String::from("void")),
        body: vec![decl("x", "%rax", Expression::Number(5))],
    })])
    .unwrap();
    let expected = "main:\n    ; Function prologue\n    push %rbp\n    mov %rsp, %rbp\n    mov $5, %rax\n    ; Function epilogue\n    pop %rbp\n    ret\n";
    assert_eq!(out, expected);
}

#[test]
fn symbol_table_is_reset_between_functions() {
    let mut c = Compiler::new();
    let r = c.compile(AstNode::Program(vec![
        Statement::Function(FunctionDef {
            name: String::from("first"),
            params: vec![],
            return_type: None,
            body: vec![decl("x", "%rcx", Expression::Number(1))],
        }),
        Statement::Function(FunctionDef {
            name: String::from("second"),
            params: vec![],
            return_type: None,
            body: vec![decl("z", "%rsi", ident("x"))],
        }),
    ]));
    assert_eq!(r, Err(CompileError::UnknownVariable));
    let expected = "first:\n    ; Function prologue\n    push %rbp\n    mov %rsp, %rbp\n    mov $1, %rcx\n    ; Function epilogue\n    pop %rbp\n    ret\n";
    assert_eq!(c.output(), expected);
}

#[test]
fn while_loop_shape() {
    let out = compile_program(vec![Statement::While(WhileStatement {
        condition: Box::new(Expression::Number(0)),
        body: vec![decl("x", "%rcx", Expression::Number(1))],
    })])
    .unwrap();
    let expected = ".while_start_0:\n    mov $0, %rax\n    cmp $0, %rax\n    je .while_end_0\n    mov $1, %rcx\n    jmp .while_start_0\n.while_end_0:\n";
    assert_eq!(out, expected);
}

#[test]
fn for_loop_labels_namespaced_by_iterator() {
    let out = compile_program(vec![Statement::For(ForStatement {
        iterator: String::from("i"),
        range: Box::new(Expression::Number(3)),
        increment: None,
        body: vec![],
    })])
    .unwrap();
    assert_eq!(out, ".for_i_start:\n    mov $3, %rax\n.for_i_end:\n");
}

#[test]
fn expression_statement_is_unsupported() {
    let mut c = Compiler::new();
    let r = c.compile(AstNode::Program(vec![Statement::Expression(Expression::Number(1))]));
    assert_eq!(r, Err(CompileError::UnsupportedStatement));
    assert_eq!(c.output(), "");
}

#[test]
fn non_program_unit_is_not_lowered() {
    let mut c = Compiler::new();
    let r = c.compile(AstNode::FunctionDef(FunctionDef {
        name: String::from("main"),
        params: vec![],
        return_type: None,
        body: vec![],
    }));
    assert_eq!(r, Err(CompileError::UnsupportedStatement));
    assert_eq!(c.output(), "");
}
