//! The code generator: walks a statement/expression tree and emits
//! instruction text, consulting the symbol table for variable storage
//! and the register pool for scratch registers. The emitted text, the
//! table evolution and the label numbering are pinned, construct by
//! construct, by the `stmt_code` model below.

use vstd::prelude::*;
use vstd::string::StringExecFns;
use crate::encode::expr_operand;
use crate::encode::expression;
use crate::encode::mov_instr;
use crate::encode::mov_line;
use crate::encode::operand_text;
use crate::encode::storage_operand;
use crate::errors::CompileError;
use crate::regalloc::RegisterAllocator;
use crate::regalloc::Width;
use crate::regalloc::all_free;
use crate::regalloc::first_free;
use crate::regalloc::reg_index;
use crate::statement::AstNode;
use crate::statement::Expression;
use crate::statement::FunctionDef;
use crate::statement::ForStatement;
use crate::statement::IfStatement;
use crate::statement::Statement;
use crate::statement::VariableDeclaration;
use crate::statement::WhileStatement;
use crate::symtab::SpecStorage;
use crate::symtab::Storage;
use crate::symtab::SymbolTable;
use crate::text::dec_int;
use crate::text::dec_rep;
use crate::text::lemma_dec_rep_injective;
use crate::text::i64_dec;
use crate::text::str_eq;
use crate::text::u64_dec;

verus! {

/// The generator state a statement lowering reads and advances: the
/// variable bindings and the next fresh label number.
pub struct GenState {
    pub tab: Map<Seq<char>, SpecStorage>,
    pub labels: nat,
}

/// The outcome of lowering a statement or a statement sequence: the
/// emitted text, the state afterwards, and the first fault if one
/// arose. A construct that faults contributes no text of its own.
pub struct GenOut {
    pub text: Seq<char>,
    pub st: GenState,
    pub err: Option<CompileError>,
}

/// The accumulator register all expression lowering targets.
pub open spec fn acc_reg() -> Seq<char> {
    "%rax"@
}

/// The instruction group a supported operator maps to, applied to the
/// saved left operand in the secondary register and the accumulator.
/// Division carries its sign-extension step immediately before the
/// divide; the comparison materialises a 0/1 value through the lowest
/// 8-bit scratch register.
pub open spec fn op_code(op: Seq<char>) -> Result<Seq<char>, CompileError> {
    if op == "+"@ {
        Ok("    add %rbx, %rax\n"@)
    } else if op == "-"@ {
        Ok("    sub %rbx, %rax\n"@)
    } else if op == "*"@ {
        Ok("    imul %rbx, %rax\n"@)
    } else if op == "/"@ {
        Ok("    cqo\n"@ + "    idiv %rbx\n"@)
    } else if op == "<"@ {
        Ok("    cmp %rbx, %rax\n"@ + "    setl %al\n"@ + "    movzb %al, %rax\n"@)
    } else {
        Err(CompileError::UnsupportedOperator)
    }
}

/// The text that lowers an expression into the accumulator: leaves are
/// moves, and a binary operation lowers its left operand, saves it,
/// lowers its right operand, restores the left into the secondary
/// register, and applies the operator.
pub open spec fn expr_code(e: Expression, tab: Map<Seq<char>, SpecStorage>) -> Result<
    Seq<char>,
    CompileError,
>
    decreases e,
{
    match e {
        Expression::Number(n) => Ok(mov_line("$"@ + dec_int(n as int), acc_reg())),
        Expression::Identifier(x) => if tab.contains_key(x@) {
            Ok(mov_line(operand_text(tab[x@]), acc_reg()))
        } else {
            Err(CompileError::UnknownVariable)
        },
        Expression::BinaryOperation { left, operator, right } => match expr_code(*left, tab) {
            Err(e1) => Err(e1),
            Ok(lc) => match expr_code(*right, tab) {
                Err(e2) => Err(e2),
                Ok(rc) => match op_code(operator@) {
                    Err(e3) => Err(e3),
                    Ok(oc) => Ok(lc + "    push %rax\n"@ + rc + "    pop %rbx\n"@ + oc),
                },
            },
        },
    }
}

/// The storage a declaration binds: a type tag opening with the
/// register sigil names the register itself; any other tag names a
/// memory slot after the variable.
pub open spec fn decl_dest(d: VariableDeclaration) -> SpecStorage {
    if d.var_type@.len() > 0 && d.var_type@[0] == '%' {
        SpecStorage::Register(d.var_type@)
    } else {
        SpecStorage::MemorySlot(d.name@)
    }
}

/// The text of a variable declaration: a single move for a leaf
/// initializer, or the full expression lowering followed by a move of
/// the accumulator into the destination.
pub open spec fn decl_code(d: VariableDeclaration, tab: Map<Seq<char>, SpecStorage>) -> Result<
    Seq<char>,
    CompileError,
> {
    let dst = operand_text(decl_dest(d));
    match *d.value {
        Expression::BinaryOperation { .. } => match expr_code(*d.value, tab) {
            Err(e) => Err(e),
            Ok(c) => Ok(c + mov_line(acc_reg(), dst)),
        },
        _ => match expr_operand(*d.value, tab) {
            Err(e) => Err(e),
            Ok(src) => Ok(mov_line(src, dst)),
        },
    }
}

/// The label closing the conditional branch of construct `k`.
pub open spec fn if_end_label(k: nat) -> Seq<char> {
    ".if_end_"@ + dec_rep(k)
}

/// The label closing the alternate branch of construct `k`.
pub open spec fn else_end_label(k: nat) -> Seq<char> {
    ".else_end_"@ + dec_rep(k)
}

/// The label opening loop `k`.
pub open spec fn while_start_label(k: nat) -> Seq<char> {
    ".while_start_"@ + dec_rep(k)
}

/// The label closing loop `k`.
pub open spec fn while_end_label(k: nat) -> Seq<char> {
    ".while_end_"@ + dec_rep(k)
}

/// The label opening the loop over the named iterator.
pub open spec fn for_start_label(it: Seq<char>) -> Seq<char> {
    ".for_"@ + it + "_start"@
}

/// The label closing the loop over the named iterator.
pub open spec fn for_end_label(it: Seq<char>) -> Seq<char> {
    ".for_"@ + it + "_end"@
}

/// A label line: the label at column zero, closed by a colon.
pub open spec fn label_line(l: Seq<char>) -> Seq<char> {
    l + ":\n"@
}

/// An unconditional jump to the given label.
pub open spec fn jmp_line(l: Seq<char>) -> Seq<char> {
    "    jmp "@ + l + "\n"@
}

/// A jump to the given label taken when the accumulator was zero.
pub open spec fn je_line(l: Seq<char>) -> Seq<char> {
    "    je "@ + l + "\n"@
}

/// The test deciding a conditional jump: compares the lowered
/// condition value in the accumulator against zero.
pub open spec fn cond_test() -> Seq<char> {
    "    cmp $0, %rax\n"@
}

/// How many fresh labels lowering a statement consumes.
pub open spec fn stmt_label_demand(s: Statement) -> nat
    decreases s, 0int,
{
    match s {
        Statement::Function(f) => stmts_label_demand(f.body@, 0),
        Statement::If(i) => (1 + stmts_label_demand(i.then_branch@, 0) + (match i.else_branch {
            Some(eb) => stmts_label_demand(eb@, 0),
            None => 0,
        })) as nat,
        Statement::While(w) => (1 + stmts_label_demand(w.body@, 0)) as nat,
        Statement::For(f) => stmts_label_demand(f.body@, 0),
        _ => 0,
    }
}

/// How many fresh labels lowering the statements from index `i` on
/// consumes.
pub open spec fn stmts_label_demand(ss: Seq<Statement>, i: int) -> nat
    decreases ss, ss.len() - i,
{
    if i < 0 || i >= ss.len() {
        0
    } else {
        stmt_label_demand(ss[i]) + stmts_label_demand(ss, i + 1)
    }
}

/// The lowering of one statement from the given state.
pub open spec fn stmt_code(s: Statement, st: GenState) -> GenOut
    decreases s, 0int,
{
    match s {
        Statement::VariableDeclaration(d) => match decl_code(d, st.tab) {
            Ok(t) => GenOut {
                text: t,
                st: GenState { tab: st.tab.insert(d.name@, decl_dest(d)), labels: st.labels },
                err: None,
            },
            Err(e) => GenOut { text: Seq::empty(), st, err: Some(e) },
        },
        Statement::Function(f) => {
            let body = stmts_code(f.body@, 0, st);
            if body.err is Some {
                GenOut { text: Seq::empty(), st: body.st, err: body.err }
            } else {
                GenOut {
                    text: label_line(f.name@) + "    ; Function prologue\n"@ + "    push %rbp\n"@
                        + "    mov %rsp, %rbp\n"@ + body.text + "    ; Function epilogue\n"@
                        + "    pop %rbp\n"@ + "    ret\n"@,
                    st: GenState { tab: Map::empty(), labels: body.st.labels },
                    err: None,
                }
            }
        },
        Statement::If(i) => {
            let k = st.labels;
            let st1 = GenState { tab: st.tab, labels: (k + 1) as nat };
            match expr_code(*i.condition, st.tab) {
                Err(e) => GenOut { text: Seq::empty(), st: st1, err: Some(e) },
                Ok(cc) => {
                    let thn = stmts_code(i.then_branch@, 0, st1);
                    if thn.err is Some {
                        GenOut { text: Seq::empty(), st: thn.st, err: thn.err }
                    } else {
                        match i.else_branch {
                            None => GenOut {
                                text: "    ; If statement\n"@ + cc + cond_test() + je_line(
                                    if_end_label(k),
                                ) + thn.text + label_line(if_end_label(k)),
                                st: thn.st,
                                err: None,
                            },
                            Some(eb) => {
                                let els = stmts_code(eb@, 0, thn.st);
                                if els.err is Some {
                                    GenOut { text: Seq::empty(), st: els.st, err: els.err }
                                } else {
                                    GenOut {
                                        text: "    ; If statement\n"@ + cc + cond_test() + je_line(
                                            if_end_label(k),
                                        ) + thn.text + jmp_line(else_end_label(k)) + label_line(
                                            if_end_label(k),
                                        ) + els.text + label_line(else_end_label(k)),
                                        st: els.st,
                                        err: None,
                                    }
                                }
                            },
                        }
                    }
                },
            }
        },
        Statement::While(w) => {
            let k = st.labels;
            let st1 = GenState { tab: st.tab, labels: (k + 1) as nat };
            match expr_code(*w.condition, st.tab) {
                Err(e) => GenOut { text: Seq::empty(), st: st1, err: Some(e) },
                Ok(cc) => {
                    let body = stmts_code(w.body@, 0, st1);
                    if body.err is Some {
                        GenOut { text: Seq::empty(), st: body.st, err: body.err }
                    } else {
                        GenOut {
                            text: label_line(while_start_label(k)) + cc + cond_test() + je_line(
                                while_end_label(k),
                            ) + body.text + jmp_line(while_start_label(k)) + label_line(
                                while_end_label(k),
                            ),
                            st: body.st,
                            err: None,
                        }
                    }
                },
            }
        },
        Statement::For(f) => {
            match expr_code(*f.range, st.tab) {
                Err(e) => GenOut { text: Seq::empty(), st, err: Some(e) },
                Ok(rc) => {
                    let body = stmts_code(f.body@, 0, st);
                    if body.err is Some {
                        GenOut { text: Seq::empty(), st: body.st, err: body.err }
                    } else {
                        GenOut {
                            text: label_line(for_start_label(f.iterator@)) + rc + body.text
                                + label_line(for_end_label(f.iterator@)),
                            st: body.st,
                            err: None,
                        }
                    }
                },
            }
        },
        Statement::Expression(_) => GenOut {
            text: Seq::empty(),
            st,
            err: Some(CompileError::UnsupportedStatement),
        },
    }
}

/// The lowering of the statements from index `i` on, threading the
/// state left to right; the first fault stops the walk, and the text is
/// that of the fully lowered leading statements.
pub open spec fn stmts_code(ss: Seq<Statement>, i: int, st: GenState) -> GenOut
    decreases ss, ss.len() - i,
{
    if i < 0 || i >= ss.len() {
        GenOut { text: Seq::empty(), st, err: None }
    } else {
        let first = stmt_code(ss[i], st);
        if first.err is Some {
            first
        } else {
            let rest = stmts_code(ss, i + 1, first.st);
            GenOut { text: first.text + rest.text, st: rest.st, err: rest.err }
        }
    }
}

/// Division lowering always emits the sign-extension step immediately
/// before the divide instruction, as one contiguous fragment, both
/// when the division is lowered as an expression and when it is the
/// initializer of a declaration (where only the final move follows).
pub proof fn lemma_division_sign_extension(
    e: Expression,
    d: VariableDeclaration,
    tab: Map<Seq<char>, SpecStorage>,
)
    requires
        e matches Expression::BinaryOperation { left, operator, right } && operator@ == "/"@
            && expr_code(*left, tab) is Ok && expr_code(*right, tab) is Ok,
        *d.value == e,
    ensures
        ({
            let lc = expr_code(*e->left, tab)->Ok_0;
            let rc = expr_code(*e->right, tab)->Ok_0;
            let head = lc + "    push %rax\n"@ + rc + "    pop %rbx\n"@;
            &&& expr_code(e, tab) == Ok::<Seq<char>, CompileError>(
                head + ("    cqo\n"@ + "    idiv %rbx\n"@),
            )
            &&& decl_code(d, tab) == Ok::<Seq<char>, CompileError>(
                (head + ("    cqo\n"@ + "    idiv %rbx\n"@)) + mov_line(
                    acc_reg(),
                    operand_text(decl_dest(d)),
                ),
            )
        }),
{
    reveal_strlit("+");
    reveal_strlit("-");
    reveal_strlit("*");
    reveal_strlit("/");
    reveal_strlit("<");
    let lc = expr_code(*e->left, tab)->Ok_0;
    let rc = expr_code(*e->right, tab)->Ok_0;
    let head = lc + "    push %rax\n"@ + rc + "    pop %rbx\n"@;
    assert(("/"@)[0] == '/' && ("+"@)[0] == '+' && ("-"@)[0] == '-' && ("*"@)[0] == '*');
    assert("/"@ != "+"@ && "/"@ != "-"@ && "/"@ != "*"@);
    assert(op_code("/"@) == Ok::<Seq<char>, CompileError>("    cqo\n"@ + "    idiv %rbx\n"@));
    assert(expr_code(e, tab)->Ok_0 =~= head + ("    cqo\n"@ + "    idiv %rbx\n"@));
    assert(decl_code(d, tab)->Ok_0 =~= (head + ("    cqo\n"@ + "    idiv %rbx\n"@)) + mov_line(
        acc_reg(),
        operand_text(decl_dest(d)),
    ));
}

/// The generator state when lowering reaches statement `j` of a
/// sequence begun in state `st`.
pub open spec fn state_at(ss: Seq<Statement>, j: int, st: GenState) -> GenState
    decreases j,
{
    if j <= 0 {
        st
    } else {
        stmt_code(ss[j - 1], state_at(ss, j - 1, st)).st
    }
}

/// Lowering a conditional always consumes at least one fresh label
/// number, whether or not a fault stops it.
proof fn lemma_if_consumes_label(s: Statement, st: GenState)
    requires
        s is If,
    ensures
        stmt_code(s, st).st.labels >= st.labels + 1,
{
    match s {
        Statement::If(i) => {
            let st1 = GenState { tab: st.tab, labels: (st.labels + 1) as nat };
            if expr_code(*i.condition, st.tab) is Ok {
                lemma_stmts_labels_bound(i.then_branch@, 0, st1);
                let thn = stmts_code(i.then_branch@, 0, st1);
                if thn.err is None {
                    match i.else_branch {
                        Some(eb) => {
                            lemma_stmts_labels_bound(eb@, 0, thn.st);
                        },
                        None => {
                        },
                    }
                }
            }
        },
        _ => {
        },
    }
}

/// The label counter never moves backwards along a statement walk.
proof fn lemma_state_at_monotone(ss: Seq<Statement>, j1: int, j2: int, st: GenState)
    requires
        0 <= j1 <= j2 <= ss.len(),
    ensures
        state_at(ss, j1, st).labels <= state_at(ss, j2, st).labels,
    decreases j2 - j1,
{
    if j1 < j2 {
        lemma_state_at_monotone(ss, j1, j2 - 1, st);
        lemma_stmt_labels_bound(ss[j2 - 1], state_at(ss, j2 - 1, st));
    }
}

/// Equal concatenations sharing their first part have equal second
/// parts.
proof fn lemma_concat_cancel(a: Seq<char>, x: Seq<char>, y: Seq<char>)
    requires
        a + x == a + y,
    ensures
        x == y,
{
    assert((a + x).len() == a.len() + x.len());
    assert((a + y).len() == a.len() + y.len());
    assert(x.len() == y.len());
    assert forall|i: int| 0 <= i < x.len() implies x[i] == y[i] by {
        assert((a + x)[a.len() + i] == x[i]);
        assert((a + y)[a.len() + i] == y[i]);
    }
    assert(x =~= y);
}

/// Two distinct conditionals in one statement sequence never share a
/// generated label pair: the one lowered later carries a strictly
/// larger label number, whatever stands between them, so neither its
/// end label nor its alternate-branch label collides with the other's.
pub proof fn lemma_distinct_if_labels(ss: Seq<Statement>, a: int, b: int, st: GenState)
    requires
        0 <= a < b < ss.len(),
        ss[a] is If,
        ss[b] is If,
    ensures
        state_at(ss, a, st).labels < state_at(ss, b, st).labels,
        if_end_label(state_at(ss, a, st).labels) != if_end_label(state_at(ss, b, st).labels),
        else_end_label(state_at(ss, a, st).labels) != else_end_label(state_at(ss, b, st).labels),
{
    lemma_if_consumes_label(ss[a], state_at(ss, a, st));
    lemma_state_at_monotone(ss, a + 1, b, st);
    let ka = state_at(ss, a, st).labels;
    let kb = state_at(ss, b, st).labels;
    assert(if_end_label(ka) != if_end_label(kb)) by {
        if if_end_label(ka) == if_end_label(kb) {
            lemma_concat_cancel(".if_end_"@, dec_rep(ka), dec_rep(kb));
            lemma_dec_rep_injective(ka, kb);
        }
    }
    assert(else_end_label(ka) != else_end_label(kb)) by {
        if else_end_label(ka) == else_end_label(kb) {
            lemma_concat_cancel(".else_end_"@, dec_rep(ka), dec_rep(kb));
            lemma_dec_rep_injective(ka, kb);
        }
    }
}

/// The node count of an expression tree.
pub open spec fn expr_size(e: Expression) -> nat
    decreases e,
{
    match e {
        Expression::BinaryOperation { left, operator, right } => (1 + expr_size(*left) + expr_size(
            *right,
        )) as nat,
        _ => 1,
    }
}

/// Every expression has at least one node.
proof fn lemma_expr_size_pos(e: Expression)
    ensures
        expr_size(e) >= 1,
{
    match e {
        Expression::BinaryOperation { left, operator, right } => {
        },
        _ => {
        },
    }
}

/// The label counter never moves backwards, and lowering a statement
/// consumes at most its label demand.
pub proof fn lemma_stmt_labels_bound(s: Statement, st: GenState)
    ensures
        st.labels <= stmt_code(s, st).st.labels <= st.labels + stmt_label_demand(s),
    decreases s, 1int,
{
    match s {
        Statement::Function(f) => {
            lemma_stmts_labels_bound(f.body@, 0, st);
        },
        Statement::If(i) => {
            let st1 = GenState { tab: st.tab, labels: (st.labels + 1) as nat };
            if expr_code(*i.condition, st.tab) is Ok {
                lemma_stmts_labels_bound(i.then_branch@, 0, st1);
                let thn = stmts_code(i.then_branch@, 0, st1);
                if thn.err is None {
                    match i.else_branch {
                        Some(eb) => {
                            lemma_stmts_labels_bound(eb@, 0, thn.st);
                        },
                        None => {
                        },
                    }
                }
            }
        },
        Statement::While(w) => {
            let st1 = GenState { tab: st.tab, labels: (st.labels + 1) as nat };
            if expr_code(*w.condition, st.tab) is Ok {
                lemma_stmts_labels_bound(w.body@, 0, st1);
            }
        },
        Statement::For(f) => {
            if expr_code(*f.range, st.tab) is Ok {
                lemma_stmts_labels_bound(f.body@, 0, st);
            }
        },
        _ => {
        },
    }
}

/// The sequence form of the label bound.
pub proof fn lemma_stmts_labels_bound(ss: Seq<Statement>, i: int, st: GenState)
    ensures
        st.labels <= stmts_code(ss, i, st).st.labels <= st.labels + stmts_label_demand(ss, i),
    decreases ss, ss.len() - i,
{
    if 0 <= i < ss.len() {
        lemma_stmt_labels_bound(ss[i], st);
        let first = stmt_code(ss[i], st);
        if first.err is None {
            lemma_stmts_labels_bound(ss, i + 1, first.st);
        }
    }
}

/// A generated label: the given prefix followed by the number.
fn make_label(prefix: &str, k: u64) -> (r: String)
    ensures
        r@ == prefix@ + dec_rep(k as nat),
{
    let mut s = prefix.to_owned();
    let digits = u64_dec(k);
    s.append(digits.as_str());
    s
}

/// A label line closing the given label with a colon.
fn line_label(l: &str) -> (r: String)
    ensures
        r@ == label_line(l@),
{
    let mut s = l.to_owned();
    s.append(":\n");
    s
}

/// An unconditional jump line.
fn line_jmp(l: &str) -> (r: String)
    ensures
        r@ == jmp_line(l@),
{
    let mut s = String::from_str("    jmp ");
    s.append(l);
    s.append("\n");
    proof {
        assert(s@ =~= jmp_line(l@));
    }
    s
}

/// A conditional jump line taken when the accumulator was zero.
fn line_je(l: &str) -> (r: String)
    ensures
        r@ == je_line(l@),
{
    let mut s = String::from_str("    je ");
    s.append(l);
    s.append("\n");
    proof {
        assert(s@ =~= je_line(l@));
    }
    s
}

/// The code generator: accumulates the instruction text while owning
/// the symbol table, the register pool and the label counter of one
/// generation pass.
#[derive(Debug)]
pub struct Compiler {
    output: String,
    table: SymbolTable,
    registers: RegisterAllocator,
    next_label: u64,
}

impl Compiler {
    /// The generator state the lowering model reads.
    pub closed spec fn st(&self) -> GenState {
        GenState { tab: self.table@, labels: self.next_label as nat }
    }

    /// The text emitted so far.
    pub closed spec fn out(&self) -> Seq<char> {
        self.output@
    }

    /// Between statements every register of the pool is free: the
    /// generator releases each scratch register it acquires.
    pub closed spec fn wf(&self) -> bool {
        self.registers.wf() && self.registers@ == all_free()
    }

    /// A fresh generator: empty output, no bindings, all registers
    /// free, label numbering starting at zero.
    pub fn new() -> (c: Compiler)
        ensures
            c.wf(),
            c.out() == Seq::<char>::empty(),
            c.st().tab == Map::<Seq<char>, SpecStorage>::empty(),
            c.st().labels == 0,
    {
        Compiler {
            output: String::new(),
            table: SymbolTable::new(),
            registers: RegisterAllocator::new(),
            next_label: 0,
        }
    }

    /// The instruction listing emitted so far.
    pub fn output(&self) -> (r: &str)
        ensures
            r@ == self.out(),
    {
        self.output.as_str()
    }

    /// Lowers an expression into the accumulator and returns its text;
    /// the bindings, the labels and the pool are left as they were.
    fn compile_expression(&mut self, e: &Expression) -> (r: Result<String, CompileError>)
        requires
            old(self).wf(),
        ensures
            final(self).wf(),
            final(self).st() == old(self).st(),
            final(self).out() == old(self).out(),
            ({
                let o = expr_code(*e, old(self).st().tab);
                match r {
                    Ok(t) => o matches Ok(c) && t@ == c,
                    Err(er) => o matches Err(c) && er == c,
                }
            }),
        decreases expr_size(*e), 1int,
    {
        match e {
            Expression::Number(n) => {
                let mut src = String::from_str("$");
                let digits = i64_dec(*n);
                src.append(digits.as_str());
                Ok(mov_instr(src.as_str(), "%rax"))
            },
            Expression::Identifier(x) => match self.table.resolve(x.as_str()) {
                Ok(stg) => {
                    let opnd = storage_operand(stg);
                    Ok(mov_instr(opnd.as_str(), "%rax"))
                },
                Err(e2) => Err(e2),
            },
            Expression::BinaryOperation { left, operator, right } => self.binary_operation(
                &**left,
                operator,
                &**right,
            ),
        }
    }

    /// Lowers a binary operation: left operand into the accumulator,
    /// saved on the stack; right operand into the accumulator; the
    /// saved value restored into the secondary register; then the
    /// operator's instruction group. The comparison briefly acquires
    /// the lowest 8-bit scratch register and releases it again.
    fn binary_operation(
        &mut self,
        left: &Expression,
        operator: &String,
        right: &Expression,
    ) -> (r: Result<String, CompileError>)
        requires
            old(self).wf(),
        ensures
            final(self).wf(),
            final(self).st() == old(self).st(),
            final(self).out() == old(self).out(),
            ({
                let lres = expr_code(*left, old(self).st().tab);
                let rres = expr_code(*right, old(self).st().tab);
                match r {
                    Ok(t) => lres matches Ok(lc) && rres matches Ok(rc) && op_code(operator@)
                        matches Ok(oc) && t@ == lc + "    push %rax\n"@ + rc + "    pop %rbx\n"@
                        + oc,
                    Err(er) => {
                        ||| (lres matches Err(c) && er == c)
                        ||| (lres is Ok && (rres matches Err(c) && er == c))
                        ||| (lres is Ok && rres is Ok && (op_code(operator@) matches Err(c) && er
                        == c))
                    },
                }
            }),
        decreases expr_size(*left) + expr_size(*right), 0int,
    {
        proof {
            lemma_expr_size_pos(*left);
            lemma_expr_size_pos(*right);
        }
        let lc = match self.compile_expression(left) {
            Ok(v) => v,
            Err(e) => {
                return Err(e);
            },
        };
        let rc = match self.compile_expression(right) {
            Ok(v) => v,
            Err(e) => {
                return Err(e);
            },
        };
        let mut out = lc;
        out.append("    push %rax\n");
        out.append(rc.as_str());
        out.append("    pop %rbx\n");
        if str_eq(operator.as_str(), "+") {
            out.append("    add %rbx, %rax\n");
            proof {
                assert(out@ =~= expr_code(*left, old(self).st().tab)->Ok_0 + "    push %rax\n"@
                    + expr_code(*right, old(self).st().tab)->Ok_0 + "    pop %rbx\n"@
                    + "    add %rbx, %rax\n"@);
            }
            Ok(out)
        } else if str_eq(operator.as_str(), "-") {
            out.append("    sub %rbx, %rax\n");
            proof {
                assert(out@ =~= expr_code(*left, old(self).st().tab)->Ok_0 + "    push %rax\n"@
                    + expr_code(*right, old(self).st().tab)->Ok_0 + "    pop %rbx\n"@
                    + "    sub %rbx, %rax\n"@);
            }
            Ok(out)
        } else if str_eq(operator.as_str(), "*") {
            out.append("    imul %rbx, %rax\n");
            proof {
                assert(out@ =~= expr_code(*left, old(self).st().tab)->Ok_0 + "    push %rax\n"@
                    + expr_code(*right, old(self).st().tab)->Ok_0 + "    pop %rbx\n"@
                    + "    imul %rbx, %rax\n"@);
            }
            Ok(out)
        } else if str_eq(operator.as_str(), "/") {
            out.append("    cqo\n");
            out.append("    idiv %rbx\n");
            proof {
                assert(out@ =~= expr_code(*left, old(self).st().tab)->Ok_0 + "    push %rax\n"@
                    + expr_code(*right, old(self).st().tab)->Ok_0 + "    pop %rbx\n"@ + ("    cqo\n"@
                    + "    idiv %rbx\n"@));
            }
            Ok(out)
        } else if str_eq(operator.as_str(), "<") {
            proof {
                assert(first_free(all_free()) == 0);
            }
            let scratch = match self.registers.acquire(Width::W8) {
                Ok(v) => v,
                Err(e) => {
                    proof {
                        assert(false);
                    }
                    return Err(e);
                },
            };
            out.append("    cmp %rbx, %rax\n");
            out.append("    setl %");
            out.append(scratch.as_str());
            out.append("\n");
            out.append("    movzb %");
            out.append(scratch.as_str());
            out.append(", %rax\n");
            self.registers.release(scratch.as_str());
            proof {
                reveal_strlit("al");
                reveal_strlit("rax");
                reveal_strlit("eax");
                assert(scratch@ =~= "al"@);
                assert(reg_index("al"@) == 0);
                assert(self.registers@ =~= all_free());
                reveal_strlit("    setl %");
                reveal_strlit("\n");
                reveal_strlit("    setl %al\n");
                reveal_strlit("    movzb %");
                reveal_strlit(", %rax\n");
                reveal_strlit("    movzb %al, %rax\n");
                assert(out@ =~= expr_code(*left, old(self).st().tab)->Ok_0 + "    push %rax\n"@
                    + expr_code(*right, old(self).st().tab)->Ok_0 + "    pop %rbx\n"@
                    + ("    cmp %rbx, %rax\n"@ + "    setl %al\n"@ + "    movzb %al, %rax\n"@));
            }
            Ok(out)
        } else {
            Err(CompileError::UnsupportedOperator)
        }
    }

    /// Lowers a variable declaration: a move of the initializer into
    /// the destination the type tag decided, and the binding declared
    /// in the symbol table only after the lowering succeeded.
    fn compile_variable_declaration(&mut self, d: &VariableDeclaration) -> (r: Result<
        String,
        CompileError,
    >)
        requires
            old(self).wf(),
        ensures
            final(self).wf(),
            final(self).out() == old(self).out(),
            final(self).st().labels == old(self).st().labels,
            ({
                let o = decl_code(*d, old(self).st().tab);
                match r {
                    Ok(t) => o matches Ok(c) && t@ == c && final(self).st().tab == old(
                        self,
                    ).st().tab.insert(d.name@, decl_dest(*d)),
                    Err(er) => o matches Err(c) && er == c && final(self).st().tab == old(
                        self,
                    ).st().tab,
                }
            }),
    {
        let dest: Storage = if d.var_type.as_str().unicode_len() > 0 && d.var_type.as_str()
            .get_char(0) == '%' {
            Storage::Register(d.var_type.clone())
        } else {
            Storage::MemorySlot(d.name.clone())
        };
        proof {
            assert(dest@ == decl_dest(*d));
        }
        let dst = storage_operand(&dest);
        let text = match &*d.value {
            Expression::BinaryOperation { .. } => {
                let mut c = match self.compile_expression(&*d.value) {
                    Ok(v) => v,
                    Err(e) => {
                        return Err(e);
                    },
                };
                let tail = mov_instr("%rax", dst.as_str());
                c.append(tail.as_str());
                c
            },
            _ => {
                let src = match expression(&*d.value, &self.table) {
                    Ok(v) => v,
                    Err(e) => {
                        return Err(e);
                    },
                };
                mov_instr(src.as_str(), dst.as_str())
            },
        };
        self.table.declare(d.name.clone(), dest);
        Ok(text)
    }

    /// Lowers one statement and returns its text; the first fault
    /// aborts the statement, which then contributes no text.
    fn compile_statement(&mut self, s: &Statement) -> (r: Result<String, CompileError>)
        requires
            old(self).wf(),
            old(self).st().labels + stmt_label_demand(*s) <= u64::MAX,
        ensures
            final(self).wf(),
            final(self).out() == old(self).out(),
            ({
                let o = stmt_code(*s, old(self).st());
                match r {
                    Ok(t) => o.err is None && t@ == o.text && final(self).st() == o.st,
                    Err(e) => o.err == Some(e) && final(self).st() == o.st,
                }
            }),
        decreases *s, 1int,
    {
        match s {
            Statement::Function(f) => self.compile_function(f),
            Statement::VariableDeclaration(d) => self.compile_variable_declaration(d),
            Statement::If(i) => self.compile_if_statement(i),
            Statement::While(w) => self.compile_while_statement(w),
            Statement::For(f) => self.compile_for_statement(f),
            Statement::Expression(_) => Err(CompileError::UnsupportedStatement),
        }
    }

    /// Lowers a statement sequence left to right, concatenating the
    /// texts; the first fault stops the walk.
    fn compile_block(&mut self, stmts: &Vec<Statement>) -> (r: Result<String, CompileError>)
        requires
            old(self).wf(),
            old(self).st().labels + stmts_label_demand(stmts@, 0) <= u64::MAX,
        ensures
            final(self).wf(),
            final(self).out() == old(self).out(),
            ({
                let o = stmts_code(stmts@, 0, old(self).st());
                match r {
                    Ok(t) => o.err is None && t@ == o.text && final(self).st() == o.st,
                    Err(e) => o.err == Some(e) && final(self).st() == o.st,
                }
            }),
        decreases *stmts, 0int,
    {
        let ghost st0 = old(self).st();
        let ghost o = stmts_code(stmts@, 0, st0);
        let mut acc = String::new();
        let mut idx: usize = 0;
        while idx < stmts.len()
            invariant
                self.wf(),
                self.out() == old(self).out(),
                idx <= stmts@.len(),
                self.st().labels + stmts_label_demand(stmts@, idx as int) <= u64::MAX,
                st0 == old(self).st(),
                o == stmts_code(stmts@, 0, st0),
                ({
                    let rest = stmts_code(stmts@, idx as int, self.st());
                    o.text == acc@ + rest.text && o.st == rest.st && o.err == rest.err
                }),
            decreases stmts@.len() - idx,
        {
            let ghost pre = self.st();
            let ghost rest = stmts_code(stmts@, idx as int, pre);
            proof {
                lemma_stmt_labels_bound(stmts@[idx as int], pre);
            }
            match self.compile_statement(&stmts[idx]) {
                Ok(t) => {
                    acc.append(t.as_str());
                    proof {
                        let first = stmt_code(stmts@[idx as int], pre);
                        assert(rest.text == first.text + stmts_code(
                            stmts@,
                            idx as int + 1,
                            first.st,
                        ).text);
                        assert(o.text =~= acc@ + stmts_code(stmts@, idx as int + 1, first.st).text);
                    }
                    idx = idx + 1;
                },
                Err(e) => {
                    return Err(e);
                },
            }
        }
        proof {
            assert(o.text =~= acc@);
        }
        Ok(acc)
    }

    /// Lowers a function definition: its name as a label, the fixed
    /// prologue, the body in order, the fixed epilogue; the symbol
    /// table is reset once the body is fully lowered.
    fn compile_function(&mut self, f: &FunctionDef) -> (r: Result<String, CompileError>)
        requires
            old(self).wf(),
            old(self).st().labels + stmts_label_demand(f.body@, 0) <= u64::MAX,
        ensures
            final(self).wf(),
            final(self).out() == old(self).out(),
            ({
                let o = stmt_code(Statement::Function(*f), old(self).st());
                match r {
                    Ok(t) => o.err is None && t@ == o.text && final(self).st() == o.st,
                    Err(e) => o.err == Some(e) && final(self).st() == o.st,
                }
            }),
        decreases *f, 0int,
    {
        let body_text = match self.compile_block(&f.body) {
            Ok(v) => v,
            Err(e) => {
                return Err(e);
            },
        };
        let mut out = f.name.clone();
        out.append(":\n");
        out.append("    ; Function prologue\n");
        out.append("    push %rbp\n");
        out.append("    mov %rsp, %rbp\n");
        out.append(body_text.as_str());
        out.append("    ; Function epilogue\n");
        out.append("    pop %rbp\n");
        out.append("    ret\n");
        self.table.clear();
        proof {
            let body = stmts_code(f.body@, 0, old(self).st());
            assert(out@ =~= label_line(f.name@) + "    ; Function prologue\n"@ + "    push %rbp\n"@
                + "    mov %rsp, %rbp\n"@ + body.text + "    ; Function epilogue\n"@
                + "    pop %rbp\n"@ + "    ret\n"@);
        }
        Ok(out)
    }

    /// Lowers a conditional: the condition into the accumulator, a
    /// test against zero jumping past the branch, the branch bodies,
    /// and one fresh label pair per construct so that no two
    /// conditionals share labels.
    fn compile_if_statement(&mut self, i: &IfStatement) -> (r: Result<String, CompileError>)
        requires
            old(self).wf(),
            old(self).st().labels + stmt_label_demand(Statement::If(*i)) <= u64::MAX,
        ensures
            final(self).wf(),
            final(self).out() == old(self).out(),
            ({
                let o = stmt_code(Statement::If(*i), old(self).st());
                match r {
                    Ok(t) => o.err is None && t@ == o.text && final(self).st() == o.st,
                    Err(e) => o.err == Some(e) && final(self).st() == o.st,
                }
            }),
        decreases *i, 0int,
    {
        let k = self.next_label;
        self.next_label = k + 1;
        let cond = match self.compile_expression(&*i.condition) {
            Ok(v) => v,
            Err(e) => {
                return Err(e);
            },
        };
        let then_text = match self.compile_block(&i.then_branch) {
            Ok(v) => v,
            Err(e) => {
                return Err(e);
            },
        };
        let end_lbl = make_label(".if_end_", k);
        match &i.else_branch {
            None => {
                let mut out = String::from_str("    ; If statement\n");
                out.append(cond.as_str());
                out.append("    cmp $0, %rax\n");
                let je = line_je(end_lbl.as_str());
                out.append(je.as_str());
                out.append(then_text.as_str());
                let ll = line_label(end_lbl.as_str());
                out.append(ll.as_str());
                proof {
                    let st1 = GenState {
                        tab: old(self).st().tab,
                        labels: (old(self).st().labels + 1) as nat,
                    };
                    let thn = stmts_code(i.then_branch@, 0, st1);
                    assert(out@ =~= "    ; If statement\n"@ + cond@ + cond_test() + je_line(
                        if_end_label(k as nat),
                    ) + thn.text + label_line(if_end_label(k as nat)));
                }
                Ok(out)
            },
            Some(eb) => {
                proof {
                    let st1 = GenState {
                        tab: old(self).st().tab,
                        labels: (old(self).st().labels + 1) as nat,
                    };
                    lemma_stmts_labels_bound(i.then_branch@, 0, st1);
                }
                let els_text = match self.compile_block(eb) {
                    Ok(v) => v,
                    Err(e) => {
                        return Err(e);
                    },
                };
                let else_lbl = make_label(".else_end_", k);
                let mut out = String::from_str("    ; If statement\n");
                out.append(cond.as_str());
                out.append("    cmp $0, %rax\n");
                let je = line_je(end_lbl.as_str());
                out.append(je.as_str());
                out.append(then_text.as_str());
                let jm = line_jmp(else_lbl.as_str());
                out.append(jm.as_str());
                let ll = line_label(end_lbl.as_str());
                out.append(ll.as_str());
                out.append(els_text.as_str());
                let el = line_label(else_lbl.as_str());
                out.append(el.as_str());
                proof {
                    let st1 = GenState {
                        tab: old(self).st().tab,
                        labels: (old(self).st().labels + 1) as nat,
                    };
                    let thn = stmts_code(i.then_branch@, 0, st1);
                    let els = stmts_code(eb@, 0, thn.st);
                    assert(out@ =~= "    ; If statement\n"@ + cond@ + cond_test() + je_line(
                        if_end_label(k as nat),
                    ) + thn.text + jmp_line(else_end_label(k as nat)) + label_line(
                        if_end_label(k as nat),
                    ) + els.text + label_line(else_end_label(k as nat)));
                }
                Ok(out)
            },
        }
    }

    /// Lowers a loop: a start label, the condition with a test jumping
    /// to the end label, the body, a jump back to the start, the end
    /// label; one fresh label pair per construct.
    fn compile_while_statement(&mut self, w: &WhileStatement) -> (r: Result<String, CompileError>)
        requires
            old(self).wf(),
            old(self).st().labels + stmt_label_demand(Statement::While(*w)) <= u64::MAX,
        ensures
            final(self).wf(),
            final(self).out() == old(self).out(),
            ({
                let o = stmt_code(Statement::While(*w), old(self).st());
                match r {
                    Ok(t) => o.err is None && t@ == o.text && final(self).st() == o.st,
                    Err(e) => o.err == Some(e) && final(self).st() == o.st,
                }
            }),
        decreases *w, 0int,
    {
        let k = self.next_label;
        self.next_label = k + 1;
        let cond = match self.compile_expression(&*w.condition) {
            Ok(v) => v,
            Err(e) => {
                return Err(e);
            },
        };
        let body_text = match self.compile_block(&w.body) {
            Ok(v) => v,
            Err(e) => {
                return Err(e);
            },
        };
        let start_lbl = make_label(".while_start_", k);
        let end_lbl = make_label(".while_end_", k);
        let mut out = line_label(start_lbl.as_str());
        out.append(cond.as_str());
        out.append("    cmp $0, %rax\n");
        let je = line_je(end_lbl.as_str());
        out.append(je.as_str());
        out.append(body_text.as_str());
        let jm = line_jmp(start_lbl.as_str());
        out.append(jm.as_str());
        let ll = line_label(end_lbl.as_str());
        out.append(ll.as_str());
        proof {
            let st1 = GenState {
                tab: old(self).st().tab,
                labels: (old(self).st().labels + 1) as nat,
            };
            let body = stmts_code(w.body@, 0, st1);
            assert(out@ =~= label_line(while_start_label(k as nat)) + cond@ + cond_test() + je_line(
                while_end_label(k as nat),
            ) + body.text + jmp_line(while_start_label(k as nat)) + label_line(
                while_end_label(k as nat),
            ));
        }
        Ok(out)
    }

    /// Lowers a ranged loop: start and end labels namespaced by the
    /// iterator name, the range expression, the body. The iterator is
    /// not implicitly incremented.
    fn compile_for_statement(&mut self, f: &ForStatement) -> (r: Result<String, CompileError>)
        requires
            old(self).wf(),
            old(self).st().labels + stmt_label_demand(Statement::For(*f)) <= u64::MAX,
        ensures
            final(self).wf(),
            final(self).out() == old(self).out(),
            ({
                let o = stmt_code(Statement::For(*f), old(self).st());
                match r {
                    Ok(t) => o.err is None && t@ == o.text && final(self).st() == o.st,
                    Err(e) => o.err == Some(e) && final(self).st() == o.st,
                }
            }),
        decreases *f, 0int,
    {
        let range_text = match self.compile_expression(&*f.range) {
            Ok(v) => v,
            Err(e) => {
                return Err(e);
            },
        };
        let body_text = match self.compile_block(&f.body) {
            Ok(v) => v,
            Err(e) => {
                return Err(e);
            },
        };
        let mut start_lbl = String::from_str(".for_");
        start_lbl.append(f.iterator.as_str());
        start_lbl.append("_start");
        let mut end_lbl = String::from_str(".for_");
        end_lbl.append(f.iterator.as_str());
        end_lbl.append("_end");
        let mut out = line_label(start_lbl.as_str());
        out.append(range_text.as_str());
        out.append(body_text.as_str());
        let ll = line_label(end_lbl.as_str());
        out.append(ll.as_str());
        proof {
            let body = stmts_code(f.body@, 0, old(self).st());
            assert(start_lbl@ =~= for_start_label(f.iterator@));
            assert(end_lbl@ =~= for_end_label(f.iterator@));
            assert(out@ =~= label_line(for_start_label(f.iterator@)) + range_text@ + body.text
                + label_line(for_end_label(f.iterator@)));
        }
        Ok(out)
    }

    /// Lowers a whole program: each statement's text is appended to
    /// the output in order; the first fault is returned and the
    /// faulting statement contributes no text. A unit other than a
    /// program is not lowered.
    pub fn compile(&mut self, ast: AstNode) -> (r: Result<(), CompileError>)
        requires
            old(self).wf(),
            (ast matches AstNode::Program(ss) ==> old(self).st().labels + stmts_label_demand(
                ss@,
                0,
            ) <= u64::MAX),
        ensures
            final(self).wf(),
            match ast {
                AstNode::Program(ss) => ({
                    let o = stmts_code(ss@, 0, old(self).st());
                    &&& final(self).out() == old(self).out() + o.text
                    &&& final(self).st() == o.st
                    &&& match r {
                        Ok(u) => o.err is None,
                        Err(e) => o.err == Some(e),
                    }
                }),
                _ => ({
                    &&& r == Err::<(), CompileError>(CompileError::UnsupportedStatement)
                    &&& final(self).st() == old(self).st()
                    &&& final(self).out() == old(self).out()
                }),
            },
    {
        let ghost ast0 = ast;
        match ast {
            AstNode::Program(stmts) => {
                proof {
                    assert(ast0 == AstNode::Program(stmts));
                }
                let ghost st0 = old(self).st();
                let ghost o = stmts_code(stmts@, 0, st0);
                let mut idx: usize = 0;
                #[verifier::loop_isolation(false)]
                while idx < stmts.len()
                    invariant
                        self.wf(),
                        idx <= stmts@.len(),
                        self.st().labels + stmts_label_demand(stmts@, idx as int) <= u64::MAX,
                        st0 == old(self).st(),
                        ast0 == AstNode::Program(stmts),
                        o == stmts_code(stmts@, 0, st0),
                        ({
                            let rest = stmts_code(stmts@, idx as int, self.st());
                            &&& old(self).out() + o.text == self.out() + rest.text
                            &&& o.st == rest.st
                            &&& o.err == rest.err
                        }),
                    decreases stmts@.len() - idx,
                {
                    let ghost pre = self.st();
                    let ghost rest = stmts_code(stmts@, idx as int, pre);
                    proof {
                        lemma_stmt_labels_bound(stmts@[idx as int], pre);
                    }
                    match self.compile_statement(&stmts[idx]) {
                        Ok(t) => {
                            self.output.append(t.as_str());
                            proof {
                                let first = stmt_code(stmts@[idx as int], pre);
                                assert(rest.text == first.text + stmts_code(
                                    stmts@,
                                    idx as int + 1,
                                    first.st,
                                ).text);
                                assert(old(self).out() + o.text =~= self.out() + stmts_code(
                                    stmts@,
                                    idx as int + 1,
                                    first.st,
                                ).text);
                            }
                            idx = idx + 1;
                        },
                        Err(e) => {
                            proof {
                                let first = stmt_code(stmts@[idx as int], pre);
                                assert(first.err == Some(e));
                                assert(rest == first);
                                assert(rest.text == Seq::<char>::empty());
                                assert(old(self).out() + o.text =~= self.out());
                            }
                            return Err(e);
                        },
                    }
                }
                proof {
                    assert(old(self).out() + o.text =~= self.out());
                }
                Ok(())
            },
            _ => Err(CompileError::UnsupportedStatement),
        }
    }
}

} // verus!
