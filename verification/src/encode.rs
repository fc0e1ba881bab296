//! Direct encoding of operands and of single two-operand instructions:
//! the textual pieces the code generator glues together, each pinned to
//! its character-sequence model.

use vstd::prelude::*;
use vstd::string::StringExecFns;
use crate::errors::CompileError;
use crate::regalloc::RegisterAllocator;
use crate::regalloc::Width;
use crate::regalloc::first_free;
use crate::regalloc::spec_reg8;
use crate::statement::Expression;
use crate::symtab::SpecStorage;
use crate::symtab::Storage;
use crate::symtab::SymbolTable;
use crate::text::dec_int;
use crate::text::i64_dec;
use crate::text::str_eq;

verus! {

/// The operand text of a storage descriptor: the register name as
/// given, or the bracketed memory slot.
pub open spec fn operand_text(st: SpecStorage) -> Seq<char> {
    match st {
        SpecStorage::Register(r) => r,
        SpecStorage::MemorySlot(n) => "["@ + n + "]"@,
    }
}

/// The operand text of an immediate value.
pub open spec fn imm_text(n: int) -> Seq<char> {
    "$"@ + dec_int(n)
}

/// The operand text of a leaf expression under the given bindings: an
/// immediate for a literal, the bound storage for an identifier; a
/// nested operation has no operand text.
pub open spec fn expr_operand(e: Expression, tab: Map<Seq<char>, SpecStorage>) -> Result<
    Seq<char>,
    CompileError,
> {
    match e {
        Expression::Number(n) => Ok(imm_text(n as int)),
        Expression::Identifier(x) => if tab.contains_key(x@) {
            Ok(operand_text(tab[x@]))
        } else {
            Err(CompileError::UnknownVariable)
        },
        Expression::BinaryOperation { .. } => Err(CompileError::UnsupportedExpression),
    }
}

/// One move instruction line.
pub open spec fn mov_line(src: Seq<char>, dst: Seq<char>) -> Seq<char> {
    "    mov "@ + src + ", "@ + dst + "\n"@
}

/// The single two-operand instruction (or short instruction group) a
/// supported operator encodes to, over the two operand texts. Division
/// carries its sign-extension step; the comparison sets an 8-bit
/// register (the free one of lowest index, `ff`) and widens it.
pub open spec fn direct_binop_code(l: Seq<char>, op: Seq<char>, r: Seq<char>, ff: int) -> Result<
    Seq<char>,
    CompileError,
> {
    if op == "+"@ {
        Ok("    add "@ + l + ", "@ + r + "\n"@)
    } else if op == "-"@ {
        Ok("    sub "@ + l + ", "@ + r + "\n"@)
    } else if op == "*"@ {
        Ok("    mul "@ + l + ", "@ + r + "\n"@)
    } else if op == "/"@ {
        Ok("    cqo\n"@ + "    idiv "@ + l + ", "@ + r + "\n"@)
    } else if op == "<"@ {
        if ff == -1 {
            Err(CompileError::RegistersExhausted)
        } else {
            Ok(
                "    cmp "@ + l + ", "@ + r + "\n"@ + "    setl %"@ + spec_reg8(ff) + "\n"@
                    + "    movzb %"@ + spec_reg8(ff) + ", "@ + r + "\n"@,
            )
        }
    } else {
        Err(CompileError::UnsupportedOperator)
    }
}

/// The direct encoding of a binary operation over two leaf operands:
/// the left operand is encoded first, then the right, then the
/// operator; the first fault wins.
pub open spec fn free_binop_code(
    left: Expression,
    op: Seq<char>,
    right: Expression,
    tab: Map<Seq<char>, SpecStorage>,
    ff: int,
) -> Result<Seq<char>, CompileError> {
    match expr_operand(left, tab) {
        Err(e) => Err(e),
        Ok(l) => match expr_operand(right, tab) {
            Err(e) => Err(e),
            Ok(r) => direct_binop_code(l, op, r, ff),
        },
    }
}

/// The operand text of a storage descriptor.
pub fn storage_operand(st: &Storage) -> (r: String)
    ensures
        r@ == operand_text(st@),
{
    match st {
        Storage::Register(name) => name.clone(),
        Storage::MemorySlot(name) => {
            let mut s = String::from_str("[");
            s.append(name.as_str());
            s.append("]");
            proof {
                assert(s@ =~= operand_text(st@));
            }
            s
        },
    }
}

/// One move instruction line from a source operand to a destination
/// operand.
pub fn mov_instr(src: &str, dst: &str) -> (r: String)
    ensures
        r@ == mov_line(src@, dst@),
{
    let mut s = String::from_str("    mov ");
    s.append(src);
    s.append(", ");
    s.append(dst);
    s.append("\n");
    proof {
        assert(s@ =~= mov_line(src@, dst@));
    }
    s
}

/// The operand text of a leaf expression: an immediate for a number, the
/// declared storage for an identifier; an undeclared identifier fails
/// with `UnknownVariable` and a nested operation with
/// `UnsupportedExpression`.
pub fn expression(expr: &Expression, table: &SymbolTable) -> (r: Result<String, CompileError>)
    ensures
        ({
            let o = expr_operand(*expr, table@);
            match r {
                Ok(t) => o matches Ok(c) && t@ == c,
                Err(e) => o matches Err(c) && e == c,
            }
        }),
{
    match expr {
        Expression::Number(n) => {
            let mut s = String::from_str("$");
            let digits = i64_dec(*n);
            s.append(digits.as_str());
            Ok(s)
        },
        Expression::Identifier(name) => match table.resolve(name.as_str()) {
            Ok(st) => Ok(storage_operand(st)),
            Err(e) => Err(e),
        },
        Expression::BinaryOperation { .. } => Err(CompileError::UnsupportedExpression),
    }
}

/// The direct two-operand encoding of a binary operation over leaf
/// operands. The comparison consults the register pool for a free
/// 8-bit scratch register; the pool is only read, never changed.
pub fn binary_operation(
    left: &Expression,
    operator: &str,
    right: &Expression,
    table: &SymbolTable,
    regs: &RegisterAllocator,
) -> (r: Result<String, CompileError>)
    requires
        regs.wf(),
    ensures
        ({
            let o = free_binop_code(*left, operator@, *right, table@, first_free(regs@));
            match r {
                Ok(t) => o matches Ok(c) && t@ == c,
                Err(e) => o matches Err(c) && e == c,
            }
        }),
{
    let lop = match expression(left, table) {
        Ok(v) => v,
        Err(e) => {
            return Err(e);
        },
    };
    let rop = match expression(right, table) {
        Ok(v) => v,
        Err(e) => {
            return Err(e);
        },
    };
    if str_eq(operator, "+") {
        let mut s = String::from_str("    add ");
        s.append(lop.as_str());
        s.append(", ");
        s.append(rop.as_str());
        s.append("\n");
        proof {
            assert(s@ =~= "    add "@ + lop@ + ", "@ + rop@ + "\n"@);
        }
        Ok(s)
    } else if str_eq(operator, "-") {
        let mut s = String::from_str("    sub ");
        s.append(lop.as_str());
        s.append(", ");
        s.append(rop.as_str());
        s.append("\n");
        proof {
            assert(s@ =~= "    sub "@ + lop@ + ", "@ + rop@ + "\n"@);
        }
        Ok(s)
    } else if str_eq(operator, "*") {
        let mut s = String::from_str("    mul ");
        s.append(lop.as_str());
        s.append(", ");
        s.append(rop.as_str());
        s.append("\n");
        proof {
            assert(s@ =~= "    mul "@ + lop@ + ", "@ + rop@ + "\n"@);
        }
        Ok(s)
    } else if str_eq(operator, "/") {
        let mut s = String::from_str("    cqo\n");
        s.append("    idiv ");
        s.append(lop.as_str());
        s.append(", ");
        s.append(rop.as_str());
        s.append("\n");
        proof {
            assert(s@ =~= "    cqo\n"@ + "    idiv "@ + lop@ + ", "@ + rop@ + "\n"@);
        }
        Ok(s)
    } else if str_eq(operator, "<") {
        let scratch = match regs.unused_register(Width::W8) {
            Ok(v) => v,
            Err(e) => {
                return Err(e);
            },
        };
        let mut s = String::from_str("    cmp ");
        s.append(lop.as_str());
        s.append(", ");
        s.append(rop.as_str());
        s.append("\n");
        s.append("    setl %");
        s.append(scratch.as_str());
        s.append("\n");
        s.append("    movzb %");
        s.append(scratch.as_str());
        s.append(", ");
        s.append(rop.as_str());
        s.append("\n");
        proof {
            assert(s@ =~= "    cmp "@ + lop@ + ", "@ + rop@ + "\n"@ + "    setl %"@ + spec_reg8(
                first_free(regs@),
            ) + "\n"@ + "    movzb %"@ + spec_reg8(first_free(regs@)) + ", "@ + rop@ + "\n"@);
        }
        Ok(s)
    } else {
        Err(CompileError::UnsupportedOperator)
    }
}

} // verus!
