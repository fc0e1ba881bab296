//! A finite pool of general-purpose registers, grouped into width
//! classes that alias the same physical register. Registers are granted
//! in a fixed scan order, so allocation is reproducible; the pool never
//! spills on its own.

use vstd::prelude::*;
use crate::errors::CompileError;
use crate::text::str_eq;

verus! {

/// The number of physical general-purpose registers in the pool
/// (the stack and frame pointers are left out).
pub const REG_COUNT: usize = 14;

/// A register width class: aliases of one physical register grouped by
/// bit width.
#[derive(Debug, Clone, Copy, PartialEq, Eq, Structural)]
pub enum Width {
    W64,
    W32,
    W8,
}

/// The 64-bit name of physical register `i`.
pub open spec fn spec_reg64(i: int) -> Seq<char> {
    if i == 0 {
        "rax"@
    } else if i == 1 {
        "rbx"@
    } else if i == 2 {
        "rcx"@
    } else if i == 3 {
        "rdx"@
    } else if i == 4 {
        "rsi"@
    } else if i == 5 {
        "rdi"@
    } else if i == 6 {
        "r8"@
    } else if i == 7 {
        "r9"@
    } else if i == 8 {
        "r10"@
    } else if i == 9 {
        "r11"@
    } else if i == 10 {
        "r12"@
    } else if i == 11 {
        "r13"@
    } else if i == 12 {
        "r14"@
    } else {
        "r15"@
    }
}

/// The 32-bit name of physical register `i`.
pub open spec fn spec_reg32(i: int) -> Seq<char> {
    if i == 0 {
        "eax"@
    } else if i == 1 {
        "ebx"@
    } else if i == 2 {
        "ecx"@
    } else if i == 3 {
        "edx"@
    } else if i == 4 {
        "esi"@
    } else if i == 5 {
        "edi"@
    } else if i == 6 {
        "r8d"@
    } else if i == 7 {
        "r9d"@
    } else if i == 8 {
        "r10d"@
    } else if i == 9 {
        "r11d"@
    } else if i == 10 {
        "r12d"@
    } else if i == 11 {
        "r13d"@
    } else if i == 12 {
        "r14d"@
    } else {
        "r15d"@
    }
}

/// The 8-bit name of physical register `i`.
pub open spec fn spec_reg8(i: int) -> Seq<char> {
    if i == 0 {
        "al"@
    } else if i == 1 {
        "bl"@
    } else if i == 2 {
        "cl"@
    } else if i == 3 {
        "dl"@
    } else if i == 4 {
        "sil"@
    } else if i == 5 {
        "dil"@
    } else if i == 6 {
        "r8b"@
    } else if i == 7 {
        "r9b"@
    } else if i == 8 {
        "r10b"@
    } else if i == 9 {
        "r11b"@
    } else if i == 10 {
        "r12b"@
    } else if i == 11 {
        "r13b"@
    } else if i == 12 {
        "r14b"@
    } else {
        "r15b"@
    }
}

/// The name of physical register `i` in width class `w`.
pub open spec fn spec_reg_name(w: Width, i: int) -> Seq<char> {
    match w {
        Width::W64 => spec_reg64(i),
        Width::W32 => spec_reg32(i),
        Width::W8 => spec_reg8(i),
    }
}

/// The name of physical register `i` in width class `w`.
pub fn reg_name(w: Width, i: usize) -> (r: &'static str)
    requires
        i < REG_COUNT,
    ensures
        r@ == spec_reg_name(w, i as int),
{
    match w {
        Width::W64 => {
            if i == 0 {
                "rax"
            } else if i == 1 {
                "rbx"
            } else if i == 2 {
                "rcx"
            } else if i == 3 {
                "rdx"
            } else if i == 4 {
                "rsi"
            } else if i == 5 {
                "rdi"
            } else if i == 6 {
                "r8"
            } else if i == 7 {
                "r9"
            } else if i == 8 {
                "r10"
            } else if i == 9 {
                "r11"
            } else if i == 10 {
                "r12"
            } else if i == 11 {
                "r13"
            } else if i == 12 {
                "r14"
            } else {
                "r15"
            }
        },
        Width::W32 => {
            if i == 0 {
                "eax"
            } else if i == 1 {
                "ebx"
            } else if i == 2 {
                "ecx"
            } else if i == 3 {
                "edx"
            } else if i == 4 {
                "esi"
            } else if i == 5 {
                "edi"
            } else if i == 6 {
                "r8d"
            } else if i == 7 {
                "r9d"
            } else if i == 8 {
                "r10d"
            } else if i == 9 {
                "r11d"
            } else if i == 10 {
                "r12d"
            } else if i == 11 {
                "r13d"
            } else if i == 12 {
                "r14d"
            } else {
                "r15d"
            }
        },
        Width::W8 => {
            if i == 0 {
                "al"
            } else if i == 1 {
                "bl"
            } else if i == 2 {
                "cl"
            } else if i == 3 {
                "dl"
            } else if i == 4 {
                "sil"
            } else if i == 5 {
                "dil"
            } else if i == 6 {
                "r8b"
            } else if i == 7 {
                "r9b"
            } else if i == 8 {
                "r10b"
            } else if i == 9 {
                "r11b"
            } else if i == 10 {
                "r12b"
            } else if i == 11 {
                "r13b"
            } else if i == 12 {
                "r14b"
            } else {
                "r15b"
            }
        },
    }
}

/// The smallest index at or after `i` whose register is free, or -1.
pub open spec fn first_free_from(used: Seq<bool>, i: int) -> int
    decreases used.len() - i,
{
    if i < 0 || i >= used.len() {
        -1
    } else if !used[i] {
        i
    } else {
        first_free_from(used, i + 1)
    }
}

/// The smallest index whose register is free, or -1 when the pool is
/// exhausted.
pub open spec fn first_free(used: Seq<bool>) -> int {
    first_free_from(used, 0)
}

/// The physical index a register name (of any width class) refers to,
/// scanning indices at or after `i`; -1 when the name is no register.
pub open spec fn reg_index_from(name: Seq<char>, i: int) -> int
    decreases REG_COUNT - i,
{
    if i < 0 || i >= REG_COUNT {
        -1
    } else if name == spec_reg64(i) || name == spec_reg32(i) || name == spec_reg8(i) {
        i
    } else {
        reg_index_from(name, i + 1)
    }
}

/// The physical index a register name refers to, or -1.
pub open spec fn reg_index(name: Seq<char>) -> int {
    reg_index_from(name, 0)
}

/// The pool state with every register free.
pub open spec fn all_free() -> Seq<bool> {
    Seq::new(REG_COUNT as nat, |i: int| false)
}

/// Tracks which physical registers are currently granted. The model of
/// the pool is a sequence of in-use flags indexed by physical register.
#[derive(Debug)]
pub struct RegisterAllocator {
    used: Vec<bool>,
}

impl View for RegisterAllocator {
    type V = Seq<bool>;

    closed spec fn view(&self) -> Seq<bool> {
        self.used@
    }
}

impl RegisterAllocator {
    /// The pool always holds exactly one flag per physical register.
    pub open spec fn wf(&self) -> bool {
        self@.len() == REG_COUNT
    }

    /// A fresh pool with every register free.
    pub fn new() -> (r: RegisterAllocator)
        ensures
            r.wf(),
            r@ == all_free(),
    {
        let mut used: Vec<bool> = Vec::new();
        let mut i: usize = 0;
        while i < REG_COUNT
            invariant
                i <= REG_COUNT,
                used@.len() == i,
                forall|k: int| 0 <= k < i ==> !used@[k],
            decreases REG_COUNT - i,
        {
            used.push(false);
            i = i + 1;
        }
        proof {
            assert(used@ =~= all_free());
        }
        RegisterAllocator { used }
    }

    /// Grants the free register of lowest index in the requested width
    /// class, or reports exhaustion, leaving the pool unchanged.
    pub fn acquire(&mut self, w: Width) -> (r: Result<String, CompileError>)
        requires
            old(self).wf(),
        ensures
            final(self).wf(),
            ({
                let ff = first_free(old(self)@);
                if ff == -1 {
                    &&& r matches Err(e) && e == CompileError::RegistersExhausted
                    &&& final(self)@ == old(self)@
                } else {
                    &&& r matches Ok(name) && name@ == spec_reg_name(w, ff)
                    &&& final(self)@ == old(self)@.update(ff, true)
                }
            }),
    {
        let mut i: usize = 0;
        while i < REG_COUNT
            invariant
                self.wf(),
                self == old(self),
                i <= REG_COUNT,
                first_free(self@) == first_free_from(self@, i as int),
            decreases REG_COUNT - i,
        {
            if !self.used[i] {
                self.used.set(i, true);
                return Ok(reg_name(w, i).to_owned());
            }
            i = i + 1;
        }
        Err(CompileError::RegistersExhausted)
    }

    /// Names the free register of lowest index in the requested width
    /// class without granting it, or reports exhaustion. Callers that
    /// keep the register live across further allocation must acquire
    /// it instead.
    pub fn unused_register(&self, w: Width) -> (r: Result<String, CompileError>)
        requires
            self.wf(),
        ensures
            ({
                let ff = first_free(self@);
                if ff == -1 {
                    r matches Err(e) && e == CompileError::RegistersExhausted
                } else {
                    r matches Ok(name) && name@ == spec_reg_name(w, ff)
                }
            }),
    {
        let mut i: usize = 0;
        while i < REG_COUNT
            invariant
                self.wf(),
                i <= REG_COUNT,
                first_free(self@) == first_free_from(self@, i as int),
            decreases REG_COUNT - i,
        {
            if !self.used[i] {
                return Ok(reg_name(w, i).to_owned());
            }
            i = i + 1;
        }
        Err(CompileError::RegistersExhausted)
    }

    /// Frees the register the given name refers to, in any width class;
    /// a name that is no register, or an already-free register, leaves
    /// the pool unchanged apart from that flag.
    pub fn release(&mut self, name: &str)
        requires
            old(self).wf(),
        ensures
            final(self).wf(),
            ({
                let idx = reg_index(name@);
                if idx == -1 {
                    final(self)@ == old(self)@
                } else {
                    final(self)@ == old(self)@.update(idx, false)
                }
            }),
    {
        let mut i: usize = 0;
        while i < REG_COUNT
            invariant
                self.wf(),
                self == old(self),
                i <= REG_COUNT,
                reg_index(name@) == reg_index_from(name@, i as int),
            decreases REG_COUNT - i,
        {
            if str_eq(name, reg_name(Width::W64, i)) || str_eq(name, reg_name(Width::W32, i))
                || str_eq(name, reg_name(Width::W8, i)) {
                self.used.set(i, false);
                return ;
            }
            i = i + 1;
        }
    }
}

/// In a pool with every register in use, each flag is set.
proof fn lemma_exhausted_all_used(used: Seq<bool>, i: int)
    requires
        first_free_from(used, i) == -1,
        0 <= i <= used.len(),
    ensures
        forall|j: int| i <= j < used.len() ==> used[j],
    decreases used.len() - i,
{
    if i < used.len() {
        lemma_exhausted_all_used(used, i + 1);
    }
}

/// Scanning for a free register skips a run of in-use registers.
proof fn lemma_first_free_skip(used: Seq<bool>, i: int, j: int)
    requires
        0 <= i <= j <= used.len(),
        forall|k: int| i <= k < j ==> used[k],
    ensures
        first_free_from(used, i) == first_free_from(used, j),
    decreases j - i,
{
    if i < j {
        lemma_first_free_skip(used, i + 1, j);
    }
}

/// The pool never leaks: after the whole pool has been acquired,
/// releasing any one register makes the next acquisition succeed, and
/// it grants exactly the released register.
pub proof fn lemma_release_then_acquire_succeeds(used: Seq<bool>, i: int)
    requires
        used.len() == REG_COUNT,
        first_free(used) == -1,
        0 <= i < REG_COUNT,
    ensures
        first_free(used.update(i, false)) == i,
{
    lemma_exhausted_all_used(used, 0);
    let u2 = used.update(i, false);
    lemma_first_free_skip(u2, 0, i);
    assert(!u2[i]);
}

/// Releasing a register that was just acquired restores the pool
/// exactly: one release per acquisition balances the flags.
pub proof fn lemma_acquire_release_balanced(used: Seq<bool>, i: int)
    requires
        0 <= i < used.len(),
        !used[i],
    ensures
        used.update(i, true).update(i, false) == used,
{
    assert(used.update(i, true).update(i, false) =~= used);
}

} // verus!
