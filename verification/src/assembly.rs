use vstd::prelude::*;
use vstd::string::StringExecFns;

verus! {

/// The decimal digits of `n`.
pub open spec fn decimal(n: nat) -> Seq<char>
    decreases n,
{
    if n < 10 {
        seq![digit_char(n)]
    } else {
        decimal(n / 10).push(digit_char(n % 10))
    }
}

/// The character of decimal digit `d`.
pub open spec fn digit_char(d: nat) -> char {
    if d == 0 { '0' } else if d == 1 { '1' } else if d == 2 { '2' } else if d == 3 { '3' } else if d == 4 { '4' }
    else if d == 5 { '5' } else if d == 6 { '6' } else if d == 7 { '7' } else if d == 8 { '8' } else { '9' }
}

/// The text of decimal digit `d`.
fn digit_str(d: usize) -> (s: &'static str)
    requires
        d < 10,
    ensures
        s@ == seq![digit_char(d as nat)],
{
    if d == 0 {
        proof { reveal_strlit("0"); }
        "0"
    } else if d == 1 {
        proof { reveal_strlit("1"); }
        "1"
    } else if d == 2 {
        proof { reveal_strlit("2"); }
        "2"
    } else if d == 3 {
        proof { reveal_strlit("3"); }
        "3"
    } else if d == 4 {
        proof { reveal_strlit("4"); }
        "4"
    } else if d == 5 {
        proof { reveal_strlit("5"); }
        "5"
    } else if d == 6 {
        proof { reveal_strlit("6"); }
        "6"
    } else if d == 7 {
        proof { reveal_strlit("7"); }
        "7"
    } else if d == 8 {
        proof { reveal_strlit("8"); }
        "8"
    } else {
        proof { reveal_strlit("9"); }
        "9"
    }
}

/// `n` in decimal.
pub(crate) fn decimal_string(n: usize) -> (s: String)
    ensures
        s@ == decimal(n as nat),
    decreases n,
{
    if n < 10 {
        let mut s = String::new();
        append(&mut s, digit_str(n));
        proof {
            assert(s@ =~= decimal(n as nat));
        }
        s
    } else {
        let mut s = decimal_string(n / 10);
        append(&mut s, digit_str(n % 10));
        proof {
            assert(s@ =~= decimal(n as nat));
        }
        s
    }
}

/// A general-purpose register.
#[derive(Debug, Clone, Copy, PartialEq, Eq, Structural)]
pub enum Reg {
    Rsp,
    Rbp,
    Rax,
    Rbx,
    Rcx,
    Rdx,
    Rsi,
    Rdi,
}

/// The assembler name of `r`.
pub open spec fn reg_name(r: Reg) -> Seq<char> {
    match r {
        Reg::Rsp => seq!['r', 's', 'p'],
        Reg::Rbp => seq!['r', 'b', 'p'],
        Reg::Rax => seq!['r', 'a', 'x'],
        Reg::Rbx => seq!['r', 'b', 'x'],
        Reg::Rcx => seq!['r', 'c', 'x'],
        Reg::Rdx => seq!['r', 'd', 'x'],
        Reg::Rsi => seq!['r', 's', 'i'],
        Reg::Rdi => seq!['r', 'd', 'i'],
    }
}

impl Reg {
    /// The assembler name of this register.
    pub fn name(&self) -> (s: &'static str)
        ensures
            s@ == reg_name(*self),
    {
        match self {
            Reg::Rsp => {
                proof {
                    reveal_strlit("rsp");
                }
                "rsp"
            },
            Reg::Rbp => {
                proof {
                    reveal_strlit("rbp");
                }
                "rbp"
            },
            Reg::Rax => {
                proof {
                    reveal_strlit("rax");
                }
                "rax"
            },
            Reg::Rbx => {
                proof {
                    reveal_strlit("rbx");
                }
                "rbx"
            },
            Reg::Rcx => {
                proof {
                    reveal_strlit("rcx");
                }
                "rcx"
            },
            Reg::Rdx => {
                proof {
                    reveal_strlit("rdx");
                }
                "rdx"
            },
            Reg::Rsi => {
                proof {
                    reveal_strlit("rsi");
                }
                "rsi"
            },
            Reg::Rdi => {
                proof {
                    reveal_strlit("rdi");
                }
                "rdi"
            },
        }
    }
}

/// A memory operand: `offset` bytes below the address in `reg`.
#[derive(Debug, Clone, Copy, PartialEq, Eq, Structural)]
pub struct MemRef {
    pub reg: Reg,
    pub offset: usize,
}

/// The source operand of a 64-bit instruction.
#[derive(Debug, Clone, Copy, PartialEq, Eq, Structural)]
pub enum Arg64 {
    Reg(Reg),
    Unsigned(usize),
    Mem(MemRef),
}

/// The operands of an arithmetic or comparison instruction.
#[derive(Debug, Clone, Copy, PartialEq, Eq, Structural)]
pub enum BinArgs {
    ToReg(Reg, Arg64),
}

/// The operands of a move.
#[derive(Debug, Clone, Copy, PartialEq, Eq, Structural)]
pub enum MovArgs {
    ToReg(Reg, Arg64),
    ToMem(MemRef, Reg),
}

/// An assembler line.
#[derive(Debug)]
pub enum Instruction {
    Directive(String, String),
    Label(String),
    Syscall,
    Push(Reg),
    Pop(Reg),
    Mov(MovArgs),
    Add(BinArgs),
    Sub(BinArgs),
    Mul(BinArgs),
    Cmp(BinArgs),
    And(BinArgs),
    Or(BinArgs),
    Jz(String),
    Jnz(String),
    Je(String),
    Jne(String),
    Jg(String),
    Jge(String),
    Jl(String),
    Jle(String),
    Jmp(String),
    Call(String),
    Ret,
}

/// An assembler line with its texts as character sequences.
pub enum InstrV {
    Directive(Seq<char>, Seq<char>),
    Label(Seq<char>),
    Syscall,
    Push(Reg),
    Pop(Reg),
    Mov(MovArgs),
    Add(BinArgs),
    Sub(BinArgs),
    Mul(BinArgs),
    Cmp(BinArgs),
    And(BinArgs),
    Or(BinArgs),
    Jz(Seq<char>),
    Jnz(Seq<char>),
    Je(Seq<char>),
    Jne(Seq<char>),
    Jg(Seq<char>),
    Jge(Seq<char>),
    Jl(Seq<char>),
    Jle(Seq<char>),
    Jmp(Seq<char>),
    Call(Seq<char>),
    Ret,
}

impl View for Instruction {
    type V = InstrV;

    open spec fn view(&self) -> InstrV {
        match self {
            Instruction::Directive(a, b) => InstrV::Directive(a@, b@),
            Instruction::Label(a) => InstrV::Label(a@),
            Instruction::Syscall => InstrV::Syscall,
            Instruction::Push(a) => InstrV::Push(*a),
            Instruction::Pop(a) => InstrV::Pop(*a),
            Instruction::Mov(a) => InstrV::Mov(*a),
            Instruction::Add(a) => InstrV::Add(*a),
            Instruction::Sub(a) => InstrV::Sub(*a),
            Instruction::Mul(a) => InstrV::Mul(*a),
            Instruction::Cmp(a) => InstrV::Cmp(*a),
            Instruction::And(a) => InstrV::And(*a),
            Instruction::Or(a) => InstrV::Or(*a),
            Instruction::Jz(a) => InstrV::Jz(a@),
            Instruction::Jnz(a) => InstrV::Jnz(a@),
            Instruction::Je(a) => InstrV::Je(a@),
            Instruction::Jne(a) => InstrV::Jne(a@),
            Instruction::Jg(a) => InstrV::Jg(a@),
            Instruction::Jge(a) => InstrV::Jge(a@),
            Instruction::Jl(a) => InstrV::Jl(a@),
            Instruction::Jle(a) => InstrV::Jle(a@),
            Instruction::Jmp(a) => InstrV::Jmp(a@),
            Instruction::Call(a) => InstrV::Call(a@),
            Instruction::Ret => InstrV::Ret,
        }
    }
}

/// The text of a memory operand, `[reg-offset]`.
pub open spec fn mem_text(m: MemRef) -> Seq<char> {
    seq!['['] + reg_name(m.reg) + seq!['-'] + decimal(m.offset as nat) + seq![']']
}

/// The text of a source operand.
pub open spec fn arg_text(a: Arg64) -> Seq<char> {
    match a {
        Arg64::Reg(r) => reg_name(r),
        Arg64::Unsigned(v) => decimal(v as nat),
        Arg64::Mem(m) => mem_text(m),
    }
}

/// The text of the operands of an arithmetic instruction, `reg, arg`.
pub open spec fn bin_text(b: BinArgs) -> Seq<char> {
    match b {
        BinArgs::ToReg(r, a) => reg_name(r) + seq![',', ' '] + arg_text(a),
    }
}

/// The text of a move, `mov dst, src`.
pub open spec fn mov_text(m: MovArgs) -> Seq<char> {
    match m {
        MovArgs::ToReg(r, a) => seq!['m', 'o', 'v', ' '] + reg_name(r) + seq![',', ' '] + arg_text(a),
        MovArgs::ToMem(mem, r) => seq!['m', 'o', 'v', ' '] + mem_text(mem) + seq![',', ' '] + reg_name(r),
    }
}

/// The assembler text of a line.
pub open spec fn instr_text(i: InstrV) -> Seq<char> {
    match i {
        InstrV::Directive(d, v) => d + seq![' '] + v,
        InstrV::Label(l) => l + seq![':'],
        InstrV::Syscall => seq!['s', 'y', 's', 'c', 'a', 'l', 'l'],
        InstrV::Mov(m) => mov_text(m),
        InstrV::Ret => seq!['r', 'e', 't'],
        InstrV::Push(r) => seq!['p', 'u', 's', 'h', ' '] + reg_name(r),
        InstrV::Pop(r) => seq!['p', 'o', 'p', ' '] + reg_name(r),
        InstrV::Add(b) => seq!['a', 'd', 'd', ' '] + bin_text(b),
        InstrV::Sub(b) => seq!['s', 'u', 'b', ' '] + bin_text(b),
        InstrV::Mul(b) => seq!['i', 'm', 'u', 'l', ' '] + bin_text(b),
        InstrV::Cmp(b) => seq!['c', 'm', 'p', ' '] + bin_text(b),
        InstrV::And(b) => seq!['a', 'n', 'd', ' '] + bin_text(b),
        InstrV::Or(b) => seq!['o', 'r', ' '] + bin_text(b),
        InstrV::Jz(l) => seq!['j', 'z', ' '] + l,
        InstrV::Jnz(l) => seq!['j', 'n', 'z', ' '] + l,
        InstrV::Je(l) => seq!['j', 'e', ' '] + l,
        InstrV::Jne(l) => seq!['j', 'n', 'e', ' '] + l,
        InstrV::Jg(l) => seq!['j', 'g', ' '] + l,
        InstrV::Jge(l) => seq!['j', 'g', 'e', ' '] + l,
        InstrV::Jl(l) => seq!['j', 'l', ' '] + l,
        InstrV::Jle(l) => seq!['j', 'l', 'e', ' '] + l,
        InstrV::Jmp(l) => seq!['j', 'm', 'p', ' '] + l,
        InstrV::Call(l) => seq!['c', 'a', 'l', 'l', ' '] + l,
    }
}

/// `s` followed by `t`.
pub(crate) fn append(s: &mut String, t: &str)
    ensures
        final(s)@ == old(s)@ + t@,
{
    s.append(t);
}

impl MemRef {
    /// The assembler text of this operand.
    pub fn text(&self) -> (s: String)
        ensures
            s@ == mem_text(*self),
    {
        proof {
            reveal_strlit("[");
            reveal_strlit("-");
            reveal_strlit("]");
        }
        let mut s = String::from_str("[");
        append(&mut s, self.reg.name());
        append(&mut s, "-");
        let n = decimal_string(self.offset);
        append(&mut s, n.as_str());
        append(&mut s, "]");
        proof {
            assert(s@ =~= mem_text(*self));
        }
        s
    }
}

impl Arg64 {
    /// The assembler text of this operand.
    pub fn text(&self) -> (s: String)
        ensures
            s@ == arg_text(*self),
    {
        match self {
            Arg64::Reg(r) => String::from_str(r.name()),
            Arg64::Unsigned(v) => decimal_string(*v),
            Arg64::Mem(m) => m.text(),
        }
    }
}

impl BinArgs {
    /// The assembler text of these operands.
    pub fn text(&self) -> (s: String)
        ensures
            s@ == bin_text(*self),
    {
        proof {
            reveal_strlit(", ");
        }
        match self {
            BinArgs::ToReg(r, a) => {
                let mut s = String::from_str(r.name());
                append(&mut s, ", ");
                let t = a.text();
                append(&mut s, t.as_str());
                s
            },
        }
    }
}

impl MovArgs {
    /// The assembler text of this move.
    pub fn text(&self) -> (s: String)
        ensures
            s@ == mov_text(*self),
    {
        proof {
            reveal_strlit("mov ");
            reveal_strlit(", ");
        }
        let mut s = String::from_str("mov ");
        match self {
            MovArgs::ToReg(r, a) => {
                append(&mut s, r.name());
                append(&mut s, ", ");
                let t = a.text();
                append(&mut s, t.as_str());
            },
            MovArgs::ToMem(m, r) => {
                let t = m.text();
                append(&mut s, t.as_str());
                append(&mut s, ", ");
                append(&mut s, r.name());
            },
        }
        proof {
            assert(s@ =~= mov_text(*self));
        }
        s
    }
}

impl Instruction {
    /// The assembler text of this line.
    pub fn text(&self) -> (s: String)
        ensures
            s@ == instr_text(self@),
    {
        match self {
            Instruction::Directive(d, v) => {
                proof {
                    reveal_strlit(" ");
                }
                let mut s = d.clone();
                append(&mut s, " ");
                append(&mut s, v.as_str());
                proof {
                    assert(s@ =~= instr_text(self@));
                }
                s
            },
            Instruction::Label(l) => {
                proof {
                    reveal_strlit(":");
                }
                let mut s = l.clone();
                append(&mut s, ":");
                s
            },
            Instruction::Syscall => {
                proof {
                    reveal_strlit("syscall");
                }
                String::from_str("syscall")
            },
            Instruction::Ret => {
                proof {
                    reveal_strlit("ret");
                }
                String::from_str("ret")
            },
            Instruction::Mov(m) => m.text(),
            Instruction::Push(r) => {
                proof {
                    reveal_strlit("push ");
                }
                let mut s = String::from_str("push ");
                append(&mut s, r.name());
                proof {
                    assert(s@ =~= instr_text(self@));
                }
                s
            },
            Instruction::Pop(r) => {
                proof {
                    reveal_strlit("pop ");
                }
                let mut s = String::from_str("pop ");
                append(&mut s, r.name());
                proof {
                    assert(s@ =~= instr_text(self@));
                }
                s
            },
            Instruction::Add(b) => {
                proof {
                    reveal_strlit("add ");
                }
                let mut s = String::from_str("add ");
                let t = b.text();
                append(&mut s, t.as_str());
                proof {
                    assert(s@ =~= instr_text(self@));
                }
                s
            },
            Instruction::Sub(b) => {
                proof {
                    reveal_strlit("sub ");
                }
                let mut s = String::from_str("sub ");
                let t = b.text();
                append(&mut s, t.as_str());
                proof {
                    assert(s@ =~= instr_text(self@));
                }
                s
            },
            Instruction::Mul(b) => {
                proof {
                    reveal_strlit("imul ");
                }
                let mut s = String::from_str("imul ");
                let t = b.text();
                append(&mut s, t.as_str());
                proof {
                    assert(s@ =~= instr_text(self@));
                }
                s
            },
            Instruction::Cmp(b) => {
                proof {
                    reveal_strlit("cmp ");
                }
                let mut s = String::from_str("cmp ");
                let t = b.text();
                append(&mut s, t.as_str());
                proof {
                    assert(s@ =~= instr_text(self@));
                }
                s
            },
            Instruction::And(b) => {
                proof {
                    reveal_strlit("and ");
                }
                let mut s = String::from_str("and ");
                let t = b.text();
                append(&mut s, t.as_str());
                proof {
                    assert(s@ =~= instr_text(self@));
                }
                s
            },
            Instruction::Or(b) => {
                proof {
                    reveal_strlit("or ");
                }
                let mut s = String::from_str("or ");
                let t = b.text();
                append(&mut s, t.as_str());
                proof {
                    assert(s@ =~= instr_text(self@));
                }
                s
            },
            Instruction::Jz(l) => {
                proof {
                    reveal_strlit("jz ");
                }
                let mut s = String::from_str("jz ");
                append(&mut s, l.as_str());
                proof {
                    assert(s@ =~= instr_text(self@));
                }
                s
            },
            Instruction::Jnz(l) => {
                proof {
                    reveal_strlit("jnz ");
                }
                let mut s = String::from_str("jnz ");
                append(&mut s, l.as_str());
                proof {
                    assert(s@ =~= instr_text(self@));
                }
                s
            },
            Instruction::Je(l) => {
                proof {
                    reveal_strlit("je ");
                }
                let mut s = String::from_str("je ");
                append(&mut s, l.as_str());
                proof {
                    assert(s@ =~= instr_text(self@));
                }
                s
            },
            Instruction::Jne(l) => {
                proof {
                    reveal_strlit("jne ");
                }
                let mut s = String::from_str("jne ");
                append(&mut s, l.as_str());
                proof {
                    assert(s@ =~= instr_text(self@));
                }
                s
            },
            Instruction::Jg(l) => {
                proof {
                    reveal_strlit("jg ");
                }
                let mut s = String::from_str("jg ");
                append(&mut s, l.as_str());
                proof {
                    assert(s@ =~= instr_text(self@));
                }
                s
            },
            Instruction::Jge(l) => {
                proof {
                    reveal_strlit("jge ");
                }
                let mut s = String::from_str("jge ");
                append(&mut s, l.as_str());
                proof {
                    assert(s@ =~= instr_text(self@));
                }
                s
            },
            Instruction::Jl(l) => {
                proof {
                    reveal_strlit("jl ");
                }
                let mut s = String::from_str("jl ");
                append(&mut s, l.as_str());
                proof {
                    assert(s@ =~= instr_text(self@));
                }
                s
            },
            Instruction::Jle(l) => {
                proof {
                    reveal_strlit("jle ");
                }
                let mut s = String::from_str("jle ");
                append(&mut s, l.as_str());
                proof {
                    assert(s@ =~= instr_text(self@));
                }
                s
            },
            Instruction::Jmp(l) => {
                proof {
                    reveal_strlit("jmp ");
                }
                let mut s = String::from_str("jmp ");
                append(&mut s, l.as_str());
                proof {
                    assert(s@ =~= instr_text(self@));
                }
                s
            },
            Instruction::Call(l) => {
                proof {
                    reveal_strlit("call ");
                }
                let mut s = String::from_str("call ");
                append(&mut s, l.as_str());
                proof {
                    assert(s@ =~= instr_text(self@));
                }
                s
            },
        }
    }
}

} // verus!
