use vstd::prelude::*;
use vstd::string::StringExecFns;

use crate::assembly::{append, decimal, decimal_string};
use crate::ir::types::{BlockId, Instruction, Operation, TIRBlock, TIRFunction, Terminator, VirtualRegister};

verus! {

/// `_v` and the number of a value.
pub open spec fn vr_text(v: VirtualRegister) -> Seq<char> {
    seq!['_', 'v'] + decimal(v.0 as nat)
}

/// `b` and the number of a block.
pub open spec fn label_text(b: BlockId) -> Seq<char> {
    seq!['b'] + decimal(b.0 as nat)
}

/// Values separated by commas.
pub open spec fn vrs_text(vs: Seq<VirtualRegister>) -> Seq<char>
    decreases vs.len(),
{
    if vs.len() == 0 {
        Seq::empty()
    } else if vs.len() == 1 {
        vr_text(vs[0])
    } else {
        vrs_text(vs.drop_last()) + seq![',', ' '] + vr_text(vs.last())
    }
}

/// `true` or `false`.
pub open spec fn bool_text(b: bool) -> Seq<char> {
    if b { seq!['t', 'r', 'u', 'e'] } else { seq!['f', 'a', 'l', 's', 'e'] }
}

/// The mnemonic of a binary operation.
pub open spec fn binary_mnemonic(op: Operation) -> Seq<char> {
    match op {
        Operation::Add(..) => seq!['a', 'd', 'd'],
        Operation::Sub(..) => seq!['s', 'u', 'b'],
        Operation::Mul(..) => seq!['m', 'u', 'l'],
        Operation::And(..) => seq!['a', 'n', 'd'],
        Operation::Or(..) => seq!['o', 'r'],
        Operation::Lt(..) => seq!['l', 't'],
        Operation::Leq(..) => seq!['l', 'e'],
        Operation::Gt(..) => seq!['g', 't'],
        Operation::Geq(..) => seq!['g', 'e'],
        Operation::Eq(..) => seq!['e', 'q'],
        _ => seq!['n', 'e'],
    }
}

/// The text of an operation.
pub open spec fn op_text(op: Operation) -> Seq<char> {
    match op {
        Operation::ConstInt(n) => seq!['c', 'o', 'n', 's', 't', '_', 'i', 'n', 't', ' '] + decimal(n as nat),
        Operation::ConstBool(b) => seq!['c', 'o', 'n', 's', 't', '_', 'b', 'o', 'o', 'l', ' '] + bool_text(b),
        Operation::Call(f, args) => seq!['c', 'a', 'l', 'l', ' '] + f.name@ + seq!['('] + vrs_text(args@) + seq![')'],
        Operation::Add(a, b) | Operation::Sub(a, b) | Operation::Mul(a, b) | Operation::And(a, b)
        | Operation::Or(a, b) | Operation::Lt(a, b) | Operation::Leq(a, b) | Operation::Gt(a, b)
        | Operation::Geq(a, b) | Operation::Eq(a, b) | Operation::Neq(a, b) => binary_mnemonic(op) + seq![' '] + vr_text(a)
            + seq![',', ' '] + vr_text(b),
    }
}

/// `dest = op`.
pub open spec fn ir_instr_text(i: Instruction) -> Seq<char> {
    vr_text(i.dest) + seq![' ', '=', ' '] + op_text(i.op)
}

/// The text of a terminator.
pub open spec fn term_text(t: Terminator) -> Seq<char> {
    match t {
        Terminator::Void => seq!['!', '!', ' ', 'v', 'o', 'i', 'd'],
        Terminator::Branch { target, params } => seq!['b', 'r', ' '] + label_text(target) + seq!['('] + vrs_text(params@) + seq![')'],
        Terminator::ConditionalBranch { cond, then_target, then_params, else_target, else_params } => seq![
            'b',
            'r',
            '_',
            'c',
            'o',
            'n',
            'd',
            ' ',
        ] + vr_text(cond) + seq![',', ' '] + label_text(then_target) + seq!['('] + vrs_text(then_params@) + seq![
            ')',
            ',',
            ' ',
        ] + label_text(else_target) + seq!['('] + vrs_text(else_params@) + seq![')'],
        Terminator::Return(v) => seq!['r', 'e', 't', 'u', 'r', 'n', ' '] + vr_text(v),
        Terminator::Exit(v) => seq!['e', 'x', 'i', 't', ' '] + vr_text(v),
    }
}

/// The lines of the first `n` instructions, each indented and ended.
pub open spec fn instrs_text(is: Seq<Instruction>, n: int) -> Seq<char>
    decreases n,
{
    if n <= 0 {
        Seq::empty()
    } else {
        instrs_text(is, n - 1) + seq![' ', ' ', ' ', ' '] + ir_instr_text(is[n - 1]) + seq!['\n']
    }
}

/// A block: its label and parameters, its instructions, its terminator.
pub open spec fn block_text(b: TIRBlock) -> Seq<char> {
    seq![' ', ' '] + label_text(b.label) + seq!['('] + vrs_text(b.params@) + seq![')', ':', '\n'] + instrs_text(
        b.instructions@,
        b.instructions@.len() as int,
    ) + seq![' ', ' ', ' ', ' '] + term_text(b.terminator) + seq!['\n']
}

/// The first `n` blocks, each followed by an empty line.
pub open spec fn blocks_text(bs: Seq<TIRBlock>, n: int) -> Seq<char>
    decreases n,
{
    if n <= 0 {
        Seq::empty()
    } else {
        blocks_text(bs, n - 1) + block_text(bs[n - 1]) + seq!['\n']
    }
}

/// A function: its name and parameters, then its blocks in braces.
pub open spec fn function_text(f: TIRFunction) -> Seq<char> {
    seq!['f', 'n', ' '] + f.name@ + seq!['('] + vrs_text(f.params@) + seq![')', ' ', '{', '\n'] + blocks_text(
        f.blocks@,
        f.blocks@.len() as int,
    ) + seq!['}', '\n']
}

/// `s` followed by `c`.
fn append_str(s: &mut String, c: &str)
    ensures
        final(s)@ == old(s)@ + c@,
{
    append(s, c);
}

/// Appends the values `vs` separated by commas.
fn append_vrs(s: &mut String, vs: &Vec<VirtualRegister>)
    ensures
        final(s)@ == old(s)@ + vrs_text(vs@),
{
    proof {
        reveal_strlit(", ");
    }
    let ghost s0 = s@;
    let mut i: usize = 0;
    proof {
        assert(vs@.take(0) =~= Seq::<VirtualRegister>::empty());
        assert(s@ =~= s0 + vrs_text(vs@.take(0)));
    }
    while i < vs.len()
        invariant
            0 <= i <= vs@.len(),
            s@ == s0 + vrs_text(vs@.take(i as int)),
        decreases vs@.len() - i,
    {
        if i > 0 {
            append_str(s, ", ");
        }
        let t = vs[i].text();
        append(s, t.as_str());
        proof {
            reveal_strlit(", ");
            assert(vs@.take(i + 1).drop_last() =~= vs@.take(i as int));
            assert(vs@.take(i + 1).last() == vs@[i as int]);
            assert(s@ =~= s0 + vrs_text(vs@.take(i + 1)));
        }
        i = i + 1;
    }
    proof {
        assert(vs@.take(vs@.len() as int) =~= vs@);
    }
}

impl VirtualRegister {
    /// `_v` and the number of this value.
    pub fn text(&self) -> (s: String)
        ensures
            s@ == vr_text(*self),
    {
        proof {
            reveal_strlit("_v");
        }
        let mut s = String::from_str("_v");
        let n = decimal_string(self.0);
        append(&mut s, n.as_str());
        proof {
            assert(s@ =~= vr_text(*self));
        }
        s
    }
}

impl BlockId {
    /// `b` and the number of this block.
    pub fn text(&self) -> (s: String)
        ensures
            s@ == label_text(*self),
    {
        proof {
            reveal_strlit("b");
        }
        let mut s = String::from_str("b");
        let n = decimal_string(self.0);
        append(&mut s, n.as_str());
        proof {
            assert(s@ =~= label_text(*self));
        }
        s
    }
}

fn mnemonic(op: &Operation) -> (s: &'static str)
    requires
        !(op is ConstInt || op is ConstBool || op is Call),
    ensures
        s@ == binary_mnemonic(*op),
{
    match op {
        Operation::Add(..) => {
            proof {
                reveal_strlit("add");
            }
            "add"
        },
        Operation::Sub(..) => {
            proof {
                reveal_strlit("sub");
            }
            "sub"
        },
        Operation::Mul(..) => {
            proof {
                reveal_strlit("mul");
            }
            "mul"
        },
        Operation::And(..) => {
            proof {
                reveal_strlit("and");
            }
            "and"
        },
        Operation::Or(..) => {
            proof {
                reveal_strlit("or");
            }
            "or"
        },
        Operation::Lt(..) => {
            proof {
                reveal_strlit("lt");
            }
            "lt"
        },
        Operation::Leq(..) => {
            proof {
                reveal_strlit("le");
            }
            "le"
        },
        Operation::Gt(..) => {
            proof {
                reveal_strlit("gt");
            }
            "gt"
        },
        Operation::Geq(..) => {
            proof {
                reveal_strlit("ge");
            }
            "ge"
        },
        Operation::Eq(..) => {
            proof {
                reveal_strlit("eq");
            }
            "eq"
        },
        _ => {
            proof {
                reveal_strlit("ne");
            }
            "ne"
        },
    }
}

impl Operation {
    /// The text of this operation.
    pub fn text(&self) -> (s: String)
        ensures
            s@ == op_text(*self),
    {
        match self {
            Operation::ConstInt(n) => {
                proof {
                    reveal_strlit("const_int ");
                }
                let mut s = String::from_str("const_int ");
                let t = decimal_string(*n);
                append(&mut s, t.as_str());
                proof {
                    assert(s@ =~= op_text(*self));
                }
                s
            },
            Operation::ConstBool(b) => {
                proof {
                    reveal_strlit("const_bool ");
                    reveal_strlit("true");
                    reveal_strlit("false");
                }
                let mut s = String::from_str("const_bool ");
                if *b {
                    append(&mut s, "true");
                } else {
                    append(&mut s, "false");
                }
                proof {
                    assert(s@ =~= op_text(*self));
                }
                s
            },
            Operation::Call(f, args) => {
                proof {
                    reveal_strlit("call ");
                    reveal_strlit("(");
                    reveal_strlit(")");
                }
                let mut s = String::from_str("call ");
                append(&mut s, f.name.as_str());
                append(&mut s, "(");
                append_vrs(&mut s, args);
                append(&mut s, ")");
                proof {
                    assert(s@ =~= op_text(*self));
                }
                s
            },
            Operation::Add(a, b) | Operation::Sub(a, b) | Operation::Mul(a, b) | Operation::And(a, b)
            | Operation::Or(a, b) | Operation::Lt(a, b) | Operation::Leq(a, b) | Operation::Gt(a, b)
            | Operation::Geq(a, b) | Operation::Eq(a, b) | Operation::Neq(a, b) => {
                proof {
                    reveal_strlit(" ");
                    reveal_strlit(", ");
                }
                let mut s = String::from_str(mnemonic(self));
                append(&mut s, " ");
                let ta = a.text();
                append(&mut s, ta.as_str());
                append(&mut s, ", ");
                let tb = b.text();
                append(&mut s, tb.as_str());
                proof {
                    assert(s@ =~= op_text(*self));
                }
                s
            },
        }
    }
}

impl Instruction {
    /// `dest = op`.
    pub fn text(&self) -> (s: String)
        ensures
            s@ == ir_instr_text(*self),
    {
        proof {
            reveal_strlit(" = ");
        }
        let mut s = self.dest.text();
        append(&mut s, " = ");
        let t = self.op.text();
        append(&mut s, t.as_str());
        proof {
            assert(s@ =~= ir_instr_text(*self));
        }
        s
    }
}

impl Terminator {
    /// The text of this terminator.
    pub fn text(&self) -> (s: String)
        ensures
            s@ == term_text(*self),
    {
        proof {
            reveal_strlit("(");
            reveal_strlit(")");
        }
        match self {
            Terminator::Void => {
                proof {
                    reveal_strlit("!! void");
                }
                String::from_str("!! void")
            },
            Terminator::Branch { target, params } => {
                proof {
                    reveal_strlit("br ");
                }
                let mut s = String::from_str("br ");
                let t = target.text();
                append(&mut s, t.as_str());
                append(&mut s, "(");
                append_vrs(&mut s, params);
                append(&mut s, ")");
                proof {
                    assert(s@ =~= term_text(*self));
                }
                s
            },
            Terminator::ConditionalBranch { cond, then_target, then_params, else_target, else_params } => {
                proof {
                    reveal_strlit("br_cond ");
                    reveal_strlit(", ");
                    reveal_strlit("), ");
                }
                let mut s = String::from_str("br_cond ");
                let c = cond.text();
                append(&mut s, c.as_str());
                append(&mut s, ", ");
                let t = then_target.text();
                append(&mut s, t.as_str());
                append(&mut s, "(");
                append_vrs(&mut s, then_params);
                append(&mut s, "), ");
                let e = else_target.text();
                append(&mut s, e.as_str());
                append(&mut s, "(");
                append_vrs(&mut s, else_params);
                append(&mut s, ")");
                proof {
                    assert(s@ =~= term_text(*self));
                }
                s
            },
            Terminator::Return(v) => {
                proof {
                    reveal_strlit("return ");
                }
                let mut s = String::from_str("return ");
                let t = v.text();
                append(&mut s, t.as_str());
                proof {
                    assert(s@ =~= term_text(*self));
                }
                s
            },
            Terminator::Exit(v) => {
                proof {
                    reveal_strlit("exit ");
                }
                let mut s = String::from_str("exit ");
                let t = v.text();
                append(&mut s, t.as_str());
                proof {
                    assert(s@ =~= term_text(*self));
                }
                s
            },
        }
    }
}

impl TIRBlock {
    /// The lines of this block.
    pub fn text(&self) -> (s: String)
        ensures
            s@ == block_text(*self),
    {
        proof {
            reveal_strlit("  ");
            reveal_strlit("(");
            reveal_strlit("):\n");
        }
        let mut s = String::from_str("  ");
        let l = self.label.text();
        append(&mut s, l.as_str());
        append(&mut s, "(");
        append_vrs(&mut s, &self.params);
        append(&mut s, "):\n");
        let ghost head = s@;
        let ghost is = self.instructions@;
        let mut i: usize = 0;
        while i < self.instructions.len()
            invariant
                0 <= i <= is.len(),
                is == self.instructions@,
                s@ == head + instrs_text(is, i as int),
            decreases is.len() - i,
        {
            proof {
                reveal_strlit("    ");
                reveal_strlit("\n");
            }
            append(&mut s, "    ");
            let t = self.instructions[i].text();
            append(&mut s, t.as_str());
            append(&mut s, "\n");
            proof {
                assert(s@ =~= head + instrs_text(is, i + 1));
            }
            i = i + 1;
        }
        proof {
            reveal_strlit("    ");
            reveal_strlit("\n");
        }
        append(&mut s, "    ");
        let t = self.terminator.text();
        append(&mut s, t.as_str());
        append(&mut s, "\n");
        proof {
            assert(s@ =~= block_text(*self));
        }
        s
    }
}

impl TIRFunction {
    /// The text of this function.
    pub fn text(&self) -> (s: String)
        ensures
            s@ == function_text(*self),
    {
        proof {
            reveal_strlit("fn ");
            reveal_strlit("(");
            reveal_strlit(") {\n");
            reveal_strlit("}\n");
        }
        let mut s = String::from_str("fn ");
        append(&mut s, self.name.as_str());
        append(&mut s, "(");
        append_vrs(&mut s, &self.params);
        append(&mut s, ") {\n");
        let ghost head = s@;
        let ghost bs = self.blocks@;
        let mut i: usize = 0;
        while i < self.blocks.len()
            invariant
                0 <= i <= bs.len(),
                bs == self.blocks@,
                s@ == head + blocks_text(bs, i as int),
            decreases bs.len() - i,
        {
            proof {
                reveal_strlit("\n");
            }
            let t = self.blocks[i].text();
            append(&mut s, t.as_str());
            append(&mut s, "\n");
            proof {
                assert(s@ =~= head + blocks_text(bs, i + 1));
            }
            i = i + 1;
        }
        append(&mut s, "}\n");
        proof {
            assert(s@ =~= function_text(*self));
        }
        s
    }
}

} // verus!
