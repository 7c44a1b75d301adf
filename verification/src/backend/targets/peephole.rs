use vstd::prelude::*;

use crate::backend::targets::x86_64::{Arg64, Instruction, MovArgs, XI, xis};

verus! {

/// A move of a register to itself.
pub open spec fn is_self_move(i: XI) -> bool {
    match i {
        XI::Mov(MovArgs::ToReg(r1, Arg64::Reg(r2))) => r1 == r2,
        _ => false,
    }
}

/// `s` without its moves of a register to itself.
pub open spec fn drop_self_moves(s: Seq<XI>) -> Seq<XI>
    decreases s.len(),
{
    if s.len() == 0 {
        Seq::empty()
    } else {
        drop_self_moves(s.drop_last()) + if is_self_move(s.last()) { Seq::empty() } else { seq![s.last()] }
    }
}

/// The instruction at `j` pushes a register that the next one pops.
pub open spec fn push_pop_at(s: Seq<XI>, j: int) -> bool {
    match s[j] {
        XI::Push(r) => s[j + 1] == XI::Pop(r),
        _ => false,
    }
}

/// Some push of a register is directly followed by a pop of it.
pub open spec fn has_push_pop(s: Seq<XI>) -> bool {
    exists|j: int| 0 <= j && j + 1 < s.len() && #[trigger] push_pop_at(s, j)
}

proof fn lemma_drop_self_moves_clean(s: Seq<XI>)
    ensures
        forall|k: int| 0 <= k < drop_self_moves(s).len() ==> !is_self_move(#[trigger] drop_self_moves(s)[k]),
        drop_self_moves(s).len() <= s.len(),
    decreases s.len(),
{
    if s.len() > 0 {
        lemma_drop_self_moves_clean(s.drop_last());
    }
}

proof fn lemma_drop_clean_is_identity(s: Seq<XI>)
    requires
        forall|k: int| 0 <= k < s.len() ==> !is_self_move(#[trigger] s[k]),
    ensures
        drop_self_moves(s) == s,
    decreases s.len(),
{
    if s.len() > 0 {
        lemma_drop_clean_is_identity(s.drop_last());
        assert(s.drop_last().push(s.last()) =~= s);
    }
}

/// Dropping self moves a second time changes nothing.
pub proof fn lemma_drop_self_moves_idempotent(s: Seq<XI>)
    ensures
        drop_self_moves(drop_self_moves(s)) == drop_self_moves(s),
{
    lemma_drop_self_moves_clean(s);
    lemma_drop_clean_is_identity(drop_self_moves(s));
}

fn is_redundant_mov(i: &Instruction) -> (b: bool)
    ensures
        b == is_self_move(i@),
{
    match i {
        Instruction::Mov(MovArgs::ToReg(r1, Arg64::Reg(r2))) => *r1 == *r2,
        _ => false,
    }
}

/// Removes the moves of a register to itself; reports whether there were any.
fn remove_redundant_movs(instructions: &mut Vec<Instruction>) -> (changed: bool)
    ensures
        xis(final(instructions)@) == drop_self_moves(xis(old(instructions)@)),
        changed == (drop_self_moves(xis(old(instructions)@)).len() != old(instructions)@.len()),
{
    let ghost orig = xis(instructions@);
    let before = instructions.len();
    let mut i: usize = 0;
    let ghost mut j: int = 0;
    while i < instructions.len()
        invariant
            0 <= j <= orig.len(),
            orig.len() == before,
            xis(instructions@) == drop_self_moves(orig.take(j)) + orig.skip(j),
            i == drop_self_moves(orig.take(j)).len(),
        decreases orig.len() - j,
    {
        proof {
            assert(orig.take(j + 1).drop_last() =~= orig.take(j));
            assert(xis(instructions@)[i as int] == orig[j]);
        }
        if is_redundant_mov(&instructions[i]) {
            let ghost xs0 = xis(instructions@);
            let _ = instructions.remove(i);
            proof {
                assert(xis(instructions@) =~= xs0.remove(i as int));
                assert(xis(instructions@) =~= drop_self_moves(orig.take(j + 1)) + orig.skip(j + 1));
            }
        } else {
            proof {
                assert(xis(instructions@) =~= drop_self_moves(orig.take(j + 1)) + orig.skip(j + 1));
            }
            i = i + 1;
        }
        proof {
            j = j + 1;
        }
    }
    proof {
        assert(orig.take(j) =~= orig);
        assert(orig.skip(j) =~= Seq::<XI>::empty());
        assert(xis(instructions@) =~= drop_self_moves(orig));
    }
    before != instructions.len()
}

/// Whether some push of a register is directly followed by a pop of it. The instructions stay
/// as they are.
fn remove_push_pop(instructions: &[Instruction]) -> (found: bool)
    ensures
        found == has_push_pop(xis(instructions@)),
{
    let ghost xs = xis(instructions@);
    let mut j: usize = 0;
    while j < instructions.len()
        invariant
            xs == xis(instructions@),
            xs.len() == instructions@.len(),
            forall|k: int| 0 <= k < j && k + 1 < xs.len() ==> !#[trigger] push_pop_at(xs, k),
        decreases instructions@.len() - j,
    {
        if j + 1 < instructions.len() {
            match (&instructions[j], &instructions[j + 1]) {
                (Instruction::Push(r1), Instruction::Pop(r2)) => {
                    if *r1 == *r2 {
                        proof {
                            assert(push_pop_at(xs, j as int));
                        }
                        return true;
                    }
                },
                _ => {},
            }
        }
        j = j + 1;
    }
    false
}

/// Removes moves of a register to itself. The search for a push directly followed by a pop of
/// the same register finds them but removes nothing, so the rewriting only ends where there is
/// no such pair.
pub fn peephole(instructions: &mut Vec<Instruction>)
    requires
        !has_push_pop(drop_self_moves(xis(old(instructions)@))),
    ensures
        xis(final(instructions)@) == drop_self_moves(xis(old(instructions)@)),
{
    let ghost orig = xis(instructions@);
    loop
        invariant
            drop_self_moves(xis(instructions@)) == drop_self_moves(orig),
            !has_push_pop(drop_self_moves(orig)),
        ensures
            xis(instructions@) == drop_self_moves(orig),
        decreases instructions@.len(),
    {
        proof {
            lemma_drop_self_moves_clean(xis(instructions@));
        }
        let mut changed = false;
        let c1 = remove_redundant_movs(instructions);
        changed = changed || c1;
        let c2 = remove_push_pop(instructions.as_slice());
        changed = changed || c2;
        proof {
            lemma_drop_self_moves_idempotent(orig);
            lemma_drop_self_moves_clean(orig);
        }
        if !changed {
            break;
        }
    }
}

} // verus!
