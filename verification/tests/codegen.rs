use tibanna::assembly::{Arg64, Instruction, MemRef, MovArgs, Reg};
use tibanna::backend::allocator::Allocator;
use tibanna::backend::target::Target;
use tibanna::backend::targets::peephole::peephole;
use tibanna::backend::targets::x86_64::{self, X86_64};
use tibanna::compile::Compiler;
use tibanna::ir::builder::IRBuilder;
use tibanna::ir::lower::lower_program;
use tibanna::ir::types::{BlockId, Operation, Terminator, VirtualRegister};
use tibanna::lexer::Lexer;
use tibanna::parser::{Parser, Program};
use tibanna::resolver::Resolver;

fn parse(src: &str) -> Program {
    Parser::new(Lexer::new(src).tokenize().unwrap()).parse().unwrap()
}

#[test]
fn test_mov_display() {
    let mov = Instruction::Mov(MovArgs::ToReg(Reg::Rax, Arg64::Reg(Reg::Rdi)));
    assert_eq!(mov.text(), "mov rax, rdi");

    let mov = Instruction::Mov(MovArgs::ToReg(Reg::Rax, Arg64::Mem(MemRef { reg: Reg::Rbp, offset: 8 })));
    assert_eq!(mov.text(), "mov rax, [rbp-8]");
}

#[test]
fn compiler_emits_exit_syscall() {
    let program = parse("fn main() { exit(42); }");
    let lines: Vec<String> = Compiler::new(program).compile().iter().map(|i| i.text()).collect();
    assert!(lines.iter().any(|l| l.contains("syscall")));
    assert!(lines.iter().any(|l| l.contains("42")));
    assert!(lines.iter().any(|l| l == "main:"));
}

#[test]
fn builder_numbers_values_and_blocks() {
    let mut b = IRBuilder::new();
    assert_eq!(b.current(), BlockId(0));
    let v0 = b.value();
    let v1 = b.emit(Operation::ConstInt(3));
    assert_eq!(v0, VirtualRegister(0));
    assert_eq!(v1, VirtualRegister(1));
    let l = b.init_block();
    assert_eq!(l, BlockId(1));
    b.terminate(Terminator::Return(v1));
    b.switch_to(l);
    b.terminate(Terminator::Exit(v0));
    let blocks = b.to_blocks();
    assert_eq!(blocks.len(), 2);
    assert_eq!(blocks[0].instructions.len(), 1);
    assert_eq!(blocks[0].terminator, Terminator::Return(VirtualRegister(1)));
    assert_eq!(blocks[1].label, BlockId(1));
    assert_eq!(blocks[1].terminator, Terminator::Exit(VirtualRegister(0)));
}

#[test]
fn lowering_threads_variables_through_values() {
    let program = parse("fn main() { let x = 1; let y = x + 2; exit(y); }");
    let resolved = Resolver::new().resolve_program(program).unwrap();
    let functions = lower_program(resolved);
    assert_eq!(functions.len(), 1);
    let f = &functions[0];
    assert_eq!(f.name, "main");
    assert_eq!(f.blocks.len(), 1);
    let b = &f.blocks[0];
    assert_eq!(b.instructions.len(), 3);
    assert_eq!(b.instructions[0].op, Operation::ConstInt(1));
    assert_eq!(b.instructions[1].op, Operation::ConstInt(2));
    assert_eq!(b.instructions[2].op, Operation::Add(VirtualRegister(0), VirtualRegister(1)));
    assert_eq!(b.terminator, Terminator::Exit(VirtualRegister(2)));
}

#[test]
fn lowering_if_merges_variables() {
    let program = parse("fn main() { let x = 1; if true { x = 2; } exit(x); }");
    let resolved = Resolver::new().resolve_program(program).unwrap();
    let functions = lower_program(resolved);
    let f = &functions[0];
    // entry, then, else, merge
    assert_eq!(f.blocks.len(), 4);
    assert_eq!(f.blocks[3].params.len(), 1);
    match &f.blocks[0].terminator {
        Terminator::ConditionalBranch { then_target, else_target, .. } => {
            assert_eq!(*then_target, BlockId(1));
            assert_eq!(*else_target, BlockId(2));
        },
        t => panic!("unexpected terminator {:?}", t),
    }
    assert_eq!(f.blocks[3].terminator, Terminator::Exit(f.blocks[3].params[0]));
}

#[test]
fn lowering_gives_void_function_a_return() {
    let program = parse("fn main() { exit(0); } fn f() { let x = 1; }");
    let resolved = Resolver::new().resolve_program(program).unwrap();
    let functions = lower_program(resolved);
    assert_eq!(functions.len(), 2);
    assert_eq!(functions[1].name, "f");
    assert_eq!(functions[1].blocks.last().unwrap().terminator, Terminator::Return(VirtualRegister(0)));
}

#[test]
fn lowering_while_adds_three_blocks() {
    let program = parse("fn main() { let i = 0; while i < 3 { i = i + 1; } exit(i); }");
    let resolved = Resolver::new().resolve_program(program).unwrap();
    let functions = lower_program(resolved);
    let f = &functions[0];
    assert_eq!(f.blocks.len(), 4);
    for b in &f.blocks[1..] {
        assert_eq!(b.params.len(), 1);
    }
    assert_eq!(f.blocks[0].terminator, Terminator::Branch { target: BlockId(1), params: vec![VirtualRegister(0)] });
}

#[test]
fn x86_emits_function_with_frame_and_exit() {
    let program = parse("fn main() { let x = 1; let y = x + 2; exit(y); }");
    let resolved = Resolver::new().resolve_program(program).unwrap();
    let mut functions = lower_program(resolved);
    let f = functions.remove(0);
    let mut target = X86_64::new();
    let alloc = Allocator::new(&f, target.num_gp_registers());
    target.asm_header();
    target.emit(f, alloc);
    let text = target.assembly();
    let lines: Vec<&str> = text.lines().collect();
    assert_eq!(lines[0], "global _start");
    assert_eq!(lines[1], "_start:");
    assert_eq!(lines[4], "    call main");
    assert_eq!(lines[5], "main:");
    assert_eq!(lines[6], "    push rbp");
    assert_eq!(lines[7], "    mov rbp, rsp");
    assert_eq!(lines[8], "    sub rsp, 0");
    assert_eq!(lines[9], "main_b0:");
    assert!(lines.contains(&"    mov rax, 60"));
    assert!(lines.contains(&"    syscall"));
    assert_eq!(*lines.last().unwrap(), "    ret");
}

#[test]
fn x86_setcc_uses_low_byte() {
    let i = x86_64::Instruction::Setcc(x86_64::CC::LE, x86_64::Reg::R9);
    assert_eq!(i.text(), "    setle r9b");
    let m = x86_64::Instruction::Mov(x86_64::MovArgs::ToMem(
        x86_64::MemRef { reg: x86_64::Reg::Rbp, offset: 16 },
        x86_64::Arg64::Reg(x86_64::Reg::R10),
    ));
    assert_eq!(m.text(), "    mov [rbp-16], r10");
}

#[test]
fn peephole_removes_self_moves() {
    let mut v = vec![
        x86_64::Instruction::Mov(x86_64::MovArgs::ToReg(x86_64::Reg::Rax, x86_64::Arg64::Reg(x86_64::Reg::Rax))),
        x86_64::Instruction::Mov(x86_64::MovArgs::ToReg(x86_64::Reg::Rax, x86_64::Arg64::Reg(x86_64::Reg::Rdi))),
        x86_64::Instruction::Push(x86_64::Reg::Rax),
        x86_64::Instruction::Ret,
    ];
    peephole(&mut v);
    assert_eq!(v.len(), 3);
    assert_eq!(v[0].text(), "    mov rax, rdi");
    assert_eq!(v[1].text(), "    push rax");
}

#[test]
fn ir_text_matches_the_documented_form() {
    let program = parse("fn main() { let x = 1; if x < 2 { x = x + 1; } exit(x); }");
    let resolved = Resolver::new().resolve_program(program).unwrap();
    let functions = lower_program(resolved);
    let text = functions[0].text();
    assert!(text.starts_with("fn main() {\n  b0():\n    _v0 = const_int 1\n    _v1 = const_int 2\n    _v2 = lt _v0, _v1\n    br_cond _v2, b1(), b2()\n"));
    assert!(text.contains("  b3(_v5):\n    exit _v5\n"));
    assert!(text.ends_with("}\n"));
    assert_eq!(Operation::Call(tibanna::resolver::FunctionId { name: "foo".into(), id: 0 }, vec![VirtualRegister(0), VirtualRegister(1)]).text(), "call foo(_v0, _v1)");
    assert_eq!(Terminator::Void.text(), "!! void");
    assert_eq!(Operation::ConstBool(true).text(), "const_bool true");
}

#[test]
fn lowered_code_defines_each_value_once() {
    let program = parse(
        "fn main() { let x = 0; let i = 0; while i < 3 { let j = 0; while j < 2 { x = inc(x); j = inc(j); } i = inc(i); } exit(x); } fn inc(a: int) = int { return a + 1; }",
    );
    let resolved = Resolver::new().resolve_program(program).unwrap();
    for f in lower_program(resolved) {
        let mut seen = std::collections::HashSet::new();
        for (i, b) in f.blocks.iter().enumerate() {
            assert_eq!(b.label, BlockId(i));
            for p in &b.params {
                assert!(seen.insert(*p), "{:?} defined twice", p);
            }
            for ins in &b.instructions {
                assert!(seen.insert(ins.dest), "{:?} defined twice", ins.dest);
            }
        }
    }
}

#[test]
fn peephole_twice_is_peephole_once() {
    let mut v = vec![
        x86_64::Instruction::Mov(x86_64::MovArgs::ToReg(x86_64::Reg::R8, x86_64::Arg64::Reg(x86_64::Reg::R8))),
        x86_64::Instruction::Pop(x86_64::Reg::Rax),
        x86_64::Instruction::Mov(x86_64::MovArgs::ToReg(x86_64::Reg::Rdi, x86_64::Arg64::Reg(x86_64::Reg::Rdi))),
        x86_64::Instruction::Ret,
    ];
    peephole(&mut v);
    let once: Vec<String> = v.iter().map(|i| i.text()).collect();
    peephole(&mut v);
    let twice: Vec<String> = v.iter().map(|i| i.text()).collect();
    assert_eq!(once, vec!["    pop rax".to_string(), "    ret".to_string()]);
    assert_eq!(once, twice);
}

#[test]
fn lowering_leaves_no_block_without_terminator() {
    let program = parse("fn main() { let x = 0; while x < 1 { if true { x = 1; } } }");
    let resolved = Resolver::new().resolve_program(program).unwrap();
    let functions = lower_program(resolved);
    for f in &functions {
        for b in &f.blocks {
            assert_ne!(b.terminator, Terminator::Void);
        }
    }
}

#[test]
fn lowering_gives_entry_block_the_parameters() {
    let program = parse("fn main() { exit(add(1, 2)); } fn add(a: int, b: int) = int { while a < b { a = a + 1; } return a + b; }");
    let resolved = Resolver::new().resolve_program(program).unwrap();
    let functions = lower_program(resolved);
    let f = &functions[1];
    assert_eq!(f.name, "add");
    assert_eq!(f.params.len(), 2);
    assert_eq!(f.blocks[0].params, f.params);
}

#[test]
fn lowering_edges_pass_one_value_per_parameter() {
    let program = parse("fn main() { let x = 0; let y = 1; while x < 3 { if x == 1 { y = y + x; } else { y = 2; } x = x + 1; } exit(y); }");
    let resolved = Resolver::new().resolve_program(program).unwrap();
    let functions = lower_program(resolved);
    for f in &functions {
        for b in &f.blocks {
            let edges: Vec<(BlockId, usize)> = match &b.terminator {
                Terminator::Branch { target, params } => vec![(*target, params.len())],
                Terminator::ConditionalBranch { then_target, then_params, else_target, else_params, .. } => {
                    vec![(*then_target, then_params.len()), (*else_target, else_params.len())]
                }
                _ => vec![],
            };
            for (t, n) in edges {
                assert_eq!(f.blocks[t.0].params.len(), n);
            }
        }
    }
}
