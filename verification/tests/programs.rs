use std::collections::HashMap;

use tibanna::backend::allocator::Allocator;
use tibanna::backend::constant::ConstantFolding;
use tibanna::backend::dce::DeadCodeElimination;
use tibanna::backend::pass::OptimizationPass;
use tibanna::backend::target::Target;
use tibanna::backend::targets::x86_64::X86_64;
use tibanna::ir::lower::lower_program;
use tibanna::lexer::Lexer;
use tibanna::parser::Parser;
use tibanna::resolver::Resolver;

/// Compiles `src` as the compiler's driver does (lowering, constant folding and dead code
/// elimination until nothing changes, register allocation, x86-64 emission) and gives the
/// assembly text.
fn compile(src: &str) -> String {
    let prog = Parser::new(Lexer::new(src).tokenize().unwrap()).parse().unwrap();
    let resolved = Resolver::default().resolve_program(prog).unwrap();
    let functions = lower_program(resolved);
    if functions[0].name != "main" {
        panic!("not yet implemented: Support lib files that don't have a main function");
    }
    let mut target = X86_64::default();
    target.asm_header();
    let mut cf = ConstantFolding;
    let mut dce = DeadCodeElimination;
    for mut function in functions {
        loop {
            let mut changed = false;
            assert!(cf.can_run(&function));
            changed |= cf.run(&mut function);
            changed |= dce.run(&mut function);
            if !changed {
                break;
            }
        }
        let allocator = Allocator::new(&function, target.num_gp_registers());
        target.emit(function, allocator);
    }
    target.assembly()
}

const REGS: [&str; 16] = [
    "rax", "rbx", "rcx", "rdx", "rsi", "rdi", "rbp", "rsp", "r8", "r9", "r10", "r11", "r12", "r13", "r14", "r15",
];
const LOW: [&str; 16] = [
    "al", "bl", "cl", "dl", "sil", "dil", "bpl", "spl", "r8b", "r9b", "r10b", "r11b", "r12b", "r13b", "r14b", "r15b",
];

enum Operand {
    Reg(usize),
    Low(usize),
    Imm(u64),
    Mem(usize, u64),
}

fn operand(s: &str) -> Operand {
    let s = s.trim();
    if let Some(inner) = s.strip_prefix('[').and_then(|t| t.strip_suffix(']')) {
        let (r, off) = inner.split_once('-').unwrap();
        return Operand::Mem(REGS.iter().position(|x| *x == r).unwrap(), off.parse().unwrap());
    }
    if let Some(i) = REGS.iter().position(|x| *x == s) {
        return Operand::Reg(i);
    }
    if let Some(i) = LOW.iter().position(|x| *x == s) {
        return Operand::Low(i);
    }
    Operand::Imm(s.parse().unwrap())
}

/// Runs x86-64 assembly text from `_start` until the exit system call and gives the exit code.
fn run(text: &str) -> i32 {
    let lines: Vec<&str> = text.lines().map(|l| l.trim()).collect();
    let mut labels = HashMap::new();
    for (i, l) in lines.iter().enumerate() {
        if let Some(name) = l.strip_suffix(':') {
            labels.insert(name.to_string(), i);
        }
    }
    let mut regs = [0u64; 16];
    let mut mem: HashMap<u64, u64> = HashMap::new();
    regs[7] = 1 << 40;
    let mut flags: (i64, i64) = (0, 0);
    let mut pc = labels["_start"];
    for _ in 0..1_000_000 {
        let line = lines[pc];
        pc += 1;
        if line.is_empty() || line.ends_with(':') || line.starts_with("global") {
            continue;
        }
        let (op, rest) = line.split_once(' ').unwrap_or((line, ""));
        let args: Vec<&str> = if rest.is_empty() { vec![] } else { rest.split(", ").collect() };
        let read = |o: &Operand, regs: &[u64; 16], mem: &HashMap<u64, u64>| -> u64 {
            match o {
                Operand::Reg(r) => regs[*r],
                Operand::Low(r) => regs[*r] & 0xff,
                Operand::Imm(v) => *v,
                Operand::Mem(r, off) => *mem.get(&(regs[*r] - off)).unwrap_or(&0),
            }
        };
        match op {
            "syscall" => {
                assert_eq!(regs[0], 60, "only the exit system call is expected");
                return (regs[5] & 0xff) as i32;
            }
            "push" => {
                let v = read(&operand(args[0]), &regs, &mem);
                regs[7] -= 8;
                mem.insert(regs[7], v);
            }
            "pop" => {
                let v = *mem.get(&regs[7]).unwrap_or(&0);
                regs[7] += 8;
                if let Operand::Reg(r) = operand(args[0]) {
                    regs[r] = v;
                }
            }
            "call" => {
                regs[7] -= 8;
                mem.insert(regs[7], pc as u64);
                pc = labels[args[0]];
            }
            "ret" => {
                pc = *mem.get(&regs[7]).unwrap() as usize;
                regs[7] += 8;
            }
            "jmp" | "jz" | "jnz" | "je" | "jne" | "jg" | "jge" | "jl" | "jle" => {
                let (a, b) = flags;
                let taken = match op {
                    "jmp" => true,
                    "jz" | "je" => a == b,
                    "jnz" | "jne" => a != b,
                    "jg" => a > b,
                    "jge" => a >= b,
                    "jl" => a < b,
                    _ => a <= b,
                };
                if taken {
                    pc = labels[args[0]];
                }
            }
            _ if op.starts_with("set") => {
                let (a, b) = flags;
                let bit = match &op[3..] {
                    "e" => a == b,
                    "ne" => a != b,
                    "g" => a > b,
                    "ge" => a >= b,
                    "l" => a < b,
                    _ => a <= b,
                };
                if let Operand::Low(r) = operand(args[0]) {
                    regs[r] = (regs[r] & !0xff) | bit as u64;
                }
            }
            _ => {
                let dst = operand(args[0]);
                let src = read(&operand(args[1]), &regs, &mem);
                let old = read(&dst, &regs, &mem);
                let value = match op {
                    "mov" => src,
                    "add" => old.wrapping_add(src),
                    "sub" => old.wrapping_sub(src),
                    "imul" => old.wrapping_mul(src),
                    "and" => old & src,
                    "or" => old | src,
                    "xor" => old ^ src,
                    "cmp" => {
                        flags = (old as i64, src as i64);
                        continue;
                    }
                    other => panic!("unexpected instruction {}", other),
                };
                if op == "sub" {
                    flags = (old as i64, src as i64);
                } else if op != "mov" {
                    flags = (value as i64, 0);
                }
                match dst {
                    Operand::Reg(r) => regs[r] = value,
                    Operand::Mem(r, off) => {
                        mem.insert(regs[r] - off, value);
                    }
                    _ => panic!("bad destination in {}", line),
                }
            }
        }
    }
    panic!("the program did not exit");
}

fn compile_and_run(src: &str) -> i32 {
    run(&compile(src))
}

#[test]
fn functions_test_it_works() {
    let prog = r#"
        fn main() {
            let x = 1;
            exit(x);
        }
    "#;
    assert_eq!(compile_and_run(prog), 1);
}

#[test]
fn test_function_call() {
    let prog = r#"
        fn main() {
            inc_and_exit(0);
        }

        fn inc_and_exit(x: int) {
            exit(x + 1);
        }
    "#;
    assert_eq!(compile_and_run(prog), 1);
}

#[test]
fn test_function_return() {
    let prog = r#"
        fn main() {
            let y = inc_and_ret(0);
            exit(y);
        }

        fn inc_and_ret(x: int) = int {
            return x + 1;
        }
    "#;
    assert_eq!(compile_and_run(prog), 1);
}

#[test]
fn test_main_entry() {
    let prog = r#"
        fn inc_and_ret(x: int) = int {
            return x + 1;
        }

        fn main() {
            let y = inc_and_ret(0);
            exit(y);
        }
    "#;
    assert_eq!(compile_and_run(prog), 1);
}

#[test]
#[should_panic(expected = "not yet implemented: Support lib files that don't have a main function")]
fn test_no_main_panics() {
    let prog = r#"
        fn inc_and_ret() = int {
            exit(1);
        }

    "#;
    let _ = compile_and_run(prog);
}

#[test]
fn test_variable_shadow() {
    let prog = r#"
        fn main() {
            let x = 1;
            if x > 0 {
                let x = 2;
            }

            exit(x);
        }
    "#;
    assert_eq!(compile_and_run(prog), 1);
}

#[test]
fn test_variable_shadow_different_type() {
    let prog = r#"
        fn main() {
            let x = 1;
            if x > 0 {
                let x = false;
            }

            exit(x);
        }
    "#;
    assert_eq!(compile_and_run(prog), 1);
}

#[test]
fn test_function_scope() {
    let prog = r#"
        fn main() {
            let x = 5;
            foo();
            exit(x);
        }

        fn foo() {
            let x = false;
        }
    "#;
    assert_eq!(compile_and_run(prog), 5);
}

#[test]
fn test_while() {
    let prog = r#"
        fn main() {
            let x = 0;
            while x < 10 {
                x = x + 1;
            }
            exit(x);
        }
    "#;
    assert_eq!(compile_and_run(prog), 10);
}

#[test]
fn test_condition_failure() {
    let prog = r#"
        fn main() {
            let x = 0;
            while x < 0 {
                x = x + 1;
            }
            exit(x);
        }
    "#;
    assert_eq!(compile_and_run(prog), 0);
}

#[test]
fn while_test_nested() {
    let prog = r#"
        fn main() {
            let x = 0;
            let i = 0;

            while i < 3 {
                let j = 0;
                while j < 2 {
                    x = x + 1;
                    j = j + 1;
                }
                i = i + 1;
            }
            exit(x);
        }
    "#;
    assert_eq!(compile_and_run(prog), 6);
}
