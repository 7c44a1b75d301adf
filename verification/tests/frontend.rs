use tibanna::analyze::Analyzer;
use tibanna::lexer::token::Token;
use tibanna::lexer::{LexError, Lexer};
use tibanna::parser::{Parser, Program};
use tibanna::resolver::{ResolveError, Resolver};
use tibanna::types::TypeChecker;

fn parse(src: &str) -> Program {
    Parser::new(Lexer::new(src).tokenize().unwrap()).parse().unwrap()
}

#[test]
fn analyze_test_binary_expr() {
    let ast = parse("fn main() { let x = true + 2; }");
    let mut checker = Analyzer::new(&ast);
    assert!(checker.check().is_err());

    let ast = parse("fn main() { let x = 2 + 2; }");
    let mut checker = Analyzer::new(&ast);
    assert!(checker.check().is_ok());
}

#[test]
fn analyze_test_exit() {
    let ast = parse("fn main() { exit(false); }");
    let mut checker = Analyzer::new(&ast);
    assert!(checker.check().is_err());

    let ast = parse("fn main() { exit(2 + false); }");
    let mut checker = Analyzer::new(&ast);
    assert!(checker.check().is_err());

    let ast = parse("fn main() { exit(2); }");
    let mut checker = Analyzer::new(&ast);
    assert!(checker.check().is_ok());

    let ast = parse("fn main() { exit(2 + 2); }");
    let mut checker = Analyzer::new(&ast);
    assert!(checker.check().is_ok());
}

#[test]
fn analyze_test_assignment() {
    let ast = parse("fn main() { let x = 2; x = 3; }");
    let mut checker = Analyzer::new(&ast);
    assert!(checker.check().is_ok());

    let ast = parse("fn main() { let x = 2; x = false; }");
    let mut checker = Analyzer::new(&ast);
    assert!(checker.check().is_err());
}

#[test]
fn test_return_type() {
    let ast = parse("fn main() = int { return 2; }");
    let mut checker = Analyzer::new(&ast);
    assert!(checker.check().is_ok());

    let ast = parse("fn main() = int { return false; }");
    let mut checker = Analyzer::new(&ast);
    assert!(checker.check().is_err());
}

#[test]
fn test_function_arguments() {
    let ast = parse("fn main() { let x = 1; let y = inc(x); } fn inc(x: int) = int { return x + 1; }");
    let mut checker = Analyzer::new(&ast);
    assert!(checker.check().is_ok());

    let ast = parse("fn main() { let x = false; let y = inc(x); } fn inc(x: int) = int { return x + 1; }");
    let mut checker = Analyzer::new(&ast);
    assert!(checker.check().is_err());
}

#[test]
fn test_return_path_validation() {
    let ast = parse(
        "fn main() { let x = 1; let y = inc(x); } fn inc(x: int) = int { if x == 1 { return 2; } else { let y = 3; } }",
    );
    let mut checker = Analyzer::new(&ast);
    assert!(checker.check().is_err());

    let ast = parse(
        "fn main() { let x = 1; let y = inc(x); } fn inc(x: int) = int { if x == 1 { return 2; } else { let y = 3; } return x + 1; }",
    );
    let mut checker = Analyzer::new(&ast);
    assert!(checker.check().is_ok());
}

#[test]
fn test_variable_scope() {
    let ast = parse("fn main() { x = 1; }");
    let mut checker = Analyzer::new(&ast);
    assert!(checker.check().is_err());

    let ast = parse("fn main() { if true { let x = 1; } exit(x); }");
    let mut checker = Analyzer::new(&ast);
    assert!(checker.check().is_err());
}

#[test]
fn types_test_binary_expr() {
    let ast = parse("fn main() { let x = true + 2; }");
    let mut checker = TypeChecker::new(&ast);
    assert!(checker.check().is_err());

    let ast = parse("fn main() { let x = 2 + 2; }");
    let mut checker = TypeChecker::new(&ast);
    assert!(checker.check().is_ok());
}

#[test]
fn types_test_exit() {
    let ast = parse("fn main() { exit(false); }");
    let mut checker = TypeChecker::new(&ast);
    assert!(checker.check().is_err());

    let ast = parse("fn main() { exit(2 + false); }");
    let mut checker = TypeChecker::new(&ast);
    assert!(checker.check().is_err());

    let ast = parse("fn main() { exit(2); }");
    let mut checker = TypeChecker::new(&ast);
    assert!(checker.check().is_ok());

    let ast = parse("fn main() { exit(2 + 2); }");
    let mut checker = TypeChecker::new(&ast);
    assert!(checker.check().is_ok());
}

#[test]
fn types_test_assignment() {
    let ast = parse("fn main() { let x = 2; x = 3; }");
    let mut checker = TypeChecker::new(&ast);
    assert!(checker.check().is_ok());

    let ast = parse("fn main() { let x = 2; x = false; }");
    let mut checker = TypeChecker::new(&ast);
    assert!(checker.check().is_err());
}

#[test]
fn lexer_test_exit() {
    let input = "exit";
    let mut lexer = Lexer::new(input);
    let tokens = lexer.tokenize().unwrap();

    assert_eq!(tokens, vec![Token::Exit]);
}

#[test]
fn test_int() {
    let input = "123";
    let mut lexer = Lexer::new(input);
    let tokens = lexer.tokenize().unwrap();

    assert_eq!(tokens, vec![Token::Int(123)]);
}

#[test]
fn test_exit_statement() {
    let input = "exit(69);";
    let mut lexer = Lexer::new(input);
    let tokens = lexer.tokenize().unwrap();

    assert_eq!(tokens, vec![Token::Exit, Token::OpenParen, Token::Int(69), Token::CloseParen, Token::Semi]);
}

#[test]
fn test_let_assignment() {
    let input = "let x = 420;";
    let mut lexer = Lexer::new(input);
    let tokens = lexer.tokenize().unwrap();

    assert_eq!(tokens, vec![Token::Let, Token::Ident("x".to_string()), Token::Equal, Token::Int(420), Token::Semi]);
}

#[test]
fn lexer_rejects_unknown_character() {
    let mut lexer = Lexer::new("let x = 1 $ 2;");
    assert!(matches!(lexer.tokenize(), Err(LexError::UnknownToken('$'))));
}

#[test]
fn lexer_rejects_oversized_number() {
    let mut lexer = Lexer::new("99999999999999999999999999");
    assert!(matches!(lexer.tokenize(), Err(LexError::InvalidNumber)));
}

#[test]
fn lexer_skips_comments() {
    let mut lexer = Lexer::new("let x = 69; // comment\nexit(x);//no whitespace");
    let tokens = lexer.tokenize().unwrap();
    assert_eq!(tokens.len(), 10);
    assert_eq!(tokens[5], Token::Exit);
}

#[test]
fn parser_puts_main_first() {
    let ast = parse("fn inc(x: int) = int { return x + 1; } fn main() { exit(inc(1)); }");
    assert_eq!(ast.main.as_ref().unwrap().name.name, "main");
    assert_eq!(ast.functions.len(), 1);
    assert_eq!(ast.functions[0].name.name, "inc");
}

#[test]
fn parser_reports_missing_token() {
    let tokens = Lexer::new("fn main() { exit(1) }").tokenize().unwrap();
    assert!(Parser::new(tokens).try_parse().is_err());
}

#[test]
fn resolver_numbers_symbols_in_order() {
    let ast = parse("fn main() { let x = 1; let y = x; exit(y); }");
    let resolved = Resolver::new().resolve_program(ast).unwrap();
    let main = resolved.main.unwrap();
    assert_eq!(main.id.id, 0);
    assert_eq!(main.body.len(), 3);
    match &main.body[1] {
        tibanna::resolver::ResolvedStatement::Let { symbol, .. } => {
            assert_eq!(symbol.name, "y");
            assert_eq!(symbol.id, 1);
        },
        _ => panic!("expected a let"),
    }
}

#[test]
fn resolver_rejects_duplicate_variable() {
    let ast = parse("fn main() { let x = 1; let x = 2; }");
    let r = Resolver::new().resolve_program(ast);
    assert!(matches!(r, Err(ResolveError::DuplicateVariable(ref n)) if n == "x"));
}

#[test]
fn resolver_rejects_duplicate_function() {
    let ast = parse("fn main() { exit(1); } fn f() { exit(1); } fn f() { exit(2); }");
    let r = Resolver::new().resolve_program(ast);
    assert!(matches!(r, Err(ResolveError::DuplicateFunction(ref n)) if n == "f"));
}

#[test]
fn resolver_rejects_undefined_names() {
    let ast = parse("fn main() { exit(y); }");
    assert!(matches!(Resolver::new().resolve_program(ast), Err(ResolveError::UndefinedVariable(ref n)) if n == "y"));
    let ast = parse("fn main() { exit(g(1)); }");
    assert!(matches!(Resolver::new().resolve_program(ast), Err(ResolveError::UndefinedFunction(ref n)) if n == "g"));
}

#[test]
fn resolver_allows_shadowing_in_inner_scope() {
    let ast = parse("fn main() { let x = 1; if true { let x = 2; } exit(x); }");
    assert!(Resolver::new().resolve_program(ast).is_ok());
}

#[test]
fn resolver_gives_every_variable_its_own_number() {
    let ast = parse(
        "fn main() { let x = 1; if x < 2 { let y = 2; } else { let y = 3; } exit(f(x)); } fn f(a: int) = int { let b = a; return b; }",
    );
    let resolved = Resolver::new().resolve_program(ast).unwrap();
    let mut ids = Vec::new();
    fn collect(stmts: &[tibanna::resolver::ResolvedStatement], ids: &mut Vec<usize>) {
        for s in stmts {
            match s {
                tibanna::resolver::ResolvedStatement::Let { symbol, .. } => ids.push(symbol.id),
                tibanna::resolver::ResolvedStatement::If { then, els, .. } => {
                    collect(then, ids);
                    let mut e = els.as_ref();
                    while let Some(c) = e {
                        collect(&c.body, ids);
                        e = c.els.as_ref().as_ref();
                    }
                },
                tibanna::resolver::ResolvedStatement::While { body, .. } => collect(body, ids),
                _ => {},
            }
        }
    }
    let main = resolved.main.unwrap();
    collect(&main.body, &mut ids);
    for f in &resolved.functions {
        for a in &f.args {
            ids.push(a.symbol.id);
        }
        collect(&f.body, &mut ids);
    }
    assert_eq!(ids, vec![0, 1, 2, 3, 4]);
}

#[test]
fn resolve_error_messages() {
    assert_eq!(ResolveError::DuplicateFunction("f".to_string()).text(), "duplicate function 'f'");
    assert_eq!(ResolveError::DuplicateVariable("x".to_string()).text(), "duplicate variable 'x' in scope");
    assert_eq!(ResolveError::UndefinedVariable("y".to_string()).text(), "undefined variable 'y'");
    assert_eq!(ResolveError::UndefinedFunction("g".to_string()).text(), "undefined function 'g'");
}

#[test]
fn tokenize_classified_follows_the_given_classes() {
    let lexer = Lexer::new("ab c");
    let alpha = vec![true, true, false, true];
    let alnum = vec![true, true, false, true];
    let ws = vec![false, false, true, false];
    let tokens = lexer.tokenize_classified(&alpha, &alnum, &ws).unwrap();
    assert_eq!(tokens, vec![Token::Ident("ab".to_string()), Token::Ident("c".to_string())]);

    let narrow = vec![true, false, false, true];
    let tokens = lexer.tokenize_classified(&narrow, &narrow, &ws);
    assert_eq!(tokens, Err(LexError::UnknownToken('b')));

    let no_space = vec![false, false, false, false];
    let tokens = lexer.tokenize_classified(&alpha, &alnum, &no_space);
    assert_eq!(tokens, Err(LexError::UnknownToken(' ')));
}

#[test]
fn whitespace_is_the_unicode_white_space_set() {
    let all = ['\u{9}', '\u{a}', '\u{b}', '\u{c}', '\u{d}', ' ', '\u{85}', '\u{a0}', '\u{1680}', '\u{2000}', '\u{2005}', '\u{200a}', '\u{2028}', '\u{2029}', '\u{202f}', '\u{205f}', '\u{3000}'];
    for c in all {
        assert!(c.is_whitespace());
        let text = format!("a{}b", c);
        let tokens = Lexer::new(&text).tokenize().unwrap();
        assert_eq!(tokens, vec![Token::Ident("a".to_string()), Token::Ident("b".to_string())]);
    }
    let tokens = Lexer::new("a\u{200b}b").tokenize();
    assert_eq!(tokens, Err(LexError::UnknownToken('\u{200b}')));
}
