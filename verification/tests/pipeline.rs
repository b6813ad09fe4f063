use exprc::compiler::Compiler;
use exprc::emit::join_lines;
use exprc::ir::{eval_instrs, Instr};
use exprc::lexer::render_tokens;
use exprc::token::{CompileError, LexError, ParseError, Token};

fn compiled(src: &str) -> Compiler {
    let mut c = Compiler::new();
    c.compile(src).expect("expected the source to compile");
    c
}

#[test]
fn lex_simple_expression() {
    let mut c = Compiler::new();
    c.tokenize("1 + 2*(3-4)").unwrap();
    assert_eq!(
        c.tokens,
        vec![
            Token::Number(1),
            Token::Plus,
            Token::Number(2),
            Token::Multiply,
            Token::LeftParen,
            Token::Number(3),
            Token::Minus,
            Token::Number(4),
            Token::RightParen,
        ]
    );
}

#[test]
fn lex_skips_whitespace() {
    let mut c = Compiler::new();
    c.tokenize(" \t12 \n 3 ").unwrap();
    assert_eq!(c.tokens, vec![Token::Number(12), Token::Number(3)]);
}

#[test]
fn lex_unexpected_character() {
    let mut c = Compiler::new();
    let r = c.compile("3&4");
    assert_eq!(
        r,
        Err(CompileError::Lex(LexError::UnexpectedCharacter('&')))
    );
    assert!(c.asm_lines.is_empty());
}

#[test]
fn lex_number_bounds() {
    let mut c = Compiler::new();
    c.tokenize("2147483647").unwrap();
    assert_eq!(c.tokens, vec![Token::Number(2147483647)]);
    let mut c2 = Compiler::new();
    assert_eq!(c2.tokenize("2147483648"), Err(LexError::NumberTooLarge));
    assert!(c2.tokens.is_empty());
    let mut c3 = Compiler::new();
    assert_eq!(c3.tokenize("99999999999999"), Err(LexError::NumberTooLarge));
}

#[test]
fn tokens_render_back_to_source() {
    let mut c = Compiler::new();
    c.tokenize("1 + 2 * (30 - 4) / 5").unwrap();
    let text = render_tokens(&c.tokens);
    assert_eq!(text, "1+2*(30-4)/5");
}

#[test]
fn subtraction_is_left_associative() {
    let c = compiled("8-3-2");
    assert_eq!(eval_instrs(&c.ir), Some(3));
}

#[test]
fn multiplication_binds_tighter() {
    let c = compiled("2+3*4");
    assert_eq!(eval_instrs(&c.ir), Some(14));
}

#[test]
fn parentheses_override_precedence() {
    let c = compiled("(2+3)*4");
    assert_eq!(eval_instrs(&c.ir), Some(20));
}

#[test]
fn missing_close_paren_fails() {
    let mut c = Compiler::new();
    let r = c.compile("(1+2");
    assert_eq!(
        r,
        Err(CompileError::Parse(ParseError::UnbalancedParenthesis))
    );
    assert!(c.asm_lines.is_empty());
}

#[test]
fn truncated_input_fails() {
    let mut c = Compiler::new();
    assert_eq!(
        c.compile("1+"),
        Err(CompileError::Parse(ParseError::UnexpectedEnd))
    );
}

#[test]
fn stray_token_fails() {
    let mut c = Compiler::new();
    assert_eq!(
        c.compile(")3"),
        Err(CompileError::Parse(ParseError::UnexpectedToken))
    );
    let mut c2 = Compiler::new();
    assert_eq!(
        c2.compile("1 2"),
        Err(CompileError::Parse(ParseError::UnexpectedToken))
    );
}

#[test]
fn zero_compiles_to_single_push() {
    let c = compiled("0");
    assert_eq!(c.ir, vec![Instr::Push(0)]);
    assert_eq!(eval_instrs(&c.ir), Some(0));
    assert_eq!(c.asm_lines[3], "    push 0");
}

#[test]
fn zero_assembly_text_in_full() {
    let c = compiled("0");
    let mut expected = vec![
        "global _start".to_string(),
        "section .text".to_string(),
        "_start:".to_string(),
        "    push 0".to_string(),
    ];
    for line in [
        "    pop rdi",
        "    call print_int",
        "    mov rax, 60",
        "    xor rdi, rdi",
        "    syscall",
        "print_int:",
        "    mov rax, rdi",
        "    mov rcx, 0",
        "    mov rbx, 10",
        "    push 0",
        "divide_loop:",
        "    xor rdx, rdx",
        "    div rbx",
        "    add dl, '0'",
        "    dec rsp",
        "    mov [rsp], dl",
        "    inc rcx",
        "    test rax, rax",
        "    jnz divide_loop",
        "    mov rax, 1",
        "    mov rdi, 1",
        "    mov rsi, rsp",
        "    mov rdx, rcx",
        "    syscall",
        "    add rsp, rcx",
        "    inc rsp",
        "    ret",
    ] {
        expected.push(line.to_string());
    }
    assert_eq!(c.asm_lines, expected);
}

#[test]
fn compiling_twice_is_byte_identical() {
    let c1 = compiled("2+3*4-(5/2)");
    let c2 = compiled("2+3*4-(5/2)");
    assert_eq!(c1.asm_lines, c2.asm_lines);
    assert_eq!(c1.asm_lines.join("\n"), c2.asm_lines.join("\n"));
}

#[test]
fn division_truncates_towards_zero() {
    assert_eq!(eval_instrs(&compiled("7/2").ir), Some(3));
    assert_eq!(eval_instrs(&compiled("(3-8)/2").ir), Some(-2));
    assert_eq!(eval_instrs(&compiled("100/5/2").ir), Some(10));
}

#[test]
fn division_by_zero_compiles_but_does_not_evaluate() {
    let c = compiled("8/0");
    assert!(c.asm_lines.iter().any(|l| l == "    idiv rbx"));
    assert_eq!(eval_instrs(&c.ir), None);
}

#[test]
fn division_sign_extends_before_dividing() {
    let c = compiled("(1-3)/2");
    let lines = &c.asm_lines;
    let div_at = lines.iter().position(|l| l == "    idiv rbx").unwrap();
    assert_eq!(lines[div_at - 1], "    cqo");
    assert_eq!(eval_instrs(&c.ir), Some(-1));
}

#[test]
fn joined_text_has_single_newlines() {
    let lines = vec!["a".to_string(), "bc".to_string(), "d".to_string()];
    assert_eq!(join_lines(&lines), "a\nbc\nd");
    assert_eq!(join_lines(&vec![]), "");
    assert_eq!(join_lines(&vec!["x".to_string()]), "x");
    let c = compiled("0");
    assert_eq!(join_lines(&c.asm_lines), c.asm_lines.join("\n"));
}

#[test]
fn evaluation_overflow_is_detected() {
    let c = compiled("2000000000*2000000000*2000000000");
    assert_eq!(eval_instrs(&c.ir), None);
}

#[test]
fn malformed_instruction_lists_do_not_evaluate() {
    assert_eq!(eval_instrs(&vec![]), None);
    assert_eq!(eval_instrs(&vec![Instr::Push(1), Instr::Add]), None);
    assert_eq!(eval_instrs(&vec![Instr::Push(1), Instr::Push(2)]), None);
}

#[test]
fn generate_ir_lowers_post_order() {
    let c = compiled("(1+2)*3");
    assert_eq!(
        c.ir,
        vec![
            Instr::Push(1),
            Instr::Push(2),
            Instr::Add,
            Instr::Push(3),
            Instr::Mul,
        ]
    );
}

#[test]
fn generate_ir_without_tree_is_empty() {
    let mut c = Compiler::new();
    c.generate_ir();
    assert!(c.ir.is_empty());
}

#[test]
fn negative_literal_renders_in_push_line() {
    let mut c = Compiler::new();
    c.ir = vec![Instr::Push(-7)];
    c.generate_asm();
    assert_eq!(c.asm_lines[3], "    push -7");
}

#[test]
fn deep_nesting_parses_without_overflow() {
    let mut src = String::new();
    for _ in 0..1000 {
        src.push('(');
    }
    src.push('7');
    for _ in 0..1000 {
        src.push(')');
    }
    let c = compiled(&src);
    assert_eq!(eval_instrs(&c.ir), Some(7));
}

#[test]
fn assembly_translates_each_operator() {
    let c = compiled("1+2-3*4/2");
    assert!(c.asm_lines.iter().any(|l| l == "    add rax, rbx"));
    assert!(c.asm_lines.iter().any(|l| l == "    sub rax, rbx"));
    assert!(c.asm_lines.iter().any(|l| l == "    imul rbx"));
    assert!(c.asm_lines.iter().any(|l| l == "    cqo"));
    assert!(c.asm_lines.iter().any(|l| l == "    idiv rbx"));
    assert_eq!(c.asm_lines[0], "global _start");
    assert_eq!(c.asm_lines.last().unwrap(), "    ret");
}
