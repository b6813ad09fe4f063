//! The pipeline driver: a `Compiler` carries the artifacts of each stage
//! and runs them in order; `compile` is the whole pipeline, whose output
//! is pinned to `compile_output`, a function of the source text alone.

use vstd::prelude::*;
use crate::token::{Token, LexError, ParseError, CompileError, BinOp};
use crate::ast::AstNode;
use crate::ir::{Instr, ir_of};
use crate::lexer::{lex_spec, tokenize_str};
use crate::parser::{
    parse_expr_at, parse_term_at, parse_factor_at, parse_from, parse_tokens, parse_expr_fn,
    parse_term_fn, parse_factor_fn,
};
use crate::emit::{line_views, asm_of, prologue_lines, body_lines, push_line, push_literal};

verus! {

/// The assembly text of a source text, or the first error of the stage
/// that rejects it.
pub open spec fn compile_output(s: Seq<char>) -> Result<Seq<Seq<char>>, CompileError> {
    match lex_spec(s) {
        Ok(ts) => match parse_tokens(ts) {
            Ok(a) => Ok(asm_of(ir_of(a))),
            Err(e) => Err(CompileError::Parse(e)),
        },
        Err(e) => Err(CompileError::Lex(e)),
    }
}

/// Compiling a source text is a function of that text alone: two runs on
/// equal input produce identical assembly lines (or the identical error).
pub proof fn lemma_compile_deterministic(s1: Seq<char>, s2: Seq<char>)
    requires
        s1 == s2,
    ensures
        compile_output(s1) == compile_output(s2),
{
}

/// The four-stage pipeline and its artifacts: the token sequence with the
/// parser's cursor into it, the syntax tree, the instruction list, and
/// the assembly text lines.
pub struct Compiler {
    pub tokens: Vec<Token>,
    pub pos: usize,
    pub ast: Option<AstNode>,
    pub ir: Vec<Instr>,
    pub asm_lines: Vec<String>,
}

impl Compiler {
    /// A compiler with no artifacts yet.
    pub fn new() -> (c: Compiler)
        ensures
            c.tokens@.len() == 0,
            c.pos == 0,
            c.ast is None,
            c.ir@.len() == 0,
            c.asm_lines@.len() == 0,
    {
        Compiler {
            tokens: Vec::new(),
            pos: 0,
            ast: None,
            ir: Vec::new(),
            asm_lines: Vec::new(),
        }
    }

    /// Scan a source text and append its tokens to the token sequence; on
    /// a lexical error nothing changes.
    pub fn tokenize(&mut self, input: &str) -> (r: Result<(), LexError>)
        ensures
            final(self).pos == old(self).pos,
            final(self).ast == old(self).ast,
            final(self).ir@ == old(self).ir@,
            final(self).asm_lines@ == old(self).asm_lines@,
            match r {
                Ok(()) => lex_spec(input@) matches Ok(ts) && final(self).tokens@ == old(self).tokens@ + ts,
                Err(e) => lex_spec(input@) == Err::<Seq<Token>, LexError>(e) && final(self).tokens@ == old(self).tokens@,
            },
    {
        match tokenize_str(input) {
            Ok(mut ts) => {
                self.tokens.append(&mut ts);
                Ok(())
            },
            Err(e) => Err(e),
        }
    }

    /// Parse one expression at the cursor, moving the cursor past it.  On
    /// an error the cursor stays.  The recursion depth is bounded by the
    /// number of tokens after the cursor.
    pub fn parse_expression(&mut self) -> (r: Result<AstNode, ParseError>)
        ensures
            final(self).tokens@ == old(self).tokens@,
            final(self).ast == old(self).ast,
            final(self).ir@ == old(self).ir@,
            final(self).asm_lines@ == old(self).asm_lines@,
            match r {
                Ok(a) => parse_expr_at(old(self).tokens@, old(self).pos as nat) == Ok::<
                    (AstNode, nat),
                    ParseError,
                >((a, final(self).pos as nat)) && old(self).pos < final(self).pos <= old(self).tokens@.len(),
                Err(e) => parse_expr_at(old(self).tokens@, old(self).pos as nat) == Err::<
                    (AstNode, nat),
                    ParseError,
                >(e) && final(self).pos == old(self).pos,
            },
    {
        match parse_expr_fn(&self.tokens, self.pos) {
            Ok((a, p)) => {
                self.pos = p;
                Ok(a)
            },
            Err(e) => Err(e),
        }
    }

    /// Parse one term at the cursor, as `parse_expression` does for an
    /// expression.
    pub fn parse_term(&mut self) -> (r: Result<AstNode, ParseError>)
        ensures
            final(self).tokens@ == old(self).tokens@,
            final(self).ast == old(self).ast,
            final(self).ir@ == old(self).ir@,
            final(self).asm_lines@ == old(self).asm_lines@,
            match r {
                Ok(a) => parse_term_at(old(self).tokens@, old(self).pos as nat) == Ok::<
                    (AstNode, nat),
                    ParseError,
                >((a, final(self).pos as nat)) && old(self).pos < final(self).pos <= old(self).tokens@.len(),
                Err(e) => parse_term_at(old(self).tokens@, old(self).pos as nat) == Err::<
                    (AstNode, nat),
                    ParseError,
                >(e) && final(self).pos == old(self).pos,
            },
    {
        match parse_term_fn(&self.tokens, self.pos) {
            Ok((a, p)) => {
                self.pos = p;
                Ok(a)
            },
            Err(e) => Err(e),
        }
    }

    /// Parse one factor at the cursor, as `parse_expression` does for an
    /// expression.
    pub fn parse_factor(&mut self) -> (r: Result<AstNode, ParseError>)
        ensures
            final(self).tokens@ == old(self).tokens@,
            final(self).ast == old(self).ast,
            final(self).ir@ == old(self).ir@,
            final(self).asm_lines@ == old(self).asm_lines@,
            match r {
                Ok(a) => parse_factor_at(old(self).tokens@, old(self).pos as nat) == Ok::<
                    (AstNode, nat),
                    ParseError,
                >((a, final(self).pos as nat)) && old(self).pos < final(self).pos <= old(self).tokens@.len(),
                Err(e) => parse_factor_at(old(self).tokens@, old(self).pos as nat) == Err::<
                    (AstNode, nat),
                    ParseError,
                >(e) && final(self).pos == old(self).pos,
            },
    {
        match parse_factor_fn(&self.tokens, self.pos) {
            Ok((a, p)) => {
                self.pos = p;
                Ok(a)
            },
            Err(e) => Err(e),
        }
    }

    /// Parse the tokens from the cursor to the end into a single tree and
    /// store it; tokens left over after the expression are an error, and
    /// on any error no tree is stored.
    pub fn parse(&mut self) -> (r: Result<(), ParseError>)
        ensures
            final(self).tokens@ == old(self).tokens@,
            final(self).ir@ == old(self).ir@,
            final(self).asm_lines@ == old(self).asm_lines@,
            old(self).pos <= final(self).pos,
            match r {
                Ok(()) => parse_from(old(self).tokens@, old(self).pos as nat) matches Ok(a)
                    && final(self).ast == Some(a) && final(self).pos == old(self).tokens@.len(),
                Err(e) => parse_from(old(self).tokens@, old(self).pos as nat) == Err::<
                    AstNode,
                    ParseError,
                >(e) && final(self).ast is None,
            },
    {
        match self.parse_expression() {
            Ok(a) => {
                if self.pos == self.tokens.len() {
                    self.ast = Some(a);
                    Ok(())
                } else {
                    self.ast = None;
                    Err(ParseError::UnexpectedToken)
                }
            },
            Err(e) => {
                self.ast = None;
                Err(e)
            },
        }
    }

    /// Lower the stored tree into the instruction list; with no tree the
    /// list comes out empty.
    pub fn generate_ir(&mut self)
        ensures
            final(self).tokens@ == old(self).tokens@,
            final(self).pos == old(self).pos,
            final(self).ast == old(self).ast,
            final(self).asm_lines@ == old(self).asm_lines@,
            final(self).ir@ == (match old(self).ast {
                Some(a) => ir_of(a),
                None => Seq::<Instr>::empty(),
            }),
    {
        match &self.ast {
            Some(a) => {
                self.ir = Compiler::generate_ir_node(a);
            },
            None => {
                self.ir = Vec::new();
            },
        }
    }

    /// Lower one tree node post-order: left subtree, right subtree, then
    /// the node's instruction.
    pub fn generate_ir_node(node: &AstNode) -> (r: Vec<Instr>)
        ensures
            r@ == ir_of(*node),
        decreases *node,
    {
        match node {
            AstNode::Number(v) => {
                let mut out: Vec<Instr> = Vec::new();
                out.push(Instr::Push(*v));
                proof {
                    assert(out@ =~= ir_of(*node));
                }
                out
            },
            AstNode::BinaryOp(l, op, r2) => {
                let mut out = Compiler::generate_ir_node(l);
                let mut rhs = Compiler::generate_ir_node(r2);
                out.append(&mut rhs);
                out.push(
                    match op {
                        BinOp::Add => Instr::Add,
                        BinOp::Sub => Instr::Sub,
                        BinOp::Mul => Instr::Mul,
                        BinOp::Div => Instr::Div,
                    },
                );
                proof {
                    assert(out@ =~= ir_of(*node));
                }
                out
            },
        }
    }

    /// Translate the instruction list into the assembly text: the fixed
    /// prologue, each instruction's lines, and the fixed epilogue with
    /// the printing routine.
    pub fn generate_asm(&mut self)
        ensures
            final(self).tokens@ == old(self).tokens@,
            final(self).pos == old(self).pos,
            final(self).ast == old(self).ast,
            final(self).ir@ == old(self).ir@,
            line_views(final(self).asm_lines@) == asm_of(old(self).ir@),
    {
        self.asm_lines = Vec::new();
        proof {
            assert(line_views(Seq::<String>::empty()) =~= Seq::<Seq<char>>::empty());
        }
        push_line(&mut self.asm_lines, "global _start");
        push_line(&mut self.asm_lines, "section .text");
        push_line(&mut self.asm_lines, "_start:");
        proof {
            assert(line_views(self.asm_lines@) =~= prologue_lines());
            assert(self.ir@.take(0) =~= Seq::<Instr>::empty());
            assert(prologue_lines() + body_lines(self.ir@.take(0)) =~= prologue_lines());
        }
        let mut k: usize = 0;
        while k < self.ir.len()
            invariant
                k <= self.ir@.len(),
                self.tokens@ == old(self).tokens@,
                self.pos == old(self).pos,
                self.ast == old(self).ast,
                self.ir@ == old(self).ir@,
                line_views(self.asm_lines@) == prologue_lines() + body_lines(
                    self.ir@.take(k as int),
                ),
            decreases self.ir@.len() - k,
        {
            let ins = self.ir[k];
            match ins {
                Instr::Push(v) => {
                    push_literal(&mut self.asm_lines, v);
                },
                Instr::Add => {
                    push_line(&mut self.asm_lines, "    pop rbx");
                    push_line(&mut self.asm_lines, "    pop rax");
                    push_line(&mut self.asm_lines, "    add rax, rbx");
                    push_line(&mut self.asm_lines, "    push rax");
                },
                Instr::Sub => {
                    push_line(&mut self.asm_lines, "    pop rbx");
                    push_line(&mut self.asm_lines, "    pop rax");
                    push_line(&mut self.asm_lines, "    sub rax, rbx");
                    push_line(&mut self.asm_lines, "    push rax");
                },
                Instr::Mul => {
                    push_line(&mut self.asm_lines, "    pop rbx");
                    push_line(&mut self.asm_lines, "    pop rax");
                    push_line(&mut self.asm_lines, "    imul rbx");
                    push_line(&mut self.asm_lines, "    push rax");
                },
                Instr::Div => {
                    push_line(&mut self.asm_lines, "    pop rbx");
                    push_line(&mut self.asm_lines, "    pop rax");
                    push_line(&mut self.asm_lines, "    cqo");
                    push_line(&mut self.asm_lines, "    idiv rbx");
                    push_line(&mut self.asm_lines, "    push rax");
                },
            }
            proof {
                assert(self.ir@.take(k as int + 1).drop_last() =~= self.ir@.take(k as int));
                assert(self.ir@.take(k as int + 1).last() == self.ir@[k as int]);
                assert(line_views(self.asm_lines@) =~= prologue_lines() + body_lines(
                    self.ir@.take(k as int + 1),
                ));
            }
            k = k + 1;
        }
        proof {
            assert(self.ir@.take(self.ir@.len() as int) =~= self.ir@);
        }
        push_line(&mut self.asm_lines, "    pop rdi");
        push_line(&mut self.asm_lines, "    call print_int");
        push_line(&mut self.asm_lines, "    mov rax, 60");
        push_line(&mut self.asm_lines, "    xor rdi, rdi");
        push_line(&mut self.asm_lines, "    syscall");
        push_line(&mut self.asm_lines, "print_int:");
        push_line(&mut self.asm_lines, "    mov rax, rdi");
        push_line(&mut self.asm_lines, "    mov rcx, 0");
        push_line(&mut self.asm_lines, "    mov rbx, 10");
        push_line(&mut self.asm_lines, "    push 0");
        push_line(&mut self.asm_lines, "divide_loop:");
        push_line(&mut self.asm_lines, "    xor rdx, rdx");
        push_line(&mut self.asm_lines, "    div rbx");
        push_line(&mut self.asm_lines, "    add dl, '0'");
        push_line(&mut self.asm_lines, "    dec rsp");
        push_line(&mut self.asm_lines, "    mov [rsp], dl");
        push_line(&mut self.asm_lines, "    inc rcx");
        push_line(&mut self.asm_lines, "    test rax, rax");
        push_line(&mut self.asm_lines, "    jnz divide_loop");
        push_line(&mut self.asm_lines, "    mov rax, 1");
        push_line(&mut self.asm_lines, "    mov rdi, 1");
        push_line(&mut self.asm_lines, "    mov rsi, rsp");
        push_line(&mut self.asm_lines, "    mov rdx, rcx");
        push_line(&mut self.asm_lines, "    syscall");
        push_line(&mut self.asm_lines, "    add rsp, rcx");
        push_line(&mut self.asm_lines, "    inc rsp");
        push_line(&mut self.asm_lines, "    ret");
        proof {
            assert(line_views(self.asm_lines@) =~= asm_of(self.ir@));
        }
    }

    /// Run the whole pipeline on a source text.  Any earlier artifacts
    /// are discarded first.  On an error, compilation stops at the
    /// failing stage and no assembly line is produced.
    pub fn compile(&mut self, input: &str) -> (r: Result<(), CompileError>)
        ensures
            match r {
                Ok(()) => {
                    &&& compile_output(input@) matches Ok(lines) && line_views(
                        final(self).asm_lines@,
                    ) == lines
                    &&& lex_spec(input@) matches Ok(ts) && (final(self).tokens@ == ts && (
                    parse_tokens(ts) matches Ok(a) && final(self).ast == Some(a)))
                    &&& final(self).ast matches Some(a) && final(self).ir@ == ir_of(a)
                },
                Err(e) => compile_output(input@) == Err::<Seq<Seq<char>>, CompileError>(e)
                    && final(self).asm_lines@.len() == 0 && final(self).ir@.len() == 0
                    && final(self).ast is None,
            },
    {
        self.tokens = Vec::new();
        self.pos = 0;
        self.ast = None;
        self.ir = Vec::new();
        self.asm_lines = Vec::new();
        match self.tokenize(input) {
            Ok(()) => {},
            Err(e) => {
                return Err(CompileError::Lex(e));
            },
        }
        proof {
            assert(Seq::<Token>::empty() + lex_spec(input@).unwrap() =~= lex_spec(
                input@,
            ).unwrap());
        }
        match self.parse() {
            Ok(()) => {},
            Err(e) => {
                return Err(CompileError::Parse(e));
            },
        }
        self.generate_ir();
        self.generate_asm();
        Ok(())
    }
}

} // verus!
