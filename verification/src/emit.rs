//! The assembly text the code generator emits: a fixed prologue, one line
//! group per instruction, and a fixed epilogue holding the process exit
//! and the integer-printing routine.
//!
//! The printing routine divides by ten, pushing each remainder digit below
//! the stack pointer, so the digits come out most significant first; it
//! always writes at least one digit, so the value zero prints as a single
//! `0`.  It formats the value as unsigned: a negative result prints as its
//! two's-complement bit pattern, a limitation of the target routine.  A
//! zero divisor is not checked anywhere: the emitted divide instruction
//! traps at execution time.

use vstd::prelude::*;
use vstd::string::*;
use crate::ir::Instr;
use crate::text::{dec_chars_signed, dec_string_i32};

verus! {

/// The views of emitted lines as character sequences.
pub open spec fn line_views(v: Seq<String>) -> Seq<Seq<char>> {
    v.map_values(|s: String| s@)
}

/// The fixed program header and entry point.
pub open spec fn prologue_lines() -> Seq<Seq<char>> {
    seq!["global _start"@, "section .text"@, "_start:"@]
}

/// The line pushing a literal operand.
pub open spec fn push_literal_line(v: int) -> Seq<char> {
    "    push "@ + dec_chars_signed(v)
}

/// The lines one instruction translates to: a literal push, or pop the
/// right operand into rbx, pop the left into rax, operate, push the
/// result.  Division sign-extends rax into rdx:rax (`cqo`) before the
/// signed divide, so a negative left operand divides correctly.
pub open spec fn instr_lines(i: Instr) -> Seq<Seq<char>> {
    match i {
        Instr::Push(v) => seq![push_literal_line(v as int)],
        Instr::Add => seq![
            "    pop rbx"@,
            "    pop rax"@,
            "    add rax, rbx"@,
            "    push rax"@,
        ],
        Instr::Sub => seq![
            "    pop rbx"@,
            "    pop rax"@,
            "    sub rax, rbx"@,
            "    push rax"@,
        ],
        Instr::Mul => seq!["    pop rbx"@, "    pop rax"@, "    imul rbx"@, "    push rax"@],
        Instr::Div => seq![
            "    pop rbx"@,
            "    pop rax"@,
            "    cqo"@,
            "    idiv rbx"@,
            "    push rax"@,
        ],
    }
}

/// The translation of a whole instruction list, in order.
pub open spec fn body_lines(ir: Seq<Instr>) -> Seq<Seq<char>>
    decreases ir.len(),
{
    if ir.len() == 0 {
        Seq::<Seq<char>>::empty()
    } else {
        body_lines(ir.drop_last()) + instr_lines(ir.last())
    }
}

/// The fixed tail: hand the one remaining stack value to the printing
/// routine, exit the process, and the routine itself.
pub open spec fn epilogue_lines() -> Seq<Seq<char>> {
    seq![
        "    pop rdi"@,
        "    call print_int"@,
        "    mov rax, 60"@,
        "    xor rdi, rdi"@,
        "    syscall"@,
        "print_int:"@,
        "    mov rax, rdi"@,
        "    mov rcx, 0"@,
        "    mov rbx, 10"@,
        "    push 0"@,
        "divide_loop:"@,
        "    xor rdx, rdx"@,
        "    div rbx"@,
        "    add dl, '0'"@,
        "    dec rsp"@,
        "    mov [rsp], dl"@,
        "    inc rcx"@,
        "    test rax, rax"@,
        "    jnz divide_loop"@,
        "    mov rax, 1"@,
        "    mov rdi, 1"@,
        "    mov rsi, rsp"@,
        "    mov rdx, rcx"@,
        "    syscall"@,
        "    add rsp, rcx"@,
        "    inc rsp"@,
        "    ret"@,
    ]
}

/// Every assembly line of an instruction list: prologue, translated body,
/// epilogue.
pub open spec fn asm_of(ir: Seq<Instr>) -> Seq<Seq<char>> {
    prologue_lines() + body_lines(ir) + epilogue_lines()
}

/// Append one fixed text line.
pub fn push_line(out: &mut Vec<String>, s: &str)
    ensures
        line_views(final(out)@) == line_views(old(out)@).push(s@),
{
    let line = String::from_str(s);
    out.push(line);
    proof {
        assert(line_views(out@) =~= line_views(old(out)@).push(s@));
    }
}

/// The lines joined into one text, a single newline between neighbours
/// and none at either end.
pub open spec fn joined_lines(lines: Seq<Seq<char>>) -> Seq<char>
    decreases lines.len(),
{
    if lines.len() == 0 {
        Seq::<char>::empty()
    } else if lines.len() == 1 {
        lines[0]
    } else {
        joined_lines(lines.drop_last()) + seq!['\n'] + lines.last()
    }
}

/// Join the emitted lines into the one text handed to the output
/// collaborator.
pub fn join_lines(lines: &Vec<String>) -> (r: String)
    ensures
        r@ == joined_lines(line_views(lines@)),
{
    let mut out = String::new();
    let mut k: usize = 0;
    proof {
        assert(line_views(lines@).take(0) =~= Seq::<Seq<char>>::empty());
    }
    while k < lines.len()
        invariant
            k <= lines@.len(),
            out@ == joined_lines(line_views(lines@).take(k as int)),
        decreases lines@.len() - k,
    {
        if k > 0 {
            proof {
                reveal_strlit("\n");
                assert("\n"@ =~= seq!['\n']);
            }
            out.append("\n");
        }
        out.append(lines[k].as_str());
        proof {
            let lv = line_views(lines@);
            assert(lv.take(k as int + 1).drop_last() =~= lv.take(k as int));
            assert(lv.take(k as int + 1).last() == lv[k as int]);
            assert(lv[k as int] == lines@[k as int]@);
            if k == 0 {
                assert(out@ =~= lv[0]);
                assert(lv.take(1)[0] == lv[0]);
            } else {
                assert(out@ =~= joined_lines(lv.take(k as int)) + seq!['\n'] + lv[k as int]);
            }
        }
        k = k + 1;
    }
    proof {
        assert(line_views(lines@).take(lines@.len() as int) =~= line_views(lines@));
    }
    out
}

/// Append the line pushing a literal operand.
pub fn push_literal(out: &mut Vec<String>, v: i32)
    ensures
        line_views(final(out)@) == line_views(old(out)@).push(push_literal_line(v as int)),
{
    let mut line = String::from_str("    push ");
    let digits = dec_string_i32(v);
    line.append(digits.as_str());
    out.push(line);
    proof {
        assert(line_views(out@) =~= line_views(old(out)@).push(push_literal_line(v as int)));
    }
}

} // verus!
