//! The intermediate representation: a flat stack-machine instruction list,
//! its abstract interpreter, and the proof that lowering a tree preserves
//! its value.

use vstd::prelude::*;
use crate::token::BinOp;
use crate::ast::{AstNode, apply_op, eval_ast};

verus! {

/// One stack-machine instruction: push a literal, or pop two operands and
/// push the result of a binary operation.
#[derive(Debug, PartialEq, Eq, Structural, Clone, Copy)]
pub enum Instr {
    Push(i32),
    Add,
    Sub,
    Mul,
    Div,
}

/// The instruction a binary operator lowers to.
pub open spec fn instr_of_op(op: BinOp) -> Instr {
    match op {
        BinOp::Add => Instr::Add,
        BinOp::Sub => Instr::Sub,
        BinOp::Mul => Instr::Mul,
        BinOp::Div => Instr::Div,
    }
}

/// Post-order lowering of a tree: left subtree, right subtree, then the
/// node's own instruction; a leaf pushes its literal.
pub open spec fn ir_of(a: AstNode) -> Seq<Instr>
    decreases a,
{
    match a {
        AstNode::Number(v) => seq![Instr::Push(v)],
        AstNode::BinaryOp(l, op, r) => ir_of(*l) + ir_of(*r) + seq![instr_of_op(op)],
    }
}

/// The number of nodes of a tree, leaves and operations together.
pub open spec fn node_count(a: AstNode) -> nat
    decreases a,
{
    match a {
        AstNode::Number(_) => 1,
        AstNode::BinaryOp(l, _, r) => 1 + node_count(*l) + node_count(*r),
    }
}

/// Lowering emits exactly one instruction per tree node: one push per
/// leaf, one operation per internal node.
pub proof fn lemma_ir_length_is_node_count(a: AstNode)
    ensures
        ir_of(a).len() == node_count(a),
    decreases a,
{
    match a {
        AstNode::Number(_) => {},
        AstNode::BinaryOp(l, _, r) => {
            lemma_ir_length_is_node_count(*l);
            lemma_ir_length_is_node_count(*r);
        },
    }
}

/// One binary step of the abstract machine: pop the right operand, pop the
/// left operand, push the result.  Fails on a stack of fewer than two
/// values or on division by zero.
pub open spec fn step_bin(op: BinOp, stack: Seq<int>) -> Option<Seq<int>> {
    if stack.len() < 2 {
        None
    } else {
        match apply_op(op, stack[stack.len() - 2], stack.last()) {
            Some(v) => Some(stack.take(stack.len() - 2).push(v)),
            None => None,
        }
    }
}

/// The abstract stack machine over unbounded integers: run the instruction
/// list on the given stack.
pub open spec fn run_from(ir: Seq<Instr>, stack: Seq<int>) -> Option<Seq<int>>
    decreases ir.len(), 1int,
{
    if ir.len() == 0 {
        Some(stack)
    } else {
        match ir[0] {
            Instr::Push(v) => run_from(ir.drop_first(), stack.push(v as int)),
            Instr::Add => run_step(BinOp::Add, ir, stack),
            Instr::Sub => run_step(BinOp::Sub, ir, stack),
            Instr::Mul => run_step(BinOp::Mul, ir, stack),
            Instr::Div => run_step(BinOp::Div, ir, stack),
        }
    }
}

/// Helper of `run_from`: one binary step, then the rest of the list.
pub open spec fn run_step(op: BinOp, ir: Seq<Instr>, stack: Seq<int>) -> Option<Seq<int>>
    decreases ir.len(), 0int,
{
    if ir.len() == 0 {
        None
    } else {
        match step_bin(op, stack) {
            Some(st) => run_from(ir.drop_first(), st),
            None => None,
        }
    }
}

/// Whether a value fits the 64-bit signed registers of the target machine.
pub open spec fn in_i64(v: int) -> bool {
    i64::MIN <= v <= i64::MAX
}

/// One binary step of the 64-bit machine: as `step_bin`, but a result
/// outside the 64-bit signed range fails.
pub open spec fn step_bin_bounded(op: BinOp, stack: Seq<int>) -> Option<Seq<int>> {
    match step_bin(op, stack) {
        Some(st) => if in_i64(st.last()) {
            Some(st)
        } else {
            None
        },
        None => None,
    }
}

/// The stack machine restricted to 64-bit signed values, the width the
/// emitted assembly computes with.
pub open spec fn run_bounded(ir: Seq<Instr>, stack: Seq<int>) -> Option<Seq<int>>
    decreases ir.len(), 1int,
{
    if ir.len() == 0 {
        Some(stack)
    } else {
        match ir[0] {
            Instr::Push(v) => run_bounded(ir.drop_first(), stack.push(v as int)),
            Instr::Add => run_step_bounded(BinOp::Add, ir, stack),
            Instr::Sub => run_step_bounded(BinOp::Sub, ir, stack),
            Instr::Mul => run_step_bounded(BinOp::Mul, ir, stack),
            Instr::Div => run_step_bounded(BinOp::Div, ir, stack),
        }
    }
}

/// Helper of `run_bounded`: one bounded binary step, then the rest.
pub open spec fn run_step_bounded(op: BinOp, ir: Seq<Instr>, stack: Seq<int>) -> Option<Seq<int>>
    decreases ir.len(), 0int,
{
    if ir.len() == 0 {
        None
    } else {
        match step_bin_bounded(op, stack) {
            Some(st) => run_bounded(ir.drop_first(), st),
            None => None,
        }
    }
}

/// What the 64-bit machine leaves for the printing routine: the single
/// final stack value, if the run succeeds and ends with depth one.
pub open spec fn eval_output(ir: Seq<Instr>) -> Option<int> {
    match run_bounded(ir, Seq::<int>::empty()) {
        Some(st) => if st.len() == 1 {
            Some(st[0])
        } else {
            None
        },
        None => None,
    }
}

/// Running a concatenation runs the first part, then the second on the
/// stack the first one left.
pub proof fn lemma_run_from_app(ir1: Seq<Instr>, ir2: Seq<Instr>, stack: Seq<int>)
    ensures
        run_from(ir1 + ir2, stack) == (match run_from(ir1, stack) {
            Some(st) => run_from(ir2, st),
            None => None,
        }),
    decreases ir1.len(), 1int,
{
    if ir1.len() == 0 {
        assert(ir1 + ir2 =~= ir2);
    } else {
        assert((ir1 + ir2).drop_first() =~= ir1.drop_first() + ir2);
        assert((ir1 + ir2)[0] == ir1[0]);
        match ir1[0] {
            Instr::Push(v) => {
                lemma_run_from_app(ir1.drop_first(), ir2, stack.push(v as int));
            },
            Instr::Add => {
                lemma_run_step_app(BinOp::Add, ir1, ir2, stack);
            },
            Instr::Sub => {
                lemma_run_step_app(BinOp::Sub, ir1, ir2, stack);
            },
            Instr::Mul => {
                lemma_run_step_app(BinOp::Mul, ir1, ir2, stack);
            },
            Instr::Div => {
                lemma_run_step_app(BinOp::Div, ir1, ir2, stack);
            },
        }
    }
}

proof fn lemma_run_step_app(op: BinOp, ir1: Seq<Instr>, ir2: Seq<Instr>, stack: Seq<int>)
    requires
        ir1.len() > 0,
    ensures
        run_step(op, ir1 + ir2, stack) == (match run_step(op, ir1, stack) {
            Some(st) => run_from(ir2, st),
            None => None,
        }),
    decreases ir1.len(), 0int,
{
    assert((ir1 + ir2).drop_first() =~= ir1.drop_first() + ir2);
    match step_bin(op, stack) {
        Some(st) => {
            lemma_run_from_app(ir1.drop_first(), ir2, st);
        },
        None => {},
    }
}

/// The law the lowering is written for: running the instructions of a
/// tree on any stack pushes exactly the tree's value, and fails exactly
/// when evaluating the tree divides by zero.
pub proof fn lemma_lowered_ir_evaluates_as_ast(a: AstNode, stack: Seq<int>)
    ensures
        run_from(ir_of(a), stack) == (match eval_ast(a) {
            Some(v) => Some(stack.push(v)),
            None => None::<Seq<int>>,
        }),
    decreases a,
{
    reveal_with_fuel(run_from, 3);
    reveal_with_fuel(run_step, 2);
    match a {
        AstNode::Number(v) => {
            assert(ir_of(a) == seq![Instr::Push(v)]);
            assert(seq![Instr::Push(v)].drop_first() =~= Seq::<Instr>::empty());
        },
        AstNode::BinaryOp(l, op, r) => {
            let tail = ir_of(*r) + seq![instr_of_op(op)];
            assert(ir_of(a) == ir_of(*l) + ir_of(*r) + seq![instr_of_op(op)]);
            assert(ir_of(*l) + ir_of(*r) + seq![instr_of_op(op)] =~= ir_of(*l) + tail);
            lemma_run_from_app(ir_of(*l), tail, stack);
            lemma_lowered_ir_evaluates_as_ast(*l, stack);
            match eval_ast(*l) {
                Some(x) => {
                    lemma_run_from_app(ir_of(*r), seq![instr_of_op(op)], stack.push(x));
                    lemma_lowered_ir_evaluates_as_ast(*r, stack.push(x));
                    match eval_ast(*r) {
                        Some(y) => {
                            let st2 = stack.push(x).push(y);
                            assert(st2.len() >= 2);
                            assert(st2[st2.len() - 2] == x);
                            assert(st2.last() == y);
                            assert(st2.take(st2.len() - 2) =~= stack);
                            assert(seq![instr_of_op(op)].drop_first() =~= Seq::<Instr>::empty());
                            match op {
                                BinOp::Add => {},
                                BinOp::Sub => {},
                                BinOp::Mul => {},
                                BinOp::Div => {},
                            }
                        },
                        None => {},
                    }
                },
                None => {},
            }
        },
    }
}

/// Corollary on the empty starting stack: a tree that evaluates ends with
/// a stack of depth exactly one holding the tree's value; a tree that
/// divides by zero makes the run fail.
pub proof fn lemma_lowered_ir_single_result(a: AstNode)
    ensures
        eval_ast(a) is Some ==> run_from(ir_of(a), Seq::<int>::empty()) == Some(
            Seq::<int>::empty().push(eval_ast(a).unwrap()),
        ),
        eval_ast(a) is None ==> run_from(ir_of(a), Seq::<int>::empty()) is None,
{
    lemma_lowered_ir_evaluates_as_ast(a, Seq::<int>::empty());
}

/// A successful bounded run is a successful unbounded run with the same
/// final stack.
pub proof fn lemma_run_bounded_sound(ir: Seq<Instr>, stack: Seq<int>)
    ensures
        run_bounded(ir, stack) is Some ==> run_from(ir, stack) == run_bounded(ir, stack),
    decreases ir.len(), 1int,
{
    if ir.len() == 0 {
    } else {
        match ir[0] {
            Instr::Push(v) => {
                lemma_run_bounded_sound(ir.drop_first(), stack.push(v as int));
            },
            Instr::Add => {
                lemma_run_step_bounded_sound(BinOp::Add, ir, stack);
            },
            Instr::Sub => {
                lemma_run_step_bounded_sound(BinOp::Sub, ir, stack);
            },
            Instr::Mul => {
                lemma_run_step_bounded_sound(BinOp::Mul, ir, stack);
            },
            Instr::Div => {
                lemma_run_step_bounded_sound(BinOp::Div, ir, stack);
            },
        }
    }
}

proof fn lemma_run_step_bounded_sound(op: BinOp, ir: Seq<Instr>, stack: Seq<int>)
    requires
        ir.len() > 0,
    ensures
        run_step_bounded(op, ir, stack) is Some ==> run_step(op, ir, stack) == run_step_bounded(
            op,
            ir,
            stack,
        ),
    decreases ir.len(), 0int,
{
    match step_bin_bounded(op, stack) {
        Some(st) => {
            lemma_run_bounded_sound(ir.drop_first(), st);
        },
        None => {},
    }
}

/// The executable interpreter below never disagrees with direct tree
/// evaluation: when running the lowered instructions of a tree yields a
/// value, that value is the tree's.
pub proof fn lemma_eval_output_of_lowered(a: AstNode)
    ensures
        eval_output(ir_of(a)) matches Some(v) ==> eval_ast(a) == Some(v),
{
    lemma_run_bounded_sound(ir_of(a), Seq::<int>::empty());
    lemma_lowered_ir_evaluates_as_ast(a, Seq::<int>::empty());
}

/// The views of an executable stack as mathematical integers.
pub open spec fn ints_of(v: Seq<i64>) -> Seq<int> {
    v.map_values(|x: i64| x as int)
}

/// Run the instruction list on the 64-bit abstract stack machine, from an
/// empty stack.  Returns the single final stack value; returns `None`
/// exactly when the run fails (stack underflow, division by zero, or a
/// value outside the 64-bit signed range) or ends with a stack depth
/// other than one.
pub fn eval_instrs(ir: &Vec<Instr>) -> (r: Option<i64>)
    ensures
        match r {
            Some(v) => eval_output(ir@) == Some(v as int),
            None => eval_output(ir@) is None,
        },
{
    let mut stack: Vec<i64> = Vec::new();
    let mut k: usize = 0;
    proof {
        assert(ints_of(stack@) =~= Seq::<int>::empty());
        assert(ir@.skip(0) =~= ir@);
    }
    while k < ir.len()
        invariant
            k <= ir@.len(),
            run_bounded(ir@, Seq::<int>::empty()) == run_bounded(
                ir@.skip(k as int),
                ints_of(stack@),
            ),
        decreases ir@.len() - k,
    {
        let ins = ir[k];
        proof {
            assert(ir@.skip(k as int)[0] == ir@[k as int]);
            assert(ir@.skip(k as int).drop_first() =~= ir@.skip(k as int + 1));
        }
        match ins {
            Instr::Push(v) => {
                let ghost pre = stack@;
                stack.push(v as i64);
                proof {
                    assert(ints_of(stack@) =~= ints_of(pre).push(v as int));
                    assert(run_bounded(ir@.skip(k as int), ints_of(pre)) == run_bounded(
                        ir@.skip(k as int + 1),
                        ints_of(stack@),
                    ));
                }
            },
            _ => {
                let ghost pre = stack@;
                let ghost op = match ins {
                    Instr::Add => BinOp::Add,
                    Instr::Sub => BinOp::Sub,
                    Instr::Mul => BinOp::Mul,
                    _ => BinOp::Div,
                };
                if stack.len() < 2 {
                    proof {
                        reveal_with_fuel(run_bounded, 2);
                        reveal_with_fuel(run_step_bounded, 2);
                        assert(ints_of(pre).len() < 2);
                        assert(step_bin(op, ints_of(pre)) is None);
                        assert(run_bounded(ir@.skip(k as int), ints_of(pre)) is None);
                    }
                    return None;
                }
                let b = stack.pop().unwrap();
                let a = stack.pop().unwrap();
                proof {
                    assert(ints_of(pre).last() == b as int);
                    assert(ints_of(pre)[ints_of(pre).len() - 2] == a as int);
                    assert(ints_of(stack@) =~= ints_of(pre).take(ints_of(pre).len() - 2));
                }
                let c = match ins {
                    Instr::Add => a.checked_add(b),
                    Instr::Sub => a.checked_sub(b),
                    Instr::Mul => a.checked_mul(b),
                    _ => a.checked_div(b),
                };
                match c {
                    Some(v) => {
                        let ghost mid = stack@;
                        stack.push(v);
                        proof {
                            reveal_with_fuel(run_bounded, 2);
                            reveal_with_fuel(run_step_bounded, 2);
                            assert(apply_op(op, a as int, b as int) == Some(v as int));
                            assert(ints_of(stack@) =~= ints_of(mid).push(v as int));
                            assert(step_bin_bounded(op, ints_of(pre)) == Some(ints_of(stack@)));
                            assert(run_bounded(ir@.skip(k as int), ints_of(pre)) == run_bounded(
                                ir@.skip(k as int + 1),
                                ints_of(stack@),
                            ));
                        }
                    },
                    None => {
                        proof {
                            reveal_with_fuel(run_bounded, 2);
                            reveal_with_fuel(run_step_bounded, 2);
                            assert(step_bin_bounded(op, ints_of(pre)) is None);
                            assert(run_bounded(ir@.skip(k as int), ints_of(pre)) is None);
                        }
                        return None;
                    },
                }
            },
        }
        k = k + 1;
    }
    proof {
        assert(ir@.skip(ir@.len() as int) =~= Seq::<Instr>::empty());
    }
    if stack.len() == 1 {
        let v = stack[0];
        proof {
            assert(ints_of(stack@)[0] == v as int);
        }
        Some(v)
    } else {
        None
    }
}

} // verus!
