//! Evaluation of constant expressions: the initializers of globals and the offsets of data
//! segments.

use vstd::prelude::*;

use crate::analyzer::{is_const_op, Operator};

verus! {

/// The result of a binary operation on the two constants on top of the stack, if the operation
/// applies to them: the integer operations wrap around.
pub open spec fn binary_result(op: Operator, a: Operator, b: Operator) -> Option<Operator> {
    match (op, a, b) {
        (Operator::I32Add, Operator::I32Const { value: a }, Operator::I32Const { value: b }) => Some(Operator::I32Const { value: a.wrapping_add(b) }),
        (Operator::I32Sub, Operator::I32Const { value: a }, Operator::I32Const { value: b }) => Some(Operator::I32Const { value: a.wrapping_sub(b) }),
        (Operator::I32Mul, Operator::I32Const { value: a }, Operator::I32Const { value: b }) => Some(Operator::I32Const { value: a.wrapping_mul(b) }),
        (Operator::I64Add, Operator::I64Const { value: a }, Operator::I64Const { value: b }) => Some(Operator::I64Const { value: a.wrapping_add(b) }),
        (Operator::I64Sub, Operator::I64Const { value: a }, Operator::I64Const { value: b }) => Some(Operator::I64Const { value: a.wrapping_sub(b) }),
        (Operator::I64Mul, Operator::I64Const { value: a }, Operator::I64Const { value: b }) => Some(Operator::I64Const { value: a.wrapping_mul(b) }),
        _ => None,
    }
}

pub open spec fn is_binary(op: Operator) -> bool {
    ||| op is I32Add || op is I32Sub || op is I32Mul
    ||| op is I64Add || op is I64Sub || op is I64Mul
}

/// The stack after the operators of `expr` run on `stack`, up to the first `end`; `None`
/// where an operator does not apply.
pub open spec fn eval_steps(stack: Seq<Operator>, expr: Seq<Operator>, globals: Seq<Operator>) -> Option<Seq<Operator>>
    decreases expr.len(),
{
    if expr.len() == 0 {
        Some(stack)
    } else {
        let op = expr[0];
        match op {
            Operator::I32Const { .. } | Operator::I64Const { .. } => eval_steps(stack.push(op), expr.drop_first(), globals),
            Operator::GlobalGet { global_index } => if global_index < globals.len() && is_const_op(&globals[global_index as int]) {
                eval_steps(stack.push(globals[global_index as int]), expr.drop_first(), globals)
            } else {
                None
            },
            Operator::End => Some(stack),
            _ => if is_binary(op) && stack.len() >= 2 {
                match binary_result(op, stack[stack.len() - 2], stack.last()) {
                    Some(r) => eval_steps(stack.drop_last().drop_last().push(r), expr.drop_first(), globals),
                    None => None,
                }
            } else {
                None
            },
        }
    }
}

/// The value of a constant expression: the first value on the stack when it ends.
pub open spec fn const_value(expr: Seq<Operator>, globals: Seq<Operator>) -> Option<Operator> {
    match eval_steps(Seq::empty(), expr, globals) {
        Some(stack) => if stack.len() > 0 { Some(stack[0]) } else { None },
        None => None,
    }
}

fn copy_const(op: &Operator) -> (r: Operator)
    requires
        is_const_op(op),
    ensures
        r == *op,
{
    match op {
        Operator::I32Const { value } => Operator::I32Const { value: *value },
        Operator::I64Const { value } => Operator::I64Const { value: *value },
        Operator::F32Const { value } => Operator::F32Const { value: *value },
        Operator::F64Const { value } => Operator::F64Const { value: *value },
        _ => Operator::Unsupported,
    }
}

fn binary(op: &Operator, a: &Operator, b: &Operator) -> (r: Option<Operator>)
    ensures
        r == binary_result(*op, *a, *b),
{
    match (op, a, b) {
        (Operator::I32Add, Operator::I32Const { value: a }, Operator::I32Const { value: b }) => Some(Operator::I32Const { value: a.wrapping_add(*b) }),
        (Operator::I32Sub, Operator::I32Const { value: a }, Operator::I32Const { value: b }) => Some(Operator::I32Const { value: a.wrapping_sub(*b) }),
        (Operator::I32Mul, Operator::I32Const { value: a }, Operator::I32Const { value: b }) => Some(Operator::I32Const { value: a.wrapping_mul(*b) }),
        (Operator::I64Add, Operator::I64Const { value: a }, Operator::I64Const { value: b }) => Some(Operator::I64Const { value: a.wrapping_add(*b) }),
        (Operator::I64Sub, Operator::I64Const { value: a }, Operator::I64Const { value: b }) => Some(Operator::I64Const { value: a.wrapping_sub(*b) }),
        (Operator::I64Mul, Operator::I64Const { value: a }, Operator::I64Const { value: b }) => Some(Operator::I64Const { value: a.wrapping_mul(*b) }),
        _ => None,
    }
}

/// Evaluates a constant expression. To evaluate the initializer of a global, pass no globals:
/// initializers cannot refer to globals (imported globals are not supported). To evaluate the
/// offset of a data segment, pass the initializers of the globals, indexed by global ID.
/// The expression must evaluate: its operators must apply to the stack, and it must leave a
/// value.
pub fn eval(expr: &[Operator], globals: &[Operator]) -> (r: Operator)
    requires
        const_value(expr@, globals@) is Some,
    ensures
        r == const_value(expr@, globals@)->0,
{
    let mut stack: Vec<Operator> = Vec::new();
    let ghost result = eval_steps(Seq::empty(), expr@, globals@);
    let mut i: usize = 0;
    let mut done = false;
    proof {
        assert(expr@.skip(0) =~= expr@);
    }
    while i < expr.len() && !done
        invariant
            i <= expr@.len(),
            result == eval_steps(Seq::empty(), expr@, globals@),
            result is Some,
            result->0.len() > 0,
            !done ==> result == eval_steps(stack@, expr@.skip(i as int), globals@),
            done ==> result == Some(stack@),
        decreases expr@.len() - i,
    {
        let op = &expr[i];
        proof {
            assert(expr@.skip(i as int)[0] == expr@[i as int]);
            assert(expr@.skip(i as int).drop_first() =~= expr@.skip(i + 1));
        }
        match op {
            Operator::I32Const { .. } | Operator::I64Const { .. } => {
                stack.push(copy_const(op));
            },
            Operator::GlobalGet { global_index } => {
                // The requirement rules out a missing or non-constant global
                let g = copy_const(&globals[*global_index as usize]);
                stack.push(g);
            },
            Operator::End => {
                done = true;
            },
            _ => {
                let n = stack.len();
                let r = binary(op, &stack[n - 2], &stack[n - 1]);
                let r = r.unwrap();
                let ghost before = stack@;
                stack.pop();
                stack.pop();
                stack.push(r);
                proof {
                    assert(stack@ =~= before.drop_last().drop_last().push(r));
                }
            },
        }
        i = i + 1;
    }
    proof {
        if !done {
            assert(expr@.skip(i as int) =~= Seq::<Operator>::empty());
        }
    }
    stack.swap_remove(0)
}

} // verus!
