use vstd::prelude::*;

verus! {

/// One step of an alignment, in the order in which the elements of both
/// sequences are read from left to right.
#[derive(Debug, Clone, Copy, PartialEq, Eq, Structural)]
pub enum EditOperation<T> {
    Insert(T),
    Delete(T),
    Substitute(T, T),
    Keep(T),
}

/// What one operation reads from the first sequence.
pub open spec fn op_source<T>(op: EditOperation<T>) -> Seq<T> {
    match op {
        EditOperation::Insert(_) => seq![],
        EditOperation::Delete(a) => seq![a],
        EditOperation::Substitute(a, _) => seq![a],
        EditOperation::Keep(a) => seq![a],
    }
}

/// What one operation writes to the second sequence.
pub open spec fn op_target<T>(op: EditOperation<T>) -> Seq<T> {
    match op {
        EditOperation::Insert(b) => seq![b],
        EditOperation::Delete(_) => seq![],
        EditOperation::Substitute(_, b) => seq![b],
        EditOperation::Keep(a) => seq![a],
    }
}

/// The unit price of one operation: keeping costs nothing, any change one.
pub open spec fn op_cost<T>(op: EditOperation<T>) -> nat {
    match op {
        EditOperation::Keep(_) => 0,
        _ => 1,
    }
}

/// The sequence that `ops` consumes, read in order.
pub open spec fn source<T>(ops: Seq<EditOperation<T>>) -> Seq<T>
    decreases ops.len(),
{
    if ops.len() == 0 {
        seq![]
    } else {
        source(ops.drop_last()) + op_source(ops.last())
    }
}

/// The sequence that `ops` produces, written in order.
pub open spec fn target<T>(ops: Seq<EditOperation<T>>) -> Seq<T>
    decreases ops.len(),
{
    if ops.len() == 0 {
        seq![]
    } else {
        target(ops.drop_last()) + op_target(ops.last())
    }
}

/// The summed unit price of `ops`.
pub open spec fn ops_cost<T>(ops: Seq<EditOperation<T>>) -> nat
    decreases ops.len(),
{
    if ops.len() == 0 {
        0
    } else {
        ops_cost(ops.drop_last()) + op_cost(ops.last())
    }
}

} // verus!
