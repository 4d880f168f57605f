//! Runtime expressions: the compiled form a plan hands to an operator.
//!
//! A compiled column evaluator is a column reference; an aggregate
//! expression carries its function kind, its argument expressions and its
//! declared output type.

use vstd::prelude::*;
use crate::arrow::{Array, ArrayV, DataType, DataTypeV, RecordBatch, dt_view};
use crate::error::ExecutionError;

verus! {

/// The kind of an aggregate function.  `Min` and `Max` have accumulator
/// implementations in this core; the others are extension points named for
/// the plan compiler, with no accumulator here.
pub enum AggregateType {
    Min,
    Max,
    Sum,
    Count,
}

/// A compiled runtime expression.
pub enum RuntimeExpr {
    /// A plain column reference: evaluation yields that column of the batch.
    Column { index: usize },
    /// An aggregate function over argument expressions, with its declared
    /// output type.
    AggregateFunction { f: AggregateType, args: Vec<RuntimeExpr>, t: DataType },
}

impl RuntimeExpr {
    /// Whether evaluation against a batch of `width` columns succeeds: the
    /// expression must be a column reference within bounds.
    pub open spec fn eval_ok(&self, width: int) -> bool {
        match self {
            RuntimeExpr::Column { index } => index < width,
            _ => false,
        }
    }

    /// The referenced column index (meaningful when `eval_ok` holds).
    pub open spec fn col(&self) -> int {
        match self {
            RuntimeExpr::Column { index } => *index as int,
            _ => 0,
        }
    }

    /// The aggregate's function kind (meaningful for an aggregate node).
    pub open spec fn agg_f(&self) -> AggregateType {
        match self {
            RuntimeExpr::AggregateFunction { f, .. } => *f,
            _ => AggregateType::Min,
        }
    }

    /// The aggregate's declared output type (meaningful for an aggregate
    /// node).
    pub open spec fn agg_t(&self) -> DataTypeV {
        match self {
            RuntimeExpr::AggregateFunction { t, .. } => dt_view(*t),
            _ => DataTypeV::Boolean,
        }
    }

    /// The aggregate's argument expressions (meaningful for an aggregate
    /// node).
    pub open spec fn agg_args(&self) -> Seq<RuntimeExpr> {
        match self {
            RuntimeExpr::AggregateFunction { args, .. } => args@,
            _ => Seq::empty(),
        }
    }

    /// Evaluate the expression against a batch.  A column reference yields
    /// that column; anything else, or an out-of-range reference, is a
    /// runtime evaluation failure.
    pub fn evaluate<'a>(&self, batch: &'a RecordBatch) -> (r: Result<&'a Array, ExecutionError>)
        ensures
            match r {
                Ok(a) => self.eval_ok(batch@.len() as int) && a@ == batch@[self.col()],
                Err(e) => !self.eval_ok(batch@.len() as int) && e is ExecutionError,
            },
    {
        match self {
            RuntimeExpr::Column { index } => {
                if *index < batch.num_columns() {
                    Ok(batch.column(*index))
                } else {
                    Err(
                        ExecutionError::ExecutionError(
                            "column reference out of range".to_owned(),
                        ),
                    )
                }
            },
            _ => Err(
                ExecutionError::ExecutionError("expression is not a compiled column".to_owned()),
            ),
        }
    }
}

} // verus!
