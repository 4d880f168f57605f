//! The aggregate relation: MIN/MAX accumulation over a pulled input, with
//! and without GROUP BY.

use std::rc::Rc;
use vstd::prelude::*;
use crate::arrow::{
    Array, ArrayV, DataType, DataTypeV, RecordBatch, Schema, Value, ValueV, array_views,
    batch_rows, clone_string, clone_value, lemma_array_views, schema_handle_clone, value_view,
};
use crate::arrow::{Field, FieldV};
use crate::error::ExecutionError;
use crate::expression::{AggregateType, RuntimeExpr};
use crate::fp::{f32_min, f32_max, f64_min, f64_max, f32_bits_min, f32_bits_max, f64_bits_min, f64_bits_max, f64_is_nan, f64_key};
use crate::relation::Relation;

verus! {

broadcast use {
    vstd::seq::axiom_seq_index_decreases,
    vstd::seq::axiom_seq_subrange_decreases,
    vstd::std_specs::vec::axiom_vec_decreases_to_view,
};

/// Whether two scalars may meet in one MIN/MAX reduction step: both must be
/// of the same numeric kind; widths are never coerced inside the reducer.
pub open spec fn minmax_compat(a: ValueV, b: ValueV) -> bool {
    match (a, b) {
        (ValueV::Int32(_), ValueV::Int32(_)) => true,
        (ValueV::Int64(_), ValueV::Int64(_)) => true,
        (ValueV::Float32(_), ValueV::Float32(_)) => true,
        (ValueV::Float64(_), ValueV::Float64(_)) => true,
        _ => false,
    }
}

/// The smaller of two same-kind numeric scalars; floats follow their
/// bit-pattern ordering model, NaN operands are ignored in favour of the
/// other.
pub open spec fn value_min(a: ValueV, b: ValueV) -> ValueV {
    match (a, b) {
        (ValueV::Int32(x), ValueV::Int32(y)) => ValueV::Int32(if x <= y { x } else { y }),
        (ValueV::Int64(x), ValueV::Int64(y)) => ValueV::Int64(if x <= y { x } else { y }),
        (ValueV::Float32(x), ValueV::Float32(y)) => ValueV::Float32(f32_min(x, y)),
        (ValueV::Float64(x), ValueV::Float64(y)) => ValueV::Float64(f64_min(x, y)),
        _ => a,
    }
}

/// The larger of two same-kind numeric scalars.
pub open spec fn value_max(a: ValueV, b: ValueV) -> ValueV {
    match (a, b) {
        (ValueV::Int32(x), ValueV::Int32(y)) => ValueV::Int32(if x >= y { x } else { y }),
        (ValueV::Int64(x), ValueV::Int64(y)) => ValueV::Int64(if x >= y { x } else { y }),
        (ValueV::Float32(x), ValueV::Float32(y)) => ValueV::Float32(f32_max(x, y)),
        (ValueV::Float64(x), ValueV::Float64(y)) => ValueV::Float64(f64_max(x, y)),
        _ => a,
    }
}

/// One accumulation step: the first non-empty value seeds the state,
/// further values combine through the reducer.
pub open spec fn combine_opt(
    cur: Option<ValueV>,
    v: Option<ValueV>,
    use_min: bool,
) -> Option<ValueV> {
    match (cur, v) {
        (Option::None, _) => v,
        (_, Option::None) => cur,
        (Option::Some(a), Option::Some(b)) => Option::Some(
            if use_min {
                value_min(a, b)
            } else {
                value_max(a, b)
            },
        ),
    }
}

/// Model of an optional scalar.
pub open spec fn opt_value_view(o: Option<Value>) -> Option<ValueV> {
    match o {
        Option::None => Option::None,
        Option::Some(v) => Option::Some(value_view(v)),
    }
}

/// Structural copy of an optional scalar.
fn clone_opt_value(v: &Option<Value>) -> (r: Option<Value>)
    ensures
        opt_value_view(r) == opt_value_view(*v),
{
    match v {
        Option::None => Option::None,
        Option::Some(x) => Option::Some(clone_value(x)),
    }
}

/// The smaller of two same-kind numeric scalars, as [`value_min`].
fn value_min_exec(a: &Value, b: &Value) -> (r: Value)
    requires
        minmax_compat(a@, b@),
    ensures
        r@ == value_min(a@, b@),
{
    match (a, b) {
        (Value::Int32(x), Value::Int32(y)) => Value::Int32(if *x <= *y { *x } else { *y }),
        (Value::Int64(x), Value::Int64(y)) => Value::Int64(if *x <= *y { *x } else { *y }),
        (Value::Float32(x), Value::Float32(y)) => Value::Float32(f32_bits_min(*x, *y)),
        (Value::Float64(x), Value::Float64(y)) => Value::Float64(f64_bits_min(*x, *y)),
        _ => Value::Boolean(false),  // unreachable under the precondition
    }
}

/// The larger of two same-kind numeric scalars, as [`value_max`].
fn value_max_exec(a: &Value, b: &Value) -> (r: Value)
    requires
        minmax_compat(a@, b@),
    ensures
        r@ == value_max(a@, b@),
{
    match (a, b) {
        (Value::Int32(x), Value::Int32(y)) => Value::Int32(if *x >= *y { *x } else { *y }),
        (Value::Int64(x), Value::Int64(y)) => Value::Int64(if *x >= *y { *x } else { *y }),
        (Value::Float32(x), Value::Float32(y)) => Value::Float32(f32_bits_max(*x, *y)),
        (Value::Float64(x), Value::Float64(y)) => Value::Float64(f64_bits_max(*x, *y)),
        _ => Value::Boolean(false),  // unreachable under the precondition
    }
}

/// Running MIN state: the declared output type and the current optional
/// minimum.
pub struct MinFunction {
    pub data_type: DataType,
    pub value: Option<Value>,
}

impl MinFunction {
    /// A MIN accumulator with no value seen yet.
    pub fn new(data_type: &DataType) -> (r: Self)
        ensures
            r.data_type@ == data_type@,
            r.value is None,
    {
        Self { data_type: clone_data_type(data_type), value: Option::None }
    }

    /// Fold one optional scalar into the running minimum: the first
    /// non-empty value becomes the seed, later values combine pairwise.
    pub fn accumulate_scalar(&mut self, value: &Option<Value>)
        requires
            match (old(self).value, *value) {
                (Option::Some(a), Option::Some(b)) => minmax_compat(a@, b@),
                _ => true,
            },
        ensures
            opt_value_view(final(self).value) == combine_opt(
                opt_value_view(old(self).value),
                opt_value_view(*value),
                true,
            ),
            final(self).data_type == old(self).data_type,
    {
        if self.value.is_none() {
            self.value = clone_opt_value(value);
        } else if value.is_some() {
            match (&self.value, value) {
                (Option::Some(a), Option::Some(b)) => {
                    let m = value_min_exec(a, b);
                    self.value = Option::Some(m);
                },
                _ => {},
            }
        }
    }

    /// The batched accumulation path: a declared extension point that
    /// accepts the call and does nothing.
    pub fn accumulate_array(&mut self, _array: &Array)
        ensures
            *final(self) == *old(self),
    {
    }

    /// The current optional result.
    pub fn result(&self) -> (r: &Option<Value>)
        ensures
            r == self.value,
    {
        &self.value
    }

    /// The declared output type, fixed at construction.
    pub fn data_type(&self) -> (r: &DataType)
        ensures
            r == self.data_type,
    {
        &self.data_type
    }
}

/// Running MAX state: the declared output type and the current optional
/// maximum.
pub struct MaxFunction {
    pub data_type: DataType,
    pub value: Option<Value>,
}

impl MaxFunction {
    /// A MAX accumulator with no value seen yet.
    pub fn new(data_type: &DataType) -> (r: Self)
        ensures
            r.data_type@ == data_type@,
            r.value is None,
    {
        Self { data_type: clone_data_type(data_type), value: Option::None }
    }

    /// Fold one optional scalar into the running maximum.
    pub fn accumulate_scalar(&mut self, value: &Option<Value>)
        requires
            match (old(self).value, *value) {
                (Option::Some(a), Option::Some(b)) => minmax_compat(a@, b@),
                _ => true,
            },
        ensures
            opt_value_view(final(self).value) == combine_opt(
                opt_value_view(old(self).value),
                opt_value_view(*value),
                false,
            ),
            final(self).data_type == old(self).data_type,
    {
        if self.value.is_none() {
            self.value = clone_opt_value(value);
        } else if value.is_some() {
            match (&self.value, value) {
                (Option::Some(a), Option::Some(b)) => {
                    let m = value_max_exec(a, b);
                    self.value = Option::Some(m);
                },
                _ => {},
            }
        }
    }

    /// The batched accumulation path: a declared extension point that
    /// accepts the call and does nothing.
    pub fn accumulate_array(&mut self, _array: &Array)
        ensures
            *final(self) == *old(self),
    {
    }

    /// The current optional result.
    pub fn result(&self) -> (r: &Option<Value>)
        ensures
            r == self.value,
    {
        &self.value
    }

    /// The declared output type, fixed at construction.
    pub fn data_type(&self) -> (r: &DataType)
        ensures
            r == self.data_type,
    {
        &self.data_type
    }
}

/// Structural copy of a data type.
pub fn clone_data_type(dt: &DataType) -> (r: DataType)
    ensures
        r@ == dt@,
    decreases *dt,
{
    match dt {
        DataType::Boolean => DataType::Boolean,
        DataType::Float32 => DataType::Float32,
        DataType::Float64 => DataType::Float64,
        DataType::Int32 => DataType::Int32,
        DataType::Int64 => DataType::Int64,
        DataType::Utf8 => DataType::Utf8,
        DataType::Struct(fields) => {
            proof {
                crate::arrow::lemma_field_views(fields@);
            }
            let mut out: Vec<crate::arrow::Field> = Vec::new();
            let n = fields.len();
            let mut j: usize = 0;
            while j < n
                invariant
                    n == fields.len(),
                    j <= n,
                    dt == DataType::Struct(*fields),
                    out@.len() == j,
                    forall|k: int|
                        0 <= k < j ==> (#[trigger] out@[k])@ == crate::arrow::field_views(
                            fields@,
                        )[k],
                decreases n - j,
            {
                proof {
                    crate::arrow::lemma_field_views(fields@);
                    assert(decreases_to!(*dt => dt->Struct_0));
                    assert(dt->Struct_0 == *fields);
                    assert(decreases_to!(*fields => fields@));
                    assert(decreases_to!(fields@ => fields@[j as int]));
                    assert(decreases_to!(fields@[j as int] => fields@[j as int].data_type));
                }
                let f = &fields[j];
                let cdt = clone_data_type(&f.data_type);
                let name = clone_string(&f.name);
                out.push(crate::arrow::Field { name, data_type: cdt, nullable: f.nullable });
                j += 1;
            }
            let r = DataType::Struct(out);
            proof {
                crate::arrow::lemma_field_views(fields@);
                crate::arrow::lemma_field_views(out@);
                assert(crate::arrow::field_views(out@) =~= crate::arrow::field_views(fields@));
            }
            r
        },
    }
}

/// A MIN or MAX accumulator; the variant is selected from the compiled
/// expression's function kind.
pub enum AggregateFunction {
    Min(MinFunction),
    Max(MaxFunction),
}

impl AggregateFunction {
    /// Whether this accumulator reduces by minimum.
    pub open spec fn is_min(&self) -> bool {
        self is Min
    }

    /// The current optional result.
    pub open spec fn acc_value(&self) -> Option<Value> {
        match self {
            AggregateFunction::Min(f) => f.value,
            AggregateFunction::Max(f) => f.value,
        }
    }

    /// The declared output type.
    pub open spec fn acc_dt(&self) -> DataTypeV {
        match self {
            AggregateFunction::Min(f) => f.data_type@,
            AggregateFunction::Max(f) => f.data_type@,
        }
    }

    /// Fold one optional scalar into the running state.
    pub fn accumulate_scalar(&mut self, value: &Option<Value>)
        requires
            match (old(self).acc_value(), *value) {
                (Option::Some(a), Option::Some(b)) => minmax_compat(a@, b@),
                _ => true,
            },
        ensures
            opt_value_view(final(self).acc_value()) == combine_opt(
                opt_value_view(old(self).acc_value()),
                opt_value_view(*value),
                old(self).is_min(),
            ),
            final(self).is_min() == old(self).is_min(),
            final(self).acc_dt() == old(self).acc_dt(),
    {
        match self {
            AggregateFunction::Min(f) => f.accumulate_scalar(value),
            AggregateFunction::Max(f) => f.accumulate_scalar(value),
        }
    }

    /// The current optional result.
    pub fn result(&self) -> (r: &Option<Value>)
        ensures
            r == self.acc_value(),
    {
        match self {
            AggregateFunction::Min(f) => f.result(),
            AggregateFunction::Max(f) => f.result(),
        }
    }

    /// The declared output type.
    pub fn data_type(&self) -> (r: &DataType)
        ensures
            r@ == self.acc_dt(),
    {
        match self {
            AggregateFunction::Min(f) => f.data_type(),
            AggregateFunction::Max(f) => f.data_type(),
        }
    }
}

/// An ordered collection of accumulators, index-aligned with the aggregate
/// expression list.
pub struct AccumulatorSet {
    pub aggr_values: Vec<AggregateFunction>,
}

impl AccumulatorSet {
    /// Fold one optional scalar into the accumulator at `i`.
    pub fn accumulate_scalar(&mut self, i: usize, value: Option<Value>)
        requires
            i < old(self).aggr_values@.len(),
            match (old(self).aggr_values@[i as int].acc_value(), value) {
                (Option::Some(a), Option::Some(b)) => minmax_compat(a@, b@),
                _ => true,
            },
        ensures
            final(self).aggr_values@.len() == old(self).aggr_values@.len(),
            forall|j: int|
                0 <= j < old(self).aggr_values@.len() && j != i ==> final(self).aggr_values@[j]
                    == old(self).aggr_values@[j],
            opt_value_view(final(self).aggr_values@[i as int].acc_value()) == combine_opt(
                opt_value_view(old(self).aggr_values@[i as int].acc_value()),
                opt_value_view(value),
                old(self).aggr_values@[i as int].is_min(),
            ),
            final(self).aggr_values@[i as int].is_min() == old(self).aggr_values@[
                i as int
            ].is_min(),
            final(self).aggr_values@[i as int].acc_dt() == old(self).aggr_values@[
                i as int
            ].acc_dt(),
    {
        let f = &mut self.aggr_values[i];
        f.accumulate_scalar(&value);
    }
}

/// Whether every expression in an aggregate list has the shape the operator
/// accepts: an aggregate-function node whose kind has an accumulator, with
/// at least one argument and a declared output type the result builders
/// know.  Anything else is a planning invariant violation.
pub open spec fn valid_aggr_exprs(exprs: Seq<RuntimeExpr>) -> bool {
    forall|i: int|
        0 <= i < exprs.len() ==> {
            &&& (#[trigger] exprs[i]) is AggregateFunction
            &&& (exprs[i].agg_f() is Min || exprs[i].agg_f() is Max)
            &&& exprs[i].agg_args().len() >= 1
            &&& (exprs[i].agg_t() is Int32 || exprs[i].agg_t() is Float64)
        }
}

/// Build one fresh accumulator per aggregate expression, selecting the
/// variant from the expression's function kind and seeding the declared
/// output type.
pub fn create_accumulators(aggr_expr: &Vec<RuntimeExpr>) -> (r: AccumulatorSet)
    requires
        valid_aggr_exprs(aggr_expr@),
    ensures
        r.aggr_values@.len() == aggr_expr@.len(),
        forall|i: int|
            0 <= i < aggr_expr@.len() ==> {
                &&& (#[trigger] r.aggr_values@[i]).is_min() == aggr_expr@[i].agg_f() is Min
                &&& r.aggr_values@[i].acc_value() is None
                &&& r.aggr_values@[i].acc_dt() == aggr_expr@[i].agg_t()
            },
{
    let mut functions: Vec<AggregateFunction> = Vec::new();
    let n = aggr_expr.len();
    let mut i: usize = 0;
    while i < n
        invariant
            n == aggr_expr@.len(),
            i <= n,
            valid_aggr_exprs(aggr_expr@),
            functions@.len() == i,
            forall|k: int|
                0 <= k < i ==> {
                    &&& (#[trigger] functions@[k]).is_min() == aggr_expr@[k].agg_f() is Min
                    &&& functions@[k].acc_value() is None
                    &&& functions@[k].acc_dt() == aggr_expr@[k].agg_t()
                },
        decreases n - i,
    {
        proof {
            assert(aggr_expr@[i as int] is AggregateFunction);
        }
        let f = match &aggr_expr[i] {
            RuntimeExpr::AggregateFunction { f, t, .. } => match f {
                AggregateType::Min => AggregateFunction::Min(MinFunction::new(t)),
                AggregateType::Max => AggregateFunction::Max(MaxFunction::new(t)),
                _ => {
                    proof {
                        assert(false);  // the shape precondition excludes other kinds
                    }
                    AggregateFunction::Min(MinFunction::new(t))
                },
            },
            _ => {
                proof {
                    assert(false);  // the shape precondition excludes non-aggregates
                }
                AggregateFunction::Min(MinFunction::new(&DataType::Float64))
            },
        };
        functions.push(f);
        i += 1;
    }
    AccumulatorSet { aggr_values: functions }
}

/// The backing bit patterns of a 64-bit float column (empty for any other
/// variant).
pub open spec fn f64_col(a: ArrayV) -> Seq<u64> {
    match a {
        ArrayV::Float64(v) => v,
        _ => Seq::empty(),
    }
}

/// The backing values of a 32-bit integer column (empty for any other
/// variant).
pub open spec fn i32_col(a: ArrayV) -> Seq<i32> {
    match a {
        ArrayV::Int32(v) => v,
        _ => Seq::empty(),
    }
}

/// MIN fold over 64-bit float bit patterns, seeded by the first element.
pub open spec fn f64_seq_min(s: Seq<u64>) -> u64
    decreases s.len(),
{
    if s.len() <= 1 {
        s[0]
    } else {
        f64_min(f64_seq_min(s.drop_last()), s.last())
    }
}

/// MAX fold over 64-bit float bit patterns, seeded by the first element.
pub open spec fn f64_seq_max(s: Seq<u64>) -> u64
    decreases s.len(),
{
    if s.len() <= 1 {
        s[0]
    } else {
        f64_max(f64_seq_max(s.drop_last()), s.last())
    }
}

/// The pairwise float minimum is associative.
pub proof fn lemma_f64_min_assoc(a: u64, b: u64, c: u64)
    ensures
        f64_min(f64_min(a, b), c) == f64_min(a, f64_min(b, c)),
{
}

/// The pairwise float maximum is associative.
pub proof fn lemma_f64_max_assoc(a: u64, b: u64, c: u64)
    ensures
        f64_max(f64_max(a, b), c) == f64_max(a, f64_max(b, c)),
{
}

/// The MIN fold of a concatenation combines the folds of the two parts:
/// accumulating batch by batch gives the same result as folding the whole
/// column at once.
pub proof fn lemma_f64_seq_min_concat(a: Seq<u64>, b: Seq<u64>)
    requires
        a.len() > 0,
        b.len() > 0,
    ensures
        f64_seq_min(a + b) == f64_min(f64_seq_min(a), f64_seq_min(b)),
    decreases b.len(),
{
    if b.len() == 1 {
        assert((a + b).drop_last() =~= a);
        assert((a + b).last() == b[0]);
    } else {
        assert((a + b).drop_last() =~= a + b.drop_last());
        lemma_f64_seq_min_concat(a, b.drop_last());
        lemma_f64_min_assoc(f64_seq_min(a), f64_seq_min(b.drop_last()), b.last());
    }
}

/// The MAX fold of a concatenation combines the folds of the two parts.
pub proof fn lemma_f64_seq_max_concat(a: Seq<u64>, b: Seq<u64>)
    requires
        a.len() > 0,
        b.len() > 0,
    ensures
        f64_seq_max(a + b) == f64_max(f64_seq_max(a), f64_seq_max(b)),
    decreases b.len(),
{
    if b.len() == 1 {
        assert((a + b).drop_last() =~= a);
        assert((a + b).last() == b[0]);
    } else {
        assert((a + b).drop_last() =~= a + b.drop_last());
        lemma_f64_seq_max_concat(a, b.drop_last());
        lemma_f64_max_assoc(f64_seq_max(a), f64_seq_max(b.drop_last()), b.last());
    }
}

/// Reduce a whole 64-bit float column to its minimum, if the declared type
/// is the one wired for whole-array reduction; every other type is a
/// recognized but unsupported reduction.
pub fn array_min(array: &Array, dt: &DataType) -> (r: Result<Option<Value>, ExecutionError>)
    requires
        dt@ is Float64 ==> array@ is Float64,
    ensures
        match r {
            Ok(o) => dt@ is Float64 && opt_value_view(o) == (if f64_col(array@).len() == 0 {
                Option::<ValueV>::None
            } else {
                Option::Some(ValueV::Float64(f64_seq_min(f64_col(array@))))
            }),
            Err(e) => !(dt@ is Float64) && e is NotImplemented,
        },
{
    match dt {
        DataType::Float64 => match array {
            Array::Float64(v) => {
                if v.len() == 0 {
                    Ok(Option::None)
                } else {
                    let n = v.len();
                    let mut acc: u64 = v[0];
                    let mut i: usize = 1;
                    while i < n
                        invariant
                            n == v@.len(),
                            1 <= i <= n,
                            acc == f64_seq_min(v@.take(i as int)),
                        decreases n - i,
                    {
                        acc = f64_bits_min(acc, v[i]);
                        proof {
                            assert(v@.take(i + 1 as int).drop_last() =~= v@.take(i as int));
                        }
                        i += 1;
                    }
                    proof {
                        assert(v@.take(n as int) =~= v@);
                    }
                    Ok(Option::Some(Value::Float64(acc)))
                }
            },
            _ => {
                proof {
                    assert(false);  // excluded by the precondition
                }
                Ok(Option::None)
            },
        },
        _ => Err(ExecutionError::NotImplemented("Unsupported data type for MIN".to_owned())),
    }
}

/// Reduce a whole 64-bit float column to its maximum, as [`array_min`].
pub fn array_max(array: &Array, dt: &DataType) -> (r: Result<Option<Value>, ExecutionError>)
    requires
        dt@ is Float64 ==> array@ is Float64,
    ensures
        match r {
            Ok(o) => dt@ is Float64 && opt_value_view(o) == (if f64_col(array@).len() == 0 {
                Option::<ValueV>::None
            } else {
                Option::Some(ValueV::Float64(f64_seq_max(f64_col(array@))))
            }),
            Err(e) => !(dt@ is Float64) && e is NotImplemented,
        },
{
    match dt {
        DataType::Float64 => match array {
            Array::Float64(v) => {
                if v.len() == 0 {
                    Ok(Option::None)
                } else {
                    let n = v.len();
                    let mut acc: u64 = v[0];
                    let mut i: usize = 1;
                    while i < n
                        invariant
                            n == v@.len(),
                            1 <= i <= n,
                            acc == f64_seq_max(v@.take(i as int)),
                        decreases n - i,
                    {
                        acc = f64_bits_max(acc, v[i]);
                        proof {
                            assert(v@.take(i + 1 as int).drop_last() =~= v@.take(i as int));
                        }
                        i += 1;
                    }
                    proof {
                        assert(v@.take(n as int) =~= v@);
                    }
                    Ok(Option::Some(Value::Float64(acc)))
                }
            },
            _ => {
                proof {
                    assert(false);  // excluded by the precondition
                }
                Ok(Option::None)
            },
        },
        _ => Err(ExecutionError::NotImplemented("Unsupported data type for MAX".to_owned())),
    }
}

/// The typed scalar that `update_accumulators` extracts for one aggregate
/// expression at one row: the row's cell of the argument column, read by the
/// expression's declared output type (32-bit integer or 64-bit float).
pub open spec fn row_scalar(cols: Seq<ArrayV>, e: RuntimeExpr, row: int) -> ValueV {
    let c = e.agg_args()[0].col();
    if e.agg_t() is Int32 {
        ValueV::Int32(i32_col(cols[c])[row])
    } else {
        ValueV::Float64(f64_col(cols[c])[row])
    }
}

/// Whether the per-row extraction is defined for expression `e` against a
/// batch of columns `cols` at row `row`: the argument evaluates, the
/// declared type is one of the two wired kinds, and the column has that
/// kind with the row in bounds.
pub open spec fn row_extract_ok(cols: Seq<ArrayV>, e: RuntimeExpr, row: int) -> bool {
    let c = e.agg_args()[0].col();
    &&& e.agg_args().len() >= 1
    &&& e.agg_args()[0].eval_ok(cols.len() as int)
    &&& (e.agg_t() is Int32 || e.agg_t() is Float64)
    &&& (e.agg_t() is Int32 ==> cols[c] is Int32 && 0 <= row < i32_col(cols[c]).len())
    &&& (e.agg_t() is Float64 ==> cols[c] is Float64 && 0 <= row < f64_col(cols[c]).len())
}

/// Whether an accumulator state may take the scalars that `e` extracts:
/// empty, or of the same kind as the declared type.
pub open spec fn acc_kind_compat(acc: Option<Value>, e: RuntimeExpr) -> bool {
    match acc {
        Option::None => true,
        Option::Some(v) => (e.agg_t() is Int32 ==> v@ is Int32) && (e.agg_t() is Float64
            ==> v@ is Float64),
    }
}

/// Update every accumulator of the set with the typed scalar its aggregate
/// expression extracts from `batch` at row `row`.
pub fn update_accumulators(
    batch: &RecordBatch,
    row: usize,
    accumulator_set: &mut AccumulatorSet,
    aggr_expr: &Vec<RuntimeExpr>,
)
    requires
        valid_aggr_exprs(aggr_expr@),
        old(accumulator_set).aggr_values@.len() == aggr_expr@.len(),
        forall|j: int|
            0 <= j < aggr_expr@.len() ==> row_extract_ok(batch@, #[trigger] aggr_expr@[j], row as int),
        forall|j: int|
            0 <= j < aggr_expr@.len() ==> acc_kind_compat(
                old(accumulator_set).aggr_values@[j].acc_value(),
                #[trigger] aggr_expr@[j],
            ),
    ensures
        final(accumulator_set).aggr_values@.len() == aggr_expr@.len(),
        forall|j: int|
            0 <= j < aggr_expr@.len() ==> {
                &&& opt_value_view((#[trigger] final(accumulator_set).aggr_values@[j]).acc_value())
                    == combine_opt(
                    opt_value_view(old(accumulator_set).aggr_values@[j].acc_value()),
                    Option::Some(row_scalar(batch@, aggr_expr@[j], row as int)),
                    old(accumulator_set).aggr_values@[j].is_min(),
                )
                &&& final(accumulator_set).aggr_values@[j].is_min() == old(
                    accumulator_set,
                ).aggr_values@[j].is_min()
                &&& final(accumulator_set).aggr_values@[j].acc_dt() == old(
                    accumulator_set,
                ).aggr_values@[j].acc_dt()
            },
{
    let n = accumulator_set.aggr_values.len();
    let mut j: usize = 0;
    while j < n
        invariant
            n == aggr_expr@.len(),
            j <= n,
            valid_aggr_exprs(aggr_expr@),
            accumulator_set.aggr_values@.len() == n,
            forall|k: int|
                0 <= k < n ==> row_extract_ok(batch@, #[trigger] aggr_expr@[k], row as int),
            forall|k: int|
                j <= k < n ==> (#[trigger] accumulator_set.aggr_values@[k]) == old(
                    accumulator_set,
                ).aggr_values@[k],
            forall|k: int|
                j <= k < n ==> acc_kind_compat(
                    old(accumulator_set).aggr_values@[k].acc_value(),
                    #[trigger] aggr_expr@[k],
                ),
            forall|k: int|
                0 <= k < j ==> {
                    &&& opt_value_view(
                        (#[trigger] accumulator_set.aggr_values@[k]).acc_value(),
                    ) == combine_opt(
                        opt_value_view(old(accumulator_set).aggr_values@[k].acc_value()),
                        Option::Some(row_scalar(batch@, aggr_expr@[k], row as int)),
                        old(accumulator_set).aggr_values@[k].is_min(),
                    )
                    &&& accumulator_set.aggr_values@[k].is_min() == old(
                        accumulator_set,
                    ).aggr_values@[k].is_min()
                    &&& accumulator_set.aggr_values@[k].acc_dt() == old(
                        accumulator_set,
                    ).aggr_values@[k].acc_dt()
                },
        decreases n - j,
    {
        let value: Option<Value> = match &aggr_expr[j] {
            RuntimeExpr::AggregateFunction { args, t, .. } => {
                match args[0].evaluate(batch) {
                    Ok(array) => match t {
                        DataType::Int32 => match array {
                            Array::Int32(z) => Option::Some(Value::Int32(z[row])),
                            _ => {
                                proof {
                                    assert(false);  // excluded by the precondition
                                }
                                Option::None
                            },
                        },
                        DataType::Float64 => match array {
                            Array::Float64(z) => Option::Some(Value::Float64(z[row])),
                            _ => {
                                proof {
                                    assert(false);  // excluded by the precondition
                                }
                                Option::None
                            },
                        },
                        _ => {
                            proof {
                                assert(false);  // excluded by the precondition
                            }
                            Option::None
                        },
                    },
                    Err(_) => {
                        proof {
                            assert(false);  // excluded by the precondition
                        }
                        Option::None
                    },
                }
            },
            _ => {
                proof {
                    assert(false);  // excluded by the precondition
                }
                Option::None
            },
        };
        accumulator_set.accumulate_scalar(j, value);
        j += 1;
    }
}

/// Whether one aggregate expression is fully wired for the ungrouped path
/// against a batch of columns: its argument evaluates and its declared type
/// is the one the whole-array reducers support.
pub open spec fn ungrouped_expr_ok(e: RuntimeExpr, cols: Seq<ArrayV>) -> bool {
    e.agg_args()[0].eval_ok(cols.len() as int) && e.agg_t() is Float64
}

/// Whether every aggregate expression is wired against one batch.
pub open spec fn ungrouped_batch_ok(exprs: Seq<RuntimeExpr>, cols: Seq<ArrayV>) -> bool {
    forall|i: int| 0 <= i < exprs.len() ==> ungrouped_expr_ok(#[trigger] exprs[i], cols)
}

/// Whether every aggregate expression is wired against every batch.
pub open spec fn ungrouped_wired(exprs: Seq<RuntimeExpr>, batches: Seq<Seq<ArrayV>>) -> bool {
    forall|k: int| 0 <= k < batches.len() ==> ungrouped_batch_ok(exprs, #[trigger] batches[k])
}

/// Freedom from type confusion on the ungrouped path: wherever an argument
/// column will be reduced as a 64-bit float column, the batch really holds
/// one.
pub open spec fn ungrouped_safe(exprs: Seq<RuntimeExpr>, batches: Seq<Seq<ArrayV>>) -> bool {
    forall|i: int, k: int|
        0 <= i < exprs.len() && 0 <= k < batches.len() && (#[trigger] exprs[i]).agg_t() is Float64
            && exprs[i].agg_args()[0].eval_ok((#[trigger] batches[k]).len() as int)
            ==> batches[k][exprs[i].agg_args()[0].col()] is Float64
}

/// The argument column of `e` concatenated over all batches (64-bit float
/// cells).
pub open spec fn concat_col_f64(batches: Seq<Seq<ArrayV>>, c: int) -> Seq<u64>
    decreases batches.len(),
{
    if batches.len() == 0 {
        Seq::empty()
    } else {
        concat_col_f64(batches.drop_last(), c) + f64_col(batches.last()[c])
    }
}

/// The accumulator state of one ungrouped aggregate after the given batches:
/// empty when no cell was seen, else the running MIN or MAX of the argument
/// column over all of them.
pub open spec fn ungrouped_acc(e: RuntimeExpr, batches: Seq<Seq<ArrayV>>) -> Option<ValueV> {
    let s = concat_col_f64(batches, e.agg_args()[0].col());
    if s.len() == 0 {
        Option::None
    } else {
        Option::Some(
            ValueV::Float64(
                if e.agg_f() is Min {
                    f64_seq_min(s)
                } else {
                    f64_seq_max(s)
                },
            ),
        )
    }
}

/// The output column of one ungrouped aggregate: a one-cell 64-bit float
/// column holding the reduction (empty when no rows were seen: this model
/// has no null cell, so the empty column stands for one); for a declared
/// 32-bit integer result the column is always left empty — a known gap of
/// the design, kept rather than papered over.
pub open spec fn ungrouped_result(e: RuntimeExpr, batches: Seq<Seq<ArrayV>>) -> ArrayV {
    if e.agg_t() is Int32 {
        ArrayV::Int32(Seq::empty())
    } else {
        match ungrouped_acc(e, batches) {
            Option::None => ArrayV::Float64(Seq::empty()),
            Option::Some(v) => ArrayV::Float64(
                match v {
                    ValueV::Float64(b) => seq![b],
                    _ => Seq::empty(),
                },
            ),
        }
    }
}

/// The one output batch of the ungrouped path: one column per aggregate
/// expression.
pub open spec fn ungrouped_output(exprs: Seq<RuntimeExpr>, batches: Seq<Seq<ArrayV>>) -> Seq<
    ArrayV,
> {
    Seq::new(exprs.len(), |i: int| ungrouped_result(exprs[i], batches))
}

/// An aggregate relation: zero or more grouping expressions and one or more
/// aggregate expressions over an input relation.
pub struct AggregateRelation<R: Relation> {
    pub schema: Rc<Schema>,
    pub input: R,
    pub group_expr: Vec<RuntimeExpr>,
    pub aggr_expr: Vec<RuntimeExpr>,
}

impl<R: Relation> AggregateRelation<R> {
    /// An aggregate relation over `input`, with the given grouping and
    /// aggregate expressions and declared output schema.
    pub fn new(
        schema: Rc<Schema>,
        input: R,
        group_expr: Vec<RuntimeExpr>,
        aggr_expr: Vec<RuntimeExpr>,
    ) -> (r: Self)
        ensures
            r.schema == schema,
            r.input == input,
            r.group_expr == group_expr,
            r.aggr_expr == aggr_expr,
    {
        AggregateRelation { schema, input, group_expr, aggr_expr }
    }

    /// Aggregate entire columns without grouping: pull every batch from the
    /// input, reduce each aggregate's argument column, and emit exactly one
    /// batch with one column per aggregate.
    ///
    /// With a reliable input the call succeeds if and only if the input is
    /// empty or every aggregate is wired for every batch, and the output is
    /// exactly [`ungrouped_output`]; an unwired aggregate surfaces the
    /// evaluation or reduction error of the first batch it fails on.
    pub fn without_group_by(&mut self) -> (r: Result<Option<RecordBatch>, ExecutionError>)
        requires
            valid_aggr_exprs(old(self).aggr_expr@),
            ungrouped_safe(old(self).aggr_expr@, old(self).input.pending()),
        ensures
            final(self).schema == old(self).schema,
            final(self).aggr_expr == old(self).aggr_expr,
            final(self).group_expr == old(self).group_expr,
            match r {
                Ok(Some(b)) => {
                    &&& old(self).input.pending().len() == 0 || ungrouped_wired(
                        old(self).aggr_expr@,
                        old(self).input.pending(),
                    )
                    &&& b@ == ungrouped_output(old(self).aggr_expr@, old(self).input.pending())
                    &&& *b.schema == *old(self).schema
                },
                Ok(None) => false,
                Err(e) => {
                    &&& !(old(self).input.reliable() && (old(self).input.pending().len() == 0
                        || ungrouped_wired(old(self).aggr_expr@, old(self).input.pending())))
                    &&& (old(self).input.reliable() ==> (e is ExecutionError || e is NotImplemented))
                },
            },
    {
        let ghost all_batches = old(self).input.pending();
        let aggr_expr_count = self.aggr_expr.len();
        let mut accumulator_set = create_accumulators(&self.aggr_expr);
        let ghost k: int = 0;

        loop
            invariant
                0 <= k <= all_batches.len(),
                all_batches == old(self).input.pending(),
                self.input.pending() == all_batches.skip(k),
                old(self).input.reliable() ==> self.input.reliable(),
                self.schema == old(self).schema,
                self.aggr_expr == old(self).aggr_expr,
                self.group_expr == old(self).group_expr,
                aggr_expr_count == self.aggr_expr@.len(),
                valid_aggr_exprs(self.aggr_expr@),
                ungrouped_safe(self.aggr_expr@, all_batches),
                accumulator_set.aggr_values@.len() == aggr_expr_count,
                forall|k2: int|
                    0 <= k2 < k ==> ungrouped_batch_ok(self.aggr_expr@, #[trigger] all_batches[k2]),
                forall|j: int|
                    0 <= j < aggr_expr_count ==> {
                        &&& opt_value_view(
                            (#[trigger] accumulator_set.aggr_values@[j]).acc_value(),
                        ) == ungrouped_acc(self.aggr_expr@[j], all_batches.take(k))
                        &&& accumulator_set.aggr_values@[j].is_min() == self.aggr_expr@[
                            j
                        ].agg_f() is Min
                        &&& accumulator_set.aggr_values@[j].acc_dt() == self.aggr_expr@[j].agg_t()
                    },
            ensures
                k == all_batches.len(),
                self.schema == old(self).schema,
                self.aggr_expr == old(self).aggr_expr,
                self.group_expr == old(self).group_expr,
                aggr_expr_count == self.aggr_expr@.len(),
                valid_aggr_exprs(self.aggr_expr@),
                accumulator_set.aggr_values@.len() == aggr_expr_count,
                all_batches.len() == 0 || ungrouped_wired(self.aggr_expr@, all_batches),
                forall|j: int|
                    0 <= j < aggr_expr_count ==> {
                        &&& opt_value_view(
                            (#[trigger] accumulator_set.aggr_values@[j]).acc_value(),
                        ) == ungrouped_acc(self.aggr_expr@[j], all_batches)
                        &&& accumulator_set.aggr_values@[j].is_min() == self.aggr_expr@[
                            j
                        ].agg_f() is Min
                        &&& accumulator_set.aggr_values@[j].acc_dt() == self.aggr_expr@[j].agg_t()
                    },
            decreases all_batches.len() - k,
        {
            let next_batch = self.input.next();
            match next_batch {
                Err(e) => {
                    return Err(e);
                },
                Ok(Option::None) => {
                    proof {
                        assert(all_batches.skip(k).len() == 0);
                        assert(k == all_batches.len());
                        assert(all_batches.take(k) =~= all_batches);
                        assert forall|k2: int|
                            0 <= k2 < all_batches.len() implies ungrouped_batch_ok(
                            self.aggr_expr@,
                            #[trigger] all_batches[k2],
                        ) by {}
                    }
                    break;
                },
                Ok(Option::Some(batch)) => {
                    proof {
                        assert(batch@ == all_batches.skip(k)[0]);
                        assert(all_batches.skip(k)[0] == all_batches[k]);
                        assert(all_batches.skip(k).drop_first() =~= all_batches.skip(k + 1));
                    }
                    let mut i: usize = 0;
                    while i < aggr_expr_count
                        invariant
                            0 <= k < all_batches.len(),
                            batch@ == all_batches[k],
                            i <= aggr_expr_count,
                            all_batches == old(self).input.pending(),
                            self.schema == old(self).schema,
                            self.aggr_expr == old(self).aggr_expr,
                            self.group_expr == old(self).group_expr,
                            old(self).input.reliable() ==> self.input.reliable(),
                            aggr_expr_count == self.aggr_expr@.len(),
                            valid_aggr_exprs(self.aggr_expr@),
                            ungrouped_safe(self.aggr_expr@, all_batches),
                            accumulator_set.aggr_values@.len() == aggr_expr_count,
                            forall|j: int|
                                0 <= j < i ==> ungrouped_expr_ok(
                                    #[trigger] self.aggr_expr@[j],
                                    all_batches[k],
                                ),
                            forall|j: int|
                                0 <= j < aggr_expr_count ==> {
                                    &&& opt_value_view(
                                        (
                                        #[trigger] accumulator_set.aggr_values@[j]).acc_value(),
                                    ) == ungrouped_acc(
                                        self.aggr_expr@[j],
                                        all_batches.take(if j < i { k + 1 } else { k }),
                                    )
                                    &&& accumulator_set.aggr_values@[j].is_min() == self.aggr_expr@[
                                        j
                                    ].agg_f() is Min
                                    &&& accumulator_set.aggr_values@[j].acc_dt() == self.aggr_expr@[
                                        j
                                    ].agg_t()
                                },
                        decreases aggr_expr_count - i,
                    {
                        let ghost e_spec = self.aggr_expr@[i as int];
                        match &self.aggr_expr[i] {
                            RuntimeExpr::AggregateFunction { f, args, t } => {
                                match args[0].evaluate(&batch) {
                                    Ok(array) => {
                                        proof {
                                            assert(e_spec.agg_args()[0] == args@[0]);
                                            assert(array@ == all_batches[k][e_spec.agg_args()[0].col()]);
                                        }
                                        let reduced = match f {
                                            AggregateType::Min => array_min(array, t),
                                            AggregateType::Max => array_max(array, t),
                                            _ => {
                                                proof {
                                                    assert(false);  // excluded by the shape precondition
                                                }
                                                return Err(
                                                    ExecutionError::NotImplemented(
                                                        "Unsupported aggregate function".to_owned(),
                                                    ),
                                                );
                                            },
                                        };
                                        match reduced {
                                            Ok(m) => {
                                                proof {
                                                    let c = e_spec.agg_args()[0].col();
                                                    let s_old = concat_col_f64(
                                                        all_batches.take(k),
                                                        c,
                                                    );
                                                    let col = f64_col(all_batches[k][c]);
                                                    assert(all_batches.take(k + 1).drop_last()
                                                        =~= all_batches.take(k));
                                                    assert(all_batches.take(k + 1).last()
                                                        == all_batches[k]);
                                                    if s_old.len() > 0 && col.len() > 0 {
                                                        if e_spec.agg_f() is Min {
                                                            lemma_f64_seq_min_concat(s_old, col);
                                                        } else {
                                                            lemma_f64_seq_max_concat(s_old, col);
                                                        }
                                                    }
                                                    if col.len() == 0 {
                                                        assert(s_old + col =~= s_old);
                                                    }
                                                    if s_old.len() == 0 {
                                                        assert(s_old + col =~= col);
                                                    }
                                                }
                                                accumulator_set.accumulate_scalar(i, m);
                                            },
                                            Err(e) => {
                                                proof {
                                                    assert(!ungrouped_expr_ok(
                                                        e_spec,
                                                        all_batches[k],
                                                    ));
                                                    assert(!ungrouped_batch_ok(
                                                        self.aggr_expr@,
                                                        all_batches[k],
                                                    ));
                                                    assert(!ungrouped_wired(
                                                        self.aggr_expr@,
                                                        all_batches,
                                                    ));
                                                }
                                                return Err(e);
                                            },
                                        }
                                    },
                                    Err(_e) => {
                                        proof {
                                            assert(!ungrouped_expr_ok(e_spec, all_batches[k]));
                                            assert(!ungrouped_batch_ok(
                                                self.aggr_expr@,
                                                all_batches[k],
                                            ));
                                            assert(!ungrouped_wired(self.aggr_expr@, all_batches));
                                        }
                                        return Err(
                                            ExecutionError::ExecutionError(
                                                "Failed to evaluate argument to aggregate function".to_owned(),
                                            ),
                                        );
                                    },
                                }
                            },
                            _ => {
                                proof {
                                    assert(false);  // excluded by the shape precondition
                                }
                                return Err(
                                    ExecutionError::General("Invalid aggregate expression".to_owned()),
                                );
                            },
                        }
                        i += 1;
                    }
                    proof {
                        k = k + 1;
                    }
                },
            }
        }

        let mut result_columns: Vec<Array> = Vec::new();
        let mut i: usize = 0;
        while i < aggr_expr_count
            invariant
                i <= aggr_expr_count,
                aggr_expr_count == self.aggr_expr@.len(),
                valid_aggr_exprs(self.aggr_expr@),
                accumulator_set.aggr_values@.len() == aggr_expr_count,
                forall|j: int|
                    0 <= j < aggr_expr_count ==> {
                        &&& opt_value_view(
                            (#[trigger] accumulator_set.aggr_values@[j]).acc_value(),
                        ) == ungrouped_acc(self.aggr_expr@[j], all_batches)
                        &&& accumulator_set.aggr_values@[j].acc_dt() == self.aggr_expr@[j].agg_t()
                    },
                result_columns@.len() == i,
                forall|j: int|
                    0 <= j < i ==> crate::arrow::array_view(#[trigger] result_columns@[j])
                        == ungrouped_result(self.aggr_expr@[j], all_batches),
            decreases aggr_expr_count - i,
        {
            let accum = &accumulator_set.aggr_values[i];
            match accum.data_type() {
                DataType::Int32 => {
                    // Known gap of the design, kept deliberately: the
                    // accumulated 32-bit integer value is not emitted; the
                    // column stays empty.
                    result_columns.push(Array::Int32(Vec::new()));
                },
                DataType::Float64 => {
                    match accum.result() {
                        Option::Some(Value::Float64(n)) => {
                            let mut cells: Vec<u64> = Vec::new();
                            cells.push(*n);
                            proof {
                                assert(opt_value_view(accum.acc_value()) == Option::Some(
                                    ValueV::Float64(*n),
                                ));
                                assert(cells@ =~= seq![*n]);
                            }
                            result_columns.push(Array::Float64(cells));
                        },
                        Option::Some(_) => {
                            proof {
                                assert(false);  // the accumulator state is a 64-bit float here
                            }
                        },
                        Option::None => {
                            // No rows were seen; the empty column stands for
                            // a null cell, which this model does not have.
                            result_columns.push(Array::Float64(Vec::new()));
                        },
                    }
                },
                _ => {
                    proof {
                        assert(false);  // excluded by the shape precondition
                    }
                },
            }
            proof {
                crate::arrow::lemma_array_views(result_columns@);
            }
            i += 1;
        }

        proof {
            crate::arrow::lemma_array_views(result_columns@);
        }
        let out_schema = schema_handle_clone(&self.schema);
        let out = RecordBatch::new(out_schema, result_columns);
        proof {
            assert(out@ =~= ungrouped_output(self.aggr_expr@, all_batches));
        }
        Ok(Option::Some(out))
    }
}

/// A hashable group-key component: every primitive kind except floating
/// point, which is excluded as a group key by design.
#[derive(PartialEq, Eq, Hash)]
pub enum GroupByScalar {
    Boolean(bool),
    UInt8(u8),
    UInt16(u16),
    UInt32(u32),
    UInt64(u64),
    Int8(i8),
    Int16(i16),
    Int32(i32),
    Int64(i64),
    Utf8(String),
}

/// Mathematical model of a [`GroupByScalar`].
#[verifier::ext_equal]
pub enum GbKey {
    Boolean(bool),
    UInt8(u8),
    UInt16(u16),
    UInt32(u32),
    UInt64(u64),
    Int8(i8),
    Int16(i16),
    Int32(i32),
    Int64(i64),
    Utf8(Seq<char>),
}

impl View for GroupByScalar {
    type V = GbKey;

    open spec fn view(&self) -> GbKey {
        match self {
            GroupByScalar::Boolean(x) => GbKey::Boolean(*x),
            GroupByScalar::UInt8(x) => GbKey::UInt8(*x),
            GroupByScalar::UInt16(x) => GbKey::UInt16(*x),
            GroupByScalar::UInt32(x) => GbKey::UInt32(*x),
            GroupByScalar::UInt64(x) => GbKey::UInt64(*x),
            GroupByScalar::Int8(x) => GbKey::Int8(*x),
            GroupByScalar::Int16(x) => GbKey::Int16(*x),
            GroupByScalar::Int32(x) => GbKey::Int32(*x),
            GroupByScalar::Int64(x) => GbKey::Int64(*x),
            GroupByScalar::Utf8(s) => GbKey::Utf8(s@),
        }
    }
}

/// Models of a composite key.
pub open spec fn gb_seq_view(s: Seq<GroupByScalar>) -> Seq<GbKey> {
    s.map_values(|g: GroupByScalar| g@)
}

/// A map from composite group key to that group's accumulator set, backed by
/// an FNV-hashed table.  The contents are modelled by
/// [`group_map_contents`]; the trusted method contracts below state what the
/// standard hash-map operations do to it.
#[verifier::external_body]
pub struct GroupMap {
    inner: fnv::FnvHashMap<Vec<GroupByScalar>, AccumulatorSet>,
}

pub uninterp spec fn group_map_contents(m: GroupMap) -> Map<Seq<GbKey>, AccumulatorSet>;

/// Relies on `fnv::FnvHashMap::default` (the standard `HashMap` with the
/// FNV hasher) to build a fresh table; nothing is assumed of its contents —
/// callers empty it with [`group_map_clear`] first.
#[verifier::external_body]
pub fn group_map_new() -> (created: GroupMap)
{
    GroupMap { inner: fnv::FnvHashMap::default() }
}

/// Relies on the standard `HashMap::clear`: afterwards the map holds
/// nothing of what it held, nor anything else.
#[verifier::external_body]
pub fn group_map_clear(m: &mut GroupMap)
    ensures
        group_map_contents(*final(m)) == group_map_contents(*old(m)).restrict(
            Set::<Seq<GbKey>>::empty(),
        ),
{
    m.inner.clear();
}

/// Relies on the standard `HashMap::insert`; the derived equality and hash
/// of the key scalars agree with view equality of the key sequence, so the
/// entry is keyed by the key's model.
#[verifier::external_body]
pub fn group_map_insert(m: &mut GroupMap, key: Vec<GroupByScalar>, value: AccumulatorSet)
    ensures
        group_map_contents(*final(m)) == group_map_contents(*old(m)).insert(gb_seq_view(key@), value),
{
    m.inner.insert(key, value);
}

/// Relies on the standard `HashMap::remove`: the entry keyed by the key's
/// model leaves the map and its value is returned.
#[verifier::external_body]
pub fn group_map_remove(m: &mut GroupMap, key: &Vec<GroupByScalar>) -> (r: Option<AccumulatorSet>)
    ensures
        group_map_contents(*final(m)) == group_map_contents(*old(m)).remove(gb_seq_view(key@)),
        r == if group_map_contents(*old(m)).contains_key(gb_seq_view(key@)) {
            Option::Some(group_map_contents(*old(m))[gb_seq_view(key@)])
        } else {
            Option::<AccumulatorSet>::None
        },
{
    m.inner.remove(key)
}

/// The group-key component a column contributes at one row: 32-bit integer
/// and string columns are the wired key types.
pub open spec fn gb_of(col: ArrayV, row: int) -> GbKey {
    match col {
        ArrayV::Int32(v) => GbKey::Int32(v[row]),
        ArrayV::Utf8(v) => GbKey::Utf8(v[row]),
        _ => GbKey::Boolean(false),
    }
}

/// The composite key of one row: one component per grouping expression.
pub open spec fn row_key(cols: Seq<ArrayV>, gexprs: Seq<RuntimeExpr>, row: int) -> Seq<GbKey> {
    Seq::new(gexprs.len(), |g: int| gb_of(cols[gexprs[g].col()], row))
}

/// The typed scalars one row contributes to the aggregates.
pub open spec fn row_scalars(cols: Seq<ArrayV>, aexprs: Seq<RuntimeExpr>, row: int) -> Seq<ValueV> {
    Seq::new(aexprs.len(), |j: int| row_scalar(cols, aexprs[j], row))
}

/// One reduction step of a group's running values with one row's scalars.
pub open spec fn accs_step(cur: Seq<ValueV>, scalars: Seq<ValueV>, aexprs: Seq<RuntimeExpr>) -> Seq<
    ValueV,
> {
    Seq::new(
        aexprs.len(),
        |j: int|
            if aexprs[j].agg_f() is Min {
                value_min(cur[j], scalars[j])
            } else {
                value_max(cur[j], scalars[j])
            },
    )
}

/// The grouping state: the distinct composite keys in order of first
/// appearance, and each key's running aggregate values.
#[verifier::ext_equal]
pub struct GroupState {
    pub keys: Seq<Seq<GbKey>>,
    pub accs: Map<Seq<GbKey>, Seq<ValueV>>,
}

impl GroupState {
    /// The empty grouping state.
    pub open spec fn empty() -> GroupState {
        GroupState { keys: Seq::empty(), accs: Map::empty() }
    }
}

/// The grouping state after one more row: a known key updates its group's
/// values in place, an unknown key appends itself with the row's scalars as
/// seed.
pub open spec fn gstate_row(
    st: GroupState,
    cols: Seq<ArrayV>,
    gexprs: Seq<RuntimeExpr>,
    aexprs: Seq<RuntimeExpr>,
    row: int,
) -> GroupState {
    let key = row_key(cols, gexprs, row);
    let scalars = row_scalars(cols, aexprs, row);
    if st.accs.contains_key(key) {
        GroupState { keys: st.keys, accs: st.accs.insert(key, accs_step(st.accs[key], scalars, aexprs)) }
    } else {
        GroupState { keys: st.keys.push(key), accs: st.accs.insert(key, scalars) }
    }
}

/// The grouping state after the first `nrows` rows of one batch.
pub open spec fn gstate_rows(
    st: GroupState,
    cols: Seq<ArrayV>,
    gexprs: Seq<RuntimeExpr>,
    aexprs: Seq<RuntimeExpr>,
    nrows: int,
) -> GroupState
    decreases nrows,
{
    if nrows <= 0 {
        st
    } else {
        gstate_row(gstate_rows(st, cols, gexprs, aexprs, nrows - 1), cols, gexprs, aexprs, nrows - 1)
    }
}

/// The grouping state after a sequence of whole batches.
pub open spec fn gstate_batches(
    st: GroupState,
    batches: Seq<Seq<ArrayV>>,
    gexprs: Seq<RuntimeExpr>,
    aexprs: Seq<RuntimeExpr>,
) -> GroupState
    decreases batches.len(),
{
    if batches.len() == 0 {
        st
    } else {
        gstate_rows(
            gstate_batches(st, batches.drop_last(), gexprs, aexprs),
            batches.last(),
            gexprs,
            aexprs,
            batch_rows(batches.last()) as int,
        )
    }
}

/// Whether every grouping expression evaluates against every batch.
pub open spec fn grouped_wired(gexprs: Seq<RuntimeExpr>, batches: Seq<Seq<ArrayV>>) -> bool {
    forall|k: int, g: int|
        0 <= k < batches.len() && 0 <= g < gexprs.len() ==> (#[trigger] gexprs[g]).eval_ok(
            (#[trigger] batches[k]).len() as int,
        )
}

/// Freedom from fatal conditions on the grouped path, against one batch:
/// the first column's length is defined; every grouping column that
/// evaluates is of a wired key type, matches the declared schema, and spans
/// the batch's rows; every aggregate argument evaluates, with a column of
/// the aggregate's declared kind spanning the batch's rows.
pub open spec fn grouped_batch_safe(
    gexprs: Seq<RuntimeExpr>,
    aexprs: Seq<RuntimeExpr>,
    schema: Seq<FieldV>,
    cols: Seq<ArrayV>,
) -> bool {
    &&& (cols.len() > 0 ==> cols[0].len_defined())
    &&& forall|g: int|
        0 <= g < gexprs.len() && (#[trigger] gexprs[g]).eval_ok(cols.len() as int) ==> {
            let c = cols[gexprs[g].col()];
            &&& (c is Int32 || c is Utf8)
            &&& c.spec_len() == batch_rows(cols)
            &&& (schema[g].data_type is Int32 <==> c is Int32)
        }
    &&& forall|j: int|
        0 <= j < aexprs.len() ==> {
            let e = #[trigger] aexprs[j];
            &&& e.agg_args()[0].eval_ok(cols.len() as int)
            &&& (e.agg_t() is Int32 ==> cols[e.agg_args()[0].col()] is Int32 && i32_col(
                cols[e.agg_args()[0].col()],
            ).len() == batch_rows(cols))
            &&& (e.agg_t() is Float64 ==> cols[e.agg_args()[0].col()] is Float64 && f64_col(
                cols[e.agg_args()[0].col()],
            ).len() == batch_rows(cols))
        }
}

/// [`grouped_batch_safe`] over every batch.
pub open spec fn grouped_safe(
    gexprs: Seq<RuntimeExpr>,
    aexprs: Seq<RuntimeExpr>,
    schema: Seq<FieldV>,
    batches: Seq<Seq<ArrayV>>,
) -> bool {
    forall|k: int|
        0 <= k < batches.len() ==> grouped_batch_safe(gexprs, aexprs, schema, #[trigger] batches[k])
}

/// Whether the leading schema fields, one per grouping expression, carry the
/// wired group-key types.
pub open spec fn schema_group_ok(schema: Seq<FieldV>, ng: int) -> bool {
    &&& 0 <= ng <= schema.len()
    &&& forall|g: int|
        0 <= g < ng ==> ((#[trigger] schema[g]).data_type is Int32 || schema[g].data_type is Utf8)
}

/// One output column of group-key components, read back by the schema's
/// declared type.
pub open spec fn group_out_col(dt: DataTypeV, keys: Seq<Seq<GbKey>>, g: int) -> ArrayV {
    if dt is Int32 {
        ArrayV::Int32(
            Seq::new(
                keys.len(),
                |i: int|
                    match keys[i][g] {
                        GbKey::Int32(x) => x,
                        _ => 0,
                    },
            ),
        )
    } else {
        ArrayV::Utf8(
            Seq::new(
                keys.len(),
                |i: int|
                    match keys[i][g] {
                        GbKey::Utf8(t) => t,
                        _ => Seq::empty(),
                    },
            ),
        )
    }
}

/// One output column of aggregate results, one cell per distinct key, in
/// first-appearance order.
pub open spec fn agg_out_col(e: RuntimeExpr, st: GroupState, j: int) -> ArrayV {
    if e.agg_t() is Int32 {
        ArrayV::Int32(
            Seq::new(
                st.keys.len(),
                |i: int|
                    match st.accs[st.keys[i]][j] {
                        ValueV::Int32(x) => x,
                        _ => 0,
                    },
            ),
        )
    } else {
        ArrayV::Float64(
            Seq::new(
                st.keys.len(),
                |i: int|
                    match st.accs[st.keys[i]][j] {
                        ValueV::Float64(x) => x,
                        _ => 0,
                    },
            ),
        )
    }
}

/// The one output batch of the grouped path: the group-key columns in the
/// order the keys first appeared, then one result column per aggregate.
pub open spec fn grouped_output(
    schema: Seq<FieldV>,
    gexprs: Seq<RuntimeExpr>,
    aexprs: Seq<RuntimeExpr>,
    batches: Seq<Seq<ArrayV>>,
) -> Seq<ArrayV> {
    let st = gstate_batches(GroupState::empty(), batches, gexprs, aexprs);
    Seq::new(
        gexprs.len() + aexprs.len(),
        |c: int|
            if c < gexprs.len() {
                group_out_col(schema[c].data_type, st.keys, c)
            } else {
                agg_out_col(aexprs[c - gexprs.len()], st, c - gexprs.len())
            },
    )
}

/// Well-formedness of a grouping state for the given expressions and
/// schema: keys are distinct, sized to the grouping list and typed by the
/// schema; each key's running values are sized to the aggregate list and
/// typed by each aggregate's declared type.
pub open spec fn gstate_wf(
    st: GroupState,
    schema: Seq<FieldV>,
    gexprs: Seq<RuntimeExpr>,
    aexprs: Seq<RuntimeExpr>,
) -> bool {
    &&& st.keys.no_duplicates()
    &&& (forall|kk: Seq<GbKey>| st.accs.dom().contains(kk) <==> st.keys.contains(kk))
    &&& forall|i: int|
        0 <= i < st.keys.len() ==> {
            let kk = #[trigger] st.keys[i];
            &&& kk.len() == gexprs.len()
            &&& (forall|g: int|
                0 <= g < gexprs.len() ==> (schema[g].data_type is Int32 ==> (#[trigger] kk[g])
                    is Int32) && (schema[g].data_type is Utf8 ==> kk[g] is Utf8))
            &&& st.accs[kk].len() == aexprs.len()
            &&& (forall|j: int|
                0 <= j < aexprs.len() ==> (aexprs[j].agg_t() is Int32 ==> (
                #[trigger] st.accs[kk][j]) is Int32) && (aexprs[j].agg_t() is Float64
                    ==> st.accs[kk][j] is Float64))
        }
}

impl<R: Relation> AggregateRelation<R> {
    /// Aggregate with grouping: build the composite key of every input row,
    /// give each distinct key its own accumulator set, fold every row into
    /// its group, and emit one batch with one row per distinct key — the
    /// key columns first, then one result column per aggregate, groups in
    /// the order their keys first appeared.
    ///
    /// With a reliable input the call succeeds if and only if every
    /// grouping expression evaluates against every batch, and the output is
    /// exactly [`grouped_output`]; rows with the same composite key always
    /// land in the same group.
    pub fn with_group_by(&mut self) -> (r: Result<Option<RecordBatch>, ExecutionError>)
        requires
            valid_aggr_exprs(old(self).aggr_expr@),
            schema_group_ok((*old(self).schema)@, old(self).group_expr@.len() as int),
            grouped_safe(
                old(self).group_expr@,
                old(self).aggr_expr@,
                (*old(self).schema)@,
                old(self).input.pending(),
            ),
        ensures
            final(self).schema == old(self).schema,
            final(self).aggr_expr == old(self).aggr_expr,
            final(self).group_expr == old(self).group_expr,
            match r {
                Ok(Some(b)) => {
                    &&& old(self).input.pending().len() == 0 || grouped_wired(
                        old(self).group_expr@,
                        old(self).input.pending(),
                    )
                    &&& b@ == grouped_output(
                        (*old(self).schema)@,
                        old(self).group_expr@,
                        old(self).aggr_expr@,
                        old(self).input.pending(),
                    )
                    &&& *b.schema == *old(self).schema
                },
                Ok(None) => false,
                Err(e) => {
                    &&& !(old(self).input.reliable() && (old(self).input.pending().len() == 0
                        || grouped_wired(old(self).group_expr@, old(self).input.pending())))
                    &&& (old(self).input.reliable() ==> e is ExecutionError)
                },
            },
    {
        let ghost all_batches = old(self).input.pending();
        let ghost schema_v = (*old(self).schema)@;
        let ghost gexprs = old(self).group_expr@;
        let ghost aexprs = old(self).aggr_expr@;
        let group_count = self.group_expr.len();
        let aggr_count = self.aggr_expr.len();

        let mut map = group_map_new();
        group_map_clear(&mut map);
        proof {
            assert(group_map_contents(map) =~= Map::<Seq<GbKey>, AccumulatorSet>::empty());
        }
        let mut key_order: Vec<Vec<GroupByScalar>> = Vec::new();
        let ghost mut st = GroupState::empty();
        let ghost mut k: int = 0;

        proof {
            assert(key_order@.map_values(|kv: Vec<GroupByScalar>| gb_seq_view(kv@)) =~= st.keys);
        }

        loop
            invariant
                0 <= k <= all_batches.len(),
                all_batches == old(self).input.pending(),
                self.input.pending() == all_batches.skip(k),
                old(self).input.reliable() ==> self.input.reliable(),
                self.schema == old(self).schema,
                self.aggr_expr == old(self).aggr_expr,
                self.group_expr == old(self).group_expr,
                group_count == gexprs.len(),
                aggr_count == aexprs.len(),
                gexprs == self.group_expr@,
                aexprs == self.aggr_expr@,
                schema_v == (*self.schema)@,
                valid_aggr_exprs(aexprs),
                schema_group_ok(schema_v, group_count as int),
                grouped_safe(gexprs, aexprs, schema_v, all_batches),
                forall|k2: int, g: int|
                    0 <= k2 < k && 0 <= g < group_count ==> (#[trigger] gexprs[g]).eval_ok(
                        (#[trigger] all_batches[k2]).len() as int,
                    ),
                st == gstate_batches(GroupState::empty(), all_batches.take(k), gexprs, aexprs),
                gstate_wf(st, schema_v, gexprs, aexprs),
                key_order@.map_values(|kv: Vec<GroupByScalar>| gb_seq_view(kv@)) == st.keys,
                forall|kk: Seq<GbKey>| #![trigger group_map_contents(map).dom().contains(kk)]
                    group_map_contents(map).dom().contains(kk) <==> st.keys.contains(kk),
                forall|i: int|
                    0 <= i < st.keys.len() ==> {
                        let kk = #[trigger] st.keys[i];
                        let accs = group_map_contents(map)[kk];
                        &&& accs.aggr_values@.len() == aggr_count
                        &&& (forall|j: int|
                            0 <= j < aggr_count ==> {
                                &&& opt_value_view(
                                    (#[trigger] accs.aggr_values@[j]).acc_value(),
                                ) == Option::Some(st.accs[kk][j])
                                &&& accs.aggr_values@[j].is_min() == aexprs[j].agg_f() is Min
                                &&& accs.aggr_values@[j].acc_dt() == aexprs[j].agg_t()
                            })
                    },
            ensures
                k == all_batches.len(),
                self.schema == old(self).schema,
                self.aggr_expr == old(self).aggr_expr,
                self.group_expr == old(self).group_expr,
                all_batches.len() == 0 || grouped_wired(gexprs, all_batches),
                st == gstate_batches(GroupState::empty(), all_batches, gexprs, aexprs),
                gstate_wf(st, schema_v, gexprs, aexprs),
                key_order@.map_values(|kv: Vec<GroupByScalar>| gb_seq_view(kv@)) == st.keys,
                forall|kk: Seq<GbKey>| #![trigger group_map_contents(map).dom().contains(kk)]
                    group_map_contents(map).dom().contains(kk) <==> st.keys.contains(kk),
                forall|i: int|
                    0 <= i < st.keys.len() ==> {
                        let kk = #[trigger] st.keys[i];
                        let accs = group_map_contents(map)[kk];
                        &&& accs.aggr_values@.len() == aggr_count
                        &&& (forall|j: int|
                            0 <= j < aggr_count ==> {
                                &&& opt_value_view(
                                    (#[trigger] accs.aggr_values@[j]).acc_value(),
                                ) == Option::Some(st.accs[kk][j])
                                &&& accs.aggr_values@[j].is_min() == aexprs[j].agg_f() is Min
                                &&& accs.aggr_values@[j].acc_dt() == aexprs[j].agg_t()
                            })
                    },
            decreases all_batches.len() - k,
        {
            let next_batch = self.input.next();
            match next_batch {
                Err(e) => {
                    return Err(e);
                },
                Ok(Option::None) => {
                    proof {
                        assert(all_batches.skip(k).len() == 0);
                        assert(k == all_batches.len());
                        assert(all_batches.take(k) =~= all_batches);
                        assert forall|k2: int, g: int|
                            0 <= k2 < all_batches.len() && 0 <= g < gexprs.len() implies (
                        #[trigger] gexprs[g]).eval_ok(
                            (#[trigger] all_batches[k2]).len() as int,
                        ) by {}
                    }
                    break;
                },
                Ok(Option::Some(batch)) => {
                    proof {
                        assert(batch@ == all_batches.skip(k)[0]);
                        assert(all_batches.skip(k)[0] == all_batches[k]);
                        assert(all_batches.skip(k).drop_first() =~= all_batches.skip(k + 1));
                        assert(grouped_batch_safe(gexprs, aexprs, schema_v, all_batches[k as int]));
                    }
                    // Evaluate every grouping expression eagerly, as the
                    // pull loop does, so an evaluation failure surfaces even
                    // for an empty batch.
                    let mut g: usize = 0;
                    while g < group_count
                        invariant
                            g <= group_count,
                            group_count == gexprs.len(),
                            gexprs == self.group_expr@,
                            batch@ == all_batches[k as int],
                            0 <= k < all_batches.len(),
                            all_batches == old(self).input.pending(),
                            self.schema == old(self).schema,
                            self.aggr_expr == old(self).aggr_expr,
                            self.group_expr == old(self).group_expr,
                            old(self).input.reliable() ==> self.input.reliable(),
                            forall|g2: int|
                                0 <= g2 < g ==> (#[trigger] gexprs[g2]).eval_ok(
                                    all_batches[k as int].len() as int,
                                ),
                        decreases group_count - g,
                    {
                        match self.group_expr[g].evaluate(&batch) {
                            Ok(_) => {},
                            Err(e) => {
                                proof {
                                    assert(!gexprs[g as int].eval_ok(
                                        all_batches[k as int].len() as int,
                                    ));
                                    assert(!grouped_wired(gexprs, all_batches));
                                }
                                return Err(e);
                            },
                        }
                        g += 1;
                    }

                    let nrows = batch.num_rows();
                    proof {
                        assert(nrows == batch_rows(all_batches[k as int]));
                    }
                    let mut row: usize = 0;
                    while row < nrows
                        invariant
                            row <= nrows,
                            nrows == batch_rows(all_batches[k as int]),
                            batch@ == all_batches[k as int],
                            0 <= k < all_batches.len(),
                            all_batches == old(self).input.pending(),
                            self.schema == old(self).schema,
                            self.aggr_expr == old(self).aggr_expr,
                            self.group_expr == old(self).group_expr,
                            old(self).input.reliable() ==> self.input.reliable(),
                            group_count == gexprs.len(),
                            aggr_count == aexprs.len(),
                            gexprs == self.group_expr@,
                            aexprs == self.aggr_expr@,
                            schema_v == (*self.schema)@,
                            valid_aggr_exprs(aexprs),
                            schema_group_ok(schema_v, group_count as int),
                            grouped_batch_safe(gexprs, aexprs, schema_v, all_batches[k as int]),
                            forall|g2: int|
                                0 <= g2 < group_count ==> (#[trigger] gexprs[g2]).eval_ok(
                                    all_batches[k as int].len() as int,
                                ),
                            st == gstate_rows(
                                gstate_batches(GroupState::empty(), all_batches.take(k), gexprs, aexprs),
                                all_batches[k as int],
                                gexprs,
                                aexprs,
                                row as int,
                            ),
                            gstate_wf(st, schema_v, gexprs, aexprs),
                            key_order@.map_values(|kv: Vec<GroupByScalar>| gb_seq_view(kv@))
                                == st.keys,
                            forall|kk: Seq<GbKey>|
                                #![trigger group_map_contents(map).dom().contains(kk)]
                                group_map_contents(map).dom().contains(kk) <==> st.keys.contains(
                                    kk,
                                ),
                            forall|i: int|
                                0 <= i < st.keys.len() ==> {
                                    let kk = #[trigger] st.keys[i];
                                    let accs = group_map_contents(map)[kk];
                                    &&& accs.aggr_values@.len() == aggr_count
                                    &&& (forall|j: int|
                                        0 <= j < aggr_count ==> {
                                            &&& opt_value_view(
                                                (
                                                #[trigger] accs.aggr_values@[j]).acc_value(),
                                            ) == Option::Some(st.accs[kk][j])
                                            &&& accs.aggr_values@[j].is_min() == aexprs[
                                                j
                                            ].agg_f() is Min
                                            &&& accs.aggr_values@[j].acc_dt() == aexprs[
                                                j
                                            ].agg_t()
                                        })
                                },
                        decreases nrows - row,
                    {
                        let ghost cols = all_batches[k as int];
                        let ghost the_key = row_key(cols, gexprs, row as int);

                        // Build the composite key, deep-copied out of the row.
                        let mut key: Vec<GroupByScalar> = Vec::new();
                        let mut g: usize = 0;
                        while g < group_count
                            invariant
                                g <= group_count,
                                group_count == gexprs.len(),
                                gexprs == self.group_expr@,
                                batch@ == cols,
                                cols == all_batches[k as int],
                                row < batch_rows(cols),
                                grouped_batch_safe(gexprs, aexprs, schema_v, cols),
                                forall|g2: int|
                                    0 <= g2 < group_count ==> (#[trigger] gexprs[g2]).eval_ok(
                                        cols.len() as int,
                                    ),
                                the_key == row_key(cols, gexprs, row as int),
                                key@.len() == g,
                                forall|g2: int|
                                    0 <= g2 < g ==> (#[trigger] key@[g2])@ == the_key[g2],
                            decreases group_count - g,
                        {
                            match self.group_expr[g].evaluate(&batch) {
                                Ok(col) => {
                                    proof {
                                        assert(col@ == cols[gexprs[g as int].col()]);
                                    }
                                    match col {
                                        Array::Int32(v) => {
                                            proof {
                                                assert(cols[gexprs[g as int].col()]
                                                    == ArrayV::Int32(v@));
                                                assert(the_key[g as int] == GbKey::Int32(
                                                    v@[row as int],
                                                ));
                                            }
                                            key.push(GroupByScalar::Int32(v[row]));
                                        },
                                        Array::Utf8(v) => {
                                            proof {
                                                assert(cols[gexprs[g as int].col()]
                                                    == ArrayV::Utf8(crate::arrow::string_views(
                                                    v@,
                                                )));
                                                assert(the_key[g as int] == GbKey::Utf8(
                                                    v@[row as int]@,
                                                ));
                                            }
                                            key.push(
                                                GroupByScalar::Utf8(clone_string(&v[row])),
                                            );
                                        },
                                        _ => {
                                            proof {
                                                assert(false);  // excluded by the type-safety precondition
                                            }
                                        },
                                    }
                                },
                                Err(_) => {
                                    proof {
                                        assert(false);  // evaluation succeeded for this batch above
                                    }
                                },
                            }
                            g += 1;
                        }
                        proof {
                            assert(gb_seq_view(key@) =~= the_key);
                        }

                        let ghost st_before = st;
                        let existing = group_map_remove(&mut map, &key);
                        match existing {
                            Option::Some(mut accumulator_set) => {
                                proof {
                                    assert(st.keys.contains(the_key));
                                    let i = choose|i: int|
                                        0 <= i < st.keys.len() && st.keys[i] == the_key;
                                    assert(st.accs.dom().contains(the_key));
                                }
                                update_accumulators(&batch, row, &mut accumulator_set, &self.aggr_expr);
                                group_map_insert(&mut map, key, accumulator_set);
                                proof {
                                    st = gstate_row(st, cols, gexprs, aexprs, row as int);
                                }
                            },
                            Option::None => {
                                proof {
                                    assert(!st.keys.contains(the_key));
                                }
                                let mut accumulator_set = create_accumulators(&self.aggr_expr);
                                update_accumulators(&batch, row, &mut accumulator_set, &self.aggr_expr);
                                let key_copy = clone_group_key(&key);
                                key_order.push(key_copy);
                                group_map_insert(&mut map, key, accumulator_set);
                                proof {
                                    st = gstate_row(st, cols, gexprs, aexprs, row as int);
                                    assert(key_order@.map_values(
                                        |kv: Vec<GroupByScalar>| gb_seq_view(kv@),
                                    ) =~= st.keys);
                                }
                            },
                        }
                        proof {
                            lemma_gstate_row_wf(st_before, cols, gexprs, aexprs, row as int, schema_v);
                        }
                        row += 1;
                    }
                    proof {
                        assert(all_batches.take(k + 1).drop_last() =~= all_batches.take(k));
                        assert(all_batches.take(k + 1).last() == all_batches[k as int]);
                        k = k + 1;
                    }
                },
            }
        }

        // Materialize each group's accumulator set in first-appearance order.
        let distinct = key_order.len();
        proof {
            assert(st.keys.len() == distinct);
        }
        proof {
            assert(st.keys.skip(0) =~= st.keys);
        }
        let mut result_sets: Vec<AccumulatorSet> = Vec::new();
        let mut i: usize = 0;
        while i < distinct
            invariant
                i <= distinct,
                distinct == st.keys.len(),
                aggr_count == aexprs.len(),
                gstate_wf(st, schema_v, gexprs, aexprs),
                key_order@.len() == distinct,
                key_order@.map_values(|kv: Vec<GroupByScalar>| gb_seq_view(kv@)) == st.keys,
                forall|kk: Seq<GbKey>| #![trigger group_map_contents(map).dom().contains(kk)]
                    group_map_contents(map).dom().contains(kk) <==> st.keys.skip(i as int).contains(
                        kk,
                    ),
                forall|i2: int|
                    i <= i2 < st.keys.len() ==> {
                        let kk = #[trigger] st.keys[i2];
                        let accs = group_map_contents(map)[kk];
                        &&& accs.aggr_values@.len() == aggr_count
                        &&& (forall|j: int|
                            0 <= j < aggr_count ==> {
                                &&& opt_value_view(
                                    (#[trigger] accs.aggr_values@[j]).acc_value(),
                                ) == Option::Some(st.accs[kk][j])
                                &&& accs.aggr_values@[j].is_min() == aexprs[j].agg_f() is Min
                                &&& accs.aggr_values@[j].acc_dt() == aexprs[j].agg_t()
                            })
                    },
                result_sets@.len() == i,
                forall|i2: int|
                    0 <= i2 < i ==> {
                        let accs = #[trigger] result_sets@[i2];
                        &&& accs.aggr_values@.len() == aggr_count
                        &&& (forall|j: int|
                            0 <= j < aggr_count ==> {
                                &&& opt_value_view(
                                    (#[trigger] accs.aggr_values@[j]).acc_value(),
                                ) == Option::Some(st.accs[st.keys[i2]][j])
                                &&& accs.aggr_values@[j].acc_dt() == aexprs[j].agg_t()
                            })
                    },
            decreases distinct - i,
        {
            proof {
                assert(st.keys.skip(i as int).contains(st.keys[i as int])) by {
                    assert(st.keys.skip(i as int)[0] == st.keys[i as int]);
                }
                assert(key_order@.map_values(|kv: Vec<GroupByScalar>| gb_seq_view(kv@))[i as int]
                    == gb_seq_view(key_order@[i as int]@));
            }
            let found = group_map_remove(&mut map, &key_order[i]);
            match found {
                Option::Some(accs) => {
                    result_sets.push(accs);
                },
                Option::None => {
                    proof {
                        assert(false);  // every first-appearance key is in the map
                    }
                },
            }
            proof {
                assert forall|kk: Seq<GbKey>|
                    #![trigger group_map_contents(map).dom().contains(kk)]
                    group_map_contents(map).dom().contains(kk) <==> st.keys.skip(
                    i + 1 as int,
                ).contains(kk) by {
                    assert(st.keys.skip(i as int).drop_first() =~= st.keys.skip(i + 1 as int));
                    if st.keys.skip(i + 1 as int).contains(kk) {
                        let w = choose|w: int|
                            0 <= w < st.keys.skip(i + 1 as int).len() && (#[trigger] st.keys.skip(
                                i + 1 as int,
                            )[w]) == kk;
                        assert(st.keys.skip(i as int)[w + 1] == kk);
                        assert(st.keys[i + 1 + w] == kk);
                        assert(st.keys[i as int] != kk);  // no duplicates
                    }
                    if group_map_contents(map).dom().contains(kk) {
                        assert(st.keys.skip(i as int).contains(kk));
                        let w = choose|w: int|
                            0 <= w < st.keys.skip(i as int).len() && (#[trigger] st.keys.skip(
                                i as int,
                            )[w]) == kk;
                        assert(kk != st.keys[i as int]);
                        assert(w != 0);
                        assert(st.keys.skip(i + 1 as int)[w - 1] == kk);
                    }
                }
            }
            i += 1;
        }

        // Build the output columns: the group-key columns, then one column
        // per aggregate result.
        let ghost out_cols = grouped_output(schema_v, gexprs, aexprs, all_batches);
        let mut result_columns: Vec<Array> = Vec::new();
        let mut g: usize = 0;
        while g < group_count
            invariant
                g <= group_count,
                group_count == gexprs.len(),
                aggr_count == aexprs.len(),
                distinct == st.keys.len(),
                schema_v == (*self.schema)@,
                self.schema == old(self).schema,
                self.aggr_expr == old(self).aggr_expr,
                self.group_expr == old(self).group_expr,
                gexprs == self.group_expr@,
                aexprs == self.aggr_expr@,
                schema_group_ok(schema_v, group_count as int),
                gstate_wf(st, schema_v, gexprs, aexprs),
                key_order@.len() == distinct,
                key_order@.map_values(|kv: Vec<GroupByScalar>| gb_seq_view(kv@)) == st.keys,
                out_cols == grouped_output(schema_v, gexprs, aexprs, all_batches),
                st == gstate_batches(GroupState::empty(), all_batches, gexprs, aexprs),
                result_columns@.len() == g,
                forall|c: int|
                    0 <= c < g ==> crate::arrow::array_view(#[trigger] result_columns@[c])
                        == out_cols[c],
            decreases group_count - g,
        {
            proof {
                crate::arrow::lemma_field_views(self.schema.columns@);
            }
            let dt_is_int = match &self.schema.columns[g] {
                Field { data_type: DataType::Int32, .. } => true,
                _ => false,
            };
            if dt_is_int {
                let mut vals: Vec<i32> = Vec::new();
                let mut i: usize = 0;
                while i < distinct
                    invariant
                        i <= distinct,
                        g < group_count,
                        distinct == st.keys.len(),
                        key_order@.len() == distinct,
                        key_order@.map_values(|kv: Vec<GroupByScalar>| gb_seq_view(kv@))
                            == st.keys,
                        gstate_wf(st, schema_v, gexprs, aexprs),
                        group_count == gexprs.len(),
                        schema_v[g as int].data_type is Int32,
                        vals@.len() == i,
                        forall|i2: int|
                            0 <= i2 < i ==> GbKey::Int32(#[trigger] vals@[i2]) == st.keys[i2][
                                g as int
                            ],
                    decreases distinct - i,
                {
                    proof {
                        assert(gb_seq_view(key_order@[i as int]@) == st.keys[i as int]);
                        assert(gb_seq_view(key_order@[i as int]@)[g as int] == key_order@[
                            i as int
                        ]@[g as int]@);
                    }
                    match &key_order[i][g] {
                        GroupByScalar::Int32(x) => vals.push(*x),
                        _ => {
                            proof {
                                assert(false);  // the key component kind follows the schema
                            }
                        },
                    }
                    i += 1;
                }
                result_columns.push(Array::Int32(vals));
            } else {
                let mut vals: Vec<String> = Vec::new();
                let mut i: usize = 0;
                while i < distinct
                    invariant
                        i <= distinct,
                        g < group_count,
                        distinct == st.keys.len(),
                        key_order@.len() == distinct,
                        key_order@.map_values(|kv: Vec<GroupByScalar>| gb_seq_view(kv@))
                            == st.keys,
                        gstate_wf(st, schema_v, gexprs, aexprs),
                        group_count == gexprs.len(),
                        schema_v[g as int].data_type is Utf8,
                        vals@.len() == i,
                        forall|i2: int|
                            0 <= i2 < i ==> GbKey::Utf8((#[trigger] vals@[i2])@) == st.keys[i2][
                                g as int
                            ],
                    decreases distinct - i,
                {
                    proof {
                        assert(gb_seq_view(key_order@[i as int]@) == st.keys[i as int]);
                        assert(gb_seq_view(key_order@[i as int]@)[g as int] == key_order@[
                            i as int
                        ]@[g as int]@);
                    }
                    match &key_order[i][g] {
                        GroupByScalar::Utf8(t) => vals.push(clone_string(t)),
                        _ => {
                            proof {
                                assert(false);  // the key component kind follows the schema
                            }
                        },
                    }
                    i += 1;
                }
                result_columns.push(Array::Utf8(vals));
            }
            proof {
                crate::arrow::lemma_array_views(result_columns@);
                if schema_v[g as int].data_type is Int32 {
                    assert(crate::arrow::array_view(result_columns@[g as int])
                        =~= group_out_col(schema_v[g as int].data_type, st.keys, g as int));
                } else {
                    assert(crate::arrow::array_view(result_columns@[g as int])
                        =~= group_out_col(schema_v[g as int].data_type, st.keys, g as int));
                }
            }
            g += 1;
        }

        let mut j: usize = 0;
        while j < aggr_count
            invariant
                j <= aggr_count,
                group_count == gexprs.len(),
                aggr_count == aexprs.len(),
                distinct == st.keys.len(),
                schema_v == (*self.schema)@,
                self.schema == old(self).schema,
                self.aggr_expr == old(self).aggr_expr,
                self.group_expr == old(self).group_expr,
                gexprs == self.group_expr@,
                aexprs == self.aggr_expr@,
                valid_aggr_exprs(aexprs),
                gstate_wf(st, schema_v, gexprs, aexprs),
                out_cols == grouped_output(schema_v, gexprs, aexprs, all_batches),
                st == gstate_batches(GroupState::empty(), all_batches, gexprs, aexprs),
                result_sets@.len() == distinct,
                forall|i2: int|
                    0 <= i2 < distinct ==> {
                        let accs = #[trigger] result_sets@[i2];
                        &&& accs.aggr_values@.len() == aggr_count
                        &&& (forall|j2: int|
                            0 <= j2 < aggr_count ==> {
                                &&& opt_value_view(
                                    (#[trigger] accs.aggr_values@[j2]).acc_value(),
                                ) == Option::Some(st.accs[st.keys[i2]][j2])
                                &&& accs.aggr_values@[j2].acc_dt() == aexprs[j2].agg_t()
                            })
                    },
                result_columns@.len() == group_count + j,
                forall|c: int|
                    0 <= c < group_count + j ==> crate::arrow::array_view(
                        #[trigger] result_columns@[c],
                    ) == out_cols[c],
            decreases aggr_count - j,
        {
            let t_is_int = match &self.aggr_expr[j] {
                RuntimeExpr::AggregateFunction { t: DataType::Int32, .. } => true,
                _ => false,
            };
            if t_is_int {
                let mut vals: Vec<i32> = Vec::new();
                let mut i: usize = 0;
                while i < distinct
                    invariant
                        i <= distinct,
                        j < aggr_count,
                        aggr_count == aexprs.len(),
                        distinct == st.keys.len(),
                        aexprs[j as int].agg_t() is Int32,
                        gstate_wf(st, schema_v, gexprs, aexprs),
                        result_sets@.len() == distinct,
                        forall|i2: int|
                            0 <= i2 < distinct ==> {
                                let accs = #[trigger] result_sets@[i2];
                                &&& accs.aggr_values@.len() == aggr_count
                                &&& opt_value_view(accs.aggr_values@[j as int].acc_value())
                                    == Option::Some(st.accs[st.keys[i2]][j as int])
                            },
                        vals@.len() == i,
                        forall|i2: int|
                            0 <= i2 < i ==> ValueV::Int32(#[trigger] vals@[i2]) == st.accs[st.keys[
                                i2
                            ]][j as int],
                    decreases distinct - i,
                {
                    match result_sets[i].aggr_values[j].result() {
                        Option::Some(Value::Int32(x)) => vals.push(*x),
                        _ => {
                            proof {
                                assert(false);  // each group saw at least one row of this kind
                            }
                        },
                    }
                    i += 1;
                }
                result_columns.push(Array::Int32(vals));
            } else {
                let mut vals: Vec<u64> = Vec::new();
                let mut i: usize = 0;
                while i < distinct
                    invariant
                        i <= distinct,
                        j < aggr_count,
                        aggr_count == aexprs.len(),
                        distinct == st.keys.len(),
                        aexprs[j as int].agg_t() is Float64,
                        gstate_wf(st, schema_v, gexprs, aexprs),
                        result_sets@.len() == distinct,
                        forall|i2: int|
                            0 <= i2 < distinct ==> {
                                let accs = #[trigger] result_sets@[i2];
                                &&& accs.aggr_values@.len() == aggr_count
                                &&& opt_value_view(accs.aggr_values@[j as int].acc_value())
                                    == Option::Some(st.accs[st.keys[i2]][j as int])
                            },
                        vals@.len() == i,
                        forall|i2: int|
                            0 <= i2 < i ==> ValueV::Float64(#[trigger] vals@[i2]) == st.accs[
                                st.keys[i2]
                            ][j as int],
                    decreases distinct - i,
                {
                    match result_sets[i].aggr_values[j].result() {
                        Option::Some(Value::Float64(x)) => vals.push(*x),
                        _ => {
                            proof {
                                assert(false);  // each group saw at least one row of this kind
                            }
                        },
                    }
                    i += 1;
                }
                result_columns.push(Array::Float64(vals));
            }
            proof {
                crate::arrow::lemma_array_views(result_columns@);
                assert(crate::arrow::array_view(result_columns@[group_count + j]) =~= agg_out_col(
                    aexprs[j as int],
                    st,
                    j as int,
                ));
            }
            j += 1;
        }

        proof {
            crate::arrow::lemma_array_views(result_columns@);
        }
        let out_schema = schema_handle_clone(&self.schema);
        let out = RecordBatch::new(out_schema, result_columns);
        proof {
            assert(out@ =~= grouped_output(schema_v, gexprs, aexprs, all_batches));
        }
        Ok(Option::Some(out))
    }
}

impl<R: Relation> AggregateRelation<R> {
    /// Produce the operator's one output batch: the ungrouped path when the
    /// grouping list is empty, the grouped path otherwise.
    pub fn next(&mut self) -> (r: Result<Option<RecordBatch>, ExecutionError>)
        requires
            valid_aggr_exprs(old(self).aggr_expr@),
            old(self).group_expr@.len() == 0 ==> ungrouped_safe(
                old(self).aggr_expr@,
                old(self).input.pending(),
            ),
            old(self).group_expr@.len() > 0 ==> schema_group_ok(
                (*old(self).schema)@,
                old(self).group_expr@.len() as int,
            ) && grouped_safe(
                old(self).group_expr@,
                old(self).aggr_expr@,
                (*old(self).schema)@,
                old(self).input.pending(),
            ),
        ensures
            final(self).schema == old(self).schema,
            final(self).aggr_expr == old(self).aggr_expr,
            final(self).group_expr == old(self).group_expr,
            match r {
                Ok(Some(b)) => {
                    &&& old(self).input.pending().len() == 0 || (if old(self).group_expr@.len()
                        == 0 {
                        ungrouped_wired(old(self).aggr_expr@, old(self).input.pending())
                    } else {
                        grouped_wired(old(self).group_expr@, old(self).input.pending())
                    })
                    &&& b@ == (if old(self).group_expr@.len() == 0 {
                        ungrouped_output(old(self).aggr_expr@, old(self).input.pending())
                    } else {
                        grouped_output(
                            (*old(self).schema)@,
                            old(self).group_expr@,
                            old(self).aggr_expr@,
                            old(self).input.pending(),
                        )
                    })
                    &&& *b.schema == *old(self).schema
                },
                Ok(None) => false,
                Err(e) => !(old(self).input.reliable() && (old(self).input.pending().len() == 0
                    || (if old(self).group_expr@.len() == 0 {
                    ungrouped_wired(old(self).aggr_expr@, old(self).input.pending())
                } else {
                    grouped_wired(old(self).group_expr@, old(self).input.pending())
                }))),
            },
    {
        if self.group_expr.is_empty() {
            self.without_group_by()
        } else {
            self.with_group_by()
        }
    }

    /// The operator's declared output schema.
    pub fn schema(&self) -> (s: &Rc<Schema>)
        ensures
            s == self.schema,
    {
        &self.schema
    }
}

/// Structural copy of a composite key.
fn clone_group_key(key: &Vec<GroupByScalar>) -> (r: Vec<GroupByScalar>)
    ensures
        gb_seq_view(r@) == gb_seq_view(key@),
{
    let mut out: Vec<GroupByScalar> = Vec::new();
    let n = key.len();
    let mut i: usize = 0;
    while i < n
        invariant
            n == key@.len(),
            i <= n,
            out@.len() == i,
            forall|k: int| 0 <= k < i ==> (#[trigger] out@[k])@ == key@[k]@,
        decreases n - i,
    {
        let c = match &key[i] {
            GroupByScalar::Boolean(x) => GroupByScalar::Boolean(*x),
            GroupByScalar::UInt8(x) => GroupByScalar::UInt8(*x),
            GroupByScalar::UInt16(x) => GroupByScalar::UInt16(*x),
            GroupByScalar::UInt32(x) => GroupByScalar::UInt32(*x),
            GroupByScalar::UInt64(x) => GroupByScalar::UInt64(*x),
            GroupByScalar::Int8(x) => GroupByScalar::Int8(*x),
            GroupByScalar::Int16(x) => GroupByScalar::Int16(*x),
            GroupByScalar::Int32(x) => GroupByScalar::Int32(*x),
            GroupByScalar::Int64(x) => GroupByScalar::Int64(*x),
            GroupByScalar::Utf8(s) => GroupByScalar::Utf8(clone_string(s)),
        };
        out.push(c);
        i += 1;
    }
    proof {
        assert(gb_seq_view(out@) =~= gb_seq_view(key@));
    }
    out
}

/// One grouping step preserves the well-formedness of the state, provided
/// the row's key components and scalars have the kinds the schema and the
/// aggregate types declare.
proof fn lemma_gstate_row_wf(
    st: GroupState,
    cols: Seq<ArrayV>,
    gexprs: Seq<RuntimeExpr>,
    aexprs: Seq<RuntimeExpr>,
    row: int,
    schema: Seq<FieldV>,
)
    requires
        gstate_wf(st, schema, gexprs, aexprs),
        schema_group_ok(schema, gexprs.len() as int),
        grouped_batch_safe(gexprs, aexprs, schema, cols),
        forall|g: int|
            0 <= g < gexprs.len() ==> (#[trigger] gexprs[g]).eval_ok(cols.len() as int),
        0 <= row < batch_rows(cols),
    ensures
        gstate_wf(gstate_row(st, cols, gexprs, aexprs, row), schema, gexprs, aexprs),
{
    let key = row_key(cols, gexprs, row);
    let scalars = row_scalars(cols, aexprs, row);
    let st2 = gstate_row(st, cols, gexprs, aexprs, row);
    assert forall|g: int|
        0 <= g < gexprs.len() implies (schema[g].data_type is Int32 ==> (#[trigger] key[g])
        is Int32) && (schema[g].data_type is Utf8 ==> key[g] is Utf8) by {
        assert(cols[gexprs[g].col()] is Int32 || cols[gexprs[g].col()] is Utf8);
    }
    assert forall|j: int|
        0 <= j < aexprs.len() implies (aexprs[j].agg_t() is Int32 ==> (#[trigger] scalars[j])
        is Int32) && (aexprs[j].agg_t() is Float64 ==> scalars[j] is Float64) by {}
    if st.accs.contains_key(key) {
        assert(st2.keys == st.keys);
        assert forall|i: int| 0 <= i < st2.keys.len() implies {
            let kk = #[trigger] st2.keys[i];
            &&& kk.len() == gexprs.len()
            &&& (forall|g: int|
                0 <= g < gexprs.len() ==> (schema[g].data_type is Int32 ==> (#[trigger] kk[g])
                    is Int32) && (schema[g].data_type is Utf8 ==> kk[g] is Utf8))
            &&& st2.accs[kk].len() == aexprs.len()
            &&& (forall|j: int|
                0 <= j < aexprs.len() ==> (aexprs[j].agg_t() is Int32 ==> (
                #[trigger] st2.accs[kk][j]) is Int32) && (aexprs[j].agg_t() is Float64
                    ==> st2.accs[kk][j] is Float64))
        } by {
            let kk = st2.keys[i];
            if kk == key {
                assert(st2.accs[kk] == accs_step(st.accs[key], scalars, aexprs));
            }
        }
    } else {
        assert(st2.keys == st.keys.push(key));
        assert forall|kk: Seq<GbKey>| #![trigger st2.accs.dom().contains(kk)]
            st2.accs.dom().contains(kk) <==> st2.keys.contains(kk) by {
            if st2.keys.contains(kk) {
                let w = choose|w: int| 0 <= w < st2.keys.len() && st2.keys[w] == kk;
                if w < st.keys.len() {
                    assert(st.keys[w] == kk);
                    assert(st.keys.contains(kk));
                } else {
                    assert(kk == key);
                }
            }
            if st2.accs.dom().contains(kk) {
                if kk != key {
                    assert(st.keys.contains(kk));
                    let w = choose|w: int| 0 <= w < st.keys.len() && st.keys[w] == kk;
                    assert(st2.keys[w] == kk);
                }
                if kk == key {
                    assert(st2.keys[st.keys.len() as int] == key);
                }
            }
        }
        assert(st2.keys.no_duplicates()) by {
            assert forall|i1: int, i2: int|
                0 <= i1 < st2.keys.len() && 0 <= i2 < st2.keys.len() && i1 != i2 implies st2.keys[i1]
                != st2.keys[i2] by {
                if i1 < st.keys.len() && i2 < st.keys.len() {
                } else if i1 < st.keys.len() {
                    assert(st2.keys[i2] == key);
                    assert(!st.keys.contains(key));
                    assert(st.keys[i1] == st2.keys[i1]);
                } else {
                    assert(st2.keys[i1] == key);
                    assert(!st.keys.contains(key));
                    assert(st.keys[i2] == st2.keys[i2]);
                }
            }
        }
        assert forall|i: int| 0 <= i < st2.keys.len() implies {
            let kk = #[trigger] st2.keys[i];
            &&& kk.len() == gexprs.len()
            &&& (forall|g: int|
                0 <= g < gexprs.len() ==> (schema[g].data_type is Int32 ==> (#[trigger] kk[g])
                    is Int32) && (schema[g].data_type is Utf8 ==> kk[g] is Utf8))
            &&& st2.accs[kk].len() == aexprs.len()
            &&& (forall|j: int|
                0 <= j < aexprs.len() ==> (aexprs[j].agg_t() is Int32 ==> (
                #[trigger] st2.accs[kk][j]) is Int32) && (aexprs[j].agg_t() is Float64
                    ==> st2.accs[kk][j] is Float64))
        } by {
            let kk = st2.keys[i];
            if i < st.keys.len() {
                assert(st.keys.contains(kk));
                if kk == key {
                    assert(false);
                }
                assert(st2.accs[kk] == st.accs[kk]);
            } else {
                assert(kk == key);
                assert(st2.accs[kk] == scalars);
            }
        }
    }
}

/// The accumulated MIN is the true minimum of the column: it is one of the
/// cells, and — as soon as any cell is not NaN — it is not NaN and is below
/// every non-NaN cell.  Together with [`lemma_f64_seq_min_concat`] this says
/// that accumulating batch by batch yields the minimum of the whole column,
/// wherever the batch boundaries fall.
pub proof fn lemma_f64_seq_min_is_minimum(s: Seq<u64>)
    requires
        s.len() > 0,
    ensures
        s.contains(f64_seq_min(s)),
        forall|i: int|
            0 <= i < s.len() && !f64_is_nan(s[i]) ==> !f64_is_nan(f64_seq_min(s)) && f64_key(
                f64_seq_min(s),
            ) <= f64_key(s[i]),
    decreases s.len(),
{
    if s.len() == 1 {
        assert(s[0] == s[0]);
    } else {
        lemma_f64_seq_min_is_minimum(s.drop_last());
        let m = f64_seq_min(s.drop_last());
        if s.drop_last().contains(m) {
            let w = choose|w: int| 0 <= w < s.drop_last().len() && s.drop_last()[w] == m;
            assert(s[w] == m);
        }
        assert forall|i: int|
            0 <= i < s.len() && !f64_is_nan(s[i]) implies !f64_is_nan(f64_seq_min(s)) && f64_key(
            f64_seq_min(s),
        ) <= f64_key(s[i]) by {
            if i < s.len() - 1 {
                assert(s.drop_last()[i] == s[i]);
            }
        }
    }
}

/// The accumulated MAX is the true maximum of the column, as
/// [`lemma_f64_seq_min_is_minimum`].
pub proof fn lemma_f64_seq_max_is_maximum(s: Seq<u64>)
    requires
        s.len() > 0,
    ensures
        s.contains(f64_seq_max(s)),
        forall|i: int|
            0 <= i < s.len() && !f64_is_nan(s[i]) ==> !f64_is_nan(f64_seq_max(s)) && f64_key(
                f64_seq_max(s),
            ) >= f64_key(s[i]),
    decreases s.len(),
{
    if s.len() == 1 {
        assert(s[0] == s[0]);
    } else {
        lemma_f64_seq_max_is_maximum(s.drop_last());
        let m = f64_seq_max(s.drop_last());
        if s.drop_last().contains(m) {
            let w = choose|w: int| 0 <= w < s.drop_last().len() && s.drop_last()[w] == m;
            assert(s[w] == m);
        }
        assert forall|i: int|
            0 <= i < s.len() && !f64_is_nan(s[i]) implies !f64_is_nan(f64_seq_max(s)) && f64_key(
            f64_seq_max(s),
        ) >= f64_key(s[i]) by {
            if i < s.len() - 1 {
                assert(s.drop_last()[i] == s[i]);
            }
        }
    }
}

/// One grouping step only adds keys, and adds the processed row's own key.
proof fn lemma_gstate_row_keys(
    st: GroupState,
    cols: Seq<ArrayV>,
    gexprs: Seq<RuntimeExpr>,
    aexprs: Seq<RuntimeExpr>,
    row: int,
)
    requires
        forall|kk: Seq<GbKey>| st.accs.dom().contains(kk) <==> st.keys.contains(kk),
    ensures
        gstate_row(st, cols, gexprs, aexprs, row).keys.contains(row_key(cols, gexprs, row)),
        forall|kk: Seq<GbKey>|
            st.keys.contains(kk) ==> gstate_row(st, cols, gexprs, aexprs, row).keys.contains(kk),
{
    let key = row_key(cols, gexprs, row);
    let st2 = gstate_row(st, cols, gexprs, aexprs, row);
    if st.accs.contains_key(key) {
        assert(st.keys.contains(key));
    } else {
        assert(st2.keys[st.keys.len() as int] == key);
        assert forall|kk: Seq<GbKey>| st.keys.contains(kk) implies st2.keys.contains(kk) by {
            let w = choose|w: int| 0 <= w < st.keys.len() && st.keys[w] == kk;
            assert(st2.keys[w] == kk);
        }
    }
}

/// After the first `nrows` rows of a batch: the state stays well formed,
/// keys only accumulate, and every processed row's key is present.
proof fn lemma_gstate_rows_props(
    st: GroupState,
    cols: Seq<ArrayV>,
    gexprs: Seq<RuntimeExpr>,
    aexprs: Seq<RuntimeExpr>,
    nrows: int,
    schema: Seq<FieldV>,
)
    requires
        gstate_wf(st, schema, gexprs, aexprs),
        schema_group_ok(schema, gexprs.len() as int),
        grouped_batch_safe(gexprs, aexprs, schema, cols),
        forall|g: int| 0 <= g < gexprs.len() ==> (#[trigger] gexprs[g]).eval_ok(cols.len() as int),
        nrows <= batch_rows(cols),
    ensures
        gstate_wf(gstate_rows(st, cols, gexprs, aexprs, nrows), schema, gexprs, aexprs),
        forall|kk: Seq<GbKey>|
            st.keys.contains(kk) ==> gstate_rows(st, cols, gexprs, aexprs, nrows).keys.contains(
                kk,
            ),
        forall|r: int|
            0 <= r < nrows ==> gstate_rows(st, cols, gexprs, aexprs, nrows).keys.contains(
                row_key(cols, gexprs, r),
            ),
    decreases nrows,
{
    if nrows > 0 {
        lemma_gstate_rows_props(st, cols, gexprs, aexprs, nrows - 1, schema);
        let prev = gstate_rows(st, cols, gexprs, aexprs, nrows - 1);
        lemma_gstate_row_wf(prev, cols, gexprs, aexprs, nrows - 1, schema);
        lemma_gstate_row_keys(prev, cols, gexprs, aexprs, nrows - 1);
    }
}

/// After a sequence of batches: the grouping state is well formed, keys only
/// accumulate, and every row of every batch has its composite key among the
/// state's keys.
proof fn lemma_gstate_batches_props(
    st: GroupState,
    batches: Seq<Seq<ArrayV>>,
    gexprs: Seq<RuntimeExpr>,
    aexprs: Seq<RuntimeExpr>,
    schema: Seq<FieldV>,
)
    requires
        gstate_wf(st, schema, gexprs, aexprs),
        schema_group_ok(schema, gexprs.len() as int),
        grouped_safe(gexprs, aexprs, schema, batches),
        grouped_wired(gexprs, batches),
    ensures
        gstate_wf(gstate_batches(st, batches, gexprs, aexprs), schema, gexprs, aexprs),
        forall|kk: Seq<GbKey>|
            st.keys.contains(kk) ==> gstate_batches(st, batches, gexprs, aexprs).keys.contains(
                kk,
            ),
        forall|k: int, r: int|
            0 <= k < batches.len() && 0 <= r < batch_rows(batches[k]) ==> gstate_batches(
                st,
                batches,
                gexprs,
                aexprs,
            ).keys.contains(#[trigger] row_key(batches[k], gexprs, r)),
    decreases batches.len(),
{
    if batches.len() > 0 {
        let front = batches.drop_last();
        assert(grouped_safe(gexprs, aexprs, schema, front)) by {
            assert forall|k: int|
                0 <= k < front.len() implies grouped_batch_safe(
                gexprs,
                aexprs,
                schema,
                #[trigger] front[k],
            ) by {
                assert(front[k] == batches[k]);
            }
        }
        assert(grouped_wired(gexprs, front)) by {
            assert forall|k: int, g: int|
                0 <= k < front.len() && 0 <= g < gexprs.len() implies (#[trigger] gexprs[g]).eval_ok(
                (#[trigger] front[k]).len() as int,
            ) by {
                assert(front[k] == batches[k]);
            }
        }
        lemma_gstate_batches_props(st, front, gexprs, aexprs, schema);
        let prev = gstate_batches(st, front, gexprs, aexprs);
        assert(grouped_batch_safe(gexprs, aexprs, schema, batches.last()));
        assert(forall|g: int|
            0 <= g < gexprs.len() ==> (#[trigger] gexprs[g]).eval_ok(batches.last().len() as int));
        lemma_gstate_rows_props(
            prev,
            batches.last(),
            gexprs,
            aexprs,
            batch_rows(batches.last()) as int,
            schema,
        );
        assert forall|k: int, r: int|
            0 <= k < batches.len() && 0 <= r < batch_rows(batches[k]) implies gstate_batches(
            st,
            batches,
            gexprs,
            aexprs,
        ).keys.contains(#[trigger] row_key(batches[k], gexprs, r)) by {
            if k < batches.len() - 1 {
                assert(front[k] == batches[k]);
            } else {
                assert(batches[k] == batches.last());
            }
        }
    }
}

/// Rows with equal composite keys share one group: after any run of batches
/// the distinct keys are free of duplicates — one group per key value — and
/// every row's composite key is among them, so two rows with the same key
/// always land in the same group, and the number of output groups is the
/// number of distinct input keys.
pub proof fn lemma_group_keys_complete(
    batches: Seq<Seq<ArrayV>>,
    gexprs: Seq<RuntimeExpr>,
    aexprs: Seq<RuntimeExpr>,
    schema: Seq<FieldV>,
)
    requires
        schema_group_ok(schema, gexprs.len() as int),
        grouped_safe(gexprs, aexprs, schema, batches),
        grouped_wired(gexprs, batches),
    ensures
        gstate_batches(GroupState::empty(), batches, gexprs, aexprs).keys.no_duplicates(),
        forall|k: int, r: int|
            0 <= k < batches.len() && 0 <= r < batch_rows(batches[k]) ==> gstate_batches(
                GroupState::empty(),
                batches,
                gexprs,
                aexprs,
            ).keys.contains(#[trigger] row_key(batches[k], gexprs, r)),
{
    lemma_gstate_batches_props(GroupState::empty(), batches, gexprs, aexprs, schema);
}

} // verus!
