use std::rc::Rc;
use datafusion::aggregate::{
    AggregateRelation, MaxFunction, MinFunction, array_max, array_min, create_accumulators,
    update_accumulators, AccumulatorSet,
};
use datafusion::arrow::{Array, DataType, Field, RecordBatch, Schema, Value};
use datafusion::error::ExecutionError;
use datafusion::expression::{AggregateType, RuntimeExpr};
use datafusion::relation::InMemoryRelation;

fn cities_schema() -> Rc<Schema> {
    Rc::new(Schema::new(vec![
        Field::new("name", DataType::Utf8, false),
        Field::new("lat", DataType::Float64, false),
        Field::new("lng", DataType::Float64, false),
    ]))
}

/// A small set of city rows whose minimum latitude is 50.376289 and whose
/// maximum is 57.477772, split over two batches.
fn load_cities() -> InMemoryRelation {
    let schema = cities_schema();
    let b1 = RecordBatch::new(
        Rc::clone(&schema),
        vec![
            Array::Utf8(vec![
                "Inverness".to_string(),
                "Solihull".to_string(),
                "Cardiff".to_string(),
            ]),
            Array::Float64(vec![
                57.149651f64.to_bits(),
                52.412811f64.to_bits(),
                51.481583f64.to_bits(),
            ]),
            Array::Float64(vec![
                (-3.335724f64).to_bits(),
                (-1.778197f64).to_bits(),
                (-3.179090f64).to_bits(),
            ]),
        ],
    );
    let b2 = RecordBatch::new(
        Rc::clone(&schema),
        vec![
            Array::Utf8(vec!["Plymouth".to_string(), "Aberdeen".to_string()]),
            Array::Float64(vec![50.376289f64.to_bits(), 57.477772f64.to_bits()]),
            Array::Float64(vec![(-4.143841f64).to_bits(), (-2.097806f64).to_bits()]),
        ],
    );
    InMemoryRelation::new(schema, vec![b1, b2])
}

fn min_lat_expr() -> RuntimeExpr {
    RuntimeExpr::AggregateFunction {
        f: AggregateType::Min,
        args: vec![RuntimeExpr::Column { index: 1 }],
        t: DataType::Float64,
    }
}

fn max_lat_expr() -> RuntimeExpr {
    RuntimeExpr::AggregateFunction {
        f: AggregateType::Max,
        args: vec![RuntimeExpr::Column { index: 1 }],
        t: DataType::Float64,
    }
}

#[test]
fn min_lat() {
    let relation = load_cities();
    let aggr_expr = vec![min_lat_expr()];
    let aggr_schema = Rc::new(Schema::new(vec![Field::new("min_lat", DataType::Float64, false)]));
    let mut projection = AggregateRelation::new(aggr_schema, relation, vec![], aggr_expr);
    let batch = projection.next().unwrap().unwrap();
    assert_eq!(1, batch.num_columns());
    assert_eq!("min_lat: Float64", batch.schema.to_string());
    match batch.column(0) {
        Array::Float64(v) => assert_eq!(50.376289f64.to_bits(), v[0]),
        _ => panic!("wrong column variant"),
    }
}

#[test]
fn max_lat() {
    let relation = load_cities();
    let aggr_expr = vec![max_lat_expr()];
    let aggr_schema = Rc::new(Schema::new(vec![Field::new("max_lat", DataType::Float64, false)]));
    let mut projection = AggregateRelation::new(aggr_schema, relation, vec![], aggr_expr);
    let batch = projection.next().unwrap().unwrap();
    assert_eq!(1, batch.num_columns());
    match batch.column(0) {
        Array::Float64(v) => assert_eq!(57.477772f64.to_bits(), v[0]),
        _ => panic!("wrong column variant"),
    }
}

#[test]
fn min_and_max_together() {
    let relation = load_cities();
    let aggr_schema = Rc::new(Schema::new(vec![
        Field::new("min_lat", DataType::Float64, false),
        Field::new("max_lat", DataType::Float64, false),
    ]));
    let mut projection =
        AggregateRelation::new(aggr_schema, relation, vec![], vec![min_lat_expr(), max_lat_expr()]);
    let batch = projection.next().unwrap().unwrap();
    assert_eq!(2, batch.num_columns());
    match batch.column(0) {
        Array::Float64(v) => assert_eq!(vec![50.376289f64.to_bits()], *v),
        _ => panic!("wrong column variant"),
    }
    match batch.column(1) {
        Array::Float64(v) => assert_eq!(vec![57.477772f64.to_bits()], *v),
        _ => panic!("wrong column variant"),
    }
}

#[test]
fn batch_boundaries_do_not_change_the_minimum() {
    // the same cells in one batch give the same MIN as in two
    let schema = cities_schema();
    let one = RecordBatch::new(
        Rc::clone(&schema),
        vec![
            Array::Utf8(vec![
                "Inverness".to_string(),
                "Solihull".to_string(),
                "Cardiff".to_string(),
                "Plymouth".to_string(),
                "Aberdeen".to_string(),
            ]),
            Array::Float64(vec![
                57.149651f64.to_bits(),
                52.412811f64.to_bits(),
                51.481583f64.to_bits(),
                50.376289f64.to_bits(),
                57.477772f64.to_bits(),
            ]),
            Array::Float64(vec![0.0f64.to_bits(); 5]),
        ],
    );
    let relation = InMemoryRelation::new(Rc::clone(&schema), vec![one]);
    let aggr_schema = Rc::new(Schema::new(vec![Field::new("min_lat", DataType::Float64, false)]));
    let mut projection = AggregateRelation::new(aggr_schema, relation, vec![], vec![min_lat_expr()]);
    let batch = projection.next().unwrap().unwrap();
    match batch.column(0) {
        Array::Float64(v) => assert_eq!(50.376289f64.to_bits(), v[0]),
        _ => panic!("wrong column variant"),
    }
}

#[test]
fn empty_input_yields_empty_result_column() {
    let schema = cities_schema();
    let relation = InMemoryRelation::new(schema, vec![]);
    let aggr_schema = Rc::new(Schema::new(vec![Field::new("min_lat", DataType::Float64, false)]));
    let mut projection = AggregateRelation::new(aggr_schema, relation, vec![], vec![min_lat_expr()]);
    let batch = projection.next().unwrap().unwrap();
    assert_eq!(1, batch.num_columns());
    match batch.column(0) {
        Array::Float64(v) => assert!(v.is_empty()),
        _ => panic!("wrong column variant"),
    }
}

#[test]
fn unsupported_reduction_type_errors() {
    // a 32-bit integer result type is not wired for whole-array reduction
    let schema = Rc::new(Schema::new(vec![Field::new("n", DataType::Int32, false)]));
    let b = RecordBatch::new(Rc::clone(&schema), vec![Array::Int32(vec![1, 2, 3])]);
    let relation = InMemoryRelation::new(Rc::clone(&schema), vec![b]);
    let aggr_expr = vec![RuntimeExpr::AggregateFunction {
        f: AggregateType::Min,
        args: vec![RuntimeExpr::Column { index: 0 }],
        t: DataType::Int32,
    }];
    let aggr_schema = Rc::new(Schema::new(vec![Field::new("min_n", DataType::Int32, false)]));
    let mut projection = AggregateRelation::new(aggr_schema, relation, vec![], aggr_expr);
    match projection.next() {
        Err(ExecutionError::NotImplemented(msg)) => {
            assert_eq!("Unsupported data type for MIN", msg)
        }
        _ => panic!("expected a NotImplemented error"),
    }
}

#[test]
fn failed_argument_evaluation_errors() {
    let relation = load_cities();
    let aggr_expr = vec![RuntimeExpr::AggregateFunction {
        f: AggregateType::Min,
        args: vec![RuntimeExpr::Column { index: 9 }],
        t: DataType::Float64,
    }];
    let aggr_schema = Rc::new(Schema::new(vec![Field::new("min_lat", DataType::Float64, false)]));
    let mut projection = AggregateRelation::new(aggr_schema, relation, vec![], aggr_expr);
    match projection.next() {
        Err(ExecutionError::ExecutionError(msg)) => {
            assert_eq!("Failed to evaluate argument to aggregate function", msg)
        }
        _ => panic!("expected an ExecutionError"),
    }
}

fn grouped_fixture(batches: Vec<(Vec<&str>, Vec<i32>)>) -> AggregateRelation<InMemoryRelation> {
    let schema = Rc::new(Schema::new(vec![
        Field::new("key", DataType::Utf8, false),
        Field::new("n", DataType::Int32, false),
    ]));
    let record_batches: Vec<RecordBatch> = batches
        .into_iter()
        .map(|(keys, ns)| {
            RecordBatch::new(
                Rc::clone(&schema),
                vec![
                    Array::Utf8(keys.into_iter().map(|s| s.to_string()).collect()),
                    Array::Int32(ns),
                ],
            )
        })
        .collect();
    let relation = InMemoryRelation::new(Rc::clone(&schema), record_batches);
    let out_schema = Rc::new(Schema::new(vec![
        Field::new("key", DataType::Utf8, false),
        Field::new("max_n", DataType::Int32, false),
    ]));
    AggregateRelation::new(
        out_schema,
        relation,
        vec![RuntimeExpr::Column { index: 0 }],
        vec![RuntimeExpr::AggregateFunction {
            f: AggregateType::Max,
            args: vec![RuntimeExpr::Column { index: 1 }],
            t: DataType::Int32,
        }],
    )
}

#[test]
fn grouped_max_yields_one_row_per_key() {
    let mut projection = grouped_fixture(vec![(vec!["A", "B", "A"], vec![1, 2, 3])]);
    let batch = projection.next().unwrap().unwrap();
    assert_eq!(2, batch.num_columns());
    match batch.column(0) {
        Array::Utf8(keys) => assert_eq!(vec!["A".to_string(), "B".to_string()], *keys),
        _ => panic!("wrong key column variant"),
    }
    match batch.column(1) {
        Array::Int32(maxes) => assert_eq!(vec![3, 2], *maxes),
        _ => panic!("wrong result column variant"),
    }
}

#[test]
fn grouped_keys_join_across_batches() {
    // equal keys land in the same group wherever their rows sit; the number
    // of output rows is the number of distinct keys
    let mut projection = grouped_fixture(vec![
        (vec!["A", "B"], vec![1, 2]),
        (vec!["C", "A"], vec![5, 3]),
    ]);
    let batch = projection.next().unwrap().unwrap();
    match batch.column(0) {
        Array::Utf8(keys) => {
            assert_eq!(vec!["A".to_string(), "B".to_string(), "C".to_string()], *keys)
        }
        _ => panic!("wrong key column variant"),
    }
    match batch.column(1) {
        Array::Int32(maxes) => assert_eq!(vec![3, 2, 5], *maxes),
        _ => panic!("wrong result column variant"),
    }
}

#[test]
fn grouped_evaluation_failure_errors() {
    let schema = Rc::new(Schema::new(vec![Field::new("key", DataType::Utf8, false)]));
    let b = RecordBatch::new(Rc::clone(&schema), vec![Array::Utf8(vec!["A".to_string()])]);
    let relation = InMemoryRelation::new(Rc::clone(&schema), vec![b]);
    let out_schema = Rc::new(Schema::new(vec![
        Field::new("key", DataType::Utf8, false),
        Field::new("max_n", DataType::Int32, false),
    ]));
    let mut projection = AggregateRelation::new(
        out_schema,
        relation,
        vec![RuntimeExpr::Column { index: 5 }],
        vec![RuntimeExpr::AggregateFunction {
            f: AggregateType::Max,
            args: vec![RuntimeExpr::Column { index: 0 }],
            t: DataType::Int32,
        }],
    );
    match projection.next() {
        Err(ExecutionError::ExecutionError(_)) => {}
        _ => panic!("expected an ExecutionError"),
    }
}

#[test]
fn accumulators_seed_then_reduce() {
    let mut min_f = MinFunction::new(&DataType::Float64);
    assert!(min_f.result().is_none());
    min_f.accumulate_scalar(&Some(Value::Float64(3.5f64.to_bits())));
    min_f.accumulate_scalar(&Some(Value::Float64(1.5f64.to_bits())));
    min_f.accumulate_scalar(&None);
    min_f.accumulate_scalar(&Some(Value::Float64(2.5f64.to_bits())));
    match min_f.result() {
        Some(Value::Float64(b)) => assert_eq!(1.5f64.to_bits(), *b),
        _ => panic!("expected a float minimum"),
    }
    assert!(matches!(min_f.data_type(), DataType::Float64));

    let mut max_f = MaxFunction::new(&DataType::Int32);
    max_f.accumulate_scalar(&Some(Value::Int32(-2)));
    max_f.accumulate_scalar(&Some(Value::Int32(7)));
    max_f.accumulate_scalar(&Some(Value::Int32(4)));
    match max_f.result() {
        Some(Value::Int32(x)) => assert_eq!(7, *x),
        _ => panic!("expected an integer maximum"),
    }
}

#[test]
fn accumulate_array_is_a_noop() {
    let mut min_f = MinFunction::new(&DataType::Float64);
    min_f.accumulate_scalar(&Some(Value::Float64(2.0f64.to_bits())));
    min_f.accumulate_array(&Array::Float64(vec![1.0f64.to_bits()]));
    match min_f.result() {
        Some(Value::Float64(b)) => assert_eq!(2.0f64.to_bits(), *b),
        _ => panic!("expected the state unchanged"),
    }
}

#[test]
fn array_min_and_max_reduce_whole_columns() {
    let col = Array::Float64(vec![2.0f64.to_bits(), 0.5f64.to_bits(), 1.0f64.to_bits()]);
    match array_min(&col, &DataType::Float64) {
        Ok(Some(Value::Float64(b))) => assert_eq!(0.5f64.to_bits(), b),
        _ => panic!("expected a minimum"),
    }
    match array_max(&col, &DataType::Float64) {
        Ok(Some(Value::Float64(b))) => assert_eq!(2.0f64.to_bits(), b),
        _ => panic!("expected a maximum"),
    }
    let empty = Array::Float64(vec![]);
    assert!(matches!(array_min(&empty, &DataType::Float64), Ok(None)));
    match array_min(&Array::Int32(vec![1]), &DataType::Int32) {
        Err(ExecutionError::NotImplemented(_)) => {}
        _ => panic!("expected a NotImplemented error"),
    }
    match array_max(&Array::Int32(vec![1]), &DataType::Int32) {
        Err(ExecutionError::NotImplemented(_)) => {}
        _ => panic!("expected a NotImplemented error"),
    }
}

#[test]
fn update_accumulators_folds_one_row() {
    let schema = Rc::new(Schema::new(vec![Field::new("n", DataType::Int32, false)]));
    let batch = RecordBatch::new(Rc::clone(&schema), vec![Array::Int32(vec![4, 1, 9])]);
    let aggr_expr = vec![RuntimeExpr::AggregateFunction {
        f: AggregateType::Min,
        args: vec![RuntimeExpr::Column { index: 0 }],
        t: DataType::Int32,
    }];
    let mut set: AccumulatorSet = create_accumulators(&aggr_expr);
    update_accumulators(&batch, 0, &mut set, &aggr_expr);
    update_accumulators(&batch, 1, &mut set, &aggr_expr);
    update_accumulators(&batch, 2, &mut set, &aggr_expr);
    match set.aggr_values[0].result() {
        Some(Value::Int32(x)) => assert_eq!(1, *x),
        _ => panic!("expected an integer minimum"),
    }
}

#[test]
fn error_messages_are_readable() {
    let e = ExecutionError::General("Invalid aggregate expression".to_string());
    assert_eq!("Invalid aggregate expression", e.message());
}
