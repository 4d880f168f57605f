//! The pull protocol: a relation produces batches on demand until exhausted.

use std::rc::Rc;
use vstd::prelude::*;
use crate::arrow::{ArrayV, FieldV, RecordBatch, Schema, batch_views};
use crate::error::ExecutionError;

verus! {

/// A pull-based operator producing a sequence of batches on demand.
///
/// `pending` models the batches still to be produced, in order; `next`
/// either yields the first of them, signals end-of-stream once they are
/// exhausted, or fails — and a relation that claims to be `reliable` never
/// fails.  Implementors outside this crate (data sources) prove the same
/// contract for their own `pending` model.
pub trait Relation: Sized {
    /// Views of the batches still to be produced, in order.
    spec fn pending(&self) -> Seq<Seq<ArrayV>>;

    /// View of the relation's output schema.
    spec fn sch(&self) -> Seq<FieldV>;

    /// Whether this relation promises to produce every pending batch
    /// without error.
    spec fn reliable(&self) -> bool;

    /// Produce the next batch, or signal end-of-stream.
    fn next(&mut self) -> (r: Result<Option<RecordBatch>, ExecutionError>)
        ensures
            final(self).sch() == old(self).sch(),
            old(self).reliable() ==> final(self).reliable(),
            match r {
                Ok(Some(b)) => old(self).pending().len() > 0 && b@ == old(self).pending()[0]
                    && final(self).pending() == old(self).pending().drop_first(),
                Ok(None) => old(self).pending().len() == 0 && final(self).pending().len() == 0,
                Err(_) => !old(self).reliable(),
            },
    ;

    /// The relation's output schema.
    fn schema(&self) -> (s: &Schema)
        ensures
            s@ == self.sch(),
    ;
}

/// A relation over batches already in memory; it yields them in order and
/// never fails.
pub struct InMemoryRelation {
    schema: Rc<Schema>,
    batches: Vec<RecordBatch>,
}

impl InMemoryRelation {
    /// A relation that will produce `batches` in order.
    pub fn new(schema: Rc<Schema>, batches: Vec<RecordBatch>) -> (r: Self)
        ensures
            r.pending() == batch_views(batches@),
            r.sch() == (*schema)@,
            r.reliable(),
    {
        InMemoryRelation { schema, batches }
    }
}

impl Relation for InMemoryRelation {
    closed spec fn pending(&self) -> Seq<Seq<ArrayV>> {
        batch_views(self.batches@)
    }

    closed spec fn sch(&self) -> Seq<FieldV> {
        (*self.schema)@
    }

    closed spec fn reliable(&self) -> bool {
        true
    }

    fn next(&mut self) -> (r: Result<Option<RecordBatch>, ExecutionError>)
        ensures
            final(self).sch() == old(self).sch(),
            old(self).reliable() ==> final(self).reliable(),
            match r {
                Ok(Some(b)) => old(self).pending().len() > 0 && b@ == old(self).pending()[0]
                    && final(self).pending() == old(self).pending().drop_first(),
                Ok(None) => old(self).pending().len() == 0 && final(self).pending().len() == 0,
                Err(_) => !old(self).reliable(),
            },
    {
        if self.batches.is_empty() {
            Ok(None)
        } else {
            let b = self.batches.remove(0);
            proof {
                assert(old(self).batches@.remove(0) =~= old(self).batches@.drop_first());
                assert(batch_views(self.batches@) =~= batch_views(old(self).batches@).drop_first());
            }
            Ok(Some(b))
        }
    }

    fn schema(&self) -> (s: &Schema)
        ensures
            s@ == self.sch(),
    {
        &self.schema
    }
}

} // verus!
