//! Typed columnar value model: type metadata, scalar values and columnar
//! arrays.
//!
//! Floating-point cells are carried as raw IEEE-754 bit patterns (`u32` for
//! the 32-bit format, `u64` for the 64-bit one); their ordering is defined in
//! [`crate::fp`].

use std::rc::Rc;
use vstd::prelude::*;
use vstd::string::{StrSliceExecFns, StringExecFns};
use crate::text::{chars_lt, chars_le, str_eq, str_lt, str_le, lemma_chars_lt_trichotomy, lemma_chars_lt_transitive};
use core::cmp::Ordering;
use crate::fp::{
    f32_eq, f32_le, f32_lt, f64_eq, f64_le, f64_lt, f32_bits_eq, f32_bits_le, f32_bits_lt,
    f64_bits_eq, f64_bits_le, f64_bits_lt, f64_is_nan, f64_key, f64_bits_is_nan, i64_to_f64,
    i64_to_f64_bits,
};

verus! {

broadcast use {
    vstd::seq::axiom_seq_index_decreases,
    vstd::seq::axiom_seq_subrange_decreases,
    vstd::std_specs::vec::axiom_vec_decreases_to_view,
};

/// Tag of a primitive column type, or a nested record type built from named
/// child fields.
pub enum DataType {
    Boolean,
    Float32,
    Float64,
    Int32,
    Int64,
    Utf8,
    Struct(Vec<Field>),
}

/// A named, optionally nullable column descriptor.  Immutable after
/// construction.
pub struct Field {
    pub name: String,
    pub data_type: DataType,
    pub nullable: bool,
}

/// An ordered sequence of column descriptors with name-based lookup.
pub struct Schema {
    pub columns: Vec<Field>,
}

/// Mathematical model of a [`DataType`].
#[verifier::ext_equal]
pub enum DataTypeV {
    Boolean,
    Float32,
    Float64,
    Int32,
    Int64,
    Utf8,
    Struct(Seq<FieldV>),
}

/// Mathematical model of a [`Field`].
#[verifier::ext_equal]
pub struct FieldV {
    pub name: Seq<char>,
    pub data_type: DataTypeV,
    pub nullable: bool,
}

/// Model of a [`DataType`].
pub open spec fn dt_view(dt: DataType) -> DataTypeV
    decreases dt,
{
    match dt {
        DataType::Boolean => DataTypeV::Boolean,
        DataType::Float32 => DataTypeV::Float32,
        DataType::Float64 => DataTypeV::Float64,
        DataType::Int32 => DataTypeV::Int32,
        DataType::Int64 => DataTypeV::Int64,
        DataType::Utf8 => DataTypeV::Utf8,
        DataType::Struct(fields) => DataTypeV::Struct(field_views(fields@)),
    }
}

/// Models of a sequence of [`Field`]s.
pub open spec fn field_views(s: Seq<Field>) -> Seq<FieldV>
    decreases s,
{
    if s.len() == 0 {
        Seq::empty()
    } else {
        field_views(s.drop_last()).push(
            FieldV {
                name: s.last().name@,
                data_type: dt_view(s.last().data_type),
                nullable: s.last().nullable,
            },
        )
    }
}

/// Pointwise characterization of [`field_views`].
pub broadcast proof fn lemma_field_views(s: Seq<Field>)
    ensures
        (#[trigger] field_views(s)).len() == s.len(),
        forall|i: int|
            0 <= i < s.len() ==> field_views(s)[i] == (FieldV {
                name: s[i].name@,
                data_type: dt_view(s[i].data_type),
                nullable: s[i].nullable,
            }),
    decreases s.len(),
{
    if s.len() > 0 {
        lemma_field_views(s.drop_last());
    }
}

impl View for DataType {
    type V = DataTypeV;

    open spec fn view(&self) -> DataTypeV {
        dt_view(*self)
    }
}

impl View for Field {
    type V = FieldV;

    open spec fn view(&self) -> FieldV {
        FieldV { name: self.name@, data_type: self.data_type@, nullable: self.nullable }
    }
}

impl View for Schema {
    type V = Seq<FieldV>;

    open spec fn view(&self) -> Seq<FieldV> {
        field_views(self.columns@)
    }
}

/// A scalar cell: one value of a primitive kind, or a nested record of
/// scalar values.  Equality is structural; float cells hold bit patterns.
pub enum Value {
    Boolean(bool),
    Float32(u32),
    Float64(u64),
    Int32(i32),
    Int64(i64),
    Utf8(String),
    Struct(Vec<Value>),
}

/// Mathematical model of a [`Value`].
#[verifier::ext_equal]
pub enum ValueV {
    Boolean(bool),
    Float32(u32),
    Float64(u64),
    Int32(i32),
    Int64(i64),
    Utf8(Seq<char>),
    Struct(Seq<ValueV>),
}

/// Model of a [`Value`].
pub open spec fn value_view(v: Value) -> ValueV
    decreases v,
{
    match v {
        Value::Boolean(b) => ValueV::Boolean(b),
        Value::Float32(x) => ValueV::Float32(x),
        Value::Float64(x) => ValueV::Float64(x),
        Value::Int32(x) => ValueV::Int32(x),
        Value::Int64(x) => ValueV::Int64(x),
        Value::Utf8(s) => ValueV::Utf8(s@),
        Value::Struct(children) => ValueV::Struct(value_views(children@)),
    }
}

/// Models of a sequence of [`Value`]s.
pub open spec fn value_views(s: Seq<Value>) -> Seq<ValueV>
    decreases s,
{
    if s.len() == 0 {
        Seq::empty()
    } else {
        value_views(s.drop_last()).push(value_view(s.last()))
    }
}

/// Pointwise characterization of [`value_views`].
pub broadcast proof fn lemma_value_views(s: Seq<Value>)
    ensures
        (#[trigger] value_views(s)).len() == s.len(),
        forall|i: int| 0 <= i < s.len() ==> value_views(s)[i] == value_view(s[i]),
    decreases s.len(),
{
    if s.len() > 0 {
        lemma_value_views(s.drop_last());
    }
}

impl View for Value {
    type V = ValueV;

    open spec fn view(&self) -> ValueV {
        value_view(*self)
    }
}

/// A columnar container: one homogeneous typed sequence, a constant
/// broadcast value, or a nested sequence of child arrays (struct of arrays).
pub enum Array {
    /// A single value standing for a column of that constant.
    BroadcastVariable(Value),
    Boolean(Vec<bool>),
    /// 32-bit float cells as IEEE-754 bit patterns.
    Float32(Vec<u32>),
    /// 64-bit float cells as IEEE-754 bit patterns.
    Float64(Vec<u64>),
    Int32(Vec<i32>),
    Int64(Vec<i64>),
    Utf8(Vec<String>),
    /// One child array per field; all children are assumed to have equal
    /// length (a precondition of the operations, not checked here).
    Struct(Vec<Array>),
}

/// Mathematical model of an [`Array`].
#[verifier::ext_equal]
pub enum ArrayV {
    BroadcastVariable(ValueV),
    Boolean(Seq<bool>),
    Float32(Seq<u32>),
    Float64(Seq<u64>),
    Int32(Seq<i32>),
    Int64(Seq<i64>),
    Utf8(Seq<Seq<char>>),
    Struct(Seq<ArrayV>),
}

/// Models of a sequence of [`String`]s.
pub open spec fn string_views(s: Seq<String>) -> Seq<Seq<char>> {
    s.map_values(|x: String| x@)
}

/// Model of an [`Array`].
pub open spec fn array_view(a: Array) -> ArrayV
    decreases a,
{
    match a {
        Array::BroadcastVariable(v) => ArrayV::BroadcastVariable(value_view(v)),
        Array::Boolean(v) => ArrayV::Boolean(v@),
        Array::Float32(v) => ArrayV::Float32(v@),
        Array::Float64(v) => ArrayV::Float64(v@),
        Array::Int32(v) => ArrayV::Int32(v@),
        Array::Int64(v) => ArrayV::Int64(v@),
        Array::Utf8(v) => ArrayV::Utf8(string_views(v@)),
        Array::Struct(children) => ArrayV::Struct(array_views(children@)),
    }
}

/// Models of a sequence of [`Array`]s.
pub open spec fn array_views(s: Seq<Array>) -> Seq<ArrayV>
    decreases s,
{
    if s.len() == 0 {
        Seq::empty()
    } else {
        array_views(s.drop_last()).push(array_view(s.last()))
    }
}

/// Pointwise characterization of [`array_views`].
pub broadcast proof fn lemma_array_views(s: Seq<Array>)
    ensures
        (#[trigger] array_views(s)).len() == s.len(),
        forall|i: int| 0 <= i < s.len() ==> array_views(s)[i] == array_view(s[i]),
    decreases s.len(),
{
    if s.len() > 0 {
        lemma_array_views(s.drop_last());
    }
}

impl View for Array {
    type V = ArrayV;

    open spec fn view(&self) -> ArrayV {
        array_view(*self)
    }
}

impl ArrayV {
    /// Whether [`Array::len`] is defined: every struct level has at least one
    /// child, whose own length must in turn be defined.
    pub open spec fn len_defined(self) -> bool
        decreases self,
    {
        match self {
            ArrayV::Struct(children) => children.len() > 0 && children[0].len_defined(),
            _ => true,
        }
    }

    /// The element count of the array: 1 for a broadcast value, the length
    /// of the backing sequence otherwise; a struct delegates to its first
    /// child.
    pub open spec fn spec_len(self) -> nat
        decreases self,
    {
        match self {
            ArrayV::BroadcastVariable(_) => 1,
            ArrayV::Boolean(v) => v.len(),
            ArrayV::Float32(v) => v.len(),
            ArrayV::Float64(v) => v.len(),
            ArrayV::Int32(v) => v.len(),
            ArrayV::Int64(v) => v.len(),
            ArrayV::Utf8(v) => v.len(),
            ArrayV::Struct(children) => if children.len() > 0 {
                children[0].spec_len()
            } else {
                0
            },
        }
    }

    /// Whether reading row `index` is defined: in bounds for every typed
    /// sequence, any index for a broadcast, and defined for every child of a
    /// struct.
    pub open spec fn get_defined(self, index: int) -> bool
        decreases self,
    {
        match self {
            ArrayV::BroadcastVariable(_) => true,
            ArrayV::Boolean(v) => 0 <= index < v.len(),
            ArrayV::Float32(v) => 0 <= index < v.len(),
            ArrayV::Float64(v) => 0 <= index < v.len(),
            ArrayV::Int32(v) => 0 <= index < v.len(),
            ArrayV::Int64(v) => 0 <= index < v.len(),
            ArrayV::Utf8(v) => 0 <= index < v.len(),
            ArrayV::Struct(children) => structs_get_defined(children, index),
        }
    }

    /// The scalar at row `index`: the held constant for a broadcast, the
    /// backing element otherwise, and for a struct the record of every
    /// child's scalar at that row.
    pub open spec fn spec_get(self, index: int) -> ValueV
        decreases self,
    {
        match self {
            ArrayV::BroadcastVariable(v) => v,
            ArrayV::Boolean(v) => ValueV::Boolean(v[index]),
            ArrayV::Float32(v) => ValueV::Float32(v[index]),
            ArrayV::Float64(v) => ValueV::Float64(v[index]),
            ArrayV::Int32(v) => ValueV::Int32(v[index]),
            ArrayV::Int64(v) => ValueV::Int64(v[index]),
            ArrayV::Utf8(v) => ValueV::Utf8(v[index]),
            ArrayV::Struct(children) => ValueV::Struct(structs_get(children, index)),
        }
    }
}

/// Whether reading row `index` is defined for every array in a sequence.
pub open spec fn structs_get_defined(children: Seq<ArrayV>, index: int) -> bool
    decreases children,
{
    if children.len() == 0 {
        true
    } else {
        structs_get_defined(children.drop_last(), index) && children.last().get_defined(index)
    }
}

/// Pointwise characterization of [`structs_get_defined`].
pub broadcast proof fn lemma_structs_get_defined(children: Seq<ArrayV>, index: int)
    ensures
        #[trigger] structs_get_defined(children, index) <==> (forall|i: int|
            0 <= i < children.len() ==> (#[trigger] children[i]).get_defined(index)),
    decreases children.len(),
{
    if children.len() > 0 {
        lemma_structs_get_defined(children.drop_last(), index);
        if structs_get_defined(children, index) {
            assert forall|i: int| 0 <= i < children.len() implies (#[trigger] children[i]).get_defined(
                index,
            ) by {
                if i < children.len() - 1 {
                    assert(children.drop_last()[i] == children[i]);
                }
            }
        }
        if forall|i: int| 0 <= i < children.len() ==> (#[trigger] children[i]).get_defined(index) {
            assert forall|i: int|
                0 <= i < children.drop_last().len() implies (#[trigger] children.drop_last()[i]).get_defined(
                index,
            ) by {
                assert(children.drop_last()[i] == children[i]);
            }
        }
    }
}

/// The scalars at row `index` of each array in a sequence.
pub open spec fn structs_get(children: Seq<ArrayV>, index: int) -> Seq<ValueV>
    decreases children,
{
    if children.len() == 0 {
        Seq::empty()
    } else {
        structs_get(children.drop_last(), index).push(children.last().spec_get(index))
    }
}

/// Pointwise characterization of [`structs_get`].
pub broadcast proof fn lemma_structs_get(children: Seq<ArrayV>, index: int)
    ensures
        (#[trigger] structs_get(children, index)).len() == children.len(),
        forall|i: int|
            0 <= i < children.len() ==> structs_get(children, index)[i] == children[i].spec_get(
                index,
            ),
    decreases children.len(),
{
    if children.len() > 0 {
        lemma_structs_get(children.drop_last(), index);
    }
}

impl Array {
    /// The element count of the array, as [`ArrayV::spec_len`].
    pub fn len(&self) -> (r: usize)
        requires
            self@.len_defined(),
        ensures
            r == self@.spec_len(),
        decreases *self,
    {
        match self {
            Array::BroadcastVariable(_) => 1,
            Array::Boolean(v) => v.len(),
            Array::Float32(v) => v.len(),
            Array::Float64(v) => v.len(),
            Array::Int32(v) => v.len(),
            Array::Int64(v) => v.len(),
            Array::Utf8(v) => v.len(),
            Array::Struct(v) => {
                proof {
                    lemma_array_views(v@);
                }
                v[0].len()
            },
        }
    }

    /// The scalar at row `index`, as [`ArrayV::spec_get`].
    pub fn get_value(&self, index: usize) -> (r: Value)
        requires
            self@.get_defined(index as int),
        ensures
            r@ == self@.spec_get(index as int),
        decreases *self,
    {
        match self {
            Array::BroadcastVariable(v) => clone_value(v),
            Array::Boolean(v) => Value::Boolean(v[index]),
            Array::Float32(v) => Value::Float32(v[index]),
            Array::Float64(v) => Value::Float64(v[index]),
            Array::Int32(v) => Value::Int32(v[index]),
            Array::Int64(v) => Value::Int64(v[index]),
            Array::Utf8(v) => Value::Utf8(clone_string(&v[index])),
            Array::Struct(v) => {
                proof {
                    lemma_array_views(v@);
                }
                let mut fields: Vec<Value> = Vec::new();
                let n = v.len();
                let mut j: usize = 0;
                while j < n
                    invariant
                        n == v.len(),
                        j <= n,
                        self == Array::Struct(*v),
                        self@.get_defined(index as int),
                        fields@.len() == j,
                        forall|k: int|
                            0 <= k < j ==> value_view(#[trigger] fields@[k]) == array_views(
                                v@,
                            )[k].spec_get(index as int),
                    decreases n - j,
                {
                    proof {
                        lemma_array_views(v@);
                        assert(self@ == ArrayV::Struct(array_views(v@)));
                        lemma_structs_get_defined(array_views(v@), index as int);
                        assert(array_views(v@)[j as int].get_defined(index as int));
                        assert(array_views(v@)[j as int] == array_view(v@[j as int]));
                        assert(decreases_to!(*self => self->Struct_0));
                        assert(self->Struct_0 == *v);
                        assert(decreases_to!(*v => v@));
                        assert(decreases_to!(v@ => v@[j as int]));
                    }
                    let child = v[j].get_value(index);
                    fields.push(child);
                    j += 1;
                }
                let r = Value::Struct(fields);
                proof {
                    lemma_array_views(v@);
                    lemma_value_views(fields@);
                    lemma_structs_get(array_views(v@), index as int);
                    assert(value_views(fields@) =~= structs_get(array_views(v@), index as int));
                }
                r
            },
        }
    }
}

/// Copy of a string with the same characters.
pub fn clone_string(s: &String) -> (r: String)
    ensures
        r@ == s@,
{
    s.clone()
}

/// Structural copy of a scalar value.
pub fn clone_value(v: &Value) -> (r: Value)
    ensures
        r@ == v@,
    decreases *v,
{
    match v {
        Value::Boolean(b) => Value::Boolean(*b),
        Value::Float32(x) => Value::Float32(*x),
        Value::Float64(x) => Value::Float64(*x),
        Value::Int32(x) => Value::Int32(*x),
        Value::Int64(x) => Value::Int64(*x),
        Value::Utf8(s) => Value::Utf8(clone_string(s)),
        Value::Struct(children) => {
            proof {
                lemma_value_views(children@);
            }
            let mut out: Vec<Value> = Vec::new();
            let n = children.len();
            let mut j: usize = 0;
            while j < n
                invariant
                    n == children.len(),
                    j <= n,
                    v == Value::Struct(*children),
                    out@.len() == j,
                    forall|k: int|
                        0 <= k < j ==> value_view(#[trigger] out@[k]) == value_views(children@)[k],
                decreases n - j,
            {
                proof {
                    lemma_value_views(children@);
                    assert(decreases_to!(*v => v->Struct_0));
                    assert(v->Struct_0 == *children);
                    assert(decreases_to!(*children => children@));
                    assert(decreases_to!(children@ => children@[j as int]));
                }
                let c = clone_value(&children[j]);
                out.push(c);
                j += 1;
            }
            let r = Value::Struct(out);
            proof {
                lemma_value_views(children@);
                lemma_value_views(out@);
                assert(value_views(out@) =~= value_views(children@));
            }
            r
        },
    }
}

/// Rendered text of a data type: the variant name, and for a nested record
/// the bracketed, comma-joined renderings of its fields.  Stable enough for
/// logging and tests, not a guaranteed serialization format.
pub open spec fn dt_text(dt: DataTypeV) -> Seq<char>
    decreases dt,
{
    match dt {
        DataTypeV::Boolean => "Boolean"@,
        DataTypeV::Float32 => "Float32"@,
        DataTypeV::Float64 => "Float64"@,
        DataTypeV::Int32 => "Int32"@,
        DataTypeV::Int64 => "Int64"@,
        DataTypeV::Utf8 => "Utf8"@,
        DataTypeV::Struct(fields) => "Struct(["@ + fields_text(fields) + "])"@,
    }
}

/// Rendered text of a field: its name, a separator, then its type.
pub open spec fn field_text(f: FieldV) -> Seq<char>
    decreases f,
{
    f.name + ": "@ + dt_text(f.data_type)
}

/// Comma-joined renderings of a sequence of fields.
pub open spec fn fields_text(fields: Seq<FieldV>) -> Seq<char>
    decreases fields,
{
    if fields.len() == 0 {
        Seq::empty()
    } else if fields.len() == 1 {
        field_text(fields[0])
    } else {
        fields_text(fields.drop_last()) + ","@ + field_text(fields.last())
    }
}

/// Append the rendering of a data type to `out`.
fn dt_append(dt: &DataType, out: &mut String)
    ensures
        final(out)@ == old(out)@ + dt_text(dt@),
    decreases *dt,
{
    match dt {
        DataType::Boolean => out.append("Boolean"),
        DataType::Float32 => out.append("Float32"),
        DataType::Float64 => out.append("Float64"),
        DataType::Int32 => out.append("Int32"),
        DataType::Int64 => out.append("Int64"),
        DataType::Utf8 => out.append("Utf8"),
        DataType::Struct(fields) => {
            out.append("Struct([");
            fields_append(fields, out);
            out.append("])");
            proof {
                assert(out@ =~= old(out)@ + dt_text(dt@));
            }
        },
    }
}

/// Append the comma-joined renderings of `fields` to `out`.
fn fields_append(fields: &Vec<Field>, out: &mut String)
    ensures
        final(out)@ == old(out)@ + fields_text(field_views(fields@)),
    decreases *fields,
{
    let ghost fvs = field_views(fields@);
    proof {
        lemma_field_views(fields@);
    }
    let n = fields.len();
    let mut j: usize = 0;
    while j < n
        invariant
            n == fields.len(),
            j <= n,
            fvs == field_views(fields@),
            fvs.len() == n,
            forall|i: int|
                0 <= i < n ==> fvs[i] == (FieldV {
                    name: fields@[i].name@,
                    data_type: dt_view(fields@[i].data_type),
                    nullable: fields@[i].nullable,
                }),
            out@ == old(out)@ + fields_text(fvs.take(j as int)),
        decreases n - j,
    {
        if j > 0 {
            out.append(",");
        }
        out.append(fields[j].name.as_str());
        out.append(": ");
        proof {
            assert(decreases_to!(*fields => fields@));
            assert(decreases_to!(fields@ => fields@[j as int]));
        }
        dt_append(&fields[j].data_type, out);
        proof {
            let t1 = fvs.take(j as int);
            let t2 = fvs.take(j + 1 as int);
            assert(t2.drop_last() =~= t1);
            assert(t2.last() == fvs[j as int]);
            if j == 0 {
                assert(fields_text(t2) == field_text(fvs[0]));
            } else {
                assert(fields_text(t2) == fields_text(t1) + ","@ + field_text(fvs[j as int]));
            }
            assert(out@ =~= old(out)@ + fields_text(fvs.take(j + 1 as int)));
        }
        j += 1;
    }
    proof {
        assert(fvs.take(n as int) =~= fvs);
    }
}

/// First index in `s` whose field is named `name`, if any.
pub open spec fn column_index(s: Seq<FieldV>, name: Seq<char>) -> Option<int>
    decreases s.len(),
{
    if s.len() == 0 {
        None
    } else if s[0].name == name {
        Some(0int)
    } else {
        match column_index(s.drop_first(), name) {
            None => None,
            Some(i) => Some(i + 1),
        }
    }
}

/// [`column_index`] returns the first match.
proof fn lemma_column_index_found(s: Seq<FieldV>, name: Seq<char>, i: int)
    requires
        0 <= i < s.len(),
        s[i].name == name,
        forall|k: int| 0 <= k < i ==> (#[trigger] s[k]).name != name,
    ensures
        column_index(s, name) == Some(i),
    decreases i,
{
    if i > 0 {
        assert(s[0].name != name);
        assert(s.drop_first()[i - 1] == s[i]);
        assert forall|k: int| 0 <= k < i - 1 implies (#[trigger] s.drop_first()[k]).name != name by {
            assert(s.drop_first()[k] == s[k + 1]);
        }
        lemma_column_index_found(s.drop_first(), name, i - 1);
    }
}

/// [`column_index`] finds nothing when no field is named `name`.
proof fn lemma_column_index_none(s: Seq<FieldV>, name: Seq<char>)
    requires
        forall|k: int| 0 <= k < s.len() ==> (#[trigger] s[k]).name != name,
    ensures
        column_index(s, name) is None,
    decreases s.len(),
{
    if s.len() > 0 {
        assert forall|k: int|
            0 <= k < s.drop_first().len() implies (#[trigger] s.drop_first()[k]).name != name by {
            assert(s.drop_first()[k] == s[k + 1]);
        }
        lemma_column_index_none(s.drop_first(), name);
    }
}

impl Field {
    /// A field with the given name, type and nullability.
    pub fn new(name: &str, data_type: DataType, nullable: bool) -> (r: Self)
        ensures
            r@ == (FieldV { name: name@, data_type: data_type@, nullable }),
    {
        Field { name: name.to_owned(), data_type, nullable }
    }

    /// The field rendered as text, as [`field_text`].
    pub fn to_string(&self) -> (r: String)
        ensures
            r@ == field_text(self@),
    {
        let mut out = String::new();
        out.append(self.name.as_str());
        out.append(": ");
        dt_append(&self.data_type, &mut out);
        proof {
            assert(out@ =~= field_text(self@));
        }
        out
    }
}

impl Schema {
    /// A schema with no columns.
    pub fn empty() -> (r: Self)
        ensures
            r@ == Seq::<FieldV>::empty(),
    {
        Schema { columns: Vec::new() }
    }

    /// A schema over the given columns.
    pub fn new(columns: Vec<Field>) -> (r: Self)
        ensures
            r@ == field_views(columns@),
    {
        Schema { columns }
    }

    /// Look up a column by name; the first field with that name is returned
    /// together with its index.  Names need not be unique: lookup returns
    /// the first match.
    pub fn column(&self, name: &str) -> (r: Option<(usize, &Field)>)
        ensures
            match r {
                Some((i, f)) => column_index(self@, name@) == Some(i as int) && i < self@.len()
                    && f@ == self@[i as int],
                None => column_index(self@, name@) is None,
            },
    {
        proof {
            lemma_field_views(self.columns@);
        }
        let n = self.columns.len();
        let mut i: usize = 0;
        while i < n
            invariant
                n == self.columns.len(),
                i <= n,
                self@.len() == n,
                forall|k: int|
                    0 <= k < n ==> (#[trigger] self@[k]) == (FieldV {
                        name: self.columns@[k].name@,
                        data_type: dt_view(self.columns@[k].data_type),
                        nullable: self.columns@[k].nullable,
                    }),
                forall|k: int| 0 <= k < i ==> (#[trigger] self@[k]).name != name@,
            decreases n - i,
        {
            if str_eq(self.columns[i].name.as_str(), name) {
                proof {
                    lemma_column_index_found(self@, name@, i as int);
                }
                return Some((i, &self.columns[i]));
            }
            i += 1;
        }
        proof {
            lemma_column_index_none(self@, name@);
        }
        None
    }

    /// The schema rendered as text: its fields' renderings joined with
    /// commas, as [`fields_text`].
    pub fn to_string(&self) -> (r: String)
        ensures
            r@ == fields_text(self@),
    {
        let mut out = String::new();
        fields_append(&self.columns, &mut out);
        proof {
            assert(out@ =~= fields_text(self@));
        }
        out
    }
}

/// An elementwise comparison operator.
#[derive(Clone, Copy)]
pub enum CmpOp {
    Eq,
    NotEq,
    Lt,
    LtEq,
    Gt,
    GtEq,
}

/// Comparison of two 32-bit integers under `op`.
pub open spec fn cmp_i32(op: CmpOp, a: i32, b: i32) -> bool {
    match op {
        CmpOp::Eq => a == b,
        CmpOp::NotEq => a != b,
        CmpOp::Lt => a < b,
        CmpOp::LtEq => a <= b,
        CmpOp::Gt => a > b,
        CmpOp::GtEq => a >= b,
    }
}

/// Comparison of two 64-bit integers under `op`.
pub open spec fn cmp_i64(op: CmpOp, a: i64, b: i64) -> bool {
    match op {
        CmpOp::Eq => a == b,
        CmpOp::NotEq => a != b,
        CmpOp::Lt => a < b,
        CmpOp::LtEq => a <= b,
        CmpOp::Gt => a > b,
        CmpOp::GtEq => a >= b,
    }
}

/// IEEE comparison of two 32-bit float bit patterns under `op`: any
/// comparison with NaN is false, except inequality, which is true.
pub open spec fn cmp_f32(op: CmpOp, a: u32, b: u32) -> bool {
    match op {
        CmpOp::Eq => f32_eq(a, b),
        CmpOp::NotEq => !f32_eq(a, b),
        CmpOp::Lt => f32_lt(a, b),
        CmpOp::LtEq => f32_le(a, b),
        CmpOp::Gt => f32_lt(b, a),
        CmpOp::GtEq => f32_le(b, a),
    }
}

/// IEEE comparison of two 64-bit float bit patterns under `op`.
pub open spec fn cmp_f64(op: CmpOp, a: u64, b: u64) -> bool {
    match op {
        CmpOp::Eq => f64_eq(a, b),
        CmpOp::NotEq => !f64_eq(a, b),
        CmpOp::Lt => f64_lt(a, b),
        CmpOp::LtEq => f64_le(a, b),
        CmpOp::Gt => f64_lt(b, a),
        CmpOp::GtEq => f64_le(b, a),
    }
}

/// Lexicographic comparison of two character sequences under `op`.
pub open spec fn cmp_str(op: CmpOp, a: Seq<char>, b: Seq<char>) -> bool {
    match op {
        CmpOp::Eq => a == b,
        CmpOp::NotEq => a != b,
        CmpOp::Lt => chars_lt(a, b),
        CmpOp::LtEq => chars_le(a, b),
        CmpOp::Gt => chars_lt(b, a),
        CmpOp::GtEq => chars_le(b, a),
    }
}

/// The call shapes the elementwise comparisons accept: column against a
/// broadcast constant of the matching scalar kind, or column against column
/// of the same kind.  Every other combination is a fatal type mismatch.
pub open spec fn cmp_supported(l: ArrayV, r: ArrayV) -> bool {
    match (l, r) {
        (ArrayV::Float32(_), ArrayV::BroadcastVariable(ValueV::Float32(_))) => true,
        (ArrayV::Float64(_), ArrayV::BroadcastVariable(ValueV::Float64(_))) => true,
        (ArrayV::Int32(_), ArrayV::BroadcastVariable(ValueV::Int32(_))) => true,
        (ArrayV::Int64(_), ArrayV::BroadcastVariable(ValueV::Int64(_))) => true,
        (ArrayV::Utf8(_), ArrayV::BroadcastVariable(ValueV::Utf8(_))) => true,
        (ArrayV::Float32(_), ArrayV::Float32(_)) => true,
        (ArrayV::Float64(_), ArrayV::Float64(_)) => true,
        (ArrayV::Int32(_), ArrayV::Int32(_)) => true,
        (ArrayV::Int64(_), ArrayV::Int64(_)) => true,
        (ArrayV::Utf8(_), ArrayV::Utf8(_)) => true,
        _ => false,
    }
}

/// The elementwise comparison of two arrays under `op`: against a broadcast
/// constant every cell meets the constant; column against column is zipped
/// pairwise, the longer side silently truncated.
pub open spec fn spec_compare(op: CmpOp, l: ArrayV, r: ArrayV) -> Seq<bool> {
    match (l, r) {
        (ArrayV::Float32(a), ArrayV::BroadcastVariable(ValueV::Float32(x))) => Seq::new(
            a.len(),
            |i: int| cmp_f32(op, a[i], x),
        ),
        (ArrayV::Float64(a), ArrayV::BroadcastVariable(ValueV::Float64(x))) => Seq::new(
            a.len(),
            |i: int| cmp_f64(op, a[i], x),
        ),
        (ArrayV::Int32(a), ArrayV::BroadcastVariable(ValueV::Int32(x))) => Seq::new(
            a.len(),
            |i: int| cmp_i32(op, a[i], x),
        ),
        (ArrayV::Int64(a), ArrayV::BroadcastVariable(ValueV::Int64(x))) => Seq::new(
            a.len(),
            |i: int| cmp_i64(op, a[i], x),
        ),
        (ArrayV::Utf8(a), ArrayV::BroadcastVariable(ValueV::Utf8(x))) => Seq::new(
            a.len(),
            |i: int| cmp_str(op, a[i], x),
        ),
        (ArrayV::Float32(a), ArrayV::Float32(b)) => Seq::new(
            vstd::math::min(a.len() as int, b.len() as int) as nat,
            |i: int| cmp_f32(op, a[i], b[i]),
        ),
        (ArrayV::Float64(a), ArrayV::Float64(b)) => Seq::new(
            vstd::math::min(a.len() as int, b.len() as int) as nat,
            |i: int| cmp_f64(op, a[i], b[i]),
        ),
        (ArrayV::Int32(a), ArrayV::Int32(b)) => Seq::new(
            vstd::math::min(a.len() as int, b.len() as int) as nat,
            |i: int| cmp_i32(op, a[i], b[i]),
        ),
        (ArrayV::Int64(a), ArrayV::Int64(b)) => Seq::new(
            vstd::math::min(a.len() as int, b.len() as int) as nat,
            |i: int| cmp_i64(op, a[i], b[i]),
        ),
        (ArrayV::Utf8(a), ArrayV::Utf8(b)) => Seq::new(
            vstd::math::min(a.len() as int, b.len() as int) as nat,
            |i: int| cmp_str(op, a[i], b[i]),
        ),
        _ => Seq::empty(),
    }
}

/// Runtime comparison of two 32-bit integers under `op`.
fn cmp_i32_exec(op: CmpOp, a: i32, b: i32) -> (r: bool)
    ensures
        r == cmp_i32(op, a, b),
{
    match op {
        CmpOp::Eq => a == b,
        CmpOp::NotEq => a != b,
        CmpOp::Lt => a < b,
        CmpOp::LtEq => a <= b,
        CmpOp::Gt => a > b,
        CmpOp::GtEq => a >= b,
    }
}

/// Runtime comparison of two 64-bit integers under `op`.
fn cmp_i64_exec(op: CmpOp, a: i64, b: i64) -> (r: bool)
    ensures
        r == cmp_i64(op, a, b),
{
    match op {
        CmpOp::Eq => a == b,
        CmpOp::NotEq => a != b,
        CmpOp::Lt => a < b,
        CmpOp::LtEq => a <= b,
        CmpOp::Gt => a > b,
        CmpOp::GtEq => a >= b,
    }
}

/// Runtime IEEE comparison of two 32-bit float bit patterns under `op`.
fn cmp_f32_exec(op: CmpOp, a: u32, b: u32) -> (r: bool)
    ensures
        r == cmp_f32(op, a, b),
{
    match op {
        CmpOp::Eq => f32_bits_eq(a, b),
        CmpOp::NotEq => !f32_bits_eq(a, b),
        CmpOp::Lt => f32_bits_lt(a, b),
        CmpOp::LtEq => f32_bits_le(a, b),
        CmpOp::Gt => f32_bits_lt(b, a),
        CmpOp::GtEq => f32_bits_le(b, a),
    }
}

/// Runtime IEEE comparison of two 64-bit float bit patterns under `op`.
fn cmp_f64_exec(op: CmpOp, a: u64, b: u64) -> (r: bool)
    ensures
        r == cmp_f64(op, a, b),
{
    match op {
        CmpOp::Eq => f64_bits_eq(a, b),
        CmpOp::NotEq => !f64_bits_eq(a, b),
        CmpOp::Lt => f64_bits_lt(a, b),
        CmpOp::LtEq => f64_bits_le(a, b),
        CmpOp::Gt => f64_bits_lt(b, a),
        CmpOp::GtEq => f64_bits_le(b, a),
    }
}

/// Runtime lexicographic comparison of two strings under `op`.
fn cmp_str_exec(op: CmpOp, a: &String, b: &String) -> (r: bool)
    ensures
        r == cmp_str(op, a@, b@),
{
    match op {
        CmpOp::Eq => str_eq(a.as_str(), b.as_str()),
        CmpOp::NotEq => !str_eq(a.as_str(), b.as_str()),
        CmpOp::Lt => str_lt(a.as_str(), b.as_str()),
        CmpOp::LtEq => str_le(a.as_str(), b.as_str()),
        CmpOp::Gt => str_lt(b.as_str(), a.as_str()),
        CmpOp::GtEq => str_le(b.as_str(), a.as_str()),
    }
}

/// Views of a sequence of batches: each batch as the sequence of its column
/// models.
pub open spec fn batch_views(s: Seq<RecordBatch>) -> Seq<Seq<ArrayV>> {
    s.map_values(|b: RecordBatch| b@)
}

/// The row count of a batch given its column models: the length of the first
/// column, or zero when there are no columns.
pub open spec fn batch_rows(cols: Seq<ArrayV>) -> nat {
    if cols.len() == 0 {
        0
    } else {
        cols[0].spec_len()
    }
}

/// A fixed group of rows: one array per column, sharing a schema.  Produced
/// fresh per pull cycle and logically immutable once returned.
pub struct RecordBatch {
    pub schema: Rc<Schema>,
    pub columns: Vec<Array>,
}

impl View for RecordBatch {
    type V = Seq<ArrayV>;

    open spec fn view(&self) -> Seq<ArrayV> {
        array_views(self.columns@)
    }
}

impl RecordBatch {
    /// A batch over the given columns.
    pub fn new(schema: Rc<Schema>, columns: Vec<Array>) -> (r: Self)
        ensures
            r == (RecordBatch { schema, columns }),
    {
        RecordBatch { schema, columns }
    }

    /// The number of rows: the length of the first column, or zero when the
    /// batch has no columns.
    pub fn num_rows(&self) -> (r: usize)
        requires
            self@.len() > 0 ==> self@[0].len_defined(),
        ensures
            r == batch_rows(self@),
    {
        proof {
            lemma_array_views(self.columns@);
        }
        if self.columns.is_empty() {
            0
        } else {
            self.columns[0].len()
        }
    }

    /// The number of columns.
    pub fn num_columns(&self) -> (r: usize)
        ensures
            r == self@.len(),
    {
        proof {
            lemma_array_views(self.columns@);
        }
        self.columns.len()
    }

    /// The column at `index`.
    pub fn column(&self, index: usize) -> (r: &Array)
        requires
            index < self@.len(),
        ensures
            r@ == self@[index as int],
    {
        proof {
            lemma_array_views(self.columns@);
        }
        &self.columns[index]
    }
}

/// Relies on `Rc::clone`: the returned handle refers to the same schema
/// value.
#[verifier::external_body]
pub fn schema_handle_clone(s: &Rc<Schema>) -> (r: Rc<Schema>)
    ensures
        *r == **s,
{
    Rc::clone(s)
}

/// The elements of `v` at the positions where `b` is true, in order, the
/// longer side truncated to the shorter (zip semantics).
pub open spec fn filter_zip<T>(v: Seq<T>, b: Seq<bool>) -> Seq<T>
    decreases v.len() + b.len(),
{
    if v.len() == 0 || b.len() == 0 {
        Seq::empty()
    } else {
        let n = vstd::math::min(v.len() as int, b.len() as int);
        filter_zip(v.take(n - 1), b.take(n - 1)) + (if b[n - 1] {
            seq![v[n - 1]]
        } else {
            Seq::empty()
        })
    }
}

/// Zip-filter a vector of copyable cells by a predicate vector.
fn filter_vec_copy<T: Copy>(v: &Vec<T>, b: &Vec<bool>) -> (r: Vec<T>)
    ensures
        r@ == filter_zip(v@, b@),
{
    let la = v.len();
    let lb = b.len();
    let n = if la < lb {
        la
    } else {
        lb
    };
    let mut out: Vec<T> = Vec::new();
    let mut i: usize = 0;
    while i < n
        invariant
            la == v@.len(),
            lb == b@.len(),
            n == vstd::math::min(la as int, lb as int),
            i <= n,
            out@ == filter_zip(v@.take(i as int), b@.take(i as int)),
        decreases n - i,
    {
        if b[i] {
            out.push(v[i]);
        }
        proof {
            let vt = v@.take(i + 1 as int);
            let bt = b@.take(i + 1 as int);
            assert(vt.take(i as int) =~= v@.take(i as int));
            assert(bt.take(i as int) =~= b@.take(i as int));
            if b@[i as int] {
                assert(out@ =~= filter_zip(vt, bt));
            } else {
                assert(out@ =~= filter_zip(vt, bt));
            }
        }
        i += 1;
    }
    proof {
        if n == la {
            assert(v@.take(n as int) =~= v@);
            if la < lb {
                lemma_filter_zip_truncate(v@, b@, n as int);
            } else {
                assert(b@.take(n as int) =~= b@);
            }
        } else {
            assert(b@.take(n as int) =~= b@);
            lemma_filter_zip_truncate_left(v@, b@, n as int);
        }
    }
    out
}

/// Zip-filter a vector of strings by a predicate vector.
fn filter_vec_strings(v: &Vec<String>, b: &Vec<bool>) -> (r: Vec<String>)
    ensures
        string_views(r@) == filter_zip(string_views(v@), b@),
{
    let la = v.len();
    let lb = b.len();
    let n = if la < lb {
        la
    } else {
        lb
    };
    let mut out: Vec<String> = Vec::new();
    let mut i: usize = 0;
    while i < n
        invariant
            la == v@.len(),
            lb == b@.len(),
            n == vstd::math::min(la as int, lb as int),
            i <= n,
            string_views(out@) == filter_zip(string_views(v@).take(i as int), b@.take(i as int)),
        decreases n - i,
    {
        if b[i] {
            out.push(clone_string(&v[i]));
        }
        proof {
            let vt = string_views(v@).take(i + 1 as int);
            let bt = b@.take(i + 1 as int);
            assert(vt.take(i as int) =~= string_views(v@).take(i as int));
            assert(bt.take(i as int) =~= b@.take(i as int));
            if b@[i as int] {
                assert(vt[i as int] == v@[i as int]@);
                assert(string_views(out@) =~= filter_zip(vt, bt));
            } else {
                assert(string_views(out@) =~= filter_zip(vt, bt));
            }
        }
        i += 1;
    }
    proof {
        if n == la {
            assert(string_views(v@).take(n as int) =~= string_views(v@));
            if la < lb {
                lemma_filter_zip_truncate(string_views(v@), b@, n as int);
            } else {
                assert(b@.take(n as int) =~= b@);
            }
        } else {
            assert(b@.take(n as int) =~= b@);
            lemma_filter_zip_truncate_left(string_views(v@), b@, n as int);
        }
    }
    out
}

/// Truncating the predicate at the data's length does not change the filter.
proof fn lemma_filter_zip_truncate<T>(v: Seq<T>, b: Seq<bool>, n: int)
    requires
        n == v.len(),
        n <= b.len(),
    ensures
        filter_zip(v, b.take(n)) == filter_zip(v, b),
    decreases b.len(),
{
    if b.len() > n {
        lemma_filter_zip_truncate(v, b.take(b.len() - 1), n);
        assert(b.take(b.len() - 1).take(n) =~= b.take(n));
        if v.len() > 0 {
            let m = vstd::math::min(v.len() as int, b.len() as int);
            assert(m == n);
            assert(b.take(b.len() - 1).len() >= n);
            let m2 = vstd::math::min(v.len() as int, b.len() - 1);
            assert(m2 == n);
            assert(v.take(m - 1) =~= v.take(m2 - 1));
            assert(b.take(m - 1) =~= b.take(b.len() - 1).take(m2 - 1));
        }
    } else {
        assert(b.take(n) =~= b);
    }
}

/// Truncating the data at the predicate's length does not change the filter.
proof fn lemma_filter_zip_truncate_left<T>(v: Seq<T>, b: Seq<bool>, n: int)
    requires
        n == b.len(),
        n <= v.len(),
    ensures
        filter_zip(v.take(n), b) == filter_zip(v, b),
    decreases v.len(),
{
    if v.len() > n {
        lemma_filter_zip_truncate_left(v.take(v.len() - 1), b, n);
        assert(v.take(v.len() - 1).take(n) =~= v.take(n));
        if b.len() > 0 {
            let m = vstd::math::min(v.len() as int, b.len() as int);
            assert(m == n);
            let m2 = vstd::math::min(v.len() - 1, b.len() as int);
            assert(m2 == n);
            assert(b.take(m - 1) =~= b.take(m2 - 1));
            assert(v.take(m - 1) =~= v.take(v.len() - 1).take(m2 - 1));
        }
    } else {
        assert(v.take(n) =~= v);
    }
}

/// The variants [`Array::filter`] supports: a typed column filtered by a
/// boolean column.  Broadcast and struct arrays cannot be filtered.
pub open spec fn filter_supported(a: ArrayV, pred: ArrayV) -> bool {
    &&& pred is Boolean
    &&& match a {
        ArrayV::Boolean(_) => true,
        ArrayV::Float32(_) => true,
        ArrayV::Float64(_) => true,
        ArrayV::Int32(_) => true,
        ArrayV::Int64(_) => true,
        ArrayV::Utf8(_) => true,
        _ => false,
    }
}

/// The filtered array: the same variant, keeping the cells whose predicate
/// entry is true, in order.
pub open spec fn spec_filter(a: ArrayV, pred: ArrayV) -> ArrayV {
    let b = pred->Boolean_0;
    match a {
        ArrayV::Boolean(v) => ArrayV::Boolean(filter_zip(v, b)),
        ArrayV::Float32(v) => ArrayV::Float32(filter_zip(v, b)),
        ArrayV::Float64(v) => ArrayV::Float64(filter_zip(v, b)),
        ArrayV::Int32(v) => ArrayV::Int32(filter_zip(v, b)),
        ArrayV::Int64(v) => ArrayV::Int64(filter_zip(v, b)),
        ArrayV::Utf8(v) => ArrayV::Utf8(filter_zip(v, b)),
        _ => a,
    }
}
/// The elementwise comparison core shared by the six comparison methods,
/// as [`spec_compare`].
fn compare_arrays(op: CmpOp, left: &Array, other: &Array) -> (r: Vec<bool>)
    requires
        cmp_supported(left@, other@),
    ensures
        r@ == spec_compare(op, left@, other@),
{
    match (left, other) {
            (Array::Float32(a), Array::BroadcastVariable(Value::Float32(x))) => {
                let n = a.len();
                let mut out: Vec<bool> = Vec::new();
                let mut i: usize = 0;
                while i < n
                    invariant
                        n == a@.len(),
                        i <= n,
                        out@.len() == i,
                        forall|q: int| 0 <= q < i ==> out@[q] == cmp_f32(op, a@[q], *x),
                    decreases n - i,
                {
                    out.push(cmp_f32_exec(op, a[i], *x));
                    i += 1;
                }
                proof {
                    assert(out@ =~= spec_compare(op, left@, other@));
                }
                out
            },
            (Array::Float64(a), Array::BroadcastVariable(Value::Float64(x))) => {
                let n = a.len();
                let mut out: Vec<bool> = Vec::new();
                let mut i: usize = 0;
                while i < n
                    invariant
                        n == a@.len(),
                        i <= n,
                        out@.len() == i,
                        forall|q: int| 0 <= q < i ==> out@[q] == cmp_f64(op, a@[q], *x),
                    decreases n - i,
                {
                    out.push(cmp_f64_exec(op, a[i], *x));
                    i += 1;
                }
                proof {
                    assert(out@ =~= spec_compare(op, left@, other@));
                }
                out
            },
            (Array::Int32(a), Array::BroadcastVariable(Value::Int32(x))) => {
                let n = a.len();
                let mut out: Vec<bool> = Vec::new();
                let mut i: usize = 0;
                while i < n
                    invariant
                        n == a@.len(),
                        i <= n,
                        out@.len() == i,
                        forall|q: int| 0 <= q < i ==> out@[q] == cmp_i32(op, a@[q], *x),
                    decreases n - i,
                {
                    out.push(cmp_i32_exec(op, a[i], *x));
                    i += 1;
                }
                proof {
                    assert(out@ =~= spec_compare(op, left@, other@));
                }
                out
            },
            (Array::Int64(a), Array::BroadcastVariable(Value::Int64(x))) => {
                let n = a.len();
                let mut out: Vec<bool> = Vec::new();
                let mut i: usize = 0;
                while i < n
                    invariant
                        n == a@.len(),
                        i <= n,
                        out@.len() == i,
                        forall|q: int| 0 <= q < i ==> out@[q] == cmp_i64(op, a@[q], *x),
                    decreases n - i,
                {
                    out.push(cmp_i64_exec(op, a[i], *x));
                    i += 1;
                }
                proof {
                    assert(out@ =~= spec_compare(op, left@, other@));
                }
                out
            },
            (Array::Utf8(a), Array::BroadcastVariable(Value::Utf8(x))) => {
                let n = a.len();
                let mut out: Vec<bool> = Vec::new();
                let mut i: usize = 0;
                while i < n
                    invariant
                        n == a@.len(),
                        i <= n,
                        out@.len() == i,
                        forall|q: int| 0 <= q < i ==> out@[q] == cmp_str(op, a@[q]@, (*x)@),
                    decreases n - i,
                {
                    out.push(cmp_str_exec(op, &a[i], x));
                    i += 1;
                }
                proof {
                    assert(out@ =~= spec_compare(op, left@, other@));
                }
                out
            },
            (Array::Float32(a), Array::Float32(b)) => {
                let la = a.len();
                let lb = b.len();
                let n = if la < lb {
                    la
                } else {
                    lb
                };
                let mut out: Vec<bool> = Vec::new();
                let mut i: usize = 0;
                while i < n
                    invariant
                        la == a@.len(),
                        lb == b@.len(),
                        n == vstd::math::min(la as int, lb as int),
                        i <= n,
                        out@.len() == i,
                        forall|q: int| 0 <= q < i ==> out@[q] == cmp_f32(op, a@[q], b@[q]),
                    decreases n - i,
                {
                    out.push(cmp_f32_exec(op, a[i], b[i]));
                    i += 1;
                }
                proof {
                    assert(out@ =~= spec_compare(op, left@, other@));
                }
                out
            },
            (Array::Float64(a), Array::Float64(b)) => {
                let la = a.len();
                let lb = b.len();
                let n = if la < lb {
                    la
                } else {
                    lb
                };
                let mut out: Vec<bool> = Vec::new();
                let mut i: usize = 0;
                while i < n
                    invariant
                        la == a@.len(),
                        lb == b@.len(),
                        n == vstd::math::min(la as int, lb as int),
                        i <= n,
                        out@.len() == i,
                        forall|q: int| 0 <= q < i ==> out@[q] == cmp_f64(op, a@[q], b@[q]),
                    decreases n - i,
                {
                    out.push(cmp_f64_exec(op, a[i], b[i]));
                    i += 1;
                }
                proof {
                    assert(out@ =~= spec_compare(op, left@, other@));
                }
                out
            },
            (Array::Int32(a), Array::Int32(b)) => {
                let la = a.len();
                let lb = b.len();
                let n = if la < lb {
                    la
                } else {
                    lb
                };
                let mut out: Vec<bool> = Vec::new();
                let mut i: usize = 0;
                while i < n
                    invariant
                        la == a@.len(),
                        lb == b@.len(),
                        n == vstd::math::min(la as int, lb as int),
                        i <= n,
                        out@.len() == i,
                        forall|q: int| 0 <= q < i ==> out@[q] == cmp_i32(op, a@[q], b@[q]),
                    decreases n - i,
                {
                    out.push(cmp_i32_exec(op, a[i], b[i]));
                    i += 1;
                }
                proof {
                    assert(out@ =~= spec_compare(op, left@, other@));
                }
                out
            },
            (Array::Int64(a), Array::Int64(b)) => {
                let la = a.len();
                let lb = b.len();
                let n = if la < lb {
                    la
                } else {
                    lb
                };
                let mut out: Vec<bool> = Vec::new();
                let mut i: usize = 0;
                while i < n
                    invariant
                        la == a@.len(),
                        lb == b@.len(),
                        n == vstd::math::min(la as int, lb as int),
                        i <= n,
                        out@.len() == i,
                        forall|q: int| 0 <= q < i ==> out@[q] == cmp_i64(op, a@[q], b@[q]),
                    decreases n - i,
                {
                    out.push(cmp_i64_exec(op, a[i], b[i]));
                    i += 1;
                }
                proof {
                    assert(out@ =~= spec_compare(op, left@, other@));
                }
                out
            },
            (Array::Utf8(a), Array::Utf8(b)) => {
                let la = a.len();
                let lb = b.len();
                let n = if la < lb {
                    la
                } else {
                    lb
                };
                let mut out: Vec<bool> = Vec::new();
                let mut i: usize = 0;
                while i < n
                    invariant
                        la == a@.len(),
                        lb == b@.len(),
                        n == vstd::math::min(la as int, lb as int),
                        i <= n,
                        out@.len() == i,
                        forall|q: int| 0 <= q < i ==> out@[q] == cmp_str(op, a@[q]@, b@[q]@),
                    decreases n - i,
                {
                    out.push(cmp_str_exec(op, &a[i], &b[i]));
                    i += 1;
                }
                proof {
                    assert(out@ =~= spec_compare(op, left@, other@));
                }
                out
            },
            _ => {
                proof {
                    assert(false);  // excluded by the call-shape precondition
                }
                Vec::new()
            },
    }
}

impl Array {

    /// Elementwise equality against a same-kind column or broadcast constant,
    /// as [`spec_compare`].
    pub fn eq(&self, other: &Array) -> (r: Vec<bool>)
        requires
            cmp_supported(self@, other@),
        ensures
            r@ == spec_compare(CmpOp::Eq, self@, other@),
    {
        compare_arrays(CmpOp::Eq, self, other)
    }

    /// Elementwise inequality against a same-kind column or broadcast constant,
    /// as [`spec_compare`].
    pub fn not_eq(&self, other: &Array) -> (r: Vec<bool>)
        requires
            cmp_supported(self@, other@),
        ensures
            r@ == spec_compare(CmpOp::NotEq, self@, other@),
    {
        compare_arrays(CmpOp::NotEq, self, other)
    }

    /// Elementwise strict order against a same-kind column or broadcast constant,
    /// as [`spec_compare`].
    pub fn lt(&self, other: &Array) -> (r: Vec<bool>)
        requires
            cmp_supported(self@, other@),
        ensures
            r@ == spec_compare(CmpOp::Lt, self@, other@),
    {
        compare_arrays(CmpOp::Lt, self, other)
    }

    /// Elementwise reflexive order against a same-kind column or broadcast constant,
    /// as [`spec_compare`].
    pub fn lt_eq(&self, other: &Array) -> (r: Vec<bool>)
        requires
            cmp_supported(self@, other@),
        ensures
            r@ == spec_compare(CmpOp::LtEq, self@, other@),
    {
        compare_arrays(CmpOp::LtEq, self, other)
    }

    /// Elementwise reverse strict order against a same-kind column or broadcast constant,
    /// as [`spec_compare`].
    pub fn gt(&self, other: &Array) -> (r: Vec<bool>)
        requires
            cmp_supported(self@, other@),
        ensures
            r@ == spec_compare(CmpOp::Gt, self@, other@),
    {
        compare_arrays(CmpOp::Gt, self, other)
    }

    /// Elementwise reverse reflexive order against a same-kind column or broadcast constant,
    /// as [`spec_compare`].
    pub fn gt_eq(&self, other: &Array) -> (r: Vec<bool>)
        requires
            cmp_supported(self@, other@),
        ensures
            r@ == spec_compare(CmpOp::GtEq, self@, other@),
    {
        compare_arrays(CmpOp::GtEq, self, other)
    }

    /// Keep the cells whose entry in the boolean predicate array is true,
    /// preserving order and variant, as [`spec_filter`].
    pub fn filter(&self, bools: &Array) -> (r: Array)
        requires
            filter_supported(self@, bools@),
        ensures
            r@ == spec_filter(self@, bools@),
    {
        match bools {
            Array::Boolean(b) => match self {
                Array::Boolean(v) => Array::Boolean(filter_vec_copy(v, b)),
                Array::Float32(v) => Array::Float32(filter_vec_copy(v, b)),
                Array::Float64(v) => Array::Float64(filter_vec_copy(v, b)),
                Array::Int32(v) => Array::Int32(filter_vec_copy(v, b)),
                Array::Int64(v) => Array::Int64(filter_vec_copy(v, b)),
                Array::Utf8(v) => Array::Utf8(filter_vec_strings(v, b)),
                _ => {
                    proof {
                        assert(false);  // excluded by the precondition
                    }
                    Array::Boolean(Vec::new())
                },
            },
            _ => {
                proof {
                    assert(false);  // excluded by the precondition
                }
                Array::Boolean(Vec::new())
            },
        }
    }
}

/// IEEE ordering of two 64-bit float patterns: unordered when either is
/// NaN, else by the ordering key.
pub open spec fn f64_cmp(a: u64, b: u64) -> Option<Ordering> {
    if f64_is_nan(a) || f64_is_nan(b) {
        Option::None
    } else if f64_key(a) < f64_key(b) {
        Option::Some(Ordering::Less)
    } else if f64_key(a) == f64_key(b) {
        Option::Some(Ordering::Equal)
    } else {
        Option::Some(Ordering::Greater)
    }
}

/// The pairs [`Value::partial_cmp`] orders: the deliberately partial
/// coercion table.  A record on the left compares with anything (and is
/// unordered); everything outside the table is a fatal gap, not extended
/// silently.
pub open spec fn pc_wired(a: ValueV, b: ValueV) -> bool {
    match (a, b) {
        (ValueV::Float64(_), ValueV::Float64(_)) => true,
        (ValueV::Float64(_), ValueV::Int64(_)) => true,
        (ValueV::Int64(_), ValueV::Float64(_)) => true,
        (ValueV::Int64(_), ValueV::Int64(_)) => true,
        (ValueV::Utf8(_), ValueV::Utf8(_)) => true,
        (ValueV::Struct(_), _) => true,
        _ => false,
    }
}

/// The ordering of two scalars under the wired coercions: 64-bit floats
/// compare by IEEE rules, a 64-bit integer against a float is first promoted
/// to the nearest float, integers and strings compare by their own orders,
/// and a record is unordered against anything.
pub open spec fn spec_partial_cmp(a: ValueV, b: ValueV) -> Option<Ordering> {
    match (a, b) {
        (ValueV::Float64(l), ValueV::Float64(r)) => f64_cmp(l, r),
        (ValueV::Float64(l), ValueV::Int64(r)) => f64_cmp(l, i64_to_f64_bits(r)),
        (ValueV::Int64(l), ValueV::Float64(r)) => f64_cmp(i64_to_f64_bits(l), r),
        (ValueV::Int64(l), ValueV::Int64(r)) => Option::Some(
            if l < r {
                Ordering::Less
            } else if l == r {
                Ordering::Equal
            } else {
                Ordering::Greater
            },
        ),
        (ValueV::Utf8(l), ValueV::Utf8(r)) => Option::Some(
            if chars_lt(l, r) {
                Ordering::Less
            } else if l == r {
                Ordering::Equal
            } else {
                Ordering::Greater
            },
        ),
        (ValueV::Struct(_), _) => Option::None,
        _ => Option::None,
    }
}

/// Runtime IEEE ordering of two 64-bit float patterns, as [`f64_cmp`].
fn f64_bits_cmp(a: u64, b: u64) -> (r: Option<Ordering>)
    ensures
        r == f64_cmp(a, b),
{
    if f64_bits_is_nan(a) || f64_bits_is_nan(b) {
        Option::None
    } else if f64_bits_lt(a, b) {
        Option::Some(Ordering::Less)
    } else if f64_bits_eq(a, b) {
        Option::Some(Ordering::Equal)
    } else {
        Option::Some(Ordering::Greater)
    }
}

impl Value {
    /// Order two scalars under the wired coercions, as
    /// [`spec_partial_cmp`]; pairs outside the table are a deliberate gap of
    /// the coercion rules and are excluded rather than extended.
    pub fn partial_cmp(&self, other: &Value) -> (r: Option<Ordering>)
        requires
            pc_wired(self@, other@),
        ensures
            r == spec_partial_cmp(self@, other@),
    {
        match self {
            Value::Float64(l) => match other {
                Value::Float64(r) => f64_bits_cmp(*l, *r),
                Value::Int64(r) => f64_bits_cmp(*l, i64_to_f64(*r)),
                _ => {
                    proof {
                        assert(false);  // excluded by the coercion table
                    }
                    Option::None
                },
            },
            Value::Int64(l) => match other {
                Value::Float64(r) => f64_bits_cmp(i64_to_f64(*l), *r),
                Value::Int64(r) => Option::Some(
                    if *l < *r {
                        Ordering::Less
                    } else if *l == *r {
                        Ordering::Equal
                    } else {
                        Ordering::Greater
                    },
                ),
                _ => {
                    proof {
                        assert(false);  // excluded by the coercion table
                    }
                    Option::None
                },
            },
            Value::Utf8(l) => match other {
                Value::Utf8(r) => {
                    if str_lt(l.as_str(), r.as_str()) {
                        Option::Some(Ordering::Less)
                    } else if str_eq(l.as_str(), r.as_str()) {
                        Option::Some(Ordering::Equal)
                    } else {
                        Option::Some(Ordering::Greater)
                    }
                },
                _ => {
                    proof {
                        assert(false);  // excluded by the coercion table
                    }
                    Option::None
                },
            },
            Value::Struct(_) => Option::None,
            _ => {
                proof {
                    assert(false);  // excluded by the coercion table
                }
                Option::None
            },
        }
    }
}

/// The number of true entries in a predicate sequence.
pub open spec fn true_count(b: Seq<bool>) -> nat
    decreases b.len(),
{
    if b.len() == 0 {
        0
    } else {
        true_count(b.drop_last()) + (if b.last() {
            1nat
        } else {
            0nat
        })
    }
}

/// The filter keeps exactly the true positions: its length is the number of
/// true predicate entries within the zipped range.
pub proof fn lemma_filter_zip_length<T>(v: Seq<T>, b: Seq<bool>)
    ensures
        filter_zip(v, b).len() == true_count(
            b.take(vstd::math::min(v.len() as int, b.len() as int)),
        ),
    decreases v.len() + b.len(),
{
    let n = vstd::math::min(v.len() as int, b.len() as int);
    if v.len() == 0 || b.len() == 0 {
        assert(b.take(0) =~= Seq::<bool>::empty());
    } else {
        lemma_filter_zip_length(v.take(n - 1), b.take(n - 1));
        assert(b.take(n).drop_last() =~= b.take(n - 1));
        assert(v.take(n - 1).take(n - 1) =~= v.take(n - 1));
        assert(b.take(n - 1).take(n - 1) =~= b.take(n - 1));
    }
}

/// An all-true predicate keeps every cell: the filter is a value-equal copy
/// of the input.
pub proof fn lemma_filter_zip_all_true<T>(v: Seq<T>, b: Seq<bool>)
    requires
        b.len() >= v.len(),
        forall|i: int| 0 <= i < v.len() ==> b[i],
    ensures
        filter_zip(v, b) == v,
    decreases b.len(),
{
    if v.len() == 0 && b.len() == 0 {
        assert(filter_zip(v, b) =~= v);
    } else if b.len() > v.len() {
        lemma_filter_zip_truncate(v, b, v.len() as int);
        lemma_filter_zip_all_true(v, b.take(v.len() as int));
    } else {
        let n = v.len() as int;
        lemma_filter_zip_all_true(v.take(n - 1), b.take(n - 1));
        assert(b.last());
        assert(filter_zip(v, b) =~= v);
    }
}

/// An all-false predicate keeps nothing.
pub proof fn lemma_filter_zip_all_false<T>(v: Seq<T>, b: Seq<bool>)
    requires
        forall|i: int| 0 <= i < b.len() ==> !b[i],
    ensures
        filter_zip(v, b) == Seq::<T>::empty(),
    decreases v.len() + b.len(),
{
    if v.len() == 0 || b.len() == 0 {
        assert(filter_zip(v, b) =~= Seq::<T>::empty());
    } else {
        let n = vstd::math::min(v.len() as int, b.len() as int);
        lemma_filter_zip_all_false(v.take(n - 1), b.take(n - 1));
        assert(!b[n - 1]);
        assert(filter_zip(v, b) =~= Seq::<T>::empty());
    }
}

/// Equality against a broadcast constant equal to every cell of a 64-bit
/// float column answers true at every row (the constant must not be NaN,
/// which equals nothing).
pub proof fn lemma_eq_broadcast_all_true_f64(v: Seq<u64>, x: u64)
    requires
        !f64_is_nan(x),
        forall|i: int| 0 <= i < v.len() ==> v[i] == x,
    ensures
        spec_compare(CmpOp::Eq, ArrayV::Float64(v), ArrayV::BroadcastVariable(ValueV::Float64(x))).len()
            == v.len(),
        forall|i: int|
            0 <= i < v.len() ==> spec_compare(
                CmpOp::Eq,
                ArrayV::Float64(v),
                ArrayV::BroadcastVariable(ValueV::Float64(x)),
            )[i],
{
}

/// Equality against a broadcast constant equal to every cell of a 64-bit
/// integer column answers true at every row.
pub proof fn lemma_eq_broadcast_all_true_i64(v: Seq<i64>, x: i64)
    requires
        forall|i: int| 0 <= i < v.len() ==> v[i] == x,
    ensures
        spec_compare(CmpOp::Eq, ArrayV::Int64(v), ArrayV::BroadcastVariable(ValueV::Int64(x))).len()
            == v.len(),
        forall|i: int|
            0 <= i < v.len() ==> spec_compare(
                CmpOp::Eq,
                ArrayV::Int64(v),
                ArrayV::BroadcastVariable(ValueV::Int64(x)),
            )[i],
{
}

/// Equality against a broadcast constant equal to every cell of a 32-bit
/// integer column answers true at every row.
pub proof fn lemma_eq_broadcast_all_true_i32(v: Seq<i32>, x: i32)
    requires
        forall|i: int| 0 <= i < v.len() ==> v[i] == x,
    ensures
        spec_compare(CmpOp::Eq, ArrayV::Int32(v), ArrayV::BroadcastVariable(ValueV::Int32(x))).len()
            == v.len(),
        forall|i: int|
            0 <= i < v.len() ==> spec_compare(
                CmpOp::Eq,
                ArrayV::Int32(v),
                ArrayV::BroadcastVariable(ValueV::Int32(x)),
            )[i],
{
}

/// Equality against a broadcast constant equal to every cell of a string
/// column answers true at every row.
pub proof fn lemma_eq_broadcast_all_true_utf8(v: Seq<Seq<char>>, x: Seq<char>)
    requires
        forall|i: int| 0 <= i < v.len() ==> v[i] == x,
    ensures
        spec_compare(CmpOp::Eq, ArrayV::Utf8(v), ArrayV::BroadcastVariable(ValueV::Utf8(x))).len()
            == v.len(),
        forall|i: int|
            0 <= i < v.len() ==> spec_compare(
                CmpOp::Eq,
                ArrayV::Utf8(v),
                ArrayV::BroadcastVariable(ValueV::Utf8(x)),
            )[i],
{
}

/// The wired coercions order scalars antisymmetrically: one is below the
/// other exactly when the other is above it, and equality is symmetric.
pub proof fn lemma_partial_cmp_antisymmetric(a: ValueV, b: ValueV)
    requires
        pc_wired(a, b),
        pc_wired(b, a),
    ensures
        (spec_partial_cmp(a, b) == Option::Some(Ordering::Less)) <==> (spec_partial_cmp(b, a)
            == Option::Some(Ordering::Greater)),
        (spec_partial_cmp(a, b) == Option::Some(Ordering::Equal)) <==> (spec_partial_cmp(b, a)
            == Option::Some(Ordering::Equal)),
{
    match (a, b) {
        (ValueV::Utf8(l), ValueV::Utf8(r)) => {
            lemma_chars_lt_trichotomy(l, r);
        },
        _ => {},
    }
}

/// A record compares with nothing: ordering against anything is undefined.
pub proof fn lemma_partial_cmp_struct_unordered(a: ValueV, b: ValueV)
    requires
        a is Struct,
    ensures
        spec_partial_cmp(a, b) is None,
{
}

/// The wired ordering is transitive within one scalar kind.  (Chains that
/// mix 64-bit integers and floats can fail transitivity: distinct huge
/// integers may promote to the same float.)
pub proof fn lemma_partial_cmp_transitive(a: ValueV, b: ValueV, c: ValueV)
    requires
        spec_partial_cmp(a, b) == Option::Some(Ordering::Less),
        spec_partial_cmp(b, c) == Option::Some(Ordering::Less),
        (a is Float64 && b is Float64 && c is Float64) || (a is Int64 && b is Int64 && c is Int64)
            || (a is Utf8 && b is Utf8 && c is Utf8),
    ensures
        spec_partial_cmp(a, c) == Option::Some(Ordering::Less),
{
    match (a, b, c) {
        (ValueV::Utf8(l), ValueV::Utf8(m), ValueV::Utf8(r)) => {
            lemma_chars_lt_transitive(l, m, r);
            lemma_chars_lt_trichotomy(l, r);
        },
        _ => {},
    }
}

} // verus!
