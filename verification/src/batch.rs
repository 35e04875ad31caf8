//! The columnar batch: the unit of data flowing through the pipeline graph.
//!
//! A batch is an ordered list of entries, each a logical type together with a
//! value that is either a full column or a scalar broadcast over the batch's
//! rows, plus an optional metadata payload drawn from a closed union of the
//! known metadata kinds.

use vstd::prelude::*;
use crate::meta::BlockMetaVariant;

verus! {

/// Width parameters of a decimal type.
#[derive(Clone, Copy, PartialEq, Eq, Structural, Debug)]
pub struct DecimalSize {
    pub precision: u8,
    pub scale: u8,
}

/// The numeric types the core works with.
#[derive(Clone, Copy, PartialEq, Eq, Structural, Debug)]
pub enum NumberDataType {
    UInt64,
    Int64,
}

/// The decimal types the core works with.
#[derive(Clone, Copy, PartialEq, Eq, Structural, Debug)]
pub enum DecimalDataType {
    Decimal128(DecimalSize),
}

/// A column's logical type.
#[derive(PartialEq, Eq, Debug)]
pub enum DataType {
    Boolean,
    Number(NumberDataType),
    Decimal(DecimalDataType),
    Date,
    Timestamp,
    Text,
    Variant,
    Nullable(Box<DataType>),
}

/// A table column's logical type, as a schema declares it.
#[derive(PartialEq, Eq, Debug)]
pub enum TableDataType {
    Boolean,
    Number(NumberDataType),
    Decimal(DecimalDataType),
    Date,
    Timestamp,
    Text,
    Variant,
    Nullable(Box<TableDataType>),
}

/// A single cell value.
#[derive(Clone, PartialEq, Eq, Debug)]
pub enum Scalar {
    Null,
    Boolean(bool),
    Int64(i64),
    UInt64(u64),
    Decimal128(i128, DecimalSize),
    Str(String),
}

/// A column of cell values, one representation per supported type.
#[derive(Clone, PartialEq, Eq, Debug)]
pub enum Column {
    Int64(Vec<i64>),
    UInt64(Vec<u64>),
    NullableUInt64 { values: Vec<u64>, validity: Vec<bool> },
    Str(Vec<String>),
}

/// A value carried by a batch entry: a whole column, or one scalar broadcast
/// over the batch's rows.
#[derive(Clone, PartialEq, Eq, Debug)]
pub enum Value {
    Scalar(Scalar),
    Column(Column),
}

/// One entry of a batch: a logical type and its value.
#[derive(PartialEq, Eq, Debug)]
pub struct BlockEntry {
    pub data_type: DataType,
    pub value: Value,
}

/// A columnar batch. All column entries have exactly `num_rows` values;
/// scalar entries broadcast to any row count.
#[derive(Debug)]
pub struct DataBlock {
    pub entries: Vec<BlockEntry>,
    pub num_rows: usize,
    pub meta: Option<BlockMetaVariant>,
}

/// The number of values a column holds.
pub open spec fn col_len(c: Column) -> nat {
    match c {
        Column::Int64(v) => v@.len(),
        Column::UInt64(v) => v@.len(),
        Column::NullableUInt64 { values, validity } => values@.len(),
        Column::Str(v) => v@.len(),
    }
}

/// A column is well formed: auxiliary arrays agree in length.
pub open spec fn col_wf(c: Column) -> bool {
    match c {
        Column::NullableUInt64 { values, validity } => values@.len() == validity@.len(),
        _ => true,
    }
}

/// The cell of a column at row `i`.
pub open spec fn col_cell(c: Column, i: int) -> Scalar {
    match c {
        Column::Int64(v) => Scalar::Int64(v@[i]),
        Column::UInt64(v) => Scalar::UInt64(v@[i]),
        Column::NullableUInt64 { values, validity } => if validity@[i] {
            Scalar::UInt64(values@[i])
        } else {
            Scalar::Null
        },
        Column::Str(v) => Scalar::Str(v@[i]),
    }
}

/// A value is well formed for a batch of `n` rows.
pub open spec fn value_wf(v: Value, n: nat) -> bool {
    match v {
        Value::Scalar(_) => true,
        Value::Column(c) => col_wf(c) && col_len(c) == n,
    }
}

/// The cell of a value at row `i`; a scalar broadcasts to every row.
pub open spec fn value_cell(v: Value, i: int) -> Scalar {
    match v {
        Value::Scalar(s) => s,
        Value::Column(c) => col_cell(c, i),
    }
}

/// Copies one scalar, preserving its value exactly.
pub fn clone_scalar(s: &Scalar) -> (r: Scalar)
    ensures
        r == s,
{
    match s {
        Scalar::Null => Scalar::Null,
        Scalar::Boolean(b) => Scalar::Boolean(*b),
        Scalar::Int64(x) => Scalar::Int64(*x),
        Scalar::UInt64(x) => Scalar::UInt64(*x),
        Scalar::Decimal128(x, size) => Scalar::Decimal128(*x, *size),
        Scalar::Str(t) => Scalar::Str(t.clone()),
    }
}

/// Copies one data type, preserving it exactly.
pub fn clone_data_type(t: &DataType) -> (r: DataType)
    ensures
        r == t,
    decreases t,
{
    match t {
        DataType::Boolean => DataType::Boolean,
        DataType::Number(n) => DataType::Number(*n),
        DataType::Decimal(d) => DataType::Decimal(*d),
        DataType::Date => DataType::Date,
        DataType::Timestamp => DataType::Timestamp,
        DataType::Text => DataType::Text,
        DataType::Variant => DataType::Variant,
        DataType::Nullable(inner) => DataType::Nullable(Box::new(clone_data_type(inner))),
    }
}

/// Gathers the cells of a column at the given row indices, in order.
pub fn take_column(c: &Column, indices: &Vec<u32>) -> (r: Column)
    requires
        col_wf(*c),
        forall|j: int| 0 <= j < indices@.len() ==> indices@[j] < col_len(*c),
    ensures
        col_wf(r),
        col_len(r) == indices@.len(),
        forall|j: int| 0 <= j < indices@.len() ==> col_cell(r, j) == col_cell(*c, indices@[j] as int),
{
    let n = indices.len();
    match c {
        Column::Int64(v) => {
            let mut out: Vec<i64> = Vec::new();
            for j in 0..n
                invariant
                    n == indices@.len(),
                    forall|k: int| 0 <= k < indices@.len() ==> indices@[k] < v@.len(),
                    out@.len() == j,
                    forall|k: int| 0 <= k < j ==> out@[k] == v@[indices@[k] as int],
            {
                out.push(v[indices[j] as usize]);
            }
            Column::Int64(out)
        },
        Column::UInt64(v) => {
            let mut out: Vec<u64> = Vec::new();
            for j in 0..n
                invariant
                    n == indices@.len(),
                    forall|k: int| 0 <= k < indices@.len() ==> indices@[k] < v@.len(),
                    out@.len() == j,
                    forall|k: int| 0 <= k < j ==> out@[k] == v@[indices@[k] as int],
            {
                out.push(v[indices[j] as usize]);
            }
            Column::UInt64(out)
        },
        Column::NullableUInt64 { values, validity } => {
            let mut out_values: Vec<u64> = Vec::new();
            let mut out_validity: Vec<bool> = Vec::new();
            for j in 0..n
                invariant
                    n == indices@.len(),
                    values@.len() == validity@.len(),
                    forall|k: int| 0 <= k < indices@.len() ==> indices@[k] < values@.len(),
                    out_values@.len() == j,
                    out_validity@.len() == j,
                    forall|k: int| 0 <= k < j ==> out_values@[k] == values@[indices@[k] as int],
                    forall|k: int| 0 <= k < j ==> out_validity@[k] == validity@[indices@[k] as int],
            {
                out_values.push(values[indices[j] as usize]);
                out_validity.push(validity[indices[j] as usize]);
            }
            Column::NullableUInt64 { values: out_values, validity: out_validity }
        },
        Column::Str(v) => {
            let mut out: Vec<String> = Vec::new();
            for j in 0..n
                invariant
                    n == indices@.len(),
                    forall|k: int| 0 <= k < indices@.len() ==> indices@[k] < v@.len(),
                    out@.len() == j,
                    forall|k: int| 0 <= k < j ==> out@[k] == v@[indices@[k] as int],
            {
                out.push(v[indices[j] as usize].clone());
            }
            Column::Str(out)
        },
    }
}

impl DataBlock {
    /// Every column entry holds exactly `num_rows` cells.
    pub open spec fn wf(&self) -> bool {
        forall|c: int|
            0 <= c < self.entries@.len() ==> value_wf(self.entries@[c].value, self.num_rows as nat)
    }

    /// The cell at column `c`, row `i`.
    pub open spec fn cell(&self, c: int, i: int) -> Scalar {
        value_cell(self.entries@[c].value, i)
    }

    /// A batch with no entries and no rows.
    pub fn empty() -> (r: DataBlock)
        ensures
            r.wf(),
            r.entries@.len() == 0,
            r.num_rows == 0,
            r.meta.is_none(),
    {
        DataBlock { entries: Vec::new(), num_rows: 0, meta: Option::None }
    }

    /// A batch with no entries, no rows, and the given metadata attached.
    pub fn empty_with_meta(meta: BlockMetaVariant) -> (r: DataBlock)
        ensures
            r.wf(),
            r.entries@.len() == 0,
            r.num_rows == 0,
            r.meta == Option::Some(meta),
    {
        DataBlock { entries: Vec::new(), num_rows: 0, meta: Option::Some(meta) }
    }

    /// The number of rows.
    pub fn num_rows(&self) -> (r: usize)
        ensures
            r == self.num_rows,
    {
        self.num_rows
    }

    /// The number of entries (columns).
    pub fn num_columns(&self) -> (r: usize)
        ensures
            r == self.entries@.len(),
    {
        self.entries.len()
    }

    /// Detaches and returns the metadata payload.
    pub fn take_meta(&mut self) -> (r: Option<BlockMetaVariant>)
        ensures
            r == old(self).meta,
            final(self).meta.is_none(),
            final(self).entries == old(self).entries,
            final(self).num_rows == old(self).num_rows,
    {
        self.meta.take()
    }

    /// Appends a column entry; its value must span the batch's rows.
    pub fn add_column(&mut self, entry: BlockEntry)
        requires
            value_wf(entry.value, old(self).num_rows as nat),
        ensures
            final(self).entries@ == old(self).entries@.push(entry),
            final(self).num_rows == old(self).num_rows,
            final(self).meta == old(self).meta,
    {
        self.entries.push(entry);
    }

    /// The cell at column `c`, row `i`, as a value.
    pub fn get_cell(&self, c: usize, i: usize) -> (r: Scalar)
        requires
            self.wf(),
            c < self.entries@.len(),
            i < self.num_rows,
        ensures
            r == self.cell(c as int, i as int),
    {
        match &self.entries[c].value {
            Value::Scalar(s) => clone_scalar(s),
            Value::Column(col) => match col {
                Column::Int64(v) => Scalar::Int64(v[i]),
                Column::UInt64(v) => Scalar::UInt64(v[i]),
                Column::NullableUInt64 { values, validity } => if validity[i] {
                    Scalar::UInt64(values[i])
                } else {
                    Scalar::Null
                },
                Column::Str(v) => Scalar::Str(v[i].clone()),
            },
        }
    }

    /// Gathers the rows at `indices` into a new batch, in order. Column
    /// types are preserved; the metadata payload is not carried over.
    pub fn take(&self, indices: &Vec<u32>) -> (r: DataBlock)
        requires
            self.wf(),
            forall|j: int| 0 <= j < indices@.len() ==> indices@[j] < self.num_rows,
        ensures
            r.wf(),
            r.num_rows == indices@.len(),
            r.entries@.len() == self.entries@.len(),
            r.meta.is_none(),
            forall|c: int|
                0 <= c < self.entries@.len() ==> r.entries@[c].data_type == self.entries@[c].data_type,
            forall|c: int, j: int|
                0 <= c < self.entries@.len() && 0 <= j < indices@.len() ==> r.cell(c, j)
                    == self.cell(c, indices@[j] as int),
    {
        let mut entries: Vec<BlockEntry> = Vec::new();
        let ncols = self.entries.len();
        for c in 0..ncols
            invariant
                ncols == self.entries@.len(),
                self.wf(),
                forall|j: int| 0 <= j < indices@.len() ==> indices@[j] < self.num_rows,
                entries@.len() == c,
                forall|k: int|
                    0 <= k < c ==> entries@[k].data_type == self.entries@[k].data_type,
                forall|k: int| 0 <= k < c ==> value_wf(entries@[k].value, indices@.len()),
                forall|k: int, j: int|
                    0 <= k < c && 0 <= j < indices@.len() ==> value_cell(entries@[k].value, j)
                        == value_cell(self.entries@[k].value, indices@[j] as int),
        {
            let dt = clone_data_type(&self.entries[c].data_type);
            let value = match &self.entries[c].value {
                Value::Scalar(s) => Value::Scalar(clone_scalar(s)),
                Value::Column(col) => Value::Column(take_column(col, indices)),
            };
            entries.push(BlockEntry { data_type: dt, value });
        }
        DataBlock { entries, num_rows: indices.len(), meta: Option::None }
    }
}

} // verus!
