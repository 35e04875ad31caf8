//! Stream columns: hidden columns that record, for every row, the block it
//! originated from and its row number within that block, generated from a
//! batch's stream metadata.

use vstd::prelude::*;
use crate::batch::BlockEntry;
use crate::batch::Column;
use crate::batch::DataType;
use crate::batch::DecimalDataType;
use crate::batch::DecimalSize;
use crate::batch::NumberDataType;
use crate::batch::Scalar;
use crate::batch::TableDataType;
use crate::batch::Value;
use crate::batch::value_cell;
use crate::batch::value_wf;
use crate::error::CODE_INTERNAL;
use crate::error::ErrorCodes;
use crate::meta::BlockMetaVariant;

verus! {

/// Column id of the origin-version stream column.
pub const ORIGIN_VERSION_COLUMN_ID: u32 = 4294967043;

/// Column id of the origin-block-id stream column.
pub const ORIGIN_BLOCK_ID_STREAM_COLUMN_ID: u32 = 4294967044;

/// Column id of the origin-row-number stream column.
pub const ORIGIN_BLOCK_ROW_NUM_STREAM_COLUMN_ID: u32 = 4294967045;

/// Metadata attached to a batch whose rows all come from one origin block.
#[derive(PartialEq, Eq, Debug)]
pub struct StreamColumnMeta {
    pub block_id: i128,
    pub inner: Option<Box<BlockMetaVariant>>,
}

impl StreamColumnMeta {
    /// Recovers stream metadata from a batch's metadata payload; any other
    /// payload kind is an internal error.
    pub fn from_meta(info: &BlockMetaVariant) -> (r: Result<&StreamColumnMeta, ErrorCodes>)
        ensures
            r.is_ok() == (info is Stream),
            info matches BlockMetaVariant::Stream(m) ==> (r matches Ok(s) && *s == m),
            r matches Err(e) ==> e.spec_code() == CODE_INTERNAL,
    {
        match info {
            BlockMetaVariant::Stream(m) => Ok(m),
            _ => Err(
                ErrorCodes::Internal(
                    "Cannot downcast from BlockMetaInfo to StreamColumnMeta.".to_owned(),
                ),
            ),
        }
    }

    /// The origin block id, as one decimal scalar broadcast over the batch.
    pub fn build_origin_block_id(&self) -> (r: Value)
        ensures
            r == Value::Scalar(
                Scalar::Decimal128(self.block_id, DecimalSize { precision: 38, scale: 0 }),
            ),
    {
        Value::Scalar(Scalar::Decimal128(self.block_id, DecimalSize { precision: 38, scale: 0 }))
    }

    /// The origin row numbers `0, 1, …`, nullable with every row valid.
    pub fn build_origin_block_row_num(&self, num_rows: usize) -> (r: Value)
        requires
            num_rows <= u64::MAX,
        ensures
            value_wf(r, num_rows as nat),
            forall|i: int| 0 <= i < num_rows ==> value_cell(r, i) == Scalar::UInt64(i as u64),
            r is Column,
    {
        let mut row_ids: Vec<u64> = Vec::new();
        let mut validity: Vec<bool> = Vec::new();
        for i in 0..num_rows
            invariant
                num_rows <= u64::MAX,
                row_ids@.len() == i,
                validity@.len() == i,
                forall|j: int| 0 <= j < i ==> #[trigger] row_ids@[j] == j as u64,
                forall|j: int| 0 <= j < i ==> #[trigger] validity@[j],
        {
            row_ids.push(i as u64);
            validity.push(true);
        }
        Value::Column(Column::NullableUInt64 { values: row_ids, validity })
    }
}

/// One field of a table schema: a name, a declared type, a column id and
/// an optional default expression.
#[derive(PartialEq, Eq, Debug)]
pub struct TableField {
    pub name: String,
    pub data_type: TableDataType,
    pub column_id: u32,
    pub default_expr: Option<String>,
}

/// The kinds of stream column.
#[derive(Clone, Copy, PartialEq, Eq, Structural, Debug)]
pub enum StreamColumnType {
    OriginVersion,
    OriginBlockId,
    OriginRowNum,
}

/// One stream column: its name and its kind.
#[derive(Clone, PartialEq, Eq, Debug)]
pub struct StreamColumn {
    pub column_name: String,
    pub column_type: StreamColumnType,
}

impl StreamColumn {
    pub fn new(name: &str, column_type: StreamColumnType) -> (r: StreamColumn)
        ensures
            r.column_name@ == name@,
            r.column_type == column_type,
    {
        StreamColumn { column_name: name.to_owned(), column_type }
    }

    /// The column's kind.
    pub fn column_type(&self) -> (r: &StreamColumnType)
        ensures
            r == self.column_type,
    {
        &self.column_type
    }

    /// The declared table type of the column.
    pub open spec fn table_data_type_spec(&self) -> TableDataType {
        match self.column_type {
            StreamColumnType::OriginVersion => TableDataType::Nullable(
                Box::new(TableDataType::Number(NumberDataType::UInt64)),
            ),
            StreamColumnType::OriginBlockId => TableDataType::Nullable(
                Box::new(
                    TableDataType::Decimal(
                        DecimalDataType::Decimal128(DecimalSize { precision: 38, scale: 0 }),
                    ),
                ),
            ),
            StreamColumnType::OriginRowNum => TableDataType::Nullable(
                Box::new(TableDataType::Number(NumberDataType::UInt64)),
            ),
        }
    }

    /// The declared table type of the column.
    pub fn table_data_type(&self) -> (r: TableDataType)
        ensures
            r == self.table_data_type_spec(),
    {
        match self.column_type {
            StreamColumnType::OriginVersion => TableDataType::Nullable(
                Box::new(TableDataType::Number(NumberDataType::UInt64)),
            ),
            StreamColumnType::OriginBlockId => TableDataType::Nullable(
                Box::new(
                    TableDataType::Decimal(
                        DecimalDataType::Decimal128(DecimalSize { precision: 38, scale: 0 }),
                    ),
                ),
            ),
            StreamColumnType::OriginRowNum => TableDataType::Nullable(
                Box::new(TableDataType::Number(NumberDataType::UInt64)),
            ),
        }
    }

    /// The column's name.
    pub fn column_name(&self) -> (r: &str)
        ensures
            r@ == self.column_name@,
    {
        self.column_name.as_str()
    }

    /// The schema field of the column: its name, declared type and fixed
    /// id, defaulting to null.
    pub fn table_field(&self) -> (r: TableField)
        ensures
            r.name@ == self.column_name@,
            r.data_type == self.table_data_type_spec(),
            r.column_id == match self.column_type {
                StreamColumnType::OriginVersion => ORIGIN_VERSION_COLUMN_ID,
                StreamColumnType::OriginBlockId => ORIGIN_BLOCK_ID_STREAM_COLUMN_ID,
                StreamColumnType::OriginRowNum => ORIGIN_BLOCK_ROW_NUM_STREAM_COLUMN_ID,
            },
            r.default_expr matches Option::Some(d) && d@ == "Null"@,
    {
        TableField {
            name: self.column_name.clone(),
            data_type: self.table_data_type(),
            column_id: self.column_id(),
            default_expr: Option::Some("Null".to_owned()),
        }
    }

    /// The runtime data type of the column.
    pub open spec fn data_type_spec(&self) -> DataType {
        match self.column_type {
            StreamColumnType::OriginVersion => DataType::Nullable(
                Box::new(DataType::Number(NumberDataType::UInt64)),
            ),
            StreamColumnType::OriginBlockId => DataType::Nullable(
                Box::new(
                    DataType::Decimal(
                        DecimalDataType::Decimal128(DecimalSize { precision: 38, scale: 0 }),
                    ),
                ),
            ),
            StreamColumnType::OriginRowNum => DataType::Nullable(
                Box::new(DataType::Number(NumberDataType::UInt64)),
            ),
        }
    }

    /// The runtime data type of the column.
    pub fn data_type(&self) -> (r: DataType)
        ensures
            r == self.data_type_spec(),
    {
        match self.column_type {
            StreamColumnType::OriginVersion => DataType::Nullable(
                Box::new(DataType::Number(NumberDataType::UInt64)),
            ),
            StreamColumnType::OriginBlockId => DataType::Nullable(
                Box::new(
                    DataType::Decimal(
                        DecimalDataType::Decimal128(DecimalSize { precision: 38, scale: 0 }),
                    ),
                ),
            ),
            StreamColumnType::OriginRowNum => DataType::Nullable(
                Box::new(DataType::Number(NumberDataType::UInt64)),
            ),
        }
    }

    /// The fixed column id of this stream column.
    pub fn column_id(&self) -> (r: u32)
        ensures
            r == match self.column_type {
                StreamColumnType::OriginVersion => ORIGIN_VERSION_COLUMN_ID,
                StreamColumnType::OriginBlockId => ORIGIN_BLOCK_ID_STREAM_COLUMN_ID,
                StreamColumnType::OriginRowNum => ORIGIN_BLOCK_ROW_NUM_STREAM_COLUMN_ID,
            },
    {
        match self.column_type {
            StreamColumnType::OriginVersion => ORIGIN_VERSION_COLUMN_ID,
            StreamColumnType::OriginBlockId => ORIGIN_BLOCK_ID_STREAM_COLUMN_ID,
            StreamColumnType::OriginRowNum => ORIGIN_BLOCK_ROW_NUM_STREAM_COLUMN_ID,
        }
    }

    /// Generates the column's values for a batch of `num_rows` rows from
    /// stream metadata. The origin-version column is never generated here.
    pub fn generate_column_values(&self, meta: &StreamColumnMeta, num_rows: usize) -> (r:
        BlockEntry)
        requires
            self.column_type != StreamColumnType::OriginVersion,
            num_rows <= u64::MAX,
        ensures
            value_wf(r.value, num_rows as nat),
            self.column_type == StreamColumnType::OriginBlockId ==> r.data_type
                == self.data_type_spec() && forall|i: int|
                0 <= i < num_rows ==> value_cell(r.value, i) == Scalar::Decimal128(
                    meta.block_id,
                    DecimalSize { precision: 38, scale: 0 },
                ),
            self.column_type == StreamColumnType::OriginRowNum ==> r.data_type
                == self.data_type_spec() && forall|i: int|
                0 <= i < num_rows ==> value_cell(r.value, i) == Scalar::UInt64(i as u64),
    {
        match self.column_type {
            StreamColumnType::OriginRowNum => BlockEntry {
                data_type: DataType::Nullable(Box::new(DataType::Number(NumberDataType::UInt64))),
                value: meta.build_origin_block_row_num(num_rows),
            },
            _ => BlockEntry {
                data_type: DataType::Nullable(
                    Box::new(
                        DataType::Decimal(
                            DecimalDataType::Decimal128(DecimalSize { precision: 38, scale: 0 }),
                        ),
                    ),
                ),
                value: meta.build_origin_block_id(),
            },
        }
    }
}

/// The block id encoded in a storage location: the hexadecimal identifier
/// that begins the file stem, read as one 128-bit number.
pub uninterp spec fn block_id_of_name(s: Seq<char>) -> Option<u128>;

/// Relies on `uuid::Uuid::parse_str` and `Uuid::as_u128`: whether the
/// identifier parses, and the number it carries, depend on the text alone.
#[verifier::external_body]
fn parse_block_id(s: &str) -> (r: Option<u128>)
    ensures
        r == block_id_of_name(s@),
{
    match uuid::Uuid::parse_str(s) {
        Ok(u) => Option::Some(u.as_u128()),
        Err(_) => Option::None,
    }
}

/// The position just after the last `/` among the first `upto` characters.
pub open spec fn after_last_slash(path: Seq<char>, upto: int) -> int
    decreases upto,
{
    if upto <= 0 {
        0
    } else if path[upto - 1] == '/' {
        upto
    } else {
        after_last_slash(path, upto - 1)
    }
}

/// The position of the first `_` at or after `from`, or `n` when none is
/// there.
pub open spec fn first_underscore(path: Seq<char>, from: int, n: int) -> int
    decreases n - from,
{
    if from >= n {
        n
    } else if path[from] == '_' {
        from
    } else {
        first_underscore(path, from + 1, n)
    }
}

/// The position of the last `.` strictly after `start` among the first
/// `upto` characters, or `-1` when none is there. A dot that begins the
/// file name does not count: such a name has no extension.
pub open spec fn last_dot_after(path: Seq<char>, start: int, upto: int) -> int
    decreases upto - start,
{
    if upto <= start + 1 {
        -1
    } else if path[upto - 1] == '.' {
        upto - 1
    } else {
        last_dot_after(path, start, upto - 1)
    }
}

/// The file stem of a storage path, up to its first `_`: everything after
/// the last `/`, with the extension after the last `.` stripped, cut at the
/// first `_` that follows.
pub open spec fn file_stem_first_part(path: Seq<char>) -> Seq<char> {
    let start = after_last_slash(path, path.len() as int);
    let dot = last_dot_after(path, start, path.len() as int);
    let stem_end = if dot >= 0 {
        dot
    } else {
        path.len() as int
    };
    let end = first_underscore(path, start, stem_end);
    path.subrange(start, end)
}

/// The 128-bit pattern reinterpreted as a signed value, two's complement.
pub open spec fn u128_as_i128(u: u128) -> i128 {
    if u <= i128::MAX {
        u as i128
    } else {
        (u - 0x1_0000_0000_0000_0000_0000_0000_0000_0000) as i128
    }
}

/// Bounds of the scan positions.
proof fn lemma_after_last_slash_bounds(path: Seq<char>, upto: int)
    requires
        0 <= upto <= path.len(),
    ensures
        0 <= after_last_slash(path, upto) <= upto,
    decreases upto,
{
    if upto > 0 && path[upto - 1] != '/' {
        lemma_after_last_slash_bounds(path, upto - 1);
    }
}

proof fn lemma_first_underscore_bounds(path: Seq<char>, from: int, n: int)
    requires
        0 <= from <= n <= path.len(),
    ensures
        from <= first_underscore(path, from, n) <= n,
    decreases n - from,
{
    if from < n && path[from] != '_' {
        lemma_first_underscore_bounds(path, from + 1, n);
    }
}

/// Reads the origin block id out of a block file path: the identifier that
/// begins the file's name, its 128-bit pattern reinterpreted as a signed
/// id. Fails with an internal error when the name does not carry one.
pub fn block_id_from_location(path: &str) -> (r: Result<i128, ErrorCodes>)
    ensures
        r.is_ok() == (block_id_of_name(file_stem_first_part(path@)) is Some),
        r matches Ok(id) ==> id == u128_as_i128(
            block_id_of_name(file_stem_first_part(path@)).unwrap(),
        ),
        r matches Err(e) ==> e.spec_code() == CODE_INTERNAL,
{
    let n = path.unicode_len();
    let mut start: usize = 0;
    for i in 0..n
        invariant
            n == path@.len(),
            start == after_last_slash(path@, i as int),
            0 <= start <= i,
    {
        if path.get_char(i) == '/' {
            start = i + 1;
        }
    }
    let mut stem_end: usize = n;
    let mut found_dot: bool = false;
    for i in 0..n
        invariant
            n == path@.len(),
            start <= n,
            (if found_dot {
                stem_end as int
            } else {
                -1
            }) == last_dot_after(path@, start as int, i as int),
            found_dot ==> start < stem_end <= n,
            !found_dot ==> stem_end == n,
    {
        if i > start && path.get_char(i) == '.' {
            stem_end = i;
            found_dot = true;
        }
    }
    let mut end: usize = start;
    while end < stem_end && path.get_char(end) != '_'
        invariant
            n == path@.len(),
            start <= end <= stem_end <= n,
            first_underscore(path@, start as int, stem_end as int) == first_underscore(
                path@,
                end as int,
                stem_end as int,
            ),
        decreases stem_end - end,
    {
        end = end + 1;
    }
    proof {
        lemma_first_underscore_bounds(path@, end as int, stem_end as int);
        assert(first_underscore(path@, end as int, stem_end as int) == end);
    }
    let stem = path.substring_char(start, end);
    proof {
        assert(stem@ =~= file_stem_first_part(path@));
    }
    match parse_block_id(stem) {
        Option::Some(id) => {
            if id <= i128::MAX as u128 {
                Ok(id as i128)
            } else {
                let wrapped = ((id - 0x8000_0000_0000_0000_0000_0000_0000_0000u128) as i128)
                    + i128::MIN;
                proof {
                    assert(wrapped == u128_as_i128(id));
                }
                Ok(wrapped)
            }
        },
        Option::None => Err(ErrorCodes::Internal("Illegal meta file format".to_owned())),
    }
}

/// Builds the stream metadata of a mutated block from its storage path.
pub fn gen_mutation_stream_meta(inner: Option<Box<BlockMetaVariant>>, path: &str) -> (r: Result<
    StreamColumnMeta,
    ErrorCodes,
>)
    ensures
        r.is_ok() == (block_id_of_name(file_stem_first_part(path@)) is Some),
        r matches Ok(m) ==> m.block_id == u128_as_i128(
            block_id_of_name(file_stem_first_part(path@)).unwrap(),
        ) && m.inner == inner,
        r matches Err(e) ==> e.spec_code() == CODE_INTERNAL,
{
    match block_id_from_location(path) {
        Result::Ok(block_id) => Ok(StreamColumnMeta { block_id, inner }),
        Result::Err(e) => Err(e),
    }
}

} // verus!
