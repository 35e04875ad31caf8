//! Internal columns: hidden per-row columns the engine can append to a
//! batch from its metadata, such as the origin block id and the row number.

use vstd::prelude::*;
use crate::batch::BlockEntry;
use crate::batch::Column;
use crate::batch::DataType;
use crate::batch::DecimalDataType;
use crate::batch::DecimalSize;
use crate::batch::NumberDataType;
use crate::batch::Scalar;
use crate::batch::Value;
use crate::batch::value_cell;
use crate::batch::value_wf;
use crate::meta::InternalColumnMeta;

verus! {

/// Column id of the change-row-id internal column.
pub const CHANGE_ROW_ID_COLUMN_ID: u32 = 4294967040;

/// Column id of the origin-block-id internal column.
pub const ORIGIN_BLOCK_ID_COLUMN_ID: u32 = 4294967041;

/// Column id of the origin-row-number internal column.
pub const ORIGIN_BLOCK_ROW_NUM_COLUMN_ID: u32 = 4294967042;

/// The kinds of internal column this transform can generate.
#[derive(Clone, Copy, PartialEq, Eq, Structural, Debug)]
pub enum InternalColumnType {
    ChangeRowId,
    OriginBlockId,
    OriginRowNum,
}

/// One internal column: its name and its kind.
#[derive(Clone, PartialEq, Eq, Debug)]
pub struct InternalColumn {
    pub column_name: String,
    pub column_type: InternalColumnType,
}

/// The entry generated for an internal column matches its kind: the origin
/// block id broadcasts the metadata's block id as a decimal scalar; the
/// origin row number is the column `0, 1, …`, nullable with every row
/// valid.
pub open spec fn internal_entry_matches(
    col: InternalColumn,
    m: InternalColumnMeta,
    n: nat,
    entry: BlockEntry,
) -> bool {
    &&& value_wf(entry.value, n)
    &&& match col.column_type {
        InternalColumnType::ChangeRowId => false,
        InternalColumnType::OriginBlockId => {
            &&& entry.data_type == DataType::Nullable(
                Box::new(
                    DataType::Decimal(
                        DecimalDataType::Decimal128(DecimalSize { precision: 38, scale: 0 }),
                    ),
                ),
            )
            &&& forall|i: int|
                0 <= i < n ==> value_cell(entry.value, i) == Scalar::Decimal128(
                    m.block_id,
                    DecimalSize { precision: 38, scale: 0 },
                )
        },
        InternalColumnType::OriginRowNum => {
            &&& entry.data_type == DataType::Nullable(
                Box::new(DataType::Number(NumberDataType::UInt64)),
            )
            &&& forall|i: int| 0 <= i < n ==> value_cell(entry.value, i) == Scalar::UInt64(i as u64)
        },
    }
}

impl InternalColumn {
    pub fn new(name: &str, column_type: InternalColumnType) -> (r: InternalColumn)
        ensures
            r.column_name@ == name@,
            r.column_type == column_type,
    {
        InternalColumn { column_name: name.to_owned(), column_type }
    }

    /// The fixed column id of this internal column.
    pub fn column_id(&self) -> (r: u32)
        ensures
            r == match self.column_type {
                InternalColumnType::ChangeRowId => CHANGE_ROW_ID_COLUMN_ID,
                InternalColumnType::OriginBlockId => ORIGIN_BLOCK_ID_COLUMN_ID,
                InternalColumnType::OriginRowNum => ORIGIN_BLOCK_ROW_NUM_COLUMN_ID,
            },
    {
        match self.column_type {
            InternalColumnType::ChangeRowId => CHANGE_ROW_ID_COLUMN_ID,
            InternalColumnType::OriginBlockId => ORIGIN_BLOCK_ID_COLUMN_ID,
            InternalColumnType::OriginRowNum => ORIGIN_BLOCK_ROW_NUM_COLUMN_ID,
        }
    }

    /// Generates the column's values for a batch of `num_rows` rows from
    /// the batch's metadata.
    pub fn generate_column_values(&self, meta: &InternalColumnMeta, num_rows: usize) -> (r:
        BlockEntry)
        requires
            self.column_type != InternalColumnType::ChangeRowId,
            num_rows <= u64::MAX,
        ensures
            internal_entry_matches(*self, *meta, num_rows as nat, r),
    {
        match self.column_type {
            InternalColumnType::OriginBlockId => BlockEntry {
                data_type: DataType::Nullable(
                    Box::new(
                        DataType::Decimal(
                            DecimalDataType::Decimal128(DecimalSize { precision: 38, scale: 0 }),
                        ),
                    ),
                ),
                value: Value::Scalar(
                    Scalar::Decimal128(meta.block_id, DecimalSize { precision: 38, scale: 0 }),
                ),
            },
            _ => {
                let mut row_ids: Vec<u64> = Vec::new();
                let mut validity: Vec<bool> = Vec::new();
                for i in 0..num_rows
                    invariant
                        num_rows <= u64::MAX,
                        row_ids@.len() == i,
                        validity@.len() == i,
                        forall|j: int| 0 <= j < i ==> #[trigger] row_ids@[j] == j as u64,
                        forall|j: int| 0 <= j < i ==> #[trigger] validity@[j],
                {
                    row_ids.push(i as u64);
                    validity.push(true);
                }
                BlockEntry {
                    data_type: DataType::Nullable(
                        Box::new(DataType::Number(NumberDataType::UInt64)),
                    ),
                    value: Value::Column(Column::NullableUInt64 { values: row_ids, validity }),
                }
            },
        }
    }
}

} // verus!
