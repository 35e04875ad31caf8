//! The decision rules of the external metastore integration: which table
//! descriptions the engine accepts. The network calls that fetch the
//! descriptions live outside the core; the rules take their fields as
//! plain values.

use vstd::prelude::*;
use crate::error::ErrorCodes;
use crate::text::str_eq;

verus! {

/// Validates a fetched table description: only the parquet input format is
/// readable, and view tables are not supported. Anything else passes.
pub fn handle_table_meta(input_format: Option<&String>, table_type: Option<&String>) -> (r: Result<
    (),
    ErrorCodes,
>)
    ensures
        r.is_ok() == ((match input_format {
            Option::Some(f) => f@ == "org.apache.hadoop.hive.ql.io.parquet.MapredParquetInputFormat"@,
            Option::None => true,
        }) && (match table_type {
            Option::Some(t) => t@ != "VIRTUAL_VIEW"@,
            Option::None => true,
        })),
        r matches Err(e) ==> e.spec_code() == 2,
{
    match input_format {
        Option::Some(f) => {
            if !str_eq(
                f.as_str(),
                "org.apache.hadoop.hive.ql.io.parquet.MapredParquetInputFormat",
            ) {
                return Err(
                    ErrorCodes::UnImplement("only support parquet input format".to_owned()),
                );
            }
        },
        Option::None => {},
    }
    match table_type {
        Option::Some(t) => {
            if str_eq(t.as_str(), "VIRTUAL_VIEW") {
                return Err(ErrorCodes::UnImplement("not support view table".to_owned()));
            }
        },
        Option::None => {},
    }
    Ok(())
}

} // verus!
