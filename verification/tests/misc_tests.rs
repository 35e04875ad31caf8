use dataflow_core::batch::DataType;
use dataflow_core::batch::NumberDataType;
use dataflow_core::batch::Scalar;
use dataflow_core::error::ErrorCodes;
use dataflow_core::hive::handle_table_meta;
use dataflow_core::memory_estimate::ArrayLayout;
use dataflow_core::memory_estimate::estimated_bytes_size;
use dataflow_core::memory_estimate::validity_size;
use dataflow_core::meta::BlockMetaVariant;
use dataflow_core::partition::DeltaPartInfo;
use dataflow_core::partition::ParquetPart;
use dataflow_core::partition::PartInfoVariant;
use dataflow_core::partition::Partitions;
use dataflow_core::partition::StreamTablePart;
use dataflow_core::schema::DataField;
use dataflow_core::schema::DataSchema;
use dataflow_core::segment::BlockMeta;
use dataflow_core::segment::SegmentInfo;
use dataflow_core::segment::Statistics;
use dataflow_core::sort::BinaryMaxHeap;
use dataflow_core::sort::Sort;
use dataflow_core::sort::find_bigger_child_of_root;
use dataflow_core::stream_column::StreamColumn;
use dataflow_core::stream_column::StreamColumnMeta;
use dataflow_core::stream_column::StreamColumnType;
use dataflow_core::stream_column::block_id_from_location;
use dataflow_core::text::parse_u64;
use dataflow_core::text::str_eq;
use dataflow_core::text::u64_to_dec_string;
use dataflow_core::virtual_column::virtual_column_name_for_path;

#[test]
fn error_codes_carry_code_and_text() {
    let e = ErrorCodes::UnknownDatabase("db1".to_string());
    assert_eq!(e.code(), 3);
    assert_eq!(e.message(), "db1");
    assert!(!e.has_cause());
    assert_eq!(e.display_string(), "Code: 3, displayText = db1.");

    let e = ErrorCodes::from_anyhow(anyhow::Error::msg("boom"));
    assert_eq!(e.code(), dataflow_core::error::CODE_FROM_ANYHOW);
    assert!(e.has_cause());
    assert_eq!(e.display_string(), "Code: 1002, displayText = boom.");

    let e = ErrorCodes::from_parser(sqlparser::parser::ParserError::ParserError(
        "bad".to_string(),
    ));
    assert_eq!(e.code(), 5);
    assert!(e.has_cause());
}

#[test]
fn decimal_rendering_and_parsing_round() {
    assert_eq!(u64_to_dec_string(0), "0");
    assert_eq!(u64_to_dec_string(12345), "12345");
    assert_eq!(u64_to_dec_string(u64::MAX), "18446744073709551615");
    assert_eq!(parse_u64("12345"), Some(12345));
    assert_eq!(parse_u64("0"), Some(0));
    assert_eq!(parse_u64(""), None);
    assert_eq!(parse_u64("12x"), None);
    assert_eq!(parse_u64("18446744073709551616"), None);
    assert!(str_eq("abc", "abc"));
    assert!(!str_eq("abc", "abd"));
}

#[test]
fn stream_column_types_and_generation() {
    let c = StreamColumn::new("_origin_block_id", StreamColumnType::OriginBlockId);
    assert_eq!(c.column_name(), "_origin_block_id");
    assert_eq!(*c.column_type(), StreamColumnType::OriginBlockId);
    let meta = StreamColumnMeta { block_id: 77, inner: None };
    let entry = c.generate_column_values(&meta, 3);
    match entry.value {
        dataflow_core::batch::Value::Scalar(Scalar::Decimal128(v, _)) => assert_eq!(v, 77),
        other => panic!("unexpected value {:?}", other),
    }
    let c = StreamColumn::new("_origin_block_row_num", StreamColumnType::OriginRowNum);
    let entry = c.generate_column_values(&meta, 3);
    let block = dataflow_core::batch::DataBlock { entries: vec![entry], num_rows: 3, meta: None };
    assert_eq!(block.get_cell(0, 0), Scalar::UInt64(0));
    assert_eq!(block.get_cell(0, 2), Scalar::UInt64(2));
}

#[test]
fn block_id_parses_from_location() {
    let id = block_id_from_location("seg/6ab2893cbe1f4a44b588308bc9e4fa2e_v4.parquet").unwrap();
    assert_eq!(id, 0x6ab2893cbe1f4a44b588308bc9e4fa2ei128);
    assert!(block_id_from_location("seg/not-an-identifier_v4.parquet").is_err());
    // The extension alone is stripped even without a version suffix.
    let id = block_id_from_location("dir/00000000000000000000000000000001.parquet").unwrap();
    assert_eq!(id, 1);
    // An identifier with the top bit set wraps to a negative id.
    let id = block_id_from_location("seg/ffffffff-ffff-ffff-ffff-ffffffffffff_v4.parquet")
        .unwrap();
    assert_eq!(id, -1);
}

#[test]
fn stream_meta_downcast() {
    let meta = BlockMetaVariant::Stream(StreamColumnMeta { block_id: 5, inner: None });
    let m = StreamColumnMeta::from_meta(&meta).unwrap();
    assert_eq!(m.block_id, 5);
    let wrong = BlockMetaVariant::Internal(dataflow_core::meta::InternalColumnMeta { block_id: 1 });
    assert!(StreamColumnMeta::from_meta(&wrong).is_err());
}

#[test]
fn heap_helper_finds_bigger_child() {
    let heap = BinaryMaxHeap::from_vec(vec![9, 7, 8, 1, 2, 3]).unwrap();
    assert_eq!(find_bigger_child_of_root(&heap), 8);
    let heap = BinaryMaxHeap::from_vec(vec![9, 4]).unwrap();
    assert_eq!(find_bigger_child_of_root(&heap), 4);
    assert!(BinaryMaxHeap::from_vec(vec![1, 5]).is_err());
}

fn schema(fields: Vec<(&str, DataType)>) -> DataSchema {
    DataSchema {
        fields: fields
            .into_iter()
            .map(|(n, t)| DataField { name: n.to_string(), data_type: t })
            .collect(),
    }
}

#[test]
fn sort_output_schema_after_exchange_drops_order_col() {
    let sort = Sort {
        plan_id: 1,
        order_by: vec![],
        limit: None,
        after_exchange: Some(true),
        pre_projection: None,
        stat_info: None,
    };
    let input = schema(vec![
        ("0", DataType::Number(NumberDataType::Int64)),
        ("_order_col", DataType::Text),
    ]);
    let out = sort.output_schema(&input).unwrap();
    assert_eq!(out.fields.len(), 1);
    assert_eq!(out.fields[0].name, "0");
}

#[test]
fn sort_output_schema_before_exchange_appends_order_col() {
    let sort = Sort {
        plan_id: 1,
        order_by: vec![dataflow_core::sort::SortDesc { asc: true, nulls_first: false, order_by: 0 }],
        limit: None,
        after_exchange: Some(false),
        pre_projection: None,
        stat_info: None,
    };
    let input = schema(vec![("0", DataType::Number(NumberDataType::Int64))]);
    let out = sort.output_schema(&input).unwrap();
    assert_eq!(out.fields.len(), 2);
    assert_eq!(out.fields[1].name, "_order_col");
    assert_eq!(out.fields[1].data_type, DataType::Number(NumberDataType::Int64));
}

#[test]
fn sort_output_schema_projects_named_fields() {
    let sort = Sort {
        plan_id: 1,
        order_by: vec![],
        limit: None,
        after_exchange: None,
        pre_projection: Some(vec![1]),
        stat_info: None,
    };
    let input = schema(vec![
        ("0", DataType::Number(NumberDataType::Int64)),
        ("1", DataType::Text),
    ]);
    let out = sort.output_schema(&input).unwrap();
    assert_eq!(out.fields.len(), 1);
    assert_eq!(out.fields[0].name, "1");
}

#[test]
fn estimated_size_sums_buffers_and_children() {
    assert_eq!(validity_size(None), 0);
    assert_eq!(validity_size(Some(&vec![0u8; 4])), 4);
    let layout = ArrayLayout::Struct {
        children: vec![
            ArrayLayout::Primitive { len: 10, elem_size: 8, validity_bytes: 2 },
            ArrayLayout::Binary {
                values_start: 4,
                values_end: 20,
                offsets_len: 11,
                offset_size: 4,
                validity_bytes: 0,
            },
        ],
        validity_bytes: 3,
    };
    // 10*8+2 + (20-4)+11*4+0 + 3
    assert_eq!(estimated_bytes_size(&layout), 82 + 60 + 3);
}

#[test]
fn segment_serializes_deterministically() {
    let seg = SegmentInfo::new(
        vec![BlockMeta { row_count: 3, block_size: 100, location: "loc0".to_string() }],
        Statistics { row_count: 3, block_count: 1 },
    );
    let b1 = seg.to_bytes();
    let b2 = seg.to_bytes();
    assert_eq!(b1, b2);
    // version + row count + block count + block list length, then the
    // block: row count + size + location length + 4 location bytes.
    assert_eq!(b1.len(), 8 * 4 + 8 * 3 + 4);
}

#[test]
fn partition_descriptors_downcast_by_variant() {
    let part = StreamTablePart::create(
        Partitions { partitions: vec![] },
        Scalar::UInt64(9),
    );
    let sp = StreamTablePart::from_part(&part).unwrap();
    assert_eq!(sp.base_block_ids(), Scalar::UInt64(9));
    assert!(DeltaPartInfo::from_part(&part).is_err());

    let delta = PartInfoVariant::Delta(DeltaPartInfo::Parquet(ParquetPart {
        location: "p.parquet".to_string(),
        compressed_size: 1,
        uncompressed_size: 2,
    }));
    let dp = DeltaPartInfo::from_part(&delta).unwrap();
    let h1 = dp.hash();
    let h2 = dp.hash();
    assert_eq!(h1, h2);
    assert!(StreamTablePart::from_part(&delta).is_none());
}

#[test]
fn table_meta_rules_accept_only_parquet_non_views() {
    assert!(handle_table_meta(None, None).is_ok());
    let parquet = "org.apache.hadoop.hive.ql.io.parquet.MapredParquetInputFormat".to_string();
    assert!(handle_table_meta(Some(&parquet), None).is_ok());
    let orc = "org.apache.hadoop.hive.ql.io.orc.OrcInputFormat".to_string();
    assert!(handle_table_meta(Some(&orc), None).is_err());
    let view = "VIRTUAL_VIEW".to_string();
    assert!(handle_table_meta(Some(&parquet), Some(&view)).is_err());
    let managed = "MANAGED_TABLE".to_string();
    assert!(handle_table_meta(Some(&parquet), Some(&managed)).is_ok());
}

#[test]
fn virtual_column_names_follow_key_paths() {
    let name = virtual_column_name_for_path("v", b"{1,a}").unwrap();
    assert_eq!(name, "v[1]['a']");
    let name = virtual_column_name_for_path("col", b"{-2}").unwrap();
    assert_eq!(name, "col[-2]");
    assert!(virtual_column_name_for_path("v", b"{{bad").is_none());
    // Quote-bearing paths are refused outright, an unterminated quoted
    // name among them.
    assert!(virtual_column_name_for_path("v", b"{\"a\"}").is_none());
    assert!(virtual_column_name_for_path("v", b"{\"a").is_none());
}

#[test]
fn stream_column_table_field_pairs_name_and_type() {
    let c = StreamColumn::new("_origin_version", StreamColumnType::OriginVersion);
    let f = c.table_field();
    assert_eq!(f.name, "_origin_version");
    assert_eq!(f.column_id, dataflow_core::stream_column::ORIGIN_VERSION_COLUMN_ID);
    assert_eq!(f.default_expr.as_deref(), Some("Null"));
    match f.data_type {
        dataflow_core::batch::TableDataType::Nullable(inner) => {
            assert_eq!(*inner, dataflow_core::batch::TableDataType::Number(NumberDataType::UInt64));
        },
        other => panic!("unexpected type {:?}", other),
    }
}
