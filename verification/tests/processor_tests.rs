use dataflow_core::batch::DataBlock;
use dataflow_core::batch::Scalar;
use dataflow_core::internal_column::InternalColumn;
use dataflow_core::internal_column::InternalColumnType;
use dataflow_core::meta::BlockMetaVariant;
use dataflow_core::meta::InternalColumnMeta;
use dataflow_core::port::Port;
use dataflow_core::processor::Event;
use dataflow_core::processor::TransformAddInternalColumns;
use dataflow_core::processor::TransformSerializeSegment;
use dataflow_core::segment::BlockMeta;
use dataflow_core::segment::TableMetaLocationGenerator;

fn meta_block(rows: u64, location: &str) -> DataBlock {
    let mut b = DataBlock::empty();
    b.meta = Some(BlockMetaVariant::Block(BlockMeta {
        row_count: rows,
        block_size: 64,
        location: location.to_string(),
    }));
    b
}

#[test]
fn serialize_segment_drives_to_commit() {
    let input = Port::create();
    let output = Port::create();
    let gen = TableMetaLocationGenerator::create("tbl".to_string());
    let mut t = TransformSerializeSegment::new(input, output, gen, 2);

    // No input yet: the processor asks for data.
    assert_eq!(t.event().unwrap(), Event::NeedData);

    // Two block metas fill one segment.
    t.input.push_data(meta_block(10, "b0"));
    assert_eq!(t.event().unwrap(), Event::NeedData);
    t.input.push_data(meta_block(5, "b1"));
    assert_eq!(t.event().unwrap(), Event::Sync);

    // The synchronous step serializes the segment.
    t.process().unwrap();
    assert_eq!(t.event().unwrap(), Event::Async);
    let (location, data) = t.begin_async_write().unwrap();
    assert!(location.starts_with("tbl/_sg/"));
    assert!(!data.is_empty());

    // The write is done; pre-commit records the location and buffers the
    // mutation log downstream.
    assert_eq!(t.event().unwrap(), Event::Sync);
    t.process().unwrap();
    assert_eq!(t.committed_locations.len(), 1);
    assert_eq!(t.committed_locations[0].0, location);
    assert_eq!(t.event().unwrap(), Event::NeedConsume);
    let out = t.output.pull_data().unwrap();
    match out.meta {
        Some(BlockMetaVariant::Mutation(logs)) => {
            assert_eq!(logs.entries.len(), 1);
        },
        other => panic!("unexpected meta {:?}", other),
    }

    // Input finishes with a partial segment pending: flush it.
    t.input.push_data(meta_block(1, "b2"));
    assert_eq!(t.event().unwrap(), Event::NeedData);
    t.input.finish();
    assert_eq!(t.event().unwrap(), Event::Sync);
    t.process().unwrap();
    let (second_location, _) = t.begin_async_write().unwrap();
    assert_ne!(second_location, location);
}

#[test]
fn serialize_segment_rejects_block_without_meta() {
    let input = Port::create();
    let output = Port::create();
    let gen = TableMetaLocationGenerator::create("tbl".to_string());
    let mut t = TransformSerializeSegment::new(input, output, gen, 2);
    t.input.push_data(DataBlock::empty());
    assert!(t.event().is_err());
}

#[test]
fn add_internal_columns_appends_generated_entries() {
    let cols = vec![
        (0u64, InternalColumn::new("_origin_block_id", InternalColumnType::OriginBlockId)),
        (1u64, InternalColumn::new("_origin_block_row_num", InternalColumnType::OriginRowNum)),
    ];
    let mut transform = TransformAddInternalColumns::try_create(cols).unwrap();

    let mut block = dataflow_core::batch::DataBlock {
        entries: vec![dataflow_core::batch::BlockEntry {
            data_type: dataflow_core::batch::DataType::Number(
                dataflow_core::batch::NumberDataType::UInt64,
            ),
            value: dataflow_core::batch::Value::Column(dataflow_core::batch::Column::UInt64(vec![
                7, 8, 9,
            ])),
        }],
        num_rows: 3,
        meta: Some(BlockMetaVariant::Internal(InternalColumnMeta { block_id: 42 })),
    };
    block = transform.transform(block).unwrap();
    assert_eq!(block.num_columns(), 3);
    assert_eq!(block.num_rows(), 3);
    match block.get_cell(1, 0) {
        Scalar::Decimal128(v, _) => assert_eq!(v, 42),
        other => panic!("unexpected cell {:?}", other),
    }
    assert_eq!(block.get_cell(2, 0), Scalar::UInt64(0));
    assert_eq!(block.get_cell(2, 2), Scalar::UInt64(2));

    // A change-row-id column is never generated.
    let cols = vec![(0u64, InternalColumn::new("_row_id", InternalColumnType::ChangeRowId))];
    let mut transform = TransformAddInternalColumns::try_create(cols).unwrap();
    let mut block2 = DataBlock::empty();
    block2.meta = Some(BlockMetaVariant::Internal(InternalColumnMeta { block_id: 1 }));
    let out = transform.transform(block2).unwrap();
    assert_eq!(out.num_columns(), 0);

    // A batch without metadata passes through unchanged.
    let plain = DataBlock::empty();
    let out = transform.transform(plain).unwrap();
    assert_eq!(out.num_columns(), 0);
    assert!(out.meta.is_none());

    // Any other metadata kind is an internal error.
    let mut wrong = DataBlock::empty();
    wrong.meta = Some(BlockMetaVariant::Block(BlockMeta {
        row_count: 0,
        block_size: 0,
        location: String::new(),
    }));
    assert!(transform.transform(wrong).is_err());
}
