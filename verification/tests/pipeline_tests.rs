use dataflow_core::batch::BlockEntry;
use dataflow_core::batch::Column;
use dataflow_core::batch::DataBlock;
use dataflow_core::batch::DataType;
use dataflow_core::batch::NumberDataType;
use dataflow_core::batch::Scalar;
use dataflow_core::batch::Value;
use dataflow_core::error::CODE_INTERNAL;
use dataflow_core::exchange::FlightScatter;
use dataflow_core::exchange::MergeExchangeParams;
use dataflow_core::pipeline::Pipe;
use dataflow_core::pipeline::PipeItem;
use dataflow_core::pipeline::Pipeline;
use dataflow_core::pipeline::ProcessorKind;
use dataflow_core::exchange::ExchangeParams;
use dataflow_core::pipeline::via_exchange_source;
use dataflow_core::port::Port;
use dataflow_core::schema::DataField;
use dataflow_core::schema::DataSchema;
use dataflow_core::wire::decode_block;
use dataflow_core::wire::encode_block;

fn one_row_block(v: u64) -> DataBlock {
    DataBlock {
        entries: vec![BlockEntry {
            data_type: DataType::Number(NumberDataType::UInt64),
            value: Value::Column(Column::UInt64(vec![v])),
        }],
        num_rows: 1,
        meta: None,
    }
}

fn keyed_block(keys: &[u64]) -> DataBlock {
    DataBlock {
        entries: vec![BlockEntry {
            data_type: DataType::Number(NumberDataType::UInt64),
            value: Value::Column(Column::UInt64(keys.to_vec())),
        }],
        num_rows: keys.len(),
        meta: None,
    }
}

#[test]
fn port_delivers_batches_in_push_order() {
    let mut port = Port::create();
    assert!(port.can_push());
    port.push_data(one_row_block(1));
    assert!(!port.can_push());
    let a = port.pull_data().unwrap();
    assert_eq!(a.get_cell(0, 0), Scalar::UInt64(1));
    port.push_data(one_row_block(2));
    let b = port.pull_data().unwrap();
    assert_eq!(b.get_cell(0, 0), Scalar::UInt64(2));
    assert!(port.pull_data().is_none());
    port.finish();
    assert!(port.is_finished());
    assert!(!port.can_push());
}

#[test]
fn hash_scatter_partitions_every_row_once() {
    let block = keyed_block(&[0, 1, 2, 3, 4, 5, 6]);
    let scatter = FlightScatter::Hash { key_column: 0, n_destinations: 3 };
    let parts = scatter.execute(&block).unwrap();
    assert_eq!(parts.len(), 3);
    let total: usize = parts.iter().map(|p| p.num_rows()).sum();
    assert_eq!(total, 7);
    for (d, part) in parts.iter().enumerate() {
        for i in 0..part.num_rows() {
            match part.get_cell(0, i) {
                Scalar::UInt64(k) => assert_eq!((k % 3) as usize, d),
                other => panic!("unexpected cell {:?}", other),
            }
        }
    }
}

#[test]
fn hash_scatter_is_deterministic() {
    let block = keyed_block(&[42, 17, 99, 3, 3, 42]);
    let scatter = FlightScatter::Hash { key_column: 0, n_destinations: 4 };
    let first = scatter.execute(&block).unwrap();
    let second = scatter.execute(&block).unwrap();
    assert_eq!(first.len(), second.len());
    for d in 0..first.len() {
        assert_eq!(first[d].num_rows(), second[d].num_rows());
        for i in 0..first[d].num_rows() {
            assert_eq!(first[d].get_cell(0, i), second[d].get_cell(0, i));
        }
    }
}

#[test]
fn broadcast_scatter_copies_whole_block() {
    let block = keyed_block(&[5, 6]);
    let scatter = FlightScatter::Broadcast { n_destinations: 2 };
    let parts = scatter.execute(&block).unwrap();
    assert_eq!(parts.len(), 2);
    for part in &parts {
        assert_eq!(part.num_rows(), 2);
        assert_eq!(part.get_cell(0, 0), Scalar::UInt64(5));
        assert_eq!(part.get_cell(0, 1), Scalar::UInt64(6));
    }
}

fn merge_params(destination: &str, allow_adjust: bool) -> MergeExchangeParams {
    MergeExchangeParams {
        query_id: "q1".to_string(),
        fragment_id: 7,
        destination_id: destination.to_string(),
        schema: DataSchema { fields: vec![] },
        ignore_exchange: false,
        allow_adjust_parallelism: allow_adjust,
    }
}

fn seed_pipeline(width: usize) -> Pipeline {
    let mut p = Pipeline::new();
    p.add_pipe(Pipe {
        input_len: 0,
        output_len: width,
        items: vec![PipeItem { kind: ProcessorKind::Dummy, inputs: 0, outputs: width }],
    });
    p
}

#[test]
fn merge_exchange_on_wrong_node_is_refused() {
    let mut pipeline = seed_pipeline(2);
    let params = merge_params("node-b", false);
    let sources = vec!["node-c".to_string()];
    let err = via_exchange_source("node-a", &params, &sources, &mut pipeline).unwrap_err();
    assert_eq!(err.code(), CODE_INTERNAL);
    assert_eq!(pipeline.pipes.len(), 1);
}

#[test]
fn merge_exchange_wires_sources_and_deserializers() {
    let mut pipeline = seed_pipeline(2);
    let params = merge_params("node-a", false);
    let sources = vec!["node-b".to_string(), "node-c".to_string()];
    via_exchange_source("node-a", &params, &sources, &mut pipeline).unwrap();
    // Seed pipe, merge-source pipe, deserialize pipe.
    assert_eq!(pipeline.pipes.len(), 3);
    let merge_pipe = &pipeline.pipes[1];
    assert_eq!(merge_pipe.input_len, 2);
    assert_eq!(merge_pipe.output_len, 4);
    assert_eq!(merge_pipe.items.len(), 4);
    assert_eq!(merge_pipe.items[0].kind, ProcessorKind::Dummy);
    assert_eq!(merge_pipe.items[1].kind, ProcessorKind::Dummy);
    match &merge_pipe.items[2].kind {
        ProcessorKind::ExchangeSource { source_id } => assert_eq!(source_id, "node-b"),
        other => panic!("unexpected kind {:?}", other),
    }
    match &merge_pipe.items[3].kind {
        ProcessorKind::ExchangeSource { source_id } => assert_eq!(source_id, "node-c"),
        other => panic!("unexpected kind {:?}", other),
    }
    let deser_pipe = &pipeline.pipes[2];
    assert_eq!(deser_pipe.items.len(), 4);
    assert!(deser_pipe.items.iter().all(|i| i.kind == ProcessorKind::Deserialize));
    assert_eq!(pipeline.output_len(), 4);
}

#[test]
fn merge_exchange_readjusts_parallelism() {
    let mut pipeline = seed_pipeline(2);
    let params = merge_params("node-a", true);
    let sources = vec!["node-b".to_string()];
    via_exchange_source("node-a", &params, &sources, &mut pipeline).unwrap();
    // Seed pipe, merge-source pipe, resize pipe, deserialize pipe.
    assert_eq!(pipeline.pipes.len(), 4);
    assert_eq!(pipeline.output_len(), 2);
}

#[test]
fn exchange_params_expose_schema_and_query_id() {
    let schema = DataSchema {
        fields: vec![DataField {
            name: "k".to_string(),
            data_type: DataType::Number(NumberDataType::UInt64),
        }],
    };
    let params = ExchangeParams::MergeExchange(MergeExchangeParams {
        query_id: "q9".to_string(),
        fragment_id: 1,
        destination_id: "node-a".to_string(),
        schema,
        ignore_exchange: false,
        allow_adjust_parallelism: false,
    });
    assert_eq!(params.get_query_id(), "q9");
    let s = params.get_schema();
    assert_eq!(s.fields.len(), 1);
    assert_eq!(s.fields[0].name, "k");
}

#[test]
fn wire_round_trip_reconstructs_batch() {
    let block = DataBlock {
        entries: vec![
            BlockEntry {
                data_type: DataType::Number(NumberDataType::UInt64),
                value: Value::Column(Column::UInt64(vec![1, 2, 3])),
            },
            BlockEntry {
                data_type: DataType::Number(NumberDataType::Int64),
                value: Value::Column(Column::Int64(vec![-5, 0, 7])),
            },
            BlockEntry {
                data_type: DataType::Text,
                value: Value::Column(Column::Str(vec![
                    "a".to_string(),
                    "".to_string(),
                    "xyz".to_string(),
                ])),
            },
            BlockEntry {
                data_type: DataType::Nullable(Box::new(DataType::Number(NumberDataType::UInt64))),
                value: Value::Column(Column::NullableUInt64 {
                    values: vec![9, 0, 11],
                    validity: vec![true, false, true],
                }),
            },
        ],
        num_rows: 3,
        meta: None,
    };
    let bytes = encode_block(&block);
    let back = decode_block(&bytes).unwrap();
    assert_eq!(back.num_rows(), 3);
    assert_eq!(back.num_columns(), 4);
    for c in 0..4 {
        for i in 0..3 {
            assert_eq!(back.get_cell(c, i), block.get_cell(c, i));
        }
    }
    // A truncated payload is refused rather than misread.
    let tail_removed = bytes[..bytes.len() - 1].to_vec();
    assert!(decode_block(&tail_removed).is_none());
}
