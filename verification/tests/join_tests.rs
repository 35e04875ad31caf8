use dataflow_core::batch::BlockEntry;
use dataflow_core::batch::Column;
use dataflow_core::batch::DataBlock;
use dataflow_core::batch::DataType;
use dataflow_core::batch::NumberDataType;
use dataflow_core::batch::Scalar;
use dataflow_core::batch::Value;
use dataflow_core::error::CODE_ABORTED_QUERY;
use dataflow_core::hash_table::build_table;
use dataflow_core::join::Conjunct;
use dataflow_core::join::HashJoinProbeState;
use dataflow_core::join::Interrupt;

fn build_side_block(keys: Vec<u64>, vals: Vec<&str>) -> DataBlock {
    let n = keys.len();
    DataBlock {
        entries: vec![
            BlockEntry {
                data_type: DataType::Number(NumberDataType::UInt64),
                value: Value::Column(Column::UInt64(keys)),
            },
            BlockEntry {
                data_type: DataType::Text,
                value: Value::Column(Column::Str(vals.into_iter().map(|s| s.to_string()).collect())),
            },
        ],
        num_rows: n,
        meta: None,
    }
}

fn probe_block(keys: &[u64]) -> DataBlock {
    DataBlock {
        entries: vec![BlockEntry {
            data_type: DataType::Number(NumberDataType::UInt64),
            value: Value::Column(Column::UInt64(keys.to_vec())),
        }],
        num_rows: keys.len(),
        meta: None,
    }
}

fn two_row_state() -> (HashJoinProbeState, dataflow_core::hash_table::HashJoinTable) {
    let build = build_side_block(vec![1, 2], vec!["a", "b"]);
    let table = build_table(&vec![vec![1u64, 2]], 8);
    let state = HashJoinProbeState {
        interrupt: Interrupt::new(),
        build_chunks: vec![build],
        other_predicate: None,
        max_block_size: 100,
    };
    (state, table)
}

#[test]
fn inner_join_two_matches() {
    let (state, table) = two_row_state();
    let probe = probe_block(&[1, 2, 3]);
    let keys = vec![1u64, 2, 3];
    let blocks = state.inner_join(&probe, &keys, &table).unwrap();
    assert_eq!(blocks.len(), 1);
    let b = &blocks[0];
    assert_eq!(b.num_rows(), 2);
    assert_eq!(b.num_columns(), 3);
    assert_eq!(b.get_cell(0, 0), Scalar::UInt64(1));
    assert_eq!(b.get_cell(1, 0), Scalar::UInt64(1));
    assert_eq!(b.get_cell(2, 0), Scalar::Str("a".to_string()));
    assert_eq!(b.get_cell(0, 1), Scalar::UInt64(2));
    assert_eq!(b.get_cell(1, 1), Scalar::UInt64(2));
    assert_eq!(b.get_cell(2, 1), Scalar::Str("b".to_string()));
}

#[test]
fn left_anti_join_keeps_unmatched_row() {
    let (state, table) = two_row_state();
    let probe = probe_block(&[1, 2, 3]);
    let keys = vec![1u64, 2, 3];
    let blocks = state.left_anti_join(&probe, &keys, &table).unwrap();
    assert_eq!(blocks.len(), 1);
    let b = &blocks[0];
    assert_eq!(b.num_rows(), 1);
    assert_eq!(b.get_cell(0, 0), Scalar::UInt64(3));
}

#[test]
fn left_semi_join_keeps_matched_rows() {
    let (state, table) = two_row_state();
    let probe = probe_block(&[1, 2, 3]);
    let keys = vec![1u64, 2, 3];
    let blocks = state.left_semi_join(&probe, &keys, &table).unwrap();
    assert_eq!(blocks.len(), 1);
    let b = &blocks[0];
    assert_eq!(b.num_rows(), 2);
    assert_eq!(b.get_cell(0, 0), Scalar::UInt64(1));
    assert_eq!(b.get_cell(0, 1), Scalar::UInt64(2));
}

#[test]
fn semi_and_anti_partition_the_probe_rows() {
    let (state, table) = two_row_state();
    let probe = probe_block(&[7, 1, 7, 2, 9]);
    let keys = vec![7u64, 1, 7, 2, 9];
    let semi = state.left_semi_join(&probe, &keys, &table).unwrap();
    let anti = state.left_anti_join(&probe, &keys, &table).unwrap();
    let semi_rows = semi.iter().map(|b| b.num_rows()).sum::<usize>();
    let anti_rows = anti.iter().map(|b| b.num_rows()).sum::<usize>();
    assert_eq!(semi_rows + anti_rows, 5);
    assert_eq!(semi_rows, 2);
    assert_eq!(anti_rows, 3);
}

#[test]
fn empty_build_side_anti_returns_all_rows() {
    let table = build_table(&vec![], 8);
    let state = HashJoinProbeState {
        interrupt: Interrupt::new(),
        build_chunks: vec![],
        other_predicate: None,
        max_block_size: 100,
    };
    let probe = probe_block(&[10, 20, 30, 40, 50]);
    let keys = vec![10u64, 20, 30, 40, 50];
    let anti = state.left_anti_join(&probe, &keys, &table).unwrap();
    assert_eq!(anti.len(), 1);
    assert_eq!(anti[0].num_rows(), 5);
    for i in 0..5 {
        assert_eq!(anti[0].get_cell(0, i), probe.get_cell(0, i));
    }
    let semi = state.left_semi_join(&probe, &keys, &table).unwrap();
    assert_eq!(semi.len(), 0);
    let inner = state.inner_join(&probe, &keys, &table).unwrap();
    assert_eq!(inner.len(), 0);
}

#[test]
fn interrupted_probe_aborts() {
    let (mut state, table) = two_row_state();
    state.interrupt.trip();
    let probe = probe_block(&[1, 2, 3]);
    let keys = vec![1u64, 2, 3];
    let err = state.left_anti_join(&probe, &keys, &table).unwrap_err();
    assert_eq!(err.code(), CODE_ABORTED_QUERY);
    let err = state.left_semi_join(&probe, &keys, &table).unwrap_err();
    assert_eq!(err.code(), CODE_ABORTED_QUERY);
    let err = state.inner_join(&probe, &keys, &table).unwrap_err();
    assert_eq!(err.code(), CODE_ABORTED_QUERY);
}

#[test]
fn conjunct_anti_join_false_predicate_keeps_all() {
    let (mut state, table) = two_row_state();
    state.other_predicate = Some(Conjunct::ConstBool(false));
    let probe = probe_block(&[1, 2, 3]);
    let keys = vec![1u64, 2, 3];
    let blocks = state.left_anti_join_with_conjunct(&probe, &keys, &table).unwrap();
    assert_eq!(blocks.len(), 1);
    assert_eq!(blocks[0].num_rows(), 3);
}

#[test]
fn conjunct_anti_join_true_predicate_matches_keys() {
    let (mut state, table) = two_row_state();
    state.other_predicate = Some(Conjunct::ConstBool(true));
    let probe = probe_block(&[1, 2, 3]);
    let keys = vec![1u64, 2, 3];
    let blocks = state.left_anti_join_with_conjunct(&probe, &keys, &table).unwrap();
    assert_eq!(blocks.len(), 1);
    assert_eq!(blocks[0].num_rows(), 1);
    assert_eq!(blocks[0].get_cell(0, 0), Scalar::UInt64(3));
}

#[test]
fn conjunct_anti_join_chunked_matches_unchunked() {
    // The same probe under a one-pair chunk bound and a large bound must
    // resolve to the same anti result.
    let build = build_side_block(vec![1, 1, 2], vec!["a", "b", "b"]);
    let conjunct = Conjunct::ColumnsEq { probe_col: 0, build_col: 0 };
    let probe = probe_block(&[1, 2, 3]);
    let keys = vec![1u64, 2, 3];

    let small = HashJoinProbeState {
        interrupt: Interrupt::new(),
        build_chunks: vec![build_side_block(vec![1, 1, 2], vec!["a", "b", "b"])],
        other_predicate: Some(conjunct),
        max_block_size: 1,
    };
    let large = HashJoinProbeState {
        interrupt: Interrupt::new(),
        build_chunks: vec![build],
        other_predicate: Some(conjunct),
        max_block_size: 1000,
    };
    let table_small = build_table(&vec![vec![1u64, 1, 2]], 8);
    let r_small = small.left_anti_join_with_conjunct(&probe, &keys, &table_small).unwrap();
    let r_large = large.left_anti_join_with_conjunct(&probe, &keys, &table_small).unwrap();
    assert_eq!(r_small.len(), r_large.len());
    assert_eq!(r_small.len(), 1);
    assert_eq!(r_small[0].num_rows(), r_large[0].num_rows());
    for i in 0..r_small[0].num_rows() {
        assert_eq!(r_small[0].get_cell(0, i), r_large[0].get_cell(0, i));
    }
    // Key 3 never matches; keys 1 and 2 match with an equal-key conjunct.
    assert_eq!(r_small[0].num_rows(), 1);
    assert_eq!(r_small[0].get_cell(0, 0), Scalar::UInt64(3));
}

#[test]
fn conjunct_anti_join_interrupt_aborts_with_pairs() {
    let (mut state, table) = two_row_state();
    state.other_predicate = Some(Conjunct::ConstBool(true));
    state.interrupt.trip();
    let probe = probe_block(&[1, 2, 3]);
    let keys = vec![1u64, 2, 3];
    let err = state.left_anti_join_with_conjunct(&probe, &keys, &table).unwrap_err();
    assert_eq!(err.code(), CODE_ABORTED_QUERY);
}

#[test]
fn conjunct_anti_join_interrupt_aborts_without_pairs() {
    // Even a batch with no candidate pair must abort once the flag is set.
    let table = build_table(&vec![], 8);
    let mut state = HashJoinProbeState {
        interrupt: Interrupt::new(),
        build_chunks: vec![],
        other_predicate: Some(Conjunct::ConstBool(true)),
        max_block_size: 4,
    };
    state.interrupt.trip();
    let probe = probe_block(&[1, 2, 3]);
    let keys = vec![1u64, 2, 3];
    let err = state.left_anti_join_with_conjunct(&probe, &keys, &table).unwrap_err();
    assert_eq!(err.code(), CODE_ABORTED_QUERY);
}

#[test]
fn inner_projection_equals_semi_rows() {
    // Projecting the build columns out of the inner-join output leaves
    // exactly the semi join's probe rows, duplicates collapsed.
    let build = build_side_block(vec![1, 1, 2], vec!["a", "b", "c"]);
    let table = build_table(&vec![vec![1u64, 1, 2]], 8);
    let state = HashJoinProbeState {
        interrupt: Interrupt::new(),
        build_chunks: vec![build],
        other_predicate: None,
        max_block_size: 100,
    };
    let probe = probe_block(&[1, 2, 3]);
    let keys = vec![1u64, 2, 3];

    let inner = state.inner_join(&probe, &keys, &table).unwrap();
    let mut inner_probe_keys: Vec<u64> = vec![];
    for b in &inner {
        for i in 0..b.num_rows() {
            match b.get_cell(0, i) {
                Scalar::UInt64(k) => inner_probe_keys.push(k),
                other => panic!("unexpected cell {:?}", other),
            }
        }
    }
    inner_probe_keys.dedup();

    let semi = state.left_semi_join(&probe, &keys, &table).unwrap();
    let mut semi_keys: Vec<u64> = vec![];
    for b in &semi {
        for i in 0..b.num_rows() {
            match b.get_cell(0, i) {
                Scalar::UInt64(k) => semi_keys.push(k),
                other => panic!("unexpected cell {:?}", other),
            }
        }
    }
    assert_eq!(inner_probe_keys, semi_keys);
    assert_eq!(semi_keys, vec![1, 2]);
}
