use csv_columnar::{
    bind_schema, create_arrays_from_rows_efficient, create_record_batch_efficient,
    estimate_row_size_efficient, final_status, parse_csv_headers, parse_csv_row_efficient,
    Accumulator, Batch, BatchQueue, ColumnData, ColumnDefinition, ConvertError, Converter, DataType,
    FieldValue, Handoff, JobStatus, PhysicalType, PipelineConfig, Producer, Row, Step, run_conversion,
};

fn col(name: &str, t: DataType) -> ColumnDefinition {
    ColumnDefinition { column: name.to_string(), column_type: t }
}

fn run(columns: Vec<ColumnDefinition>, config: PipelineConfig, lines: &[String]) -> (Vec<Batch>, usize, Result<(), ConvertError>) {
    let mut conv = Converter::new(columns, &config);
    let mut batches = Vec::new();
    for line in lines {
        match conv.feed_line(line) {
            Ok(Some(b)) => batches.push(b),
            Ok(None) => {}
            Err(e) => return (batches, conv.skipped_rows(), Err(e)),
        }
    }
    match conv.finish() {
        Ok(Some(b)) => batches.push(b),
        Ok(None) => {}
        Err(e) => return (batches, conv.skipped_rows(), Err(e)),
    }
    (batches, conv.skipped_rows(), Ok(()))
}

fn lines(v: &[&str]) -> Vec<String> {
    v.iter().map(|s| s.to_string()).collect()
}

fn all_rows(batches: &[Batch]) -> Vec<Row> {
    batches.iter().flat_map(|b| b.rows.clone()).collect()
}

#[test]
fn string_and_integer_rows_with_nulls() {
    let cfg = PipelineConfig::new(100, 1 << 20, 2).unwrap();
    let (batches, skipped, res) = run(
        vec![col("A", DataType::String), col("B", DataType::Integer)],
        cfg,
        &lines(&["A,B", "x,1", "y,", "z,bad"]),
    );
    assert_eq!(res, Ok(()));
    assert_eq!(skipped, 0);
    let rows = all_rows(&batches);
    assert_eq!(
        rows,
        vec![
            vec![FieldValue::Str("x".to_string()), FieldValue::Int(1)],
            vec![FieldValue::Str("y".to_string()), FieldValue::Null],
            vec![FieldValue::Str("z".to_string()), FieldValue::Null],
        ]
    );
}

#[test]
fn one_unterminated_quote_in_a_thousand_rows() {
    let mut input = vec!["id,name".to_string()];
    for i in 0..1000 {
        if i == 500 {
            input.push("500,\"broken".to_string());
        } else {
            input.push(format!("{},n{}", i, i));
        }
    }
    let cfg = PipelineConfig::new(64, 1 << 20, 1).unwrap();
    let (batches, skipped, res) =
        run(vec![col("id", DataType::Integer), col("name", DataType::String)], cfg, &input);
    assert_eq!(res, Ok(()));
    assert_eq!(final_status(&res), JobStatus::Success);
    assert_eq!(skipped, 1);
    let rows = all_rows(&batches);
    assert_eq!(rows.len(), 999);
    assert!(rows.iter().all(|r| r[0] != FieldValue::Int(500)));
}

#[test]
fn rows_keep_input_order_across_batches() {
    let mut input = vec!["n".to_string()];
    for i in 0..10 {
        input.push(i.to_string());
    }
    let cfg = PipelineConfig::new(3, 1 << 20, 1).unwrap();
    let (batches, _, res) = run(vec![col("n", DataType::Integer)], cfg, &input);
    assert_eq!(res, Ok(()));
    assert_eq!(batches.iter().map(|b| b.rows.len()).collect::<Vec<_>>(), vec![3, 3, 3, 1]);
    let got: Vec<FieldValue> = all_rows(&batches).into_iter().map(|r| r[0].clone()).collect();
    let want: Vec<FieldValue> = (0..10).map(FieldValue::Int).collect();
    assert_eq!(got, want);
}

#[test]
fn empty_input_is_a_schema_error() {
    let cfg = PipelineConfig::new(10, 1000, 1).unwrap();
    let (_, _, res) = run(vec![col("a", DataType::String)], cfg, &lines(&[]));
    assert_eq!(res, Err(ConvertError::Schema));
    let (_, _, res) = run(vec![col("a", DataType::String)], cfg, &lines(&["", "   "]));
    assert_eq!(res, Err(ConvertError::Schema));
    assert_eq!(final_status(&res), JobStatus::Failed);
}

#[test]
fn header_only_input_succeeds_with_no_rows() {
    let cfg = PipelineConfig::new(10, 1000, 1).unwrap();
    let (batches, skipped, res) = run(vec![col("a", DataType::String)], cfg, &lines(&["a"]));
    assert_eq!(res, Ok(()));
    assert!(batches.is_empty());
    assert_eq!(skipped, 0);
}

#[test]
fn every_row_failing_still_succeeds() {
    let cfg = PipelineConfig::new(10, 1000, 1).unwrap();
    let (batches, skipped, res) =
        run(vec![col("a", DataType::String)], cfg, &lines(&["a", "\"x", "\"y"]));
    assert_eq!(res, Ok(()));
    assert!(batches.is_empty());
    assert_eq!(skipped, 2);
}

#[test]
fn columns_bind_by_name_not_order() {
    let headers = parse_csv_headers(" b , a ,c").unwrap();
    assert_eq!(headers, vec!["b".to_string(), "a".to_string(), "c".to_string()]);
    let columns = vec![col("a", DataType::Integer), col("b", DataType::String), col("zz", DataType::Integer)];
    let binding = bind_schema(&columns, &headers);
    assert_eq!(binding, vec![Some(1), Some(0), None]);
    let row = parse_csv_row_efficient("hello,5,ignored", &columns, &binding).unwrap();
    assert_eq!(row, vec![FieldValue::Int(5), FieldValue::Str("hello".to_string()), FieldValue::Null]);
    // a short line leaves the missing columns null
    let row = parse_csv_row_efficient("only", &columns, &binding).unwrap();
    assert_eq!(row, vec![FieldValue::Null, FieldValue::Str("only".to_string()), FieldValue::Null]);
}

#[test]
fn repeated_header_names_bind_to_the_last() {
    let headers = parse_csv_headers("a,a").unwrap();
    let binding = bind_schema(&vec![col("a", DataType::String)], &headers);
    assert_eq!(binding, vec![Some(1)]);
}

#[test]
fn quoted_fields() {
    let columns = vec![col("a", DataType::String), col("b", DataType::String), col("c", DataType::String)];
    let binding = vec![Some(0), Some(1), Some(2)];
    let row = parse_csv_row_efficient("\"x,y\",\"he said \"\"hi\"\"\",", &columns, &binding).unwrap();
    assert_eq!(
        row,
        vec![
            FieldValue::Str("x,y".to_string()),
            FieldValue::Str("he said \"hi\"".to_string()),
            FieldValue::Null,
        ]
    );
    assert_eq!(parse_csv_row_efficient("\"open,1", &columns, &binding), Err(ConvertError::Parse));
    assert_eq!(parse_csv_headers("\"open,b"), Err(ConvertError::Schema));
    assert_eq!(parse_csv_headers("   "), Err(ConvertError::Schema));
    assert_eq!(parse_csv_headers("\"a,b\",c").unwrap(), vec!["a,b".to_string(), "c".to_string()]);
}

#[test]
fn row_size_estimate() {
    let row = vec![
        FieldValue::Str("abcd".to_string()),
        FieldValue::Null,
        FieldValue::Int(1),
        FieldValue::Bool(true),
        FieldValue::Date(3),
        FieldValue::Timestamp(4),
        FieldValue::Float("1.5".to_string()),
    ];
    assert_eq!(estimate_row_size_efficient(&row), 28 + 32 + 8 + 1 + 4 + 8 + 8);
    assert_eq!(estimate_row_size_efficient(&vec![]), 0);
    // text is charged its UTF-8 bytes: "é" is two of them
    assert_eq!(estimate_row_size_efficient(&vec![FieldValue::Str("é".to_string())]), 26);
    assert_eq!(estimate_row_size_efficient(&vec![FieldValue::Null]), 32);
}

#[test]
fn accumulator_flushes_on_byte_ceiling() {
    let cfg = PipelineConfig::new(1000, 60, 1).unwrap();
    let mut acc = Accumulator::new(&cfg);
    let row = || vec![FieldValue::Str("abcdef".to_string())]; // 30 bytes
    assert!(acc.push(row()).is_none());
    let b = acc.push(row()).expect("second row reaches the byte ceiling");
    assert_eq!(b.rows.len(), 2);
    assert_eq!(b.estimated_bytes, 60);
    assert_eq!(acc.len(), 0);
    assert!(acc.push(row()).is_none());
    let rest = acc.take_rest().unwrap();
    assert_eq!(rest.rows.len(), 1);
    assert!(acc.take_rest().is_none());
}

#[test]
fn accumulator_flushes_on_row_ceiling() {
    let cfg = PipelineConfig::new(2, 1 << 30, 1).unwrap();
    let mut acc = Accumulator::new(&cfg);
    assert!(acc.push(vec![FieldValue::Int(1)]).is_none());
    let b = acc.push(vec![FieldValue::Int(2)]).unwrap();
    assert_eq!(b.rows, vec![vec![FieldValue::Int(1)], vec![FieldValue::Int(2)]]);
    assert_eq!(b.estimated_bytes, 16);
}

#[test]
fn config_rejects_zero_knobs() {
    assert!(PipelineConfig::new(0, 1, 1).is_none());
    assert!(PipelineConfig::new(1, 0, 1).is_none());
    assert!(PipelineConfig::new(1, 1, 0).is_none());
    let c = PipelineConfig::new(5, 6, 7).unwrap();
    assert_eq!((c.max_rows, c.max_bytes, c.queue_depth), (5, 6, 7));
}

#[test]
fn materialize_and_read_back() {
    let columns = vec![
        col("s", DataType::String),
        col("i", DataType::Integer),
        col("f", DataType::Float),
        col("b", DataType::Boolean),
        col("d", DataType::Date),
        col("t", DataType::Timestamp),
    ];
    let rows: Vec<Row> = vec![
        vec![
            FieldValue::Str("a".to_string()),
            FieldValue::Int(1),
            FieldValue::Float("1.5".to_string()),
            FieldValue::Bool(true),
            FieldValue::Date(19783),
            FieldValue::Timestamp(7),
        ],
        vec![FieldValue::Null; 6],
        vec![
            FieldValue::Str("c".to_string()),
            FieldValue::Int(-3),
            FieldValue::Null,
            FieldValue::Bool(false),
            FieldValue::Null,
            FieldValue::Timestamp(-9),
        ],
    ];
    let cols = create_record_batch_efficient(&rows, &columns).unwrap();
    assert_eq!(cols.len(), 6);
    for (c, column) in cols.iter().enumerate() {
        assert_eq!(column.len(), 3);
        for i in 0..3 {
            assert_eq!(column.value_at(i), rows[i][c]);
        }
    }
    assert!(matches!(&cols[1], ColumnData::Int64(v) if v == &vec![Some(1), None, Some(-3)]));
    assert_eq!(DataType::Timestamp.physical_type(), PhysicalType::TimestampNanosUtc);
    assert_eq!(DataType::Date.physical_type(), PhysicalType::Date32);
}

#[test]
fn mismatched_values_become_absent_entries() {
    let columns = vec![col("i", DataType::Integer), col("s", DataType::String)];
    let rows: Vec<Row> = vec![vec![FieldValue::Str("x".to_string())]];
    let cols = create_arrays_from_rows_efficient(&rows, &columns);
    assert_eq!(cols[0].value_at(0), FieldValue::Null);
    assert_eq!(cols[1].value_at(0), FieldValue::Null);
    assert_eq!(cols[1].len(), 1);
}

#[test]
fn empty_batch_is_a_format_error() {
    let columns = vec![col("i", DataType::Integer)];
    assert!(matches!(create_record_batch_efficient(&vec![], &columns), Err(ConvertError::Format)));
}

#[test]
fn queue_of_depth_one_applies_backpressure() {
    let mut q: BatchQueue<u32> = BatchQueue::new(1);
    let mut in_memory_peak = 0;
    let mut produced = Vec::new();
    let mut consumed = Vec::new();
    // the producer is faster: it offers two batches per batch the consumer takes
    let mut next = 0u32;
    let mut holding: Option<u32> = None;
    while consumed.len() < 6 {
        for _ in 0..2 {
            let b = holding.take().unwrap_or_else(|| {
                next += 1;
                next
            });
            match q.try_push(b) {
                Handoff::Accepted => produced.push(b),
                Handoff::Full(back) => holding = Some(back),
                Handoff::Closed(_) => unreachable!(),
            }
            let in_memory = q.len() + usize::from(holding.is_some());
            in_memory_peak = in_memory_peak.max(in_memory);
        }
        if let Some(b) = q.pop() {
            consumed.push(b);
        }
    }
    assert!(in_memory_peak <= 2);
    assert_eq!(consumed, vec![1, 2, 3, 4, 5, 6]);
    assert_eq!(consumed, produced[..6].to_vec());
}

#[test]
fn closed_queue_returns_the_batch() {
    let mut q: BatchQueue<u32> = BatchQueue::new(2);
    assert!(matches!(q.try_push(1), Handoff::Accepted));
    q.close();
    assert!(matches!(q.try_push(2), Handoff::Closed(2)));
    assert_eq!(q.pop(), Some(1));
    assert_eq!(q.pop(), None);
}

#[test]
fn producer_with_slow_consumer_keeps_order_and_bound() {
    let cfg = PipelineConfig::new(2, 1 << 20, 1).unwrap();
    let mut q: BatchQueue<Batch> = BatchQueue::new(1);
    let mut p = Producer::new(vec![col("n", DataType::Integer)], &cfg, &q);
    let mut input = vec!["n".to_string()];
    for i in 0..20 {
        input.push(i.to_string());
    }
    let mut delivered: Vec<Row> = Vec::new();
    let mut peak = 0;
    let mut tick = 0;
    for line in &input {
        let mut step = p.feed_line(line, &mut q).unwrap();
        loop {
            peak = peak.max(q.len() + usize::from(p.holds_batch()));
            match step {
                Step::Continue => break,
                Step::Wait => {
                    // the consumer takes a batch only now and then
                    tick += 1;
                    if tick % 2 == 0 {
                        if let Some(b) = q.pop() {
                            delivered.extend(b.rows);
                        }
                    }
                    step = p.retry(&mut q);
                }
                Step::Stopped => panic!("the consumer never stops here"),
            }
        }
    }
    let mut step = p.finish(&mut q).unwrap();
    while step == Step::Wait {
        if let Some(b) = q.pop() {
            delivered.extend(b.rows);
        }
        step = p.retry(&mut q);
    }
    while let Some(b) = q.pop() {
        delivered.extend(b.rows);
    }
    assert!(peak <= 2);
    assert_eq!(p.skipped_rows(&q), 0);
    let want: Vec<Row> = (0..20).map(|i| vec![FieldValue::Int(i)]).collect();
    assert_eq!(delivered, want);
}

#[test]
fn producer_stops_when_the_consumer_is_gone() {
    let cfg = PipelineConfig::new(1, 1 << 20, 1).unwrap();
    let mut q: BatchQueue<Batch> = BatchQueue::new(1);
    let mut p = Producer::new(vec![col("n", DataType::Integer)], &cfg, &q);
    assert_eq!(p.feed_line("n", &mut q).unwrap(), Step::Continue);
    q.close();
    assert_eq!(p.feed_line("1", &mut q).unwrap(), Step::Stopped);
    assert!(p.holds_batch());
    assert_eq!(q.len(), 0);
}

#[test]
fn producer_rejects_an_empty_input() {
    let cfg = PipelineConfig::new(1, 1 << 20, 1).unwrap();
    let mut q: BatchQueue<Batch> = BatchQueue::new(1);
    let mut p = Producer::new(vec![col("n", DataType::Integer)], &cfg, &q);
    assert!(matches!(p.finish(&mut q), Err(ConvertError::Schema)));
}

#[test]
fn whole_run_with_one_broken_row() {
    let mut input = vec!["".to_string(), "id,name".to_string()];
    for i in 0..1000 {
        if i == 321 {
            input.push("321,\"unclosed".to_string());
        } else {
            input.push(format!("{},n{}", i, i));
        }
        if i % 100 == 0 {
            input.push("  ".to_string());
        }
    }
    let cfg = PipelineConfig::new(50, 1 << 20, 1).unwrap();
    let out = run_conversion(&input, vec![col("id", DataType::Integer), col("name", DataType::String)], &cfg)
        .expect("a header line is present");
    assert_eq!(out.skipped_rows, 1);
    assert_eq!(final_status(&Ok::<(), ConvertError>(())), JobStatus::Success);
    let rows = all_rows(&out.batches);
    assert_eq!(rows.len(), 999);
    let ids: Vec<FieldValue> = rows.iter().map(|r| r[0].clone()).collect();
    let want: Vec<FieldValue> = (0..1000).filter(|i| *i != 321).map(FieldValue::Int).collect();
    assert_eq!(ids, want);
}

#[test]
fn whole_run_without_header() {
    let cfg = PipelineConfig::new(5, 1 << 20, 2).unwrap();
    let r = run_conversion(&vec!["".to_string(), " ".to_string()], vec![col("a", DataType::String)], &cfg);
    assert!(matches!(r, Err(ConvertError::Schema)));
    let r = run_conversion(&vec!["\"a,b".to_string(), "1".to_string()], vec![col("a", DataType::String)], &cfg);
    assert!(matches!(r, Err(ConvertError::Schema)));
}
