//! Line protocol, its policy, its order and its way into the log and out of it.
use nodedb_data::core_loop::CoreLoop;
use nodedb_data::error::{Error, ErrorCode};
use nodedb_data::replay::timeseries::{
    decode_batch_record, replay_format, replayed_rows, BatchRecord, BudgetAnswers, IngestOutcome,
    PayloadShape, SampleBatch, TsReplayInput, TsReplayStep,
};
use nodedb_data::timeseries::ingest::{
    execute_ilp_ingest, prevalidate_deferred_ilp_ingest, sql_name, AdmissionFacts, ColumnType,
    FlushAnswers, IngestAnswers, IngestRequest, Limits, TimeseriesApplyMode,
};
use nodedb_data::timeseries::line_protocol::{parse_batch, FieldValue, IlpError, IlpLine};
use nodedb_data::timeseries::normalize::{
    is_time_column, json_nesting, json_payload_to_ilp, msgpack_rows_to_ilp,
    parse_ts_string_to_nanos,
    rows_times_in_range, stamp_timestamps, IngestValue, JsonLines, MAX_NESTING,
};
use nodedb_data::timeseries::paths::{
    legacy_ts_collection_dir, migrate_legacy_ts_dir, ts_collection_dir,
};
use nodedb_data::timeseries::resolve_ingest::{
    execute_timeseries_resolve_ingest, measurement_of, normalized_ilp_batch, ResolveRequest,
};
use nodedb_data::timeseries::rls_gate::{admit_ilp_lines, line_image, ImageValue, RowImage};
use nodedb_data::timeseries::sort::{field_of, sort_rows, Cell, Row};
use nodedb_data::timeseries::state::{MemtableSpan, Partition, TsState, WrittenPartition};
use nodedb_data::vectors::handlers::SyncProvenance;
use nodedb_data::wal::{RecordType, TombstoneSet, WalRecord};

#[test]
fn stamping_fills_only_the_lines_that_carry_no_timestamp() {
    let batch = "cpu,owner=alice value=1i\ncpu,owner=alice value=2i 1700000000000000000\n";
    let stamped = stamp_timestamps(batch, 7).expect("stamp");
    assert_eq!(
        stamped,
        vec![
            "cpu,owner=alice value=1i 7000000".to_string(),
            "cpu,owner=alice value=2i 1700000000000000000".to_string(),
        ]
    );
}

#[test]
fn a_malformed_line_is_reported() {
    assert!(stamp_timestamps("cpu\n", 0).is_err());
}

#[test]
fn each_part_of_a_line_is_read() {
    let lines = parse_batch("cpu,host=a,dc=b v=1.5,n=-3i,u=4u,s=\"x y\",b=true 12\n").expect("parse");
    assert_eq!(lines.len(), 1);
    let line = &lines[0];
    assert_eq!(line.measurement, "cpu");
    assert_eq!(line.tags, vec![("host".into(), "a".into()), ("dc".into(), "b".into())]);
    assert_eq!(line.timestamp_ns, Some(12));
    assert!(matches!(&line.fields[0], (k, FieldValue::Float(f)) if k == "v" && f == "1.5"));
    assert!(matches!(&line.fields[1], (k, FieldValue::Int(-3)) if k == "n"));
    assert!(matches!(&line.fields[2], (k, FieldValue::UInt(4)) if k == "u"));
    assert!(matches!(&line.fields[3], (k, FieldValue::Str(s)) if k == "s" && s == "x y"));
    assert!(matches!(&line.fields[4], (k, FieldValue::Bool(true)) if k == "b"));
}

#[test]
fn each_malformed_part_is_told_apart() {
    assert_eq!(parse_batch("cpu,host v=1\n").err(), Some(IlpError::Tags));
    assert_eq!(parse_batch("cpu v\n").err(), Some(IlpError::Fields));
    assert_eq!(parse_batch("cpu v=1 soon\n").err(), Some(IlpError::Timestamp));
    assert_eq!(parse_batch(",host=a v=1\n").err(), Some(IlpError::Measurement));
    assert!(parse_batch("# a comment\n\n").expect("parse").is_empty());
}

/// A policy over one column, decoded from its bytes; bytes that do not decode
/// have no answer.
fn owner_policy(check: &[u8]) -> impl Fn(&RowImage) -> Option<bool> + '_ {
    let decoded: Option<(String, String)> = zerompk::from_msgpack(check).ok();
    move |row: &RowImage| {
        let (column, owner) = decoded.as_ref()?;
        Some(matches!(row.get(column), Some(ImageValue::Text(t)) if t == owner))
    }
}

fn owner_check(owner: &str) -> Vec<u8> {
    zerompk::to_msgpack_vec(&("owner".to_string(), owner.to_string())).expect("encode policy")
}

fn lines(batch: &str) -> Vec<IlpLine> {
    parse_batch(batch).expect("parse ILP")
}

fn admit_lines(check: &[u8], batch: &str) -> Result<(), Error> {
    admit_ilp_lines(check, &lines(batch), Some("ts"), 0, "cpu", owner_policy(check))
}

#[test]
fn an_empty_check_admits_every_line() {
    assert!(admit_lines(&[], "cpu,owner=mallory value=1i\n").is_ok());
}

#[test]
fn a_conforming_line_is_admitted() {
    assert!(admit_lines(&owner_check("alice"), "cpu,owner=alice value=1i\n").is_ok());
}

#[test]
fn one_violating_line_rejects_the_batch() {
    let batch = "cpu,owner=alice value=1i\ncpu,owner=mallory value=2i\n";
    assert!(matches!(
        admit_lines(&owner_check("alice"), batch),
        Err(Error::RejectedAuthz { .. })
    ));
}

#[test]
fn a_line_without_the_governed_column_is_rejected() {
    assert!(admit_lines(&owner_check("alice"), "cpu value=1i\n").is_err());
}

#[test]
fn a_corrupt_check_denies() {
    assert!(admit_lines(&[0xFF, 0xFE], "cpu,owner=alice value=1i\n").is_err());
}

#[test]
fn the_time_column_carries_the_line_timestamp_in_milliseconds() {
    let parsed = lines("cpu,owner=alice value=1i 1700000000000000000\n");
    let image = line_image(&parsed[0], Some("ts"), 7);
    assert!(matches!(image.get("ts"), Some(ImageValue::Int(1_700_000_000_000))));
}

#[test]
fn a_line_without_a_timestamp_carries_the_batch_default() {
    let parsed = lines("cpu,owner=alice value=1i\n");
    let image = line_image(&parsed[0], Some("ts"), 7);
    assert!(matches!(image.get("ts"), Some(ImageValue::Int(7))));
}

/// The place of a number among the doubles.
fn rank(v: f64) -> Option<i64> {
    if v.is_nan() {
        return None;
    }
    let bits = if v == 0.0 { 0 } else { v.to_bits() as i64 };
    Some(if bits < 0 { i64::MIN - bits } else { bits })
}

fn number(v: f64) -> Cell {
    Cell::Number(rank(v))
}

fn row(pairs: Vec<(&str, Cell)>) -> Row {
    Row { fields: Some(pairs.into_iter().map(|(k, v)| (Some(k.to_string()), v)).collect()) }
}

fn ranks(field: &str, rows: &[Row]) -> Vec<Option<i64>> {
    rows.iter()
        .map(|r| match field_of(r, field) {
            Some(Cell::Number(n)) => *n,
            _ => Some(i64::MIN),
        })
        .collect()
}

fn order(values: &[f64]) -> Vec<Option<i64>> {
    values.iter().map(|v| rank(*v)).collect()
}

#[test]
fn descending_order_reverses() {
    let mut rows = vec![
        row(vec![("ts", number(100.0))]),
        row(vec![("ts", number(300.0))]),
        row(vec![("ts", number(200.0))]),
    ];
    sort_rows(&mut rows, &vec![("ts".to_string(), false)]);
    assert_eq!(ranks("ts", &rows), order(&[300.0, 200.0, 100.0]));
}

#[test]
fn ascending_order_sorts_up() {
    let mut rows = vec![row(vec![("ts", number(300.0))]), row(vec![("ts", number(100.0))])];
    sort_rows(&mut rows, &vec![("ts".to_string(), true)]);
    assert_eq!(ranks("ts", &rows), order(&[100.0, 300.0]));
}

#[test]
fn secondary_key_breaks_ties() {
    let mut rows = vec![
        row(vec![("host", Cell::Text("a".into())), ("ts", number(200.0))]),
        row(vec![("host", Cell::Text("a".into())), ("ts", number(100.0))]),
    ];
    sort_rows(&mut rows, &vec![("host".to_string(), true), ("ts".to_string(), true)]);
    assert_eq!(ranks("ts", &rows), order(&[100.0, 200.0]));
}

#[test]
fn nulls_and_missing_fields_sort_last_ascending() {
    let mut rows = vec![
        row(vec![("ts", Cell::Nil)]),
        row(vec![("other", number(1.0))]),
        row(vec![("ts", number(5.0))]),
    ];
    sort_rows(&mut rows, &vec![("ts".to_string(), true)]);
    assert_eq!(ranks("ts", &rows)[0], rank(5.0));
}

#[test]
fn integers_and_floats_compare_numerically() {
    let mut rows = vec![
        row(vec![("v", number(2.5))]),
        row(vec![("v", number(2.0))]),
        row(vec![("v", number(1.5))]),
    ];
    sort_rows(&mut rows, &vec![("v".to_string(), true)]);
    assert_eq!(ranks("v", &rows), order(&[1.5, 2.0, 2.5]));
}

#[test]
fn an_unknown_column_leaves_the_order_untouched() {
    let mut rows = vec![row(vec![("ts", number(2.0))]), row(vec![("ts", number(1.0))])];
    sort_rows(&mut rows, &vec![("nope".to_string(), true)]);
    assert_eq!(ranks("ts", &rows), order(&[2.0, 1.0]));
}

#[test]
fn no_sort_keys_is_a_no_op() {
    let mut rows = vec![row(vec![("ts", number(2.0))]), row(vec![("ts", number(1.0))])];
    sort_rows(&mut rows, &vec![]);
    assert_eq!(ranks("ts", &rows), order(&[2.0, 1.0]));
}

#[test]
fn text_and_flags_have_their_order() {
    let mut rows = vec![
        row(vec![("h", Cell::Text("b".into())), ("f", Cell::Bool(true)), ("n", number(-1.0))]),
        row(vec![("h", Cell::Text("a".into())), ("f", Cell::Bool(false)), ("n", number(-2.0))]),
    ];
    for (column, ascending, first) in
        [("h", true, -2.0), ("f", true, -2.0), ("n", true, -2.0), ("h", false, -1.0)]
    {
        sort_rows(&mut rows, &vec![(column.to_string(), ascending)]);
        assert_eq!(ranks("n", &rows)[0], rank(first), "by {column}");
    }
}

#[test]
fn decodes_map_columnar_record_with_surrogates() {
    let prov = SyncProvenance { producer_id: 1, epoch: 0, stream_id: 5, seq: 42 };
    let rec = BatchRecord {
        kind: Some("columnar".to_string()),
        collection: "events".to_string(),
        payload: vec![7, 8, 9],
        provenance: Some(prov),
        surrogates: vec![100, 101],
    };
    let read = decode_batch_record(Some(rec), &[0x85]).expect("decode map record");
    assert_eq!(read.kind.as_deref(), Some("columnar"));
    assert_eq!(read.collection, "events");
    assert_eq!(read.payload, vec![7, 8, 9]);
    assert!(read.provenance == Some(prov));
    assert_eq!(read.surrogates, vec![100, 101]);
}

type Provenance = Option<(u64, u64, u64, u64)>;

#[test]
fn legacy_columnar_tuple_decodes_with_empty_surrogates() {
    let prov: Provenance = None;
    let bytes = zerompk::to_msgpack_vec(&(
        "columnar".to_string(),
        "events".to_string(),
        vec![1u8, 2, 3],
        prov,
    ))
    .expect("encode legacy columnar tuple");
    let read = decode_batch_record(None, &bytes).expect("decode legacy tuple");
    assert_eq!(read.kind.as_deref(), Some("columnar"));
    assert_eq!(read.collection, "events");
    assert_eq!(read.payload, vec![1, 2, 3]);
    assert!(read.provenance.is_none());
    assert!(read.surrogates.is_empty());
}

#[test]
fn legacy_timeseries_tuple_unaffected() {
    let prov: Provenance = None;
    let bytes = zerompk::to_msgpack_vec(&(
        "timeseries".to_string(),
        "metrics".to_string(),
        vec![4u8, 5, 6],
        prov,
    ))
    .expect("encode timeseries tuple");
    let read = decode_batch_record(None, &bytes).expect("decode timeseries tuple");
    assert_eq!(read.kind.as_deref(), Some("timeseries"));
    assert_eq!(read.collection, "metrics");
    assert_eq!(read.payload, vec![4, 5, 6]);
    assert!(read.surrogates.is_empty());
}

#[test]
fn legacy_untagged_two_tuple_decodes() {
    let bytes = zerompk::to_msgpack_vec(&("metrics".to_string(), vec![1u8, 2]))
        .expect("encode 2-tuple");
    let read = decode_batch_record(None, &bytes).expect("decode 2-tuple");
    assert_eq!(read.kind, None);
    assert_eq!(read.collection, "metrics");
    assert_eq!(read.payload, vec![1, 2]);
    assert!(read.surrogates.is_empty());
}

#[test]
fn a_tagged_three_tuple_decodes_and_a_broken_one_does_not() {
    let bytes = zerompk::to_msgpack_vec(&("timeseries".to_string(), "m".to_string(), vec![9u8]))
        .expect("encode 3-tuple");
    let read = decode_batch_record(None, &bytes).expect("decode 3-tuple");
    assert_eq!(read.kind.as_deref(), Some("timeseries"));
    assert_eq!(read.payload, vec![9]);
    assert!(decode_batch_record(None, &[0xC1]).is_none());
}

#[test]
fn the_map_and_the_tuples_never_take_the_same_payload() {
    let columnar = || {
        Some(BatchRecord {
            kind: Some("columnar".to_string()),
            collection: "events".to_string(),
            payload: vec![7],
            provenance: None,
            surrogates: vec![100],
        })
    };
    let tuple = zerompk::to_msgpack_vec(&("metrics".to_string(), vec![1u8, 2])).expect("encode");
    let read = decode_batch_record(columnar(), &tuple).expect("decode tuple");
    assert_eq!(read.collection, "metrics");
    assert!(decode_batch_record(None, &[0x80]).is_none());
    assert!(decode_batch_record(columnar(), &[0xC1]).is_none());
    assert!(decode_batch_record(columnar(), &[]).is_none());
}

#[test]
fn stamping_again_changes_nothing() {
    let once = stamp_timestamps("cpu v=1i\n\nmem v=2i 5\n", 7).expect("stamp");
    let twice = stamp_timestamps(&once.join("\n"), 9).expect("stamp again");
    assert_eq!(twice, once);
    assert_eq!(once.len(), 2, "a line without a row is left out");
    assert!(once[0].starts_with("cpu v=1i "));
    assert_eq!(once[1], "mem v=2i 5");
}

fn batch_record(lsn: u64, vshard_id: u32, collection: &str) -> WalRecord {
    let payload = zerompk::to_msgpack_vec(&(
        "timeseries".to_string(),
        collection.to_string(),
        b"m v=1i 5\n".to_vec(),
    ))
    .expect("encode");
    WalRecord {
        record_type: RecordType::TimeseriesBatch,
        lsn,
        tenant_id: 1,
        database_id: 0,
        vshard_id,
        payload,
    }
}

#[test]
fn a_batch_is_replayed_on_its_core_unless_it_was_purged_or_flushed() {
    let mut core = CoreLoop::new(0);
    let mut tombstones = TombstoneSet::new();
    let step = core.replay_timeseries_record(&batch_record(5, 0, "m"), None, 2, &tombstones);
    assert!(matches!(step, TsReplayStep::Timeseries(b) if b.collection == "m"));
    let step = core.replay_timeseries_record(&batch_record(5, 1, "m"), None, 2, &tombstones);
    assert!(matches!(step, TsReplayStep::OtherCore));
    tombstones.note_purge(1, "m", 9);
    let step = core.replay_timeseries_record(&batch_record(5, 0, "m"), None, 2, &tombstones);
    assert!(matches!(step, TsReplayStep::Purged));
    let flushed = Partition {
        max_ts: 1,
        row_count: 1,
        last_flushed_wal_lsn: 20,
        sealed: true,
        dir_name: "p".to_string(),
    };
    core.timeseries.import(0, 1, "m", 0, flushed);
    let none = TombstoneSet::new();
    let step = core.replay_timeseries_record(&batch_record(15, 0, "m"), None, 2, &none);
    assert!(matches!(step, TsReplayStep::Flushed));
    let step = core.replay_timeseries_record(&batch_record(21, 0, "m"), None, 2, &none);
    assert!(matches!(step, TsReplayStep::Timeseries(_)));
    let mut broken = batch_record(21, 0, "m");
    broken.payload = vec![0xC1];
    let step = core.replay_timeseries_record(&broken, None, 2, &none);
    assert!(matches!(step, TsReplayStep::Malformed));
    broken.record_type = RecordType::Put;
    let step = core.replay_timeseries_record(&broken, None, 2, &none);
    assert!(matches!(step, TsReplayStep::Ignore));
}

#[test]
fn replayed_batches_are_counted() {
    let mut core = CoreLoop::new(0);
    let input = |lsn: u64, vshard: u32, rows: usize| TsReplayInput {
        record: batch_record(lsn, vshard, "m"),
        columnar: None,
        samples: None,
        ingest: IngestOutcome {
            succeeded: true,
            shape: PayloadShape::Rows(rows),
            flushes: Vec::new(),
            budget: None,
        },
    };
    let mut sampled = input(3, 0, 7);
    let budget = BudgetAnswers { governed: true, resident: Some(64), granted: true };
    sampled.samples = Some(SampleBatch { count: 2, budget });
    let inputs = vec![input(1, 0, 3), input(2, 1, 9), sampled];
    let (rows, skipped) = core.replay_timeseries_wal(inputs, 2, &TombstoneSet::new());
    assert_eq!((rows, skipped), (5, 1));
}

#[test]
fn a_payload_is_replayed_in_its_format() {
    assert_eq!(replay_format(b"m v=1i 5"), "ilp");
    assert_ne!(replay_format(&[0x91, 0xC3, 0xFF]), "ilp");
    assert_eq!(replayed_rows(true, PayloadShape::Rows(4)), 4);
    assert_eq!(replayed_rows(true, PayloadShape::Row), 1);
    assert_eq!(replayed_rows(false, PayloadShape::Rows(4)), 0);
}

#[test]
fn a_time_column_is_declared_or_customary() {
    assert!(is_time_column("TS", None));
    assert!(is_time_column("timestamp", None));
    assert!(is_time_column("Time", None));
    assert!(!is_time_column("value", None));
    assert!(is_time_column("At", Some("at")));
    assert!(!is_time_column("ts", Some("at")));
}

#[test]
fn dates_are_read_in_each_of_their_forms() {
    let t = 1_700_000_000_000_000_000i64;
    assert_eq!(parse_ts_string_to_nanos("2023-11-14T22:13:20Z"), Some(t));
    assert_eq!(parse_ts_string_to_nanos("2023-11-14T23:13:20+01:00"), Some(t));
    assert_eq!(parse_ts_string_to_nanos("2023-11-14 22:13:20"), Some(t));
    assert_eq!(parse_ts_string_to_nanos("2023-11-14 22:13:20.5"), Some(t + 500_000_000));
    assert_eq!(parse_ts_string_to_nanos("2023-11-14T22:13:20"), Some(t));
    assert_eq!(parse_ts_string_to_nanos("2023-11-14T22:13:20.25"), Some(t + 250_000_000));
    assert_eq!(parse_ts_string_to_nanos("yesterday"), None);
}

#[test]
fn json_is_nested_only_so_deep() {
    for (open, inner, close) in [("[", "", "]"), ("{\"a\":", "1", "}")] {
        let nested = |n: usize| {
            format!("[{}{inner}{}]", open.repeat(n), close.repeat(n)).into_bytes()
        };
        assert_eq!(json_nesting(&nested(MAX_NESTING - 1)), MAX_NESTING);
        assert!(matches!(
            json_payload_to_ilp(&nested(MAX_NESTING - 1), "m", None),
            JsonLines::Lines(batch) if batch.is_empty()
        ));
        assert!(matches!(
            json_payload_to_ilp(&nested(MAX_NESTING), "m", None),
            JsonLines::TooDeep
        ));
    }
    assert_eq!(json_nesting(br#"["[[[\"[[", {"a]": []}]"#), 3);
    let deep = "[".repeat(1 << 20);
    assert!(matches!(
        json_payload_to_ilp(deep.as_bytes(), "m", None),
        JsonLines::TooDeep
    ));
}

#[test]
fn json_rows_become_lines() {
    let payload = br#"[{"ts": 5, "v": 1.5, "s": "a\"b", "b": true}, {"v": 2}, 3, {"ts": 1}]"#;
    let JsonLines::Lines(batch) = json_payload_to_ilp(payload, "m", None) else {
        panic!("the rows are well formed");
    };
    assert_eq!(batch, "m v=1.5,s=\"a\\\"b\",b=true 5000000\nm v=2\n");
    assert!(matches!(json_payload_to_ilp(b"{", "m", None), JsonLines::Malformed(_)));
    let far = format!("[{{\"ts\": {}, \"v\": 1}}]", i64::MAX);
    assert!(matches!(
        json_payload_to_ilp(far.as_bytes(), "m", None),
        JsonLines::TimeOutOfRange
    ));
}

#[test]
fn decoded_rows_become_lines() {
    let str_value = |t: &str, float: Option<&str>| IngestValue::Str {
        text: t.to_string(),
        float: float.map(String::from),
    };
    let rows = vec![vec![
        ("at".to_string(), IngestValue::Int(7)),
        ("n".to_string(), IngestValue::Int(-2)),
        ("d".to_string(), str_value("12", None)),
        ("f".to_string(), str_value("1.50", Some("1.5"))),
        ("t".to_string(), str_value("x", None)),
        ("b".to_string(), IngestValue::Bool(false)),
        ("o".to_string(), IngestValue::Other),
    ]];
    assert_eq!(
        msgpack_rows_to_ilp(&rows, "m", Some("at")),
        "m n=-2i,d=12i,f=1.5,t=\"x\",b=false 7000000\n"
    );
}

fn resolve(format: &str, payload: &[u8], check: &[u8]) -> Result<Vec<u8>, ErrorCode> {
    let req = ResolveRequest {
        collection: "7:cpu",
        payload,
        format,
        rls_write_check: check,
        time_key: Some("ts"),
        now_ms: 3,
    };
    execute_timeseries_resolve_ingest(Some(&req), &Ok(Vec::new()), owner_policy(check))
}

#[test]
fn an_ingest_resolves_to_its_stamped_lines() {
    let bytes = resolve("ilp", b"cpu,owner=alice v=1i\n", &owner_check("alice")).expect("resolve");
    let stored: Vec<String> = zerompk::from_msgpack(&bytes).expect("decode");
    assert_eq!(stored, vec!["cpu,owner=alice v=1i 3000000".to_string()]);

    let canonical = zerompk::to_msgpack_vec(&stored).expect("encode");
    let again = resolve("ilp-msgpack", &canonical, &owner_check("alice")).expect("resolve");
    assert_eq!(again, bytes);
}

#[test]
fn an_ingest_is_refused_with_its_reason() {
    let refused = |format: &str, payload: &[u8]| match resolve(format, payload, &[]) {
        Err(ErrorCode::RejectedPrevalidation { reason }) => reason,
        other => panic!("expected a refusal, got {other:?}"),
    };
    assert!(refused("ilp", &[0xFF]).contains("not UTF-8"));
    assert!(refused("ilp-msgpack", &[0xC1]).contains("invalid canonical ILP"));
    assert!(refused("json", b"nope").contains("JSON parse error"));
    assert!(refused("ilp", b"cpu\n").contains("unparsable line protocol"));
    assert!(refused("ilp", b"\n").contains("payload holds no rows"));
    assert!(refused("json", br#"[{"ts": 9223372036854775807, "v": 1}]"#).contains("out of range"));
    let far = vec![vec![("ts".to_string(), IngestValue::Int(i64::MAX))]];
    assert!(!rows_times_in_range(&far, Some("ts")));
    assert!(rows_times_in_range(&far, Some("v")));
    assert!(matches!(
        normalized_ilp_batch("7:cpu", b"", "msgpack", Some("ts"), &Ok(far)),
        Err(ErrorCode::RejectedPrevalidation { reason }) if reason.contains("out of range")
    ));
    assert!(matches!(
        resolve("csv", b"", &[]),
        Err(ErrorCode::Internal { detail }) if detail.contains("unknown ingest format: csv")
    ));
    assert!(matches!(
        resolve("ilp", b"cpu,owner=bob v=1i\n", &owner_check("alice")),
        Err(ErrorCode::RejectedAuthz { resource }) if resource == "7:cpu"
    ));
    assert!(matches!(
        execute_timeseries_resolve_ingest(None, &Ok(Vec::new()), |_: &RowImage| Some(true)),
        Err(_)
    ));
}

#[test]
fn a_payload_is_written_as_lines_under_its_measurement() {
    assert_eq!(measurement_of("7:cpu"), "cpu");
    assert_eq!(measurement_of("cpu"), "cpu");
    let rows = vec![vec![("v".to_string(), IngestValue::Int(1))]];
    let batch = normalized_ilp_batch("7:cpu", b"", "msgpack", None, &Ok(rows)).expect("lines");
    assert_eq!(batch, "cpu v=1i\n");
    let failed = normalized_ilp_batch("7:cpu", b"", "msgpack", None, &Err("bad".to_string()));
    assert!(matches!(
        failed,
        Err(ErrorCode::RejectedPrevalidation { reason }) if reason.ends_with("decode error: bad")
    ));
}

const LIMITS: Limits = Limits { soft_bytes: 100, hard_bytes: 200 };

fn facts() -> AdmissionFacts {
    AdmissionFacts {
        copy_failed: None,
        live_resident: None,
        baseline: 0,
        evolved: 10,
        tag_headroom: true,
        governor_pressure: false,
    }
}

fn no_flush() -> FlushAnswers {
    FlushAnswers { memtable: None, written: Err("not asked".to_string()), drained: None }
}

fn flush(lsn: u64) -> FlushAnswers {
    FlushAnswers {
        memtable: Some(MemtableSpan { rows: 2, min_ts: 1, max_ts: 9 }),
        written: Ok(WrittenPartition { row_count: 2, last_flushed_wal_lsn: lsn }),
        drained: Some((1, 9)),
    }
}

fn answers() -> IngestAnswers {
    IngestAnswers {
        admission: facts(),
        columns_before: None,
        columns: vec![
            ("timestamp".to_string(), ColumnType::Timestamp),
            ("v".to_string(), ColumnType::Int64),
        ],
        resident: 10,
        tag_headroom: true,
        governor_pressure: false,
        flush_before: no_flush(),
        accepted: 1,
        rejected: 0,
        resident_after: 20,
        flush_after: no_flush(),
        governed: false,
        resident_final: None,
        granted: false,
    }
}

fn request(payload: &[u8], mode: TimeseriesApplyMode) -> IngestRequest<'_> {
    IngestRequest { db: 0, tid: 1, collection: "cpu", payload, wal_lsn: Some(8), mode }
}

#[test]
fn an_ingest_tells_of_new_columns_and_is_noted() {
    let mut ts = TsState::new();
    let req = request(b"cpu v=1i 5\n", TimeseriesApplyMode::Immediate);
    let reply = execute_ilp_ingest(&mut ts, &req, &answers(), LIMITS).expect("ingest");
    assert_eq!((reply.accepted, reply.rejected), (1, 0));
    assert_eq!(reply.collection, "cpu");
    assert!(reply.mark_dirty);
    assert!(reply.restart_idle);
    assert_eq!(
        reply.schema_columns,
        Some(vec![
            ("timestamp".to_string(), "TIMESTAMP".to_string()),
            ("v".to_string(), "BIGINT".to_string()),
        ])
    );
    assert_eq!(ts.max_ingested_lsn(0, 1, "cpu"), 8);

    let mut known = answers();
    known.columns_before = Some(2);
    let reply = execute_ilp_ingest(&mut ts, &req, &known, LIMITS).expect("ingest");
    assert_eq!(reply.schema_columns, None);
}

#[test]
fn an_ingest_is_refused_before_it_changes_anything() {
    let mut ts = TsState::new();
    for (payload, reason) in [
        (&[0xFFu8][..], "ILP payload is not valid UTF-8"),
        (&b"\n"[..], "no ILP data lines in payload"),
        (&b"mem v=1i\n"[..], "ILP measurements must match the routed collection"),
    ] {
        let req = request(payload, TimeseriesApplyMode::Immediate);
        let Err(ErrorCode::RejectedPrevalidation { reason: got }) =
            execute_ilp_ingest(&mut ts, &req, &answers(), LIMITS)
        else {
            panic!("{reason}");
        };
        assert_eq!(got, reason);
        assert_eq!(ts.max_ingested_lsn(0, 1, "cpu"), 0);
    }
}

#[test]
fn a_full_memtable_is_flushed_first() {
    let mut ts = TsState::new();
    let req = request(b"cpu v=1i 5\n", TimeseriesApplyMode::Immediate);
    let mut a = answers();
    a.resident = 100;
    a.flush_before = flush(7);
    execute_ilp_ingest(&mut ts, &req, &a, LIMITS).expect("ingest");
    let p = ts.partition(0, 1, "cpu", 1).expect("the flushed partition");
    assert_eq!((p.max_ts, p.row_count, p.sealed), (9, 2, true));

    a.flush_before.written = Err("disk full".to_string());
    let Err(ErrorCode::Internal { detail }) = execute_ilp_ingest(&mut ts, &req, &a, LIMITS) else {
        panic!("the flush failed");
    };
    assert!(detail.starts_with("pre-ingest ts flush failed: "), "{detail}");
    assert!(detail.contains("disk full"), "{detail}");

    a.flush_before = flush(7);
    a.resident_after = 100;
    a.flush_after = flush(9);
    a.flush_after.drained = None;
    let Err(ErrorCode::Internal { detail }) = execute_ilp_ingest(&mut ts, &req, &a, LIMITS) else {
        panic!("the second flush failed");
    };
    assert!(detail.starts_with("post-ingest ts flush failed: "), "{detail}");
}

#[test]
fn a_transaction_may_not_flush() {
    let mut ts = TsState::new();
    let req = request(b"cpu v=1i 5\n", TimeseriesApplyMode::CommitDeferred);
    let reply = execute_ilp_ingest(&mut ts, &req, &answers(), LIMITS).expect("ingest");
    assert!(!reply.mark_dirty);
    assert!(!reply.restart_idle);
    let mut full = answers();
    full.resident = 100;
    assert!(execute_ilp_ingest(&mut ts, &req, &full, LIMITS).is_err());
    assert!(ts.partition(0, 1, "cpu", 1).is_none());
}

#[test]
fn each_reason_keeps_an_ingest_out_of_a_transaction() {
    assert!(prevalidate_deferred_ilp_ingest(&facts(), LIMITS).is_ok());
    let mut f = facts();
    f.copy_failed = Some("oom".to_string());
    assert!(matches!(
        prevalidate_deferred_ilp_ingest(&f, LIMITS),
        Err(ErrorCode::Internal { detail }) if detail.ends_with("admission: oom")
    ));
    let mut f = facts();
    f.tag_headroom = false;
    assert!(prevalidate_deferred_ilp_ingest(&f, LIMITS).is_err());
    let mut f = facts();
    f.governor_pressure = true;
    assert!(prevalidate_deferred_ilp_ingest(&f, LIMITS).is_err());
    let mut f = facts();
    f.live_resident = Some(90);
    assert!(prevalidate_deferred_ilp_ingest(&f, LIMITS).is_err(), "90 and a growth of 10");
    f.baseline = 1;
    assert!(prevalidate_deferred_ilp_ingest(&f, LIMITS).is_ok(), "90 and a growth of 9");
}

#[test]
fn each_type_has_its_name() {
    assert_eq!(sql_name(ColumnType::Timestamp), "TIMESTAMP");
    assert_eq!(sql_name(ColumnType::Float64), "FLOAT");
    assert_eq!(sql_name(ColumnType::Int64), "BIGINT");
    assert_eq!(sql_name(ColumnType::Symbol), "VARCHAR");
}

#[test]
fn a_flush_is_planned_and_covers_what_was_ingested() {
    let mut ts = TsState::new();
    ts.note_ingested(3, 1, "cpu", 12);
    ts.note_ingested(3, 1, "cpu", 11);
    assert_eq!(ts.max_ingested_lsn(3, 1, "cpu"), 12);
    let span = Some(MemtableSpan { rows: 2, min_ts: 1, max_ts: 9 });
    let plan = ts.plan_flush("/data", 1, 3, "cpu", &span).expect("there are rows");
    assert_eq!(plan.segment_dir, ts_collection_dir("/data", 3, 1, "cpu"));
    assert_eq!(plan.wal_lsn, 12);
    assert!(ts.plan_flush("/data", 1, 3, "cpu", &None).is_none());
    let written = Ok(WrittenPartition { row_count: 2, last_flushed_wal_lsn: plan.wal_lsn });
    assert!(ts.flush_ts_collection(1, 3, "cpu", &span, &written, &Some((1, 9))).is_ok());
    assert!(ts.already_flushed(3, 1, "cpu", 12));
    assert!(!ts.already_flushed(3, 1, "cpu", 13));
    assert!(!ts.already_flushed(4, 1, "cpu", 12));
}

#[test]
fn collections_have_their_own_directories() {
    let new = ts_collection_dir("/data", 3, 1, "cpu");
    assert_ne!(new, ts_collection_dir("/data", 1, 3, "cpu"));
    assert_ne!(new, ts_collection_dir("/data", 3, 1, "mem"));
    let legacy = legacy_ts_collection_dir("/data", "cpu");
    assert_ne!(new, legacy);
    let step = migrate_legacy_ts_dir("/data", 0, 1, "cpu", false, true, true).expect("a move");
    assert_eq!(step.from, legacy);
    assert_eq!(step.to, ts_collection_dir("/data", 0, 1, "cpu"));
    assert!(migrate_legacy_ts_dir("/data", 0, 1, "cpu", true, true, true).is_none());
    assert!(migrate_legacy_ts_dir("/data", 0, 1, "cpu", false, false, false).is_none());
    assert!(migrate_legacy_ts_dir("/data", 0, 1, "cpu", false, true, false).is_none());
}
