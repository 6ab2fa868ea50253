use container_reconciler::snapshot::{ingest, parse_snapshot, MetricsSink, SnapshotError};

const GOOD_DOC: &str = "RAM_TOTAL=8192\nRAM_LIBRE=2048\nRAM_OCUPADA=6144\nCPU_USADA=37\n";

#[test]
fn well_formed_document_parses_exactly() {
    let snap = parse_snapshot(GOOD_DOC).unwrap();
    assert_eq!(snap.ram_total_kb, 8192);
    assert_eq!(snap.ram_free_kb, 2048);
    assert_eq!(snap.ram_used_kb, 6144);
    assert_eq!(snap.cpu_used_percent, 37);
    assert_eq!(snap.processes.len(), 0);
}

#[test]
fn document_without_trailing_newline_parses_too() {
    let doc = "RAM_TOTAL=1\nRAM_LIBRE=2\nRAM_OCUPADA=3\nCPU_USADA=4";
    let snap = parse_snapshot(doc).unwrap();
    assert_eq!(snap.ram_total_kb, 1);
    assert_eq!(snap.cpu_used_percent, 4);
}

#[test]
fn process_records_parse_field_by_field() {
    let doc = "RAM_TOTAL=1000\nRAM_LIBRE=400\nRAM_OCUPADA=600\nCPU_USADA=12\nPROC|42|worker|/usr/bin/worker --serve|2048|3|4096|7|512|1111|2222\nPROC|43|idle||0|0|0|0|0|0|0\n";
    let snap = parse_snapshot(doc).unwrap();
    assert_eq!(snap.processes.len(), 2);
    let p = &snap.processes[0];
    assert_eq!(p.pid, 42);
    assert_eq!(p.name, "worker");
    assert_eq!(p.cmdline, "/usr/bin/worker --serve");
    assert_eq!(p.resident_memory_kb, 2048);
    assert_eq!(p.memory_percent, 3);
    assert_eq!(p.virtual_memory_kb, 4096);
    assert_eq!(p.cpu_percent, 7);
    assert_eq!(p.disk_usage_kb, 512);
    assert_eq!(p.io_read_bytes, 1111);
    assert_eq!(p.io_write_bytes, 2222);
    assert_eq!(snap.processes[1].pid, 43);
    assert_eq!(snap.processes[1].cmdline, "");
}

#[test]
fn truncated_document_is_malformed() {
    let doc = "RAM_TOTAL=1\nRAM_LIBRE=2\n";
    assert_eq!(parse_snapshot(doc).unwrap_err(), SnapshotError::Malformed);
}

#[test]
fn wrong_key_is_malformed() {
    let doc = "RAM_TOTAL=1\nRAM_FREE=2\nRAM_OCUPADA=3\nCPU_USADA=4\n";
    assert_eq!(parse_snapshot(doc).unwrap_err(), SnapshotError::Malformed);
}

#[test]
fn non_numeric_value_is_malformed() {
    let doc = "RAM_TOTAL=1\nRAM_LIBRE=abc\nRAM_OCUPADA=3\nCPU_USADA=4\n";
    assert_eq!(parse_snapshot(doc).unwrap_err(), SnapshotError::Malformed);
}

#[test]
fn value_beyond_sixty_four_bits_is_malformed() {
    let doc = "RAM_TOTAL=18446744073709551616\nRAM_LIBRE=2\nRAM_OCUPADA=3\nCPU_USADA=4\n";
    assert_eq!(parse_snapshot(doc).unwrap_err(), SnapshotError::Malformed);
}

#[test]
fn largest_sixty_four_bit_value_is_accepted() {
    let doc = "RAM_TOTAL=18446744073709551615\nRAM_LIBRE=2\nRAM_OCUPADA=3\nCPU_USADA=4\n";
    let snap = parse_snapshot(doc).unwrap();
    assert_eq!(snap.ram_total_kb, u64::MAX);
}

#[test]
fn cpu_value_beyond_a_byte_is_malformed() {
    let doc = "RAM_TOTAL=1\nRAM_LIBRE=2\nRAM_OCUPADA=3\nCPU_USADA=256\n";
    assert_eq!(parse_snapshot(doc).unwrap_err(), SnapshotError::Malformed);
}

#[test]
fn process_record_with_wrong_field_count_is_malformed() {
    let doc = "RAM_TOTAL=1\nRAM_LIBRE=2\nRAM_OCUPADA=3\nCPU_USADA=4\nPROC|42|worker|cmd|1|2|3|4|5|6\n";
    assert_eq!(parse_snapshot(doc).unwrap_err(), SnapshotError::Malformed);
}

#[test]
fn process_record_with_bad_pid_is_malformed() {
    let doc = "RAM_TOTAL=1\nRAM_LIBRE=2\nRAM_OCUPADA=3\nCPU_USADA=4\nPROC|4294967296|worker|cmd|1|2|3|4|5|6|7\n";
    assert_eq!(parse_snapshot(doc).unwrap_err(), SnapshotError::Malformed);
}

#[test]
fn missing_document_reports_unavailable() {
    assert_eq!(ingest(None).unwrap_err(), SnapshotError::Unavailable);
}

#[test]
fn present_document_flows_through_ingest() {
    let snap = ingest(Some(GOOD_DOC)).unwrap();
    assert_eq!(snap.cpu_used_percent, 37);
}

#[test]
fn sink_keeps_snapshot_and_appends_cpu_history() {
    let mut sink = MetricsSink::new();
    assert!(sink.last_snapshot.is_none());
    sink.publish(ingest(Some(GOOD_DOC)), 1000);
    let last = sink.last_snapshot.as_ref().unwrap();
    assert_eq!(last.ram_total_kb, 8192);
    assert_eq!(sink.cpu_history.len(), 1);
    assert_eq!(sink.cpu_history[0].timestamp, 1000);
    assert_eq!(sink.cpu_history[0].cpu_used_percent, 37);
}

#[test]
fn failed_ingestion_does_not_invalidate_prior_snapshot() {
    let mut sink = MetricsSink::new();
    sink.publish(ingest(Some(GOOD_DOC)), 1000);
    sink.publish(ingest(None), 1010);
    sink.publish(ingest(Some("garbage")), 1020);
    let last = sink.last_snapshot.as_ref().unwrap();
    assert_eq!(last.ram_total_kb, 8192);
    assert_eq!(sink.cpu_history.len(), 1);
}
