//! Ingestion of the externally produced system resource snapshot.
//!
//! The snapshot is a key–value text document, read from a fixed path by the
//! surrounding process and handed in as plain text. The first four lines
//! carry the system figures, `RAM_TOTAL=`, `RAM_LIBRE=`, `RAM_OCUPADA=` and
//! `CPU_USADA=`, each with a decimal value; every further line is one
//! per-process record of eleven `|`-separated fields led by `PROC`. A
//! missing document is reported as unavailable and a document that does not
//! parse as malformed; neither halts the scheduler, and neither disturbs
//! the snapshot the metrics sink already holds.

use vstd::prelude::*;

use crate::text::{
    matches_at, matches_prefix_at, parse_u64, spec_parse_u64, split_on, split_str, str_eq,
};

verus! {

/// Resource figures of one process, from the snapshot document.
#[derive(Debug)]
pub struct ProcessStat {
    pub pid: u32,
    pub name: String,
    pub cmdline: String,
    pub resident_memory_kb: u64,
    pub memory_percent: u8,
    pub virtual_memory_kb: u64,
    pub cpu_percent: u8,
    pub disk_usage_kb: u64,
    pub io_read_bytes: u64,
    pub io_write_bytes: u64,
}

/// The mathematical model of a `ProcessStat`.
pub ghost struct ProcessModel {
    pub pid: int,
    pub name: Seq<char>,
    pub cmdline: Seq<char>,
    pub resident_memory_kb: int,
    pub memory_percent: int,
    pub virtual_memory_kb: int,
    pub cpu_percent: int,
    pub disk_usage_kb: int,
    pub io_read_bytes: int,
    pub io_write_bytes: int,
}

impl View for ProcessStat {
    type V = ProcessModel;

    open spec fn view(&self) -> ProcessModel {
        ProcessModel {
            pid: self.pid as int,
            name: self.name@,
            cmdline: self.cmdline@,
            resident_memory_kb: self.resident_memory_kb as int,
            memory_percent: self.memory_percent as int,
            virtual_memory_kb: self.virtual_memory_kb as int,
            cpu_percent: self.cpu_percent as int,
            disk_usage_kb: self.disk_usage_kb as int,
            io_read_bytes: self.io_read_bytes as int,
            io_write_bytes: self.io_write_bytes as int,
        }
    }
}

impl DeepView for ProcessStat {
    type V = ProcessModel;

    open spec fn deep_view(&self) -> ProcessModel {
        self.view()
    }
}

/// One point-in-time system resource snapshot.
#[derive(Debug)]
pub struct SystemSnapshot {
    pub ram_total_kb: u64,
    pub ram_free_kb: u64,
    pub ram_used_kb: u64,
    pub cpu_used_percent: u8,
    pub processes: Vec<ProcessStat>,
}

/// The mathematical model of a `SystemSnapshot`.
pub ghost struct SnapshotModel {
    pub ram_total_kb: int,
    pub ram_free_kb: int,
    pub ram_used_kb: int,
    pub cpu_used_percent: int,
    pub processes: Seq<ProcessModel>,
}

impl View for SystemSnapshot {
    type V = SnapshotModel;

    open spec fn view(&self) -> SnapshotModel {
        SnapshotModel {
            ram_total_kb: self.ram_total_kb as int,
            ram_free_kb: self.ram_free_kb as int,
            ram_used_kb: self.ram_used_kb as int,
            cpu_used_percent: self.cpu_used_percent as int,
            processes: self.processes.deep_view(),
        }
    }
}

impl DeepView for SystemSnapshot {
    type V = SnapshotModel;

    open spec fn deep_view(&self) -> SnapshotModel {
        self.view()
    }
}

/// Why no snapshot was ingested this tick.
#[derive(Clone, Copy, Debug, PartialEq, Eq, Structural)]
pub enum SnapshotError {
    /// The document could not be read at all.
    Unavailable,
    /// The document was read but does not follow the agreed format.
    Malformed,
}

/// The value of a `KEY=<decimal>` line, for the given key.
pub open spec fn spec_parse_kv(line: Seq<char>, key: Seq<char>) -> Option<u64> {
    if line.len() > key.len() && line.take(key.len() as int) == key && line[key.len() as int]
        == '=' {
        spec_parse_u64(line.skip(key.len() as int + 1))
    } else {
        None
    }
}

/// The process record one `PROC|…` line carries, if well-formed.
pub open spec fn spec_parse_proc(line: Seq<char>) -> Option<ProcessModel> {
    let segs = split_on(line, '|');
    if segs.len() != 11 || segs[0] != "PROC"@ {
        None
    } else {
        match (spec_parse_u64(segs[1]), spec_parse_u64(segs[4]), spec_parse_u64(segs[5]),
        spec_parse_u64(segs[6]), spec_parse_u64(segs[7]), spec_parse_u64(segs[8]),
        spec_parse_u64(segs[9]), spec_parse_u64(segs[10])) {
            (
                Some(pid),
                Some(mrss),
                Some(mpct),
                Some(vmem),
                Some(cpup),
                Some(disk),
                Some(ior),
                Some(iow),
            ) => {
                if pid <= u32::MAX && mpct <= u8::MAX && cpup <= u8::MAX {
                    Some(
                        ProcessModel {
                            pid: pid as int,
                            name: segs[2],
                            cmdline: segs[3],
                            resident_memory_kb: mrss as int,
                            memory_percent: mpct as int,
                            virtual_memory_kb: vmem as int,
                            cpu_percent: cpup as int,
                            disk_usage_kb: disk as int,
                            io_read_bytes: ior as int,
                            io_write_bytes: iow as int,
                        },
                    )
                } else {
                    None
                }
            },
            _ => None,
        }
    }
}

/// The process records of the given lines; `None` as soon as one line is
/// not a well-formed process record.
pub open spec fn spec_parse_procs(lines: Seq<Seq<char>>) -> Option<Seq<ProcessModel>>
    decreases lines.len(),
{
    if lines.len() == 0 {
        Some(Seq::<ProcessModel>::empty())
    } else {
        match (spec_parse_procs(lines.drop_last()), spec_parse_proc(lines.last())) {
            (Some(ps), Some(p)) => Some(ps.push(p)),
            _ => None,
        }
    }
}

/// The lines of the document, with a single trailing newline tolerated.
pub open spec fn spec_lines(text: Seq<char>) -> Seq<Seq<char>> {
    let raw = split_on(text, '\n');
    if raw.len() > 0 && raw.last().len() == 0 {
        raw.drop_last()
    } else {
        raw
    }
}

/// The snapshot a document carries: four system lines in fixed order, then
/// any number of process records. Anything else is malformed.
pub open spec fn spec_parse_snapshot(text: Seq<char>) -> Option<SnapshotModel> {
    let lines = spec_lines(text);
    if lines.len() < 4 {
        None
    } else {
        match (spec_parse_kv(lines[0], "RAM_TOTAL"@), spec_parse_kv(lines[1], "RAM_LIBRE"@),
        spec_parse_kv(lines[2], "RAM_OCUPADA"@), spec_parse_kv(lines[3], "CPU_USADA"@)) {
            (Some(total), Some(free), Some(used), Some(cpu)) => {
                if cpu <= u8::MAX {
                    match spec_parse_procs(lines.skip(4)) {
                        Some(ps) => Some(
                            SnapshotModel {
                                ram_total_kb: total as int,
                                ram_free_kb: free as int,
                                ram_used_kb: used as int,
                                cpu_used_percent: cpu as int,
                                processes: ps,
                            },
                        ),
                        None => None,
                    }
                } else {
                    None
                }
            },
            _ => None,
        }
    }
}

/// Parse one `KEY=<decimal>` line against the given key.
fn parse_kv_u64(line: &str, key: &str) -> (r: Option<u64>)
    ensures
        r == spec_parse_kv(line@, key@),
{
    let n = line.unicode_len();
    let kl = key.unicode_len();
    if n <= kl {
        return None;
    }
    if !matches_prefix_at(line, key, 0) {
        proof {
            assert(!(line@.take(kl as int) == key@)) by {
                if line@.take(kl as int) == key@ {
                    assert forall|j: int| 0 <= j < key@.len() implies line@[j] == key@[j] by {
                        assert(line@.take(kl as int)[j] == line@[j]);
                    }
                    assert(matches_at(line@, key@, 0));
                }
            }
        }
        return None;
    }
    proof {
        assert(line@.take(kl as int) =~= key@);
    }
    if line.get_char(kl) != '=' {
        return None;
    }
    let rest = line.substring_char(kl + 1, n);
    proof {
        assert(rest@ =~= line@.skip(kl + 1));
    }
    parse_u64(rest)
}

/// Parse one `PROC|…` process record line.
fn parse_proc_line(line: &str) -> (r: Option<ProcessStat>)
    ensures
        r is Some <==> spec_parse_proc(line@) is Some,
        r matches Some(p) ==> spec_parse_proc(line@) == Some(p@),
{
    let segs = split_str(line, '|');
    let ghost sm = split_on(line@, '|');
    proof {
        assert(segs.deep_view() == sm);
        assert(segs@.len() == sm.len());
    }
    if segs.len() != 11 {
        return None;
    }
    proof {
        assert forall|k: int| 0 <= k < 11 implies segs@[k]@ == sm[k] by {
            assert(segs.deep_view()[k] == segs@[k]@);
        }
    }
    if !str_eq(segs[0].as_str(), "PROC") {
        return None;
    }
    let pid64 = match parse_u64(segs[1].as_str()) {
        Some(v) => v,
        None => { return None },
    };
    let mrss = match parse_u64(segs[4].as_str()) {
        Some(v) => v,
        None => { return None },
    };
    let mpct = match parse_u64(segs[5].as_str()) {
        Some(v) => v,
        None => { return None },
    };
    let vmem = match parse_u64(segs[6].as_str()) {
        Some(v) => v,
        None => { return None },
    };
    let cpup = match parse_u64(segs[7].as_str()) {
        Some(v) => v,
        None => { return None },
    };
    let disk = match parse_u64(segs[8].as_str()) {
        Some(v) => v,
        None => { return None },
    };
    let ior = match parse_u64(segs[9].as_str()) {
        Some(v) => v,
        None => { return None },
    };
    let iow = match parse_u64(segs[10].as_str()) {
        Some(v) => v,
        None => { return None },
    };
    if !(pid64 <= u32::MAX as u64 && mpct <= u8::MAX as u64 && cpup <= u8::MAX as u64) {
        return None;
    }
    Some(
        ProcessStat {
            pid: pid64 as u32,
            name: segs[2].clone(),
            cmdline: segs[3].clone(),
            resident_memory_kb: mrss,
            memory_percent: mpct as u8,
            virtual_memory_kb: vmem,
            cpu_percent: cpup as u8,
            disk_usage_kb: disk,
            io_read_bytes: ior,
            io_write_bytes: iow,
        },
    )
}

/// If one line is not a process record, the whole run of lines carries none.
proof fn lemma_procs_fail(lines: Seq<Seq<char>>, j: int)
    requires
        0 <= j < lines.len(),
        spec_parse_proc(lines[j]) is None,
    ensures
        spec_parse_procs(lines) is None,
    decreases lines.len(),
{
    if j == lines.len() - 1 {
        assert(lines.last() == lines[j]);
    } else {
        assert(lines.drop_last()[j] == lines[j]);
        lemma_procs_fail(lines.drop_last(), j);
    }
}

/// Parse a snapshot document.
pub fn parse_snapshot(text: &str) -> (r: Result<SystemSnapshot, SnapshotError>)
    ensures
        r matches Ok(s) ==> spec_parse_snapshot(text@) == Some(s@),
        r matches Err(e) ==> spec_parse_snapshot(text@) is None && e
            == SnapshotError::Malformed,
{
    let mut lines = split_str(text, '\n');
    let ghost raw = split_on(text@, '\n');
    proof {
        crate::text::lemma_split_on_len(text@, '\n');
        assert(lines.deep_view() == raw);
        assert(lines@.len() == raw.len());
        assert(forall|k: int| 0 <= k < raw.len() ==> #[trigger] lines@[k]@ == lines.deep_view()[
            k
        ]);
    }
    if lines.len() > 0 && lines[lines.len() - 1].as_str().is_empty() {
        lines.pop();
        proof {
            assert(lines.deep_view() =~= raw.drop_last());
        }
    }
    let ghost ls = spec_lines(text@);
    proof {
        assert(lines.deep_view() == ls);
        assert(forall|k: int| 0 <= k < ls.len() ==> #[trigger] lines@[k]@ == lines.deep_view()[
            k
        ]);
    }
    if lines.len() < 4 {
        return Err(SnapshotError::Malformed);
    }
    let total = match parse_kv_u64(lines[0].as_str(), "RAM_TOTAL") {
        Some(v) => v,
        None => { return Err(SnapshotError::Malformed) },
    };
    let free = match parse_kv_u64(lines[1].as_str(), "RAM_LIBRE") {
        Some(v) => v,
        None => { return Err(SnapshotError::Malformed) },
    };
    let used = match parse_kv_u64(lines[2].as_str(), "RAM_OCUPADA") {
        Some(v) => v,
        None => { return Err(SnapshotError::Malformed) },
    };
    let cpu64 = match parse_kv_u64(lines[3].as_str(), "CPU_USADA") {
        Some(v) => v,
        None => { return Err(SnapshotError::Malformed) },
    };
    if cpu64 > u8::MAX as u64 {
        return Err(SnapshotError::Malformed);
    }
    let mut processes: Vec<ProcessStat> = Vec::new();
    let ghost pls = ls.skip(4);
    proof {
        assert(processes.deep_view() =~= Seq::<ProcessModel>::empty());
        assert(pls.take(0) =~= Seq::<Seq<char>>::empty());
        assert(spec_parse_procs(pls.take(0)) == Some(processes.deep_view()));
    }
    let mut i: usize = 4;
    while i < lines.len()
        invariant
            4 <= i <= lines.len(),
            lines.deep_view() == ls,
            lines@.len() == ls.len(),
            ls.len() >= 4,
            pls == ls.skip(4),
            forall|k: int| 0 <= k < ls.len() ==> #[trigger] lines@[k]@ == ls[k],
            spec_parse_procs(pls.take(i - 4)) == Some(processes.deep_view()),
            spec_parse_kv(ls[0], "RAM_TOTAL"@) == Some(total),
            spec_parse_kv(ls[1], "RAM_LIBRE"@) == Some(free),
            spec_parse_kv(ls[2], "RAM_OCUPADA"@) == Some(used),
            spec_parse_kv(ls[3], "CPU_USADA"@) == Some(cpu64),
            cpu64 <= u8::MAX as u64,
            ls == spec_lines(text@),
        decreases lines.len() - i,
    {
        match parse_proc_line(lines[i].as_str()) {
            Some(p) => {
                let ghost before = processes.deep_view();
                processes.push(p);
                proof {
                    assert(processes.deep_view() =~= before.push(p@));
                    assert(pls.take(i - 4 + 1).drop_last() =~= pls.take(i - 4));
                    assert(pls.take(i - 4 + 1).last() == pls[i - 4]);
                    assert(pls[i - 4] == ls[i as int]);
                }
            },
            None => {
                proof {
                    assert(pls[i - 4] == ls[i as int]);
                    lemma_procs_fail(pls, i - 4);
                }
                return Err(SnapshotError::Malformed);
            },
        }
        i += 1;
    }
    proof {
        assert(pls.take(lines@.len() - 4) =~= pls);
    }
    let snap = SystemSnapshot {
        ram_total_kb: total,
        ram_free_kb: free,
        ram_used_kb: used,
        cpu_used_percent: cpu64 as u8,
        processes,
    };
    Ok(snap)
}

/// Ingest the snapshot document of this tick: nothing to read is reported
/// as unavailable, a document that does not parse as malformed.
pub fn ingest(content: Option<&str>) -> (r: Result<SystemSnapshot, SnapshotError>)
    ensures
        content is None <==> (r matches Err(e) && e == SnapshotError::Unavailable),
        content matches Some(t) ==> match spec_parse_snapshot(t@) {
            Some(m) => r matches Ok(s) && s@ == m,
            None => r matches Err(e) && e == SnapshotError::Malformed,
        },
{
    match content {
        None => Err(SnapshotError::Unavailable),
        Some(text) => parse_snapshot(text),
    }
}

/// One observed system-level cpu figure, kept for observability.
pub struct CpuSample {
    pub timestamp: u64,
    pub cpu_used_percent: u8,
}

/// The mathematical model of a `CpuSample`.
pub ghost struct SampleModel {
    pub timestamp: int,
    pub cpu_used_percent: int,
}

impl View for CpuSample {
    type V = SampleModel;

    open spec fn view(&self) -> SampleModel {
        SampleModel {
            timestamp: self.timestamp as int,
            cpu_used_percent: self.cpu_used_percent as int,
        }
    }
}

impl DeepView for CpuSample {
    type V = SampleModel;

    open spec fn deep_view(&self) -> SampleModel {
        self.view()
    }
}

/// The metrics sink the snapshot path feeds: the last snapshot that was
/// successfully ingested, and the history of system cpu figures. A failed
/// ingestion leaves both untouched — prior snapshots stay valid.
pub struct MetricsSink {
    pub last_snapshot: Option<SystemSnapshot>,
    pub cpu_history: Vec<CpuSample>,
}

impl MetricsSink {
    /// A sink that has seen nothing yet.
    pub fn new() -> (sink: MetricsSink)
        ensures
            sink.last_snapshot is None,
            sink.cpu_history@.len() == 0,
    {
        MetricsSink { last_snapshot: None, cpu_history: Vec::new() }
    }

    /// Feed this tick's ingestion outcome into the sink: a fresh snapshot
    /// replaces the last one and appends its cpu figure to the history; a
    /// failed ingestion changes nothing.
    pub fn publish(&mut self, outcome: Result<SystemSnapshot, SnapshotError>, timestamp: u64)
        ensures
            outcome matches Ok(s) ==> final(self).last_snapshot matches Some(l) && l@ == s@,
            outcome matches Ok(s) ==> final(self).cpu_history.deep_view() == old(
                self,
            ).cpu_history.deep_view().push(
                SampleModel {
                    timestamp: timestamp as int,
                    cpu_used_percent: s@.cpu_used_percent,
                },
            ),
            outcome is Err ==> final(self).last_snapshot == old(self).last_snapshot
                && final(self).cpu_history == old(self).cpu_history,
    {
        match outcome {
            Ok(s) => {
                let sample = CpuSample { timestamp, cpu_used_percent: s.cpu_used_percent };
                let ghost before = self.cpu_history.deep_view();
                self.cpu_history.push(sample);
                self.last_snapshot = Some(s);
                proof {
                    assert(self.cpu_history.deep_view() =~= before.push(sample@));
                }
            },
            Err(_) => (),
        }
    }
}

} // verus!
