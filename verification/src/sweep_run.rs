//! Running a sweep: what each scheduled run calls for, and what is said of it.
use crate::attempt::{
    MatrixCellConfig, MatrixFailureKind, MatrixReport, attempt_id, attempt_text, run_recorded,
};
use crate::cli::{Cli, CliText, Ingress, Runtime, runtime_named};
use crate::matrix::{Cell, cell_text};
use crate::record::{cell_key, cell_key_text};
use crate::sweep::MatrixSchedule;
use crate::sysprof::{flag_count, flag_text};
use crate::text::{
    contains_text, decimal, join, joined, lemma_texts_push, pad_left, parse_usize, render, right_in,
    same, split_once, split_once_text, texts, unsigned_of,
};
use vstd::prelude::*;

verus! {

/// What a sweep is run with.
#[derive(Debug)]
pub struct SweepSettings {
    pub sender_exe: String,
    pub receiver_exe: String,
    pub out: String,
    pub reps: usize,
    pub secs: u64,
    pub latency: u16,
}

/// The program of a role: under either of its names, or this program.
pub open spec fn exe_for(
    cli: CliText,
    name: Seq<char>,
    alias: Seq<char>,
    this: Seq<char>,
) -> Seq<char> {
    match cli.flag(name) {
        Some(v) => v,
        None => flag_text(cli, alias, this),
    }
}

fn exe_of(cli: &Cli, name: &str, alias: &str, this: &str) -> (r: String)
    ensures
        r@ == exe_for(cli@, name@, alias@, this@),
{
    match cli.flag(name) {
        Some(v) => v.clone(),
        None => match cli.flag(alias) {
            Some(v) => v.clone(),
            None => this.to_owned(),
        },
    }
}

impl SweepSettings {
    /// The settings that a command line asks for; `this` is the running program.
    pub fn of_cli(cli: &Cli, this: &str) -> (r: Self)
        ensures
            r.sender_exe@ == exe_for(cli@, "sender-exe"@, "caller-exe"@, this@),
            r.receiver_exe@ == exe_for(cli@, "receiver-exe"@, "listener-exe"@, this@),
            r.out@ == flag_text(cli@, "out"@, "scratch/results.tsv"@),
            r.reps == flag_count(cli@, "reps"@, usize::MAX as int, 3),
            r.secs == flag_count(cli@, "secs"@, u64::MAX as int, 8),
            r.latency == flag_count(cli@, "latency"@, u16::MAX as int, 120),
    {
        SweepSettings {
            sender_exe: exe_of(cli, "sender-exe", "caller-exe", this),
            receiver_exe: exe_of(cli, "receiver-exe", "listener-exe", this),
            out: match cli.flag("out") {
                Some(v) => v.clone(),
                None => "scratch/results.tsv".to_owned(),
            },
            reps: cli.flag_or("reps", 3),
            secs: cli.flag_or_u64("secs", 8),
            latency: cli.flag_or_u16("latency", 120),
        }
    }
}

// ---------------------------------------------------------------------------
// What a cell asks of its runtimes
// ---------------------------------------------------------------------------

/// The count of a recorded ingress, or one.
pub open spec fn count_or_one(s: Seq<char>) -> usize {
    match unsigned_of(s, usize::MAX as int) {
        Some(n) => n as usize,
        None => 1,
    }
}

/// The ingress that a result file records; whatever else it says is per port.
pub open spec fn ingress_recorded(spec: Seq<char>) -> Ingress {
    match split_once_text(spec, ':') {
        Some((kind, count)) => if kind == "shared-pool"@ {
            Ingress::SharedPool(count_or_one(count))
        } else if kind == "reuseport-multi"@ {
            Ingress::ReuseportMulti(count_or_one(count))
        } else if kind == "reuseport-single"@ {
            Ingress::ReuseportSingle { workers: count_or_one(count) }
        } else {
            Ingress::PerPort
        },
        None => Ingress::PerPort,
    }
}

/// Reads an ingress as a result file records it.
pub fn recorded_ingress(spec: &str) -> (r: Ingress)
    ensures
        r == ingress_recorded(spec@),
{
    match split_once(spec, ':') {
        Some((kind, count)) => {
            let n: usize = match parse_usize(count.as_str()) {
                Some(n) => n,
                None => 1,
            };
            if same(kind.as_str(), "shared-pool") {
                Ingress::SharedPool(n)
            } else if same(kind.as_str(), "reuseport-multi") {
                Ingress::ReuseportMulti(n)
            } else if same(kind.as_str(), "reuseport-single") {
                Ingress::ReuseportSingle { workers: n }
            } else {
                Ingress::PerPort
            }
        },
        None => Ingress::PerPort,
    }
}

/// The runtime that a name stands for; an unknown one is the first.
pub open spec fn runtime_or_first(name: Seq<char>) -> Runtime {
    match runtime_named(name) {
        Some(r) => r,
        None => Runtime::Mio,
    }
}

/// What a cell asks of the receiving and of the sending runtime. The cell is
/// supported if both have the ingress.
pub fn cell_demands(config: &MatrixCellConfig) -> (r: ((Runtime, Ingress), (Runtime, Ingress)))
    ensures
        r.0 == (
            runtime_or_first(config.recv_runtime@),
            ingress_recorded(config.recv_ingress@),
        ),
        r.1 == (
            runtime_or_first(config.send_runtime@),
            ingress_recorded(config.send_ingress@),
        ),
{
    let recv = match Runtime::parse(config.recv_runtime.as_str()) {
        Some(r) => r,
        None => Runtime::Mio,
    };
    let send = match Runtime::parse(config.send_runtime.as_str()) {
        Some(r) => r,
        None => Runtime::Mio,
    };
    (
        (recv, recorded_ingress(config.recv_ingress.as_str())),
        (send, recorded_ingress(config.send_ingress.as_str())),
    )
}

/// What a scheduled run calls for.
#[derive(Debug)]
pub enum RunStep {
    /// Its cell is not implemented; said once per cell.
    Skip { first: bool },
    /// An earlier invocation recorded it.
    Resume,
    /// It is to be run, under this identity.
    Run { attempt: String },
}

/// A sweep under way.
#[derive(Debug)]
pub struct SweepRun {
    pub report: MatrixReport,
    /// The cells that were skipped, each once.
    pub skipped_cells: Vec<usize>,
}

/// Whether a run is already recorded.
pub open spec fn is_done(schedule: MatrixSchedule, cells: Seq<Cell>, run: int) -> bool {
    let (cell, rep) = schedule.runs@[run];
    texts(schedule.done@).contains(cell_key_text(cell_text(cells[cell as int]@), rep as nat))
}

/// `now` is `was` with one more run begun, which came to the step `r`: the run of an
/// unsupported cell is skipped, one that is recorded is resumed, and any other is run.
pub open spec fn run_begun(
    was: SweepRun,
    now: SweepRun,
    r: RunStep,
    cell: usize,
    supported: bool,
    done: bool,
    reps: usize,
    attempt: Seq<char>,
) -> bool {
    let seen = was.skipped_cells@.contains(cell);
    if !supported {
        &&& r == (RunStep::Skip { first: !seen })
        &&& now.skipped_cells@ == if seen {
            was.skipped_cells@
        } else {
            was.skipped_cells@.push(cell)
        }
        &&& now.report == if seen {
            was.report
        } else {
            MatrixReport { skipped_runs: (was.report.skipped_runs + reps) as usize, ..was.report }
        }
    } else if done {
        &&& r is Resume
        &&& now.skipped_cells == was.skipped_cells
        &&& now.report == (MatrixReport {
            resumed_runs: (was.report.resumed_runs + 1) as usize,
            ..was.report
        })
    } else {
        &&& r is Run
        &&& r->attempt@ == attempt
        &&& now == was
    }
}

impl SweepRun {
    pub open spec fn wf(&self) -> bool {
        self.report.wf() && self.skipped_cells@.no_duplicates()
    }

    pub fn new() -> (r: Self)
        ensures
            r.wf(),
            r.skipped_cells@.len() == 0,
            r.report.failures@.len() == 0,
            r.report.skipped_runs == 0,
            r.report.resumed_runs == 0,
            r.report.completed_runs == 0,
            r.report.failed_runs == 0,
    {
        SweepRun { report: MatrixReport::new(), skipped_cells: Vec::new() }
    }

    /// Decides what run number `run` calls for, and counts it unless it is to be run.
    /// An unsupported cell is the only legitimate skip, and it is decided from
    /// configuration alone; its repetitions are counted at its first run.
    pub fn begin(
        &mut self,
        cells: &Vec<Cell>,
        schedule: &MatrixSchedule,
        run: usize,
        supported: bool,
        reps: usize,
        nonce: &str,
    ) -> (r: RunStep)
        requires
            old(self).wf(),
            run < schedule.runs@.len(),
            schedule.runs@[run as int].0 < cells@.len(),
            old(self).report.skipped_runs + reps <= usize::MAX,
            old(self).report.resumed_runs < usize::MAX,
        ensures
            final(self).wf(),
            run_begun(
                *old(self),
                *final(self),
                r,
                schedule.runs@[run as int].0,
                supported,
                is_done(*schedule, cells@, run as int),
                reps,
                attempt_text(nonce@, run as nat),
            ),
    {
        let (cell, rep) = schedule.runs[run];
        if !supported {
            let mut i: usize = 0;
            while i < self.skipped_cells.len()
                invariant
                    i <= self.skipped_cells@.len(),
                    *self == *old(self),
                    old(self).wf(),
                    !supported,
                    run < schedule.runs@.len(),
                    cell == schedule.runs@[run as int].0,
                    forall|j: int| 0 <= j < i ==> self.skipped_cells@[j] != cell,
                decreases self.skipped_cells@.len() - i,
            {
                if self.skipped_cells[i] == cell {
                    assert(self.skipped_cells@.contains(cell));
                    return RunStep::Skip { first: false };
                }
                i += 1;
            }
            self.report.record_skipped(reps);
            self.skipped_cells.push(cell);
            return RunStep::Skip { first: true };
        }
        let key = cell_key(&cells[cell], rep);
        if contains_text(&schedule.done, key.as_str()) {
            self.report.record_resumed();
            return RunStep::Resume;
        }
        RunStep::Run { attempt: attempt_id(nonce, run) }
    }

    /// A run that was to be run has ended.
    pub fn end(&mut self, label: &str, rep: usize, failures: Vec<MatrixFailureKind>)
        requires
            old(self).wf(),
            old(self).report.completed_runs < usize::MAX,
            old(self).report.failed_runs < usize::MAX,
        ensures
            final(self).wf(),
            final(self).skipped_cells == old(self).skipped_cells,
            run_recorded(old(self).report, final(self).report, label@, rep, failures@),
    {
        self.report.record_run(label, rep, failures);
    }
}

/// The failures of a run, one after another.
pub open spec fn failures_said(failures: Seq<MatrixFailureKind>) -> Seq<char> {
    joined(failures.map_values(|f: MatrixFailureKind| f@.text()), "; "@)
}

/// The progress line of a run that ended.
pub open spec fn progress_text(
    run: nat,
    total: nat,
    rep: nat,
    label: Seq<char>,
    sender: Seq<char>,
    receiver: Seq<char>,
    failures: Seq<MatrixFailureKind>,
) -> Seq<char> {
    "["@ + right_in(decimal((run + 1) as nat), 4) + "/"@ + decimal(total) + "] rep "@ + decimal(rep)
        + " "@ + label + if failures.len() == 0 {
        Seq::empty()
    } else {
        " FAILED (sender="@ + sender + " receiver="@ + receiver + ": "@ + failures_said(failures)
            + ")"@
    }
}

fn say_failures(failures: &Vec<MatrixFailureKind>) -> (r: String)
    ensures
        r@ == failures_said(failures@),
{
    let ghost want = failures@.map_values(|f: MatrixFailureKind| f@.text());
    let mut parts: Vec<String> = Vec::new();
    let mut i: usize = 0;
    assert(texts(parts@) =~= want.take(0));
    while i < failures.len()
        invariant
            i <= failures@.len(),
            want == failures@.map_values(|f: MatrixFailureKind| f@.text()),
            texts(parts@) == want.take(i as int),
        decreases failures@.len() - i,
    {
        let part = failures[i].describe();
        proof {
            lemma_texts_push(parts@, part);
            assert(want.take(i + 1) =~= want.take(i as int).push(part@));
        }
        parts.push(part);
        i += 1;
    }
    assert(want.take(want.len() as int) =~= want);
    join(&parts, "; ")
}

/// The progress line of a run that ended.
pub fn progress_line(
    run: usize,
    total: usize,
    rep: usize,
    label: &str,
    sender: &str,
    receiver: &str,
    failures: &Vec<MatrixFailureKind>,
) -> (r: String)
    requires
        run < usize::MAX,
    ensures
        r@ == progress_text(
            run as nat,
            total as nat,
            rep as nat,
            label@,
            sender@,
            receiver@,
            failures@,
        ),
{
    let number = render((run + 1) as u64);
    let mut out = "[".to_owned();
    out.append(pad_left(number.as_str(), 4).as_str());
    out.append("/");
    out.append(render(total as u64).as_str());
    out.append("] rep ");
    out.append(render(rep as u64).as_str());
    out.append(" ");
    out.append(label);
    if failures.len() > 0 {
        let ghost before = out@;
        out.append(" FAILED (sender=");
        out.append(sender);
        out.append(" receiver=");
        out.append(receiver);
        out.append(": ");
        out.append(say_failures(failures).as_str());
        out.append(")");
        assert(out@ =~= before + (" FAILED (sender="@ + sender@ + " receiver="@ + receiver@ + ": "@
            + failures_said(failures@) + ")"@));
    } else {
        assert(out@ + Seq::<char>::empty() =~= out@);
    }
    out
}

} // verus!
