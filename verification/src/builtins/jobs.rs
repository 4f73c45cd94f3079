//! Background jobs: the job table, its listing and job numbers.

use vstd::prelude::*;

use crate::exec::{job_started, job_started_line};
use crate::numtext::{pad_right, push_dec, push_padded_right, spec_dec};
use crate::text::push_char;

verus! {

/// The state of a background job.
#[derive(Debug, Clone, Copy, PartialEq, Eq, Structural)]
pub enum JobStatus {
    /// Some process of the job is still alive.
    Running,
    /// Every process of the job has exited.
    Done,
}

/// The word `jobs` prints for a status.
pub open spec fn status_text(s: JobStatus) -> Seq<char> {
    match s {
        JobStatus::Running => "Running"@,
        JobStatus::Done => "Done"@,
    }
}

impl JobStatus {
    /// `Running` or `Done`.
    pub fn as_str(&self) -> (r: &'static str)
        ensures
            r@ == status_text(*self),
    {
        match self {
            JobStatus::Running => "Running",
            JobStatus::Done => "Done",
        }
    }
}

/// One background job: its number, the pid of its last process, its
/// command text, its state and the handles of its processes (`C`).
pub struct Job<C> {
    pub id: u32,
    pub pid: u32,
    pub command: String,
    pub status: JobStatus,
    pub children: Vec<C>,
}

/// The marker after a job number: `+` for the newest job, `-` for the one
/// before it, a space for the others.
pub open spec fn job_mark(idx: int, len: int) -> char {
    if idx == len - 1 {
        '+'
    } else if idx + 1 == len - 1 {
        '-'
    } else {
        ' '
    }
}

/// `[ID]M  STATUS                  COMMAND`, the status left-aligned in 24
/// columns, then ` &` for a running job, then a newline.
pub open spec fn job_line(id: u32, mark: char, status: JobStatus, command: Seq<char>) -> Seq<char> {
    seq!['['] + spec_dec(id as nat) + seq![']', mark, ' ', ' '] + pad_right(status_text(status), 24)
        + command + (if status is Running {
        seq![' ', '&']
    } else {
        seq![]
    }) + seq!['\n']
}

/// The listing of the first `k` jobs of `js`: every job, or with
/// `done_only` only the finished ones; the markers count all jobs.
pub open spec fn job_lines<C>(js: Seq<Job<C>>, k: int, done_only: bool) -> Seq<char>
    decreases k,
{
    if k <= 0 {
        seq![]
    } else {
        let j = js[k - 1];
        job_lines(js, k - 1, done_only) + if done_only && j.status is Running {
            seq![]
        } else {
            job_line(j.id, job_mark(k - 1, js.len() as int), j.status, j.command@)
        }
    }
}

/// The jobs after the finished ones have been promoted: a running job
/// whose processes have all exited (`finished`) becomes done.
pub open spec fn advanced<C>(js: Seq<Job<C>>, finished: Seq<bool>) -> Seq<Job<C>> {
    Seq::new(
        js.len(),
        |i: int|
            if js[i].status is Running && finished[i] {
                Job { status: JobStatus::Done, ..js[i] }
            } else {
                js[i]
            },
    )
}

/// The jobs of `js` that are still running, in order.
pub open spec fn running_only<C>(js: Seq<Job<C>>) -> Seq<Job<C>>
    decreases js.len(),
{
    if js.len() == 0 {
        seq![]
    } else {
        running_only(js.drop_last()) + if js.last().status is Running {
            seq![js.last()]
        } else {
            seq![]
        }
    }
}

/// For each job, whether all of its processes have exited, given for each
/// job whether each of its processes has exited (`exited`).
pub open spec fn all_exited(exited: Seq<Vec<bool>>) -> Seq<bool> {
    Seq::new(exited.len(), |i: int| forall|k: int| 0 <= k < exited[i]@.len() ==> exited[i]@[k])
}

/// Whether some job of `js` has number `id`.
pub open spec fn id_in_use<C>(js: Seq<Job<C>>, id: int) -> bool {
    exists|i: int| 0 <= i < js.len() && js[i].id == id
}

/// Whether every flag of `flags` is set.
fn all_set(flags: &Vec<bool>) -> (b: bool)
    ensures
        b == forall|k: int| 0 <= k < flags@.len() ==> flags@[k],
{
    let mut k: usize = 0;
    while k < flags.len()
        invariant
            k <= flags@.len(),
            forall|j: int| 0 <= j < k ==> flags@[j],
        decreases flags@.len() - k,
    {
        if !flags[k] {
            return false;
        }
        k = k + 1;
    }
    true
}

/// Marks as done every running job whose processes have all exited;
/// `exited[i][k]` tells whether process `k` of job `i` has exited.  A job
/// with a process still running stays running; nothing else changes, and
/// finished jobs stay in the table.
pub fn advance_job_status<C>(jobs: &mut Vec<Job<C>>, exited: &[Vec<bool>])
    requires
        exited@.len() == old(jobs)@.len(),
    ensures
        final(jobs)@ == advanced(old(jobs)@, all_exited(exited@)),
{
    let ghost fin = all_exited(exited@);
    let mut i: usize = 0;
    while i < jobs.len()
        invariant
            exited@.len() == old(jobs)@.len(),
            fin == all_exited(exited@),
            jobs@.len() == old(jobs)@.len(),
            i <= jobs@.len(),
            forall|k: int| 0 <= k < i ==> jobs@[k] == advanced(old(jobs)@, fin)[k],
            forall|k: int| i <= k < jobs@.len() ==> jobs@[k] == old(jobs)@[k],
        decreases jobs@.len() - i,
    {
        if jobs[i].status == JobStatus::Running && all_set(&exited[i]) {
            jobs[i].status = JobStatus::Done;
        }
        i = i + 1;
    }
    assert(jobs@ =~= advanced(old(jobs)@, fin));
}

/// Appends the line of job `idx` of `jobs`.
fn push_job_line<C>(sink: &mut String, jobs: &Vec<Job<C>>, idx: usize)
    requires
        idx < jobs@.len(),
    ensures
        final(sink)@ == old(sink)@ + job_line(
            jobs@[idx as int].id,
            job_mark(idx as int, jobs@.len() as int),
            jobs@[idx as int].status,
            jobs@[idx as int].command@,
        ),
{
    let job = &jobs[idx];
    let last = jobs.len() - 1;
    let mark = if idx == last {
        '+'
    } else if idx + 1 == last {
        '-'
    } else {
        ' '
    };
    push_char(sink, '[');
    push_dec(sink, job.id as u64);
    push_char(sink, ']');
    push_char(sink, mark);
    push_char(sink, ' ');
    push_char(sink, ' ');
    push_padded_right(sink, job.status.as_str(), 24);
    sink.append(job.command.as_str());
    match job.status {
        JobStatus::Running => {
            push_char(sink, ' ');
            push_char(sink, '&');
        },
        JobStatus::Done => {},
    }
    push_char(sink, '\n');
    assert(final(sink)@ =~= old(sink)@ + job_line(job.id, mark, job.status, job.command@));
}

/// Appends the listing of `jobs` (only the finished ones with `done_only`).
fn push_job_lines<C>(sink: &mut String, jobs: &Vec<Job<C>>, done_only: bool)
    ensures
        final(sink)@ == old(sink)@ + job_lines(jobs@, jobs@.len() as int, done_only),
{
    let mut i: usize = 0;
    while i < jobs.len()
        invariant
            i <= jobs@.len(),
            sink@ == old(sink)@ + job_lines(jobs@, i as int, done_only),
        decreases jobs@.len() - i,
    {
        if done_only && jobs[i].status == JobStatus::Running {
            assert(sink@ =~= old(sink)@ + job_lines(jobs@, i + 1, done_only));
        } else {
            push_job_line(sink, jobs, i);
            assert(sink@ =~= old(sink)@ + job_lines(jobs@, i + 1, done_only));
        }
        i = i + 1;
    }
}

/// Prints the line of each finished job, with the markers of the whole
/// table; running jobs print nothing.  The table does not change.
pub fn render_done_jobs<C>(sink: &mut String, jobs: &Vec<Job<C>>)
    ensures
        final(sink)@ == old(sink)@ + job_lines(jobs@, jobs@.len() as int, true),
{
    push_job_lines(sink, jobs, true);
}

/// Removes the finished jobs, keeping the order of the others.
pub fn retain_running_jobs<C>(jobs: &mut Vec<Job<C>>)
    ensures
        final(jobs)@ == running_only(old(jobs)@),
{
    let ghost orig = jobs@;
    let mut rest: Vec<Job<C>> = Vec::new();
    std::mem::swap(&mut rest, jobs);
    let ghost total = rest@.len();
    assert(total == rest.len());
    let mut k: usize = 0;
    while rest.len() > 0
        invariant
            total == orig.len(),
            total <= usize::MAX,
            k + rest@.len() == total,
            rest@ == orig.skip(k as int),
            jobs@ == running_only(orig.take(k as int)),
        decreases rest@.len(),
    {
        let job = rest.remove(0);
        assert(job == orig[k as int]);
        assert(orig.take(k + 1).drop_last() =~= orig.take(k as int));
        if job.status == JobStatus::Running {
            jobs.push(job);
        }
        k = k + 1;
        assert(rest@ =~= orig.skip(k as int));
        assert(jobs@ =~= running_only(orig.take(k as int)));
    }
    assert(orig.take(k as int) =~= orig);
}

proof fn lemma_some_id_free<C>(js: Seq<Job<C>>)
    ensures
        exists|r: int| 1 <= r <= js.len() + 1 && !id_in_use(js, r),
{
    let ids = Set::new(|r: int| 1 <= r <= js.len() + 1 && id_in_use(js, r));
    let range = Set::new(|r: int| 1 <= r <= js.len() + 1);
    let used = js.map_values(|j: Job<C>| j.id as int).to_set();
    assert(ids.subset_of(used)) by {
        assert forall|r: int| ids.contains(r) implies used.contains(r) by {
            let i = choose|i: int| 0 <= i < js.len() && js[i].id == r;
            assert(js.map_values(|j: Job<C>| j.id as int)[i] == r);
        }
    }
    js.map_values(|j: Job<C>| j.id as int).lemma_cardinality_of_set();
    vstd::set_lib::lemma_len_subset(ids, used);
    assert(range =~= vstd::set_lib::set_int_range(1, js.len() as int + 2));
    vstd::set_lib::lemma_int_range(1, js.len() as int + 2);
    if forall|r: int| 1 <= r <= js.len() + 1 ==> id_in_use(js, r) {
        assert(ids =~= range);
        assert(false);
    }
}

/// The number for a new job: the smallest positive number that no job of
/// the table has.
pub fn allocate_job_id<C>(jobs: &Vec<Job<C>>) -> (r: u32)
    requires
        jobs@.len() < u32::MAX,
    ensures
        r >= 1,
        !id_in_use(jobs@, r as int),
        forall|k: int| 1 <= k < r ==> id_in_use(jobs@, k),
{
    proof {
        lemma_some_id_free(jobs@);
    }
    let mut n: u32 = 1;
    loop
        invariant
            jobs@.len() < u32::MAX,
            1 <= n <= jobs@.len() + 1,
            forall|k: int| 1 <= k < n ==> id_in_use(jobs@, k),
            exists|r: int| n <= r <= jobs@.len() + 1 && !id_in_use(jobs@, r),
        decreases jobs@.len() + 1 - n,
    {
        let mut used = false;
        let mut i: usize = 0;
        while i < jobs.len()
            invariant
                i <= jobs@.len(),
                used == exists|j: int| 0 <= j < i && jobs@[j].id == n,
            decreases jobs@.len() - i,
        {
            if jobs[i].id == n {
                used = true;
            }
            i = i + 1;
        }
        if !used {
            return n;
        }
        n = n + 1;
    }
}

/// Records a background job just started: it gets the smallest positive
/// number no job of the table has, and is added at the end of the table as
/// running.  Returns the line announcing it, `[ID] PID`.
pub fn add_job<C>(jobs: &mut Vec<Job<C>>, pid: u32, command: String, children: Vec<C>) -> (notice:
    String)
    requires
        old(jobs)@.len() < u32::MAX,
    ensures
        final(jobs)@.len() == old(jobs)@.len() + 1,
        final(jobs)@.drop_last() == old(jobs)@,
        ({
            let j = final(jobs)@.last();
            &&& j.id >= 1
            &&& !id_in_use(old(jobs)@, j.id as int)
            &&& forall|k: int| 1 <= k < j.id ==> id_in_use(old(jobs)@, k)
            &&& j.pid == pid
            &&& j.command@ == command@
            &&& j.status == JobStatus::Running
            &&& j.children@ == children@
            &&& notice@ == job_started_line(j.id, pid)
        }),
{
    let id = allocate_job_id(jobs);
    let notice = job_started(id, pid);
    let ghost before = jobs@;
    jobs.push(Job { id, pid, command, status: JobStatus::Running, children });
    assert(jobs@.drop_last() =~= before);
    notice
}

/// `jobs`: first marks the jobs whose processes have all exited
/// (`exited`, as for [`advance_job_status`]), then lists every job (the
/// running ones with a trailing ` &`), then removes the finished ones.
/// Nothing goes to standard error, and the arguments are ignored.
pub fn run_jobs<C>(
    sink: &mut String,
    err_sink: &mut String,
    args: &[String],
    jobs: &mut Vec<Job<C>>,
    exited: &[Vec<bool>],
)
    requires
        exited@.len() == old(jobs)@.len(),
    ensures
        final(sink)@ == old(sink)@ + job_lines(
            advanced(old(jobs)@, all_exited(exited@)),
            old(jobs)@.len() as int,
            false,
        ),
        final(err_sink)@ == old(err_sink)@,
        final(jobs)@ == running_only(advanced(old(jobs)@, all_exited(exited@))),
{
    advance_job_status(jobs, exited);
    push_job_lines(sink, jobs, false);
    retain_running_jobs(jobs);
}


/// After finished jobs are removed, every job left is running, and every
/// job that was running is still there: a finished job is reported by one
/// reaping pass and never again.
pub proof fn law_retained_jobs_are_running<C>(js: Seq<Job<C>>)
    ensures
        forall|i: int| 0 <= i < running_only(js).len() ==> (#[trigger] running_only(js)[i]).status
            is Running,
        forall|i: int|
            0 <= i < js.len() && (#[trigger] js[i]).status is Running ==> exists|j: int|
                0 <= j < running_only(js).len() && running_only(js)[j] == js[i],
    decreases js.len(),
{
    if js.len() > 0 {
        let init = js.drop_last();
        law_retained_jobs_are_running(init);
        let r0 = running_only(init);
        let r = running_only(js);
        assert forall|i: int| 0 <= i < r.len() implies (#[trigger] r[i]).status is Running by {
            if i < r0.len() {
                assert(r[i] == r0[i]);
            }
        }
        assert forall|i: int| 0 <= i < js.len() && (#[trigger] js[i]).status is Running implies exists|
            j: int,
        | 0 <= j < r.len() && r[j] == js[i] by {
            if i < js.len() - 1 {
                assert(init[i] == js[i]);
                let j = choose|j: int| 0 <= j < r0.len() && r0[j] == init[i];
                assert(r[j] == r0[j]);
            } else {
                assert(r[r0.len() as int] == js[i]);
            }
        }
    }
}

} // verus!
