//! Extraction jobs, the batch orchestrator, and its lifecycle events.
//!
//! A batch is an ordered sequence of jobs, one per checked selection label,
//! run strictly one after another.  The orchestrator records a lifecycle
//! log: `BatchStarted`, then `JobStarted` / `JobFinished` per job, then
//! `BatchFinished` — and a job's failure never keeps the jobs after it from
//! running.  The surrounding application performs each job between
//! `begin_job` and `finish_job` and hands back the outcome.

use crate::codec::DecodeError;
use crate::codec::decode;
use crate::codec::decoded_index;
use crate::codec::digit_run_end;
use crate::codec::digit_run_end_from;
use crate::text::chars_to_string;
use crate::text::dec_digits;
use crate::text::push_chars;
use crate::text::push_dec_digits;
use crate::text::str_chars;
use vstd::prelude::*;
use vstd::string::StringExecFns;

verus! {

/// The extraction tool failed for one job; `detail` says how.
#[derive(Debug, Clone)]
pub struct ExtractionInvocationError {
    pub detail: String,
}

/// What one extraction job came to.
#[derive(Debug, Clone)]
pub enum JobOutcome {
    Success,
    Failure(ExtractionInvocationError),
}

/// One extraction step: pull the track with index `track_index` out of
/// `source` and write it to `output`.
#[derive(Debug, Clone)]
pub struct ExtractionJob {
    pub source: String,
    pub track_index: i32,
    pub output: String,
}

/// One entry of the orchestrator's lifecycle log.
#[derive(Debug, Clone)]
pub enum BatchEvent {
    BatchStarted,
    JobStarted(ExtractionJob),
    JobFinished(ExtractionJob, JobOutcome),
    BatchFinished,
}

/// Mathematical value of an extraction job.
pub struct JobView {
    pub source: Seq<char>,
    pub track_index: int,
    pub output: Seq<char>,
}

/// Mathematical value of a job outcome.
pub enum OutcomeView {
    Success,
    Failure(Seq<char>),
}

/// Mathematical value of a lifecycle event.
pub enum EventView {
    BatchStarted,
    JobStarted(JobView),
    JobFinished(JobView, OutcomeView),
    BatchFinished,
}

impl View for ExtractionJob {
    type V = JobView;

    open spec fn view(&self) -> JobView {
        JobView {
            source: self.source@,
            track_index: self.track_index as int,
            output: self.output@,
        }
    }
}

impl View for JobOutcome {
    type V = OutcomeView;

    open spec fn view(&self) -> OutcomeView {
        match self {
            JobOutcome::Success => OutcomeView::Success,
            JobOutcome::Failure(e) => OutcomeView::Failure(e.detail@),
        }
    }
}

impl View for BatchEvent {
    type V = EventView;

    open spec fn view(&self) -> EventView {
        match self {
            BatchEvent::BatchStarted => EventView::BatchStarted,
            BatchEvent::JobStarted(j) => EventView::JobStarted(j@),
            BatchEvent::JobFinished(j, o) => EventView::JobFinished(j@, o@),
            BatchEvent::BatchFinished => EventView::BatchFinished,
        }
    }
}

/// The values of a sequence of events.
pub open spec fn log_view(s: Seq<BatchEvent>) -> Seq<EventView> {
    s.map_values(|e: BatchEvent| e@)
}

/// The values of a sequence of jobs.
pub open spec fn jobs_view(s: Seq<ExtractionJob>) -> Seq<JobView> {
    s.map_values(|j: ExtractionJob| j@)
}

/// The values of a sequence of outcomes.
pub open spec fn outcomes_view(s: Seq<JobOutcome>) -> Seq<OutcomeView> {
    s.map_values(|o: JobOutcome| o@)
}

/// The per-job part of a batch log: `JobStarted` then `JobFinished` for
/// each job in order, each `JobFinished` carrying that job's own outcome.
pub open spec fn jobs_events(jobs: Seq<JobView>, outcomes: Seq<OutcomeView>) -> Seq<EventView>
    recommends
        jobs.len() == outcomes.len(),
    decreases jobs.len(),
{
    if jobs.len() == 0 || outcomes.len() == 0 {
        Seq::empty()
    } else {
        jobs_events(jobs.drop_last(), outcomes.drop_last()) + seq![
            EventView::JobStarted(jobs.last()),
            EventView::JobFinished(jobs.last(), outcomes.last()),
        ]
    }
}

/// The whole lifecycle log of a batch run to completion.
pub open spec fn batch_events(jobs: Seq<JobView>, outcomes: Seq<OutcomeView>) -> Seq<EventView> {
    seq![EventView::BatchStarted] + jobs_events(jobs, outcomes) + seq![EventView::BatchFinished]
}

/// How many events of a log report a failed job.
pub open spec fn failure_count(s: Seq<EventView>) -> nat
    decreases s.len(),
{
    if s.len() == 0 {
        0
    } else {
        failure_count(s.drop_last()) + match s.last() {
            EventView::JobFinished(_, OutcomeView::Failure(_)) => 1nat,
            _ => 0nat,
        }
    }
}

/// How many of a batch's outcomes are failures.
pub open spec fn count_failed(outcomes: Seq<OutcomeView>) -> nat
    decreases outcomes.len(),
{
    if outcomes.len() == 0 {
        0
    } else {
        count_failed(outcomes.drop_last()) + match outcomes.last() {
            OutcomeView::Failure(_) => 1nat,
            _ => 0nat,
        }
    }
}

proof fn lemma_failure_count_concat(a: Seq<EventView>, b: Seq<EventView>)
    ensures
        failure_count(a + b) == failure_count(a) + failure_count(b),
    decreases b.len(),
{
    if b.len() == 0 {
        assert(a + b =~= a);
    } else {
        lemma_failure_count_concat(a, b.drop_last());
        assert((a + b).drop_last() =~= a + b.drop_last());
        assert((a + b).last() == b.last());
    }
}

proof fn lemma_jobs_events_failures(jobs: Seq<JobView>, outcomes: Seq<OutcomeView>)
    requires
        jobs.len() == outcomes.len(),
    ensures
        failure_count(jobs_events(jobs, outcomes)) == count_failed(outcomes),
    decreases jobs.len(),
{
    if jobs.len() > 0 {
        lemma_jobs_events_failures(jobs.drop_last(), outcomes.drop_last());
        let pair = seq![
            EventView::JobStarted(jobs.last()),
            EventView::JobFinished(jobs.last(), outcomes.last()),
        ];
        lemma_failure_count_concat(jobs_events(jobs.drop_last(), outcomes.drop_last()), pair);
        let single = seq![EventView::JobStarted(jobs.last())];
        assert(failure_count(Seq::<EventView>::empty()) == 0);
        assert(single.drop_last() =~= Seq::<EventView>::empty());
        assert(failure_count(single) == 0);
        assert(pair.drop_last() =~= single);
        assert(failure_count(pair) == match outcomes.last() {
            OutcomeView::Failure(_) => 1nat,
            _ => 0nat,
        });
    }
}

/// The failures a finished batch's log counts are exactly the outcomes
/// that were failures: none is lost and none is invented.
pub proof fn lemma_batch_failure_count(jobs: Seq<JobView>, outcomes: Seq<OutcomeView>)
    requires
        jobs.len() == outcomes.len(),
    ensures
        failure_count(batch_events(jobs, outcomes)) == count_failed(outcomes),
{
    let started = seq![EventView::BatchStarted];
    let finished = seq![EventView::BatchFinished];
    lemma_failure_count_concat(started + jobs_events(jobs, outcomes), finished);
    lemma_failure_count_concat(started, jobs_events(jobs, outcomes));
    assert(failure_count(Seq::<EventView>::empty()) == 0);
    assert(started.drop_last() =~= Seq::<EventView>::empty());
    assert(failure_count(started) == 0);
    assert(finished.drop_last() =~= Seq::<EventView>::empty());
    assert(failure_count(finished) == 0);
    lemma_jobs_events_failures(jobs, outcomes);
}

proof fn lemma_jobs_events_len(jobs: Seq<JobView>, outcomes: Seq<OutcomeView>)
    requires
        jobs.len() == outcomes.len(),
    ensures
        jobs_events(jobs, outcomes).len() == 2 * jobs.len(),
    decreases jobs.len(),
{
    if jobs.len() > 0 {
        lemma_jobs_events_len(jobs.drop_last(), outcomes.drop_last());
    }
}

proof fn lemma_jobs_events_index(jobs: Seq<JobView>, outcomes: Seq<OutcomeView>, i: int)
    requires
        jobs.len() == outcomes.len(),
        0 <= i < jobs.len(),
    ensures
        jobs_events(jobs, outcomes).len() == 2 * jobs.len(),
        jobs_events(jobs, outcomes)[2 * i] == EventView::JobStarted(jobs[i]),
        jobs_events(jobs, outcomes)[2 * i + 1] == EventView::JobFinished(jobs[i], outcomes[i]),
    decreases jobs.len(),
{
    lemma_jobs_events_len(jobs, outcomes);
    if i == jobs.len() - 1 {
        lemma_jobs_events_len(jobs.drop_last(), outcomes.drop_last());
    } else {
        lemma_jobs_events_index(jobs.drop_last(), outcomes.drop_last(), i);
        lemma_jobs_events_len(jobs.drop_last(), outcomes.drop_last());
    }
}

/// The law of the batch log: it opens with `BatchStarted`, closes with
/// `BatchFinished` whatever the outcomes were, and between the two stand
/// exactly the `JobStarted` / `JobFinished` pairs of the jobs, in batch
/// order, each pair complete before the next begins and each `JobFinished`
/// carrying its own job's outcome.
pub proof fn lemma_batch_events_order(jobs: Seq<JobView>, outcomes: Seq<OutcomeView>)
    requires
        jobs.len() == outcomes.len(),
    ensures
        batch_events(jobs, outcomes).len() == 2 * jobs.len() + 2,
        batch_events(jobs, outcomes)[0] == EventView::BatchStarted,
        batch_events(jobs, outcomes).last() == EventView::BatchFinished,
        forall|i: int|
            0 <= i < jobs.len() ==> batch_events(jobs, outcomes)[2 * i + 1]
                == EventView::JobStarted(#[trigger] jobs[i]),
        forall|i: int|
            0 <= i < jobs.len() ==> batch_events(jobs, outcomes)[2 * i + 2]
                == EventView::JobFinished(#[trigger] jobs[i], outcomes[i]),
{
    lemma_jobs_events_len(jobs, outcomes);
    assert forall|i: int| 0 <= i < jobs.len() implies batch_events(jobs, outcomes)[2 * i + 1]
        == EventView::JobStarted(#[trigger] jobs[i]) && batch_events(jobs, outcomes)[2 * i + 2]
        == EventView::JobFinished(jobs[i], outcomes[i]) by {
        lemma_jobs_events_index(jobs, outcomes, i);
    }
}

/// A batch of zero jobs has the two batch events and nothing between them.
pub proof fn lemma_empty_batch_events()
    ensures
        batch_events(Seq::<JobView>::empty(), Seq::<OutcomeView>::empty()) =~= seq![
            EventView::BatchStarted,
            EventView::BatchFinished,
        ],
{
}

/// A label's display text: everything after the `#<digits> ` marker.
pub open spec fn stripped_label(label: Seq<char>) -> Seq<char>
    recommends
        decoded_index(label) is Some,
{
    label.subrange(digit_run_end(label, 1) + 1, label.len() as int)
}

/// Where a job writes its subtitle: the display text of its label, with
/// the subtitle suffix, inside the chosen folder.
pub open spec fn output_path(folder: Seq<char>, label: Seq<char>) -> Seq<char> {
    folder + seq!['/'] + stripped_label(label) + seq!['.', 's', 'r', 't']
}

/// A job carries the batch's source, the index its label decodes to, and
/// the output path named after its label's display text.
pub open spec fn job_matches(j: JobView, source: Seq<char>, folder: Seq<char>, label: Seq<char>) -> bool {
    &&& decoded_index(label) == Some(j.track_index as nat)
    &&& j.track_index >= 0
    &&& j.source == source
    &&& j.output == output_path(folder, label)
}

/// Turns the checked selection labels into the batch's jobs, in selection
/// order.  Fails exactly when some label does not decode to a track index.
pub fn build_jobs(source: &str, folder: &str, labels: &Vec<String>) -> (r: Result<
    Vec<ExtractionJob>,
    DecodeError,
>)
    ensures
        r matches Ok(jobs) ==> {
            &&& jobs@.len() == labels@.len()
            &&& forall|k: int|
                0 <= k < labels@.len() ==> job_matches(
                    #[trigger] jobs@[k]@,
                    source@,
                    folder@,
                    labels@[k]@,
                )
        },
        r is Ok <==> forall|k: int|
            0 <= k < labels@.len() ==> ((#[trigger] decoded_index(labels@[k]@)) matches Some(v)
                && v <= i32::MAX),
{
    let folder_chars = str_chars(folder);
    let mut jobs: Vec<ExtractionJob> = Vec::new();
    let mut k: usize = 0;
    let n = labels.len();
    while k < n
        invariant
            k <= n,
            n == labels@.len(),
            folder_chars@ == folder@,
            jobs@.len() == k,
            forall|m: int|
                0 <= m < k ==> job_matches(#[trigger] jobs@[m]@, source@, folder@, labels@[m]@),
            forall|m: int|
                0 <= m < k ==> ((#[trigger] decoded_index(labels@[m]@)) matches Some(v)
                    && v <= i32::MAX),
        decreases n - k,
    {
        let label = &labels[k];
        let idx = match decode(label.as_str()) {
            Ok(i) => i,
            Err(e) => {
                return Err(e);
            },
        };
        let cs = str_chars(label.as_str());
        let cs_len = cs.len();
        let e = digit_run_end_from(&cs, 1);
        assert(e < cs_len);
        let mut out: Vec<char> = Vec::new();
        push_chars(&mut out, &folder_chars, 0, folder_chars.len());
        out.push('/');
        proof {
            assert(folder_chars@.subrange(0int, folder_chars@.len() as int) =~= folder@);
        }
        push_chars(&mut out, &cs, e + 1, cs_len);
        out.push('.');
        out.push('s');
        out.push('r');
        out.push('t');
        proof {
            assert(out@ =~= output_path(folder@, labels@[k as int]@));
        }
        let job = ExtractionJob {
            source: source.to_owned(),
            track_index: idx,
            output: chars_to_string(&out),
        };
        assert(job_matches(job@, source@, folder@, labels@[k as int]@));
        jobs.push(job);
        k = k + 1;
    }
    Ok(jobs)
}

/// The stream selector handed to the extraction tool for a track: a `0:`
/// prefix and the track's decimal index.
pub fn stream_map_arg(index: i32) -> (r: String)
    requires
        index >= 0,
    ensures
        r@ == seq!['0', ':'] + dec_digits(index as nat),
{
    let mut out: Vec<char> = Vec::new();
    out.push('0');
    out.push(':');
    push_dec_digits(index as u32, &mut out);
    proof {
        assert(out@ =~= seq!['0', ':'] + dec_digits(index as nat));
    }
    chars_to_string(&out)
}

/// A copy of a job, with the same value.
pub fn copy_job(j: &ExtractionJob) -> (r: ExtractionJob)
    ensures
        r@ == j@,
{
    ExtractionJob {
        source: j.source.clone(),
        track_index: j.track_index,
        output: j.output.clone(),
    }
}

/// Runs the jobs of one batch in order and records the lifecycle log.
pub struct Orchestrator {
    pub jobs: Vec<ExtractionJob>,
    pub pos: usize,
    pub in_job: bool,
    pub done: bool,
    pub log: Vec<BatchEvent>,
}

impl Orchestrator {
    /// The orchestrator's bookkeeping stays inside the batch.
    pub open spec fn wf(self) -> bool {
        &&& self.pos <= self.jobs@.len()
        &&& (self.in_job ==> self.pos < self.jobs@.len() && !self.done)
        &&& (self.done ==> self.pos == self.jobs@.len() && !self.in_job)
    }

    /// The lifecycle events recorded so far, by value.
    pub open spec fn events_view(self) -> Seq<EventView> {
        log_view(self.log@)
    }

    /// Takes the batch's jobs and records `BatchStarted`.
    pub fn start(jobs: Vec<ExtractionJob>) -> (s: Orchestrator)
        ensures
            s.wf(),
            s.jobs == jobs,
            s.pos == 0,
            !s.in_job,
            !s.done,
            s.events_view() == seq![EventView::BatchStarted],
    {
        let mut log: Vec<BatchEvent> = Vec::new();
        log.push(BatchEvent::BatchStarted);
        let s = Orchestrator { jobs, pos: 0, in_job: false, done: false, log };
        proof {
            assert(s.events_view() =~= seq![EventView::BatchStarted]);
        }
        s
    }

    /// True while jobs are left to run.
    pub fn pending(&self) -> (r: bool)
        ensures
            r == (self.pos < self.jobs@.len()),
    {
        self.pos < self.jobs.len()
    }

    /// The job at position `k`, by value.
    pub fn job_at(&self, k: usize) -> (r: ExtractionJob)
        requires
            k < self.jobs@.len(),
        ensures
            r@ == self.jobs@[k as int]@,
    {
        copy_job(&self.jobs[k])
    }

    /// Position of the job now up.
    pub fn position(&self) -> (r: usize)
        ensures
            r == self.pos,
    {
        self.pos
    }

    /// Records `JobStarted` for the job now up; the caller then performs
    /// the job and reports back through `finish_job`.
    pub fn begin_job(&mut self)
        requires
            old(self).wf(),
            !old(self).in_job,
            !old(self).done,
            old(self).pos < old(self).jobs@.len(),
        ensures
            final(self).wf(),
            final(self).jobs == old(self).jobs,
            final(self).pos == old(self).pos,
            final(self).in_job,
            !final(self).done,
            final(self).events_view() == old(self).events_view().push(
                EventView::JobStarted(old(self).jobs@[old(self).pos as int]@),
            ),
    {
        let j = copy_job(&self.jobs[self.pos]);
        self.log.push(BatchEvent::JobStarted(j));
        self.in_job = true;
        proof {
            assert(self.events_view() =~= old(self).events_view().push(
                EventView::JobStarted(old(self).jobs@[old(self).pos as int]@),
            ));
        }
    }

    /// Records `JobFinished` with the outcome the caller observed and moves
    /// on to the next job; a failure recorded here never keeps the batch
    /// from going on.
    pub fn finish_job(&mut self, outcome: JobOutcome)
        requires
            old(self).wf(),
            old(self).in_job,
        ensures
            final(self).wf(),
            final(self).jobs == old(self).jobs,
            final(self).pos == old(self).pos + 1,
            !final(self).in_job,
            !final(self).done,
            final(self).events_view() == old(self).events_view().push(
                EventView::JobFinished(old(self).jobs@[old(self).pos as int]@, outcome@),
            ),
    {
        let j = copy_job(&self.jobs[self.pos]);
        let ghost ov = outcome@;
        let n = self.jobs.len();
        assert(self.pos < n);
        self.log.push(BatchEvent::JobFinished(j, outcome));
        self.pos = self.pos + 1;
        self.in_job = false;
        proof {
            assert(self.events_view() =~= old(self).events_view().push(
                EventView::JobFinished(old(self).jobs@[old(self).pos as int]@, ov),
            ));
        }
    }

    /// Records `BatchFinished` once every job has been run.
    pub fn finish_batch(&mut self)
        requires
            old(self).wf(),
            !old(self).in_job,
            !old(self).done,
            old(self).pos == old(self).jobs@.len(),
        ensures
            final(self).wf(),
            final(self).jobs == old(self).jobs,
            final(self).done,
            final(self).events_view() == old(self).events_view().push(EventView::BatchFinished),
    {
        self.log.push(BatchEvent::BatchFinished);
        self.done = true;
        proof {
            assert(self.events_view() =~= old(self).events_view().push(EventView::BatchFinished));
        }
    }

    /// The lifecycle log recorded so far.
    pub fn events(&self) -> (r: &Vec<BatchEvent>)
        ensures
            r@ == self.log@,
    {
        &self.log
    }

    /// How many jobs of the batch have failed so far.
    pub fn count_failures(&self) -> (r: usize)
        ensures
            r == failure_count(self.events_view()),
    {
        let mut c: usize = 0;
        let mut i: usize = 0;
        let n = self.log.len();
        proof {
            assert(self.events_view().take(0int) =~= Seq::<EventView>::empty());
        }
        while i < n
            invariant
                i <= n,
                n == self.log@.len(),
                c <= i,
                c == failure_count(self.events_view().take(i as int)),
            decreases n - i,
        {
            let failed = match &self.log[i] {
                BatchEvent::JobFinished(_, JobOutcome::Failure(_)) => true,
                _ => false,
            };
            if failed {
                c = c + 1;
            }
            proof {
                let ev = self.events_view();
                assert(ev.take(i as int + 1).drop_last() =~= ev.take(i as int));
                assert(ev.take(i as int + 1).last() == ev[i as int]);
                assert(ev[i as int] == self.log@[i as int]@);
            }
            i = i + 1;
        }
        proof {
            assert(self.events_view().take(n as int) =~= self.events_view());
        }
        c
    }

    /// Runs a whole batch at once against outcomes already known, one per
    /// job: the log is exactly the batch's lifecycle log.
    pub fn run_batch(jobs: Vec<ExtractionJob>, outcomes: Vec<JobOutcome>) -> (s: Orchestrator)
        requires
            jobs@.len() == outcomes@.len(),
        ensures
            s.wf(),
            s.done,
            s.events_view() == batch_events(jobs_view(jobs@), outcomes_view(outcomes@)),
    {
        let ghost jv = jobs_view(jobs@);
        let ghost ov = outcomes_view(outcomes@);
        let n = jobs.len();
        let mut orch = Orchestrator::start(jobs);
        let mut rest = outcomes;
        let mut i: usize = 0;
        proof {
            assert(jv.take(0int) =~= Seq::<JobView>::empty());
            assert(ov.take(0int) =~= Seq::<OutcomeView>::empty());
            assert(orch.events_view() =~= seq![EventView::BatchStarted] + jobs_events(
                jv.take(0int),
                ov.take(0int),
            ));
            assert(rest@ =~= rest@.skip(0int));
        }
        while i < n
            invariant
                i <= n,
                orch.wf(),
                !orch.in_job,
                !orch.done,
                orch.pos == i,
                orch.jobs@.len() == n,
                jv == jobs_view(orch.jobs@),
                ov.len() == n,
                rest@.map_values(|o: JobOutcome| o@) =~= ov.skip(i as int),
                orch.events_view() == seq![EventView::BatchStarted] + jobs_events(
                    jv.take(i as int),
                    ov.take(i as int),
                ),
            decreases n - i,
        {
            orch.begin_job();
            let ghost rest0 = rest@;
            proof {
                assert(rest0.map_values(|x: JobOutcome| x@).len() == rest0.len());
            }
            let o = rest.remove(0);
            proof {
                assert(rest0.map_values(|x: JobOutcome| x@)[0int] == rest0[0int]@);
                assert(o@ == ov[i as int]);
                assert(rest@ =~= rest0.skip(1int));
            }
            orch.finish_job(o);
            proof {
                assert forall|k: int| 0 <= k < rest@.len() implies rest@.map_values(
                    |x: JobOutcome| x@,
                )[k] == #[trigger] ov.skip(i as int + 1)[k] by {
                    assert(rest@[k] == rest0[k + 1]);
                    assert(rest0.map_values(|x: JobOutcome| x@)[k + 1] == rest0[k + 1]@);
                }
                assert(jv.take(i as int + 1).drop_last() =~= jv.take(i as int));
                assert(ov.take(i as int + 1).drop_last() =~= ov.take(i as int));
                assert(jv.take(i as int + 1).last() == jv[i as int]);
                assert(ov.take(i as int + 1).last() == ov[i as int]);
                assert(orch.events_view() =~= seq![EventView::BatchStarted] + jobs_events(
                    jv.take(i as int + 1),
                    ov.take(i as int + 1),
                ));
                assert(rest@.map_values(|x: JobOutcome| x@) =~= ov.skip(i as int + 1));
            }
            i = i + 1;
        }
        proof {
            assert(jv.take(n as int) =~= jv);
            assert(ov.take(n as int) =~= ov);
        }
        orch.finish_batch();
        proof {
            assert(orch.events_view() =~= batch_events(jv, ov));
        }
        orch
    }
}

} // verus!
