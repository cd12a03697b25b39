//! Background jobs (imports, summaries, re-transcriptions, identification):
//! their lifecycle and the table that tracks them. The clock and the job ids
//! come from the caller; the percent of a progress event is carried as given.
use vstd::prelude::*;

use crate::text::{chars_of, eq_chars, extend_str, string_of};

verus! {

broadcast use vstd::string::group_string_axioms;

/// Kind of background job.
#[derive(Clone, Copy, Debug, PartialEq, Eq, Structural)]
pub enum JobType {
    Import,
    Summary,
    Retranscribe,
    /// Background voice-bank speaker identification (non-blocking).
    Identify,
}

/// State of a background job.
#[derive(Clone, Copy, Debug, PartialEq, Eq, Structural)]
pub enum JobState {
    Pending,
    Processing,
    Completed,
    Failed,
    Cancelled,
}

/// Completed, failed and cancelled jobs are finished.
pub open spec fn terminal(s: JobState) -> bool {
    s == JobState::Completed || s == JobState::Failed || s == JobState::Cancelled
}

/// The state after a progress report: a running or pending job is
/// processing; a finished one stays as it is.
pub open spec fn after_progress(s: JobState) -> JobState {
    if terminal(s) {
        s
    } else {
        JobState::Processing
    }
}

/// A job can be cancelled while it is not finished.
pub open spec fn cancellable(s: JobState) -> bool {
    !terminal(s)
}

/// A finished job stays finished under progress reports, and cannot be
/// cancelled.
pub proof fn law_finished_job_is_final(s: JobState)
    ensures
        terminal(s) ==> after_progress(s) == s && !cancellable(s),
        !terminal(s) ==> after_progress(s) == JobState::Processing && cancellable(s),
{
}

/// A progress event. `P` is the type of the optional completion percent,
/// which the table carries without reading.
#[derive(Debug)]
pub struct ProgressEvent<P> {
    pub stage: String,
    pub message: String,
    /// When the event was made (as given by the caller's clock).
    pub timestamp: i64,
    pub percent: Option<P>,
}

impl<P> ProgressEvent<P> {
    pub fn new(stage: &str, message: &str, now: i64) -> (r: Self)
        ensures
            r.stage@ == stage@,
            r.message@ == message@,
            r.timestamp == now,
            r.percent is None,
    {
        ProgressEvent {
            stage: string_of(&chars_of(stage)),
            message: string_of(&chars_of(message)),
            timestamp: now,
            percent: None,
        }
    }

    pub fn with_percent(self, percent: P) -> (r: Self)
        ensures
            r.stage == self.stage,
            r.message == self.message,
            r.timestamp == self.timestamp,
            r.percent == Some(percent),
    {
        ProgressEvent { percent: Some(percent), ..self }
    }
}

/// A background job.
#[derive(Debug)]
pub struct Job<P> {
    pub id: String,
    pub job_type: JobType,
    pub state: JobState,
    pub progress: Vec<ProgressEvent<P>>,
    pub meeting_id: Option<String>,
    pub template: Option<String>,
    pub error: Option<String>,
    pub created_at: i64,
    pub updated_at: i64,
}

impl<P> Job<P> {
    fn new(id: String, job_type: JobType, now: i64) -> (r: Self)
        ensures
            r.id == id,
            r.job_type == job_type,
            r.state == JobState::Pending,
            r.progress@.len() == 0,
            r.meeting_id is None,
            r.template is None,
            r.error is None,
            r.created_at == now,
            r.updated_at == now,
    {
        Job {
            id,
            job_type,
            state: JobState::Pending,
            progress: Vec::new(),
            meeting_id: None,
            template: None,
            error: None,
            created_at: now,
            updated_at: now,
        }
    }

    /// True if the job has reached a terminal state.
    pub fn is_terminal(&self) -> (b: bool)
        ensures
            b == terminal(self.state),
    {
        match self.state {
            JobState::Completed | JobState::Failed | JobState::Cancelled => true,
            _ => false,
        }
    }
}

/// Index of the job with id `id`.
pub open spec fn find_job<P>(jobs: Seq<Job<P>>, id: Seq<char>) -> Option<int>
    decreases jobs.len(),
{
    if jobs.len() == 0 {
        None
    } else if jobs.last().id@ == id {
        Some(jobs.len() - 1)
    } else {
        find_job(jobs.drop_last(), id)
    }
}

/// No two jobs share an id.
pub open spec fn ids_distinct<P>(jobs: Seq<Job<P>>) -> bool {
    forall|a: int, b: int| 0 <= a < b < jobs.len() ==> jobs[a].id@ != jobs[b].id@
}

proof fn lemma_find_job<P>(jobs: Seq<Job<P>>, id: Seq<char>)
    ensures
        find_job(jobs, id) matches Some(k) ==> 0 <= k < jobs.len() && jobs[k].id@ == id,
        find_job(jobs, id) is None ==> forall|k: int| 0 <= k < jobs.len() ==> jobs[k].id@ != id,
    decreases jobs.len(),
{
    if jobs.len() > 0 {
        lemma_find_job(jobs.drop_last(), id);
        if jobs.last().id@ != id {
            assert forall|k: int| 0 <= k < jobs.len() - 1 implies jobs[k] == jobs.drop_last()[k] by {}
        }
    }
}

proof fn lemma_find_unique<P>(jobs: Seq<Job<P>>, id: Seq<char>, k: int)
    requires
        ids_distinct(jobs),
        0 <= k < jobs.len(),
        jobs[k].id@ == id,
    ensures
        find_job(jobs, id) == Some(k),
    decreases jobs.len(),
{
    if k < jobs.len() - 1 {
        assert(jobs.drop_last()[k] == jobs[k]);
        lemma_find_unique(jobs.drop_last(), id, k);
    }
}

/// All the fields but the state, progress, error, links and update time are
/// the same.
pub open spec fn same_identity<P>(a: Job<P>, b: Job<P>) -> bool {
    a.id == b.id && a.job_type == b.job_type && a.created_at == b.created_at
}

/// The job with id `id` is the same before and after (or absent from both).
pub open spec fn job_kept<P>(before: Seq<Job<P>>, after: Seq<Job<P>>, id: Seq<char>) -> bool {
    match find_job(before, id) {
        Some(k) => find_job(after, id) matches Some(k2) && after[k2] == before[k],
        None => find_job(after, id) is None,
    }
}

/// In-memory table of in-flight and recently finished jobs.
pub struct JobTable<P> {
    jobs: Vec<Job<P>>,
}

impl<P> View for JobTable<P> {
    type V = Seq<Job<P>>;

    open spec fn view(&self) -> Seq<Job<P>> {
        self.jobs_view()
    }
}

fn find_index<P>(jobs: &Vec<Job<P>>, id: &str) -> (r: Option<usize>)
    ensures
        r matches Some(i) ==> find_job(jobs@, id@) == Some(i as int),
        r is None ==> find_job(jobs@, id@) is None,
{
    let target = chars_of(id);
    let mut i = jobs.len();
    assert(jobs@.take(jobs@.len() as int) =~= jobs@);
    while i > 0
        invariant
            i <= jobs@.len(),
            target@ == id@,
            find_job(jobs@, id@) == find_job(jobs@.take(i as int), id@),
        decreases i,
    {
        assert(jobs@.take(i as int).drop_last() =~= jobs@.take(i - 1));
        assert(jobs@.take(i as int).last() == jobs@[i - 1]);
        let name = chars_of(jobs[i - 1].id.as_str());
        if eq_chars(&name, &target) {
            return Some(i - 1);
        }
        i -= 1;
    }
    None
}

impl<P> JobTable<P> {
    /// The jobs, in the order they were added.
    pub closed spec fn jobs_view(&self) -> Seq<Job<P>> {
        self.jobs@
    }

    /// The jobs, each id once.
    pub closed spec fn wf(&self) -> bool {
        ids_distinct(self.jobs@)
    }

    pub fn new() -> (r: Self)
        ensures
            r.wf(),
            r@.len() == 0,
    {
        JobTable { jobs: Vec::new() }
    }

    /// Adds a pending job under `id`, replacing a job that had that id.
    pub fn insert_job(&mut self, id: String, job_type: JobType, now: i64)
        requires
            old(self).wf(),
        ensures
            final(self).wf(),
            find_job(final(self)@, id@) matches Some(k) && {
                let j = final(self)@[k];
                &&& j.id@ == id@
                &&& j.job_type == job_type
                &&& j.state == JobState::Pending
                &&& j.progress@.len() == 0
                &&& j.meeting_id is None
                &&& j.template is None
                &&& j.error is None
                &&& j.created_at == now
                &&& j.updated_at == now
            },
            forall|other: Seq<char>|
                other != id@ ==> #[trigger] job_kept(old(self)@, final(self)@, other),
    {
        let ghost idv = id@;
        let ghost before = self.jobs@;
        proof {
            lemma_find_job(before, idv);
        }
        match find_index(&self.jobs, id.as_str()) {
            Some(k) => {
                let _replaced = self.jobs.remove(k);
            },
            None => {},
        }
        let ghost mid = self.jobs@;
        proof {
            lemma_without_id(before, idv, mid);
        }
        let job = Job::new(id, job_type, now);
        self.jobs.push(job);
        proof {
            let s = self.jobs@;
            assert(s.drop_last() =~= mid);
            assert forall|a: int, b: int| 0 <= a < b < s.len() implies s[a].id@ != s[b].id@ by {
                assert(s[a] == mid[a]);
                if b < s.len() - 1 {
                    assert(s[b] == mid[b]);
                }
            }
            lemma_find_unique(s, idv, s.len() - 1);
            assert forall|other: Seq<char>| other != idv implies #[trigger] job_kept(
                before,
                s,
                other,
            ) by {
                lemma_find_job(before, other);
                lemma_find_job(s, other);
                match find_job(before, other) {
                    Some(k) => {
                        let w = old_to_new(before, idv, k);
                        assert(s[w] == mid[w]);
                        lemma_find_unique(s, other, w);
                    },
                    None => {
                        assert forall|w: int| 0 <= w < s.len() implies s[w].id@ != other by {
                            if w < s.len() - 1 {
                                assert(s[w] == mid[w]);
                            }
                        }
                    },
                }
            }
        }
    }

    /// The job with id `id`.
    pub fn get_job(&self, id: &str) -> (r: Option<&Job<P>>)
        ensures
            match find_job(self@, id@) {
                Some(k) => r == Some(&self@[k]),
                None => r is None,
            },
    {
        proof {
            lemma_find_job(self.jobs@, id@);
        }
        match find_index(&self.jobs, id) {
            Some(k) => Some(&self.jobs[k]),
            None => None,
        }
    }

    /// The state of the job with id `id`.
    pub fn get_job_state(&self, id: &str) -> (r: Option<JobState>)
        ensures
            match find_job(self@, id@) {
                Some(k) => r == Some(self@[k].state),
                None => r is None,
            },
    {
        proof {
            lemma_find_job(self.jobs@, id@);
        }
        match find_index(&self.jobs, id) {
            Some(k) => Some(self.jobs[k].state),
            None => None,
        }
    }

    /// Records a progress event: a job that is not finished becomes
    /// processing and gets the event; a finished or unknown job is left as
    /// it is. Returns whether the event was recorded (and is to be broadcast).
    pub fn update_progress(&mut self, id: &str, event: ProgressEvent<P>, now: i64) -> (recorded:
        bool)
        requires
            old(self).wf(),
        ensures
            final(self).wf(),
            final(self)@.len() == old(self)@.len(),
            match find_job(old(self)@, id@) {
                Some(k) => {
                    &&& recorded == !terminal(old(self)@[k].state)
                    &&& find_job(final(self)@, id@) == Some(k)
                    &&& recorded ==> {
                        let j = final(self)@[k];
                        let o = old(self)@[k];
                        &&& same_identity(j, o)
                        &&& j.state == after_progress(o.state)
                        &&& j.progress@ == o.progress@.push(event)
                        &&& j.meeting_id == o.meeting_id
                        &&& j.template == o.template
                        &&& j.error == o.error
                        &&& j.updated_at == now
                    }
                    &&& !recorded ==> final(self)@ == old(self)@
                },
                None => !recorded && final(self)@ == old(self)@,
            },
            forall|other: Seq<char>|
                other != id@ ==> #[trigger] job_kept(old(self)@, final(self)@, other),
    {
        let ghost before = self.jobs@;
        proof {
            lemma_find_job(before, id@);
        }
        match find_index(&self.jobs, id) {
            Some(k) => {
                if self.jobs[k].is_terminal() {
                    proof {
                        lemma_kept_all(before, id@);
                    }
                    return false;
                }
                let mut job = self.jobs.remove(k);
                job.state = JobState::Processing;
                job.progress.push(event);
                job.updated_at = now;
                self.jobs.insert(k, job);
                proof {
                    lemma_update_at(before, self.jobs@, k as int);
                }
                true
            },
            None => {
                proof {
                    lemma_kept_all(before, id@);
                }
                false
            },
        }
    }

    /// Records a progress event made of `stage`, `message` and `percent`,
    /// as `update_progress` does.
    pub fn update_progress_with_percent(
        &mut self,
        id: &str,
        stage: &str,
        message: &str,
        percent: P,
        now: i64,
    ) -> (recorded: bool)
        requires
            old(self).wf(),
        ensures
            final(self).wf(),
            final(self)@.len() == old(self)@.len(),
            match find_job(old(self)@, id@) {
                Some(k) => {
                    &&& recorded == !terminal(old(self)@[k].state)
                    &&& find_job(final(self)@, id@) == Some(k)
                    &&& recorded ==> {
                        let j = final(self)@[k];
                        let o = old(self)@[k];
                        let e = j.progress@.last();
                        &&& same_identity(j, o)
                        &&& j.state == after_progress(o.state)
                        &&& j.progress@.drop_last() == o.progress@
                        &&& j.progress@.len() == o.progress@.len() + 1
                        &&& e.stage@ == stage@
                        &&& e.message@ == message@
                        &&& e.timestamp == now
                        &&& e.percent == Some(percent)
                        &&& j.meeting_id == o.meeting_id
                        &&& j.template == o.template
                        &&& j.error == o.error
                        &&& j.updated_at == now
                    }
                    &&& !recorded ==> final(self)@ == old(self)@
                },
                None => !recorded && final(self)@ == old(self)@,
            },
            forall|other: Seq<char>|
                other != id@ ==> #[trigger] job_kept(old(self)@, final(self)@, other),
    {
        let event = ProgressEvent::new(stage, message, now).with_percent(percent);
        let recorded = self.update_progress(id, event, now);
        proof {
            if let Some(k) = find_job(old(self)@, id@) {
                if recorded {
                    assert(self@[k].progress@.drop_last() =~= old(self)@[k].progress@);
                }
            }
        }
        recorded
    }

    /// Associates a meeting with a job.
    pub fn set_meeting_id(&mut self, id: &str, meeting_id: String, now: i64)
        requires
            old(self).wf(),
        ensures
            final(self).wf(),
            final(self)@.len() == old(self)@.len(),
            match find_job(old(self)@, id@) {
                Some(k) => {
                    let j = final(self)@[k];
                    let o = old(self)@[k];
                    &&& find_job(final(self)@, id@) == Some(k)
                    &&& same_identity(j, o)
                    &&& j.state == o.state
                    &&& j.progress == o.progress
                    &&& j.meeting_id == Some(meeting_id)
                    &&& j.template == o.template
                    &&& j.error == o.error
                    &&& j.updated_at == now
                },
                None => final(self)@ == old(self)@,
            },
            forall|other: Seq<char>|
                other != id@ ==> #[trigger] job_kept(old(self)@, final(self)@, other),
    {
        let ghost before = self.jobs@;
        proof {
            lemma_find_job(before, id@);
        }
        match find_index(&self.jobs, id) {
            Some(k) => {
                let mut job = self.jobs.remove(k);
                job.meeting_id = Some(meeting_id);
                job.updated_at = now;
                self.jobs.insert(k, job);
                proof {
                    lemma_update_at(before, self.jobs@, k as int);
                }
            },
            None => {
                proof {
                    lemma_kept_all(before, id@);
                }
            },
        }
    }

    /// Associates a summary template with a job.
    pub fn set_template(&mut self, id: &str, template: String, now: i64)
        requires
            old(self).wf(),
        ensures
            final(self).wf(),
            final(self)@.len() == old(self)@.len(),
            match find_job(old(self)@, id@) {
                Some(k) => {
                    let j = final(self)@[k];
                    let o = old(self)@[k];
                    &&& find_job(final(self)@, id@) == Some(k)
                    &&& same_identity(j, o)
                    &&& j.state == o.state
                    &&& j.progress == o.progress
                    &&& j.meeting_id == o.meeting_id
                    &&& j.template == Some(template)
                    &&& j.error == o.error
                    &&& j.updated_at == now
                },
                None => final(self)@ == old(self)@,
            },
            forall|other: Seq<char>|
                other != id@ ==> #[trigger] job_kept(old(self)@, final(self)@, other),
    {
        let ghost before = self.jobs@;
        proof {
            lemma_find_job(before, id@);
        }
        match find_index(&self.jobs, id) {
            Some(k) => {
                let mut job = self.jobs.remove(k);
                job.template = Some(template);
                job.updated_at = now;
                self.jobs.insert(k, job);
                proof {
                    lemma_update_at(before, self.jobs@, k as int);
                }
            },
            None => {
                proof {
                    lemma_kept_all(before, id@);
                }
            },
        }
    }

    /// Marks a job completed, recording a `completed` event. Returns whether
    /// the job exists.
    pub fn complete_job(&mut self, id: &str, now: i64) -> (found: bool)
        requires
            old(self).wf(),
        ensures
            final(self).wf(),
            final(self)@.len() == old(self)@.len(),
            match find_job(old(self)@, id@) {
                Some(k) => {
                    let j = final(self)@[k];
                    let o = old(self)@[k];
                    &&& found
                    &&& find_job(final(self)@, id@) == Some(k)
                    &&& same_identity(j, o)
                    &&& j.state == JobState::Completed
                    &&& j.progress@.len() == o.progress@.len() + 1
                    &&& j.progress@.drop_last() == o.progress@
                    &&& j.progress@.last().stage@ == "completed"@
                    &&& j.progress@.last().message@ == "Job completed successfully"@
                    &&& j.progress@.last().timestamp == now
                    &&& j.progress@.last().percent is None
                    &&& j.meeting_id == o.meeting_id
                    &&& j.template == o.template
                    &&& j.error == o.error
                    &&& j.updated_at == now
                },
                None => !found && final(self)@ == old(self)@,
            },
            forall|other: Seq<char>|
                other != id@ ==> #[trigger] job_kept(old(self)@, final(self)@, other),
    {
        let ghost before = self.jobs@;
        proof {
            lemma_find_job(before, id@);
        }
        match find_index(&self.jobs, id) {
            Some(k) => {
                let mut job = self.jobs.remove(k);
                job.state = JobState::Completed;
                job.progress.push(ProgressEvent::new("completed", "Job completed successfully", now));
                job.updated_at = now;
                self.jobs.insert(k, job);
                proof {
                    lemma_update_at(before, self.jobs@, k as int);
                }
                true
            },
            None => {
                proof {
                    lemma_kept_all(before, id@);
                }
                false
            },
        }
    }

    /// Marks a job failed with `error`, recording a `failed` event. Returns
    /// whether the job exists.
    pub fn fail_job(&mut self, id: &str, error: String, now: i64) -> (found: bool)
        requires
            old(self).wf(),
        ensures
            final(self).wf(),
            final(self)@.len() == old(self)@.len(),
            match find_job(old(self)@, id@) {
                Some(k) => {
                    let j = final(self)@[k];
                    let o = old(self)@[k];
                    &&& found
                    &&& find_job(final(self)@, id@) == Some(k)
                    &&& same_identity(j, o)
                    &&& j.state == JobState::Failed
                    &&& j.error matches Some(e) && e@ == error@
                    &&& j.progress@.len() == o.progress@.len() + 1
                    &&& j.progress@.drop_last() == o.progress@
                    &&& j.progress@.last().stage@ == "failed"@
                    &&& j.progress@.last().message@ == "Job failed: "@ + error@
                    &&& j.progress@.last().timestamp == now
                    &&& j.progress@.last().percent is None
                    &&& j.meeting_id == o.meeting_id
                    &&& j.template == o.template
                    &&& j.updated_at == now
                },
                None => !found && final(self)@ == old(self)@,
            },
            forall|other: Seq<char>|
                other != id@ ==> #[trigger] job_kept(old(self)@, final(self)@, other),
    {
        let ghost before = self.jobs@;
        proof {
            lemma_find_job(before, id@);
        }
        match find_index(&self.jobs, id) {
            Some(k) => {
                let mut msg: Vec<char> = Vec::new();
                extend_str(&mut msg, "Job failed: ");
                extend_str(&mut msg, error.as_str());
                let message = string_of(&msg);
                let mut job = self.jobs.remove(k);
                job.state = JobState::Failed;
                job.progress.push(ProgressEvent::new("failed", message.as_str(), now));
                job.error = Some(error);
                job.updated_at = now;
                self.jobs.insert(k, job);
                proof {
                    lemma_update_at(before, self.jobs@, k as int);
                }
                true
            },
            None => {
                proof {
                    lemma_kept_all(before, id@);
                }
                false
            },
        }
    }

    /// Cancels a job that is not finished. Returns whether it was cancelled.
    pub fn cancel_job(&mut self, id: &str, now: i64) -> (cancelled: bool)
        requires
            old(self).wf(),
        ensures
            final(self).wf(),
            final(self)@.len() == old(self)@.len(),
            match find_job(old(self)@, id@) {
                Some(k) => {
                    &&& cancelled == cancellable(old(self)@[k].state)
                    &&& find_job(final(self)@, id@) == Some(k)
                    &&& cancelled ==> {
                        let j = final(self)@[k];
                        let o = old(self)@[k];
                        &&& same_identity(j, o)
                        &&& j.state == JobState::Cancelled
                        &&& j.progress == o.progress
                        &&& j.meeting_id == o.meeting_id
                        &&& j.template == o.template
                        &&& j.error == o.error
                        &&& j.updated_at == now
                    }
                    &&& !cancelled ==> final(self)@ == old(self)@
                },
                None => !cancelled && final(self)@ == old(self)@,
            },
            forall|other: Seq<char>|
                other != id@ ==> #[trigger] job_kept(old(self)@, final(self)@, other),
    {
        let ghost before = self.jobs@;
        proof {
            lemma_find_job(before, id@);
        }
        match find_index(&self.jobs, id) {
            Some(k) => {
                if self.jobs[k].is_terminal() {
                    proof {
                        lemma_kept_all(before, id@);
                    }
                    return false;
                }
                let mut job = self.jobs.remove(k);
                job.state = JobState::Cancelled;
                job.updated_at = now;
                self.jobs.insert(k, job);
                proof {
                    lemma_update_at(before, self.jobs@, k as int);
                }
                true
            },
            None => {
                proof {
                    lemma_kept_all(before, id@);
                }
                false
            },
        }
    }

    /// Whether the job exists and is not finished (its cancellation token is
    /// handed out only then).
    pub fn can_cancel(&self, id: &str) -> (b: bool)
        ensures
            b == (find_job(self@, id@) matches Some(k) && cancellable(self@[k].state)),
    {
        proof {
            lemma_find_job(self.jobs@, id@);
        }
        match find_index(&self.jobs, id) {
            Some(k) => !self.jobs[k].is_terminal(),
            None => false,
        }
    }

    /// Creates a pending job under a fresh random id and returns the id.
    pub fn create_job(&mut self, job_type: JobType, now: i64) -> (id: String)
        requires
            old(self).wf(),
        ensures
            final(self).wf(),
            find_job(final(self)@, id@) matches Some(k) && {
                let j = final(self)@[k];
                &&& j.job_type == job_type
                &&& j.state == JobState::Pending
                &&& j.progress@.len() == 0
                &&& j.meeting_id is None
                &&& j.template is None
                &&& j.error is None
                &&& j.created_at == now
                &&& j.updated_at == now
            },
            forall|other: Seq<char>|
                other != id@ ==> #[trigger] job_kept(old(self)@, final(self)@, other),
    {
        let id = new_uuid();
        let key = string_of(&chars_of(id.as_str()));
        self.insert_job(key, job_type, now);
        id
    }

    /// The order the jobs are listed in: most recently created first (jobs
    /// created at the same time in the order they were added), each once.
    pub fn list_order(&self) -> (r: Vec<usize>)
        ensures
            r@.len() == self@.len(),
            forall|x: int| 0 <= x < r@.len() ==> #[trigger] r@[x] < self@.len(),
            forall|x: int, y: int| 0 <= x < y < r@.len() ==> r@[x] != r@[y],
            forall|x: int, y: int|
                0 <= x < y < r@.len() ==> self@[r@[x] as int].created_at >= self@[r@[
                    y
                ] as int].created_at,
    {
        let n = self.jobs.len();
        let mut order: Vec<usize> = Vec::new();
        let mut i: usize = 0;
        while i < n
            invariant
                i <= n,
                n == self.jobs@.len(),
                order@.len() == i,
                forall|x: int| 0 <= x < order@.len() ==> #[trigger] order@[x] < i,
                forall|x: int, y: int| 0 <= x < y < order@.len() ==> order@[x] != order@[y],
                forall|x: int, y: int|
                    0 <= x < y < order@.len() ==> self.jobs@[order@[x] as int].created_at
                        >= self.jobs@[order@[y] as int].created_at,
            decreases n - i,
        {
            let t = self.jobs[i].created_at;
            let mut pos: usize = 0;
            while pos < order.len() && self.jobs[order[pos]].created_at >= t
                invariant
                    pos <= order@.len(),
                    n == self.jobs@.len(),
                    forall|x: int| 0 <= x < order@.len() ==> #[trigger] order@[x] < n,
                    forall|x: int| 0 <= x < pos ==> self.jobs@[#[trigger] order@[x] as int].created_at >= t,
                decreases order.len() - pos,
            {
                pos += 1;
            }
            let ghost o0 = order@;
            order.insert(pos, i);
            proof {
                assert(order@ == o0.insert(pos as int, i));
                assert forall|x: int| 0 <= x < order@.len() implies #[trigger] order@[x] < i + 1 by {
                    if x < pos {
                        assert(order@[x] == o0[x]);
                    } else if x > pos {
                        assert(order@[x] == o0[x - 1]);
                    }
                }
                assert forall|x: int, y: int| 0 <= x < y < order@.len() implies order@[x]
                    != order@[y] by {
                    if x < pos {
                        assert(order@[x] == o0[x]);
                    } else if x > pos {
                        assert(order@[x] == o0[x - 1]);
                    }
                    if y < pos {
                        assert(order@[y] == o0[y]);
                    } else if y > pos {
                        assert(order@[y] == o0[y - 1]);
                    }
                }
                assert forall|x: int, y: int| 0 <= x < y < order@.len() implies self.jobs@[order@[
                    x
                ] as int].created_at >= self.jobs@[order@[y] as int].created_at by {
                    if y < pos {
                        assert(order@[x] == o0[x] && order@[y] == o0[y]);
                    } else if y == pos {
                        assert(order@[x] == o0[x]);
                    } else if x < pos {
                        assert(order@[x] == o0[x] && order@[y] == o0[y - 1]);
                        if pos < o0.len() {
                            assert(self.jobs@[o0[pos as int] as int].created_at < t);
                        }
                    } else if x == pos {
                        assert(order@[y] == o0[y - 1]);
                        assert(self.jobs@[o0[pos as int] as int].created_at < t);
                    } else {
                        assert(order@[x] == o0[x - 1] && order@[y] == o0[y - 1]);
                    }
                }
            }
            i += 1;
        }
        order
    }

    /// All jobs, most recently created first.
    pub fn list_jobs(&self) -> (r: Vec<&Job<P>>)
        ensures
            r@.len() == self@.len(),
            exists|order: Seq<usize>|
                #![trigger order.len()]
                order.len() == self@.len() && (forall|x: int|
                    0 <= x < order.len() ==> #[trigger] order[x] < self@.len() && r@[x]
                        == &self@[order[x] as int]) && (forall|x: int, y: int|
                    0 <= x < y < order.len() ==> order[x] != order[y]),
            forall|x: int, y: int| 0 <= x < y < r@.len() ==> r@[x].created_at >= r@[y].created_at,
    {
        let order = self.list_order();
        let mut out: Vec<&Job<P>> = Vec::new();
        let mut i: usize = 0;
        while i < order.len()
            invariant
                i <= order@.len(),
                order@.len() == self.jobs@.len(),
                forall|x: int| 0 <= x < order@.len() ==> #[trigger] order@[x] < self.jobs@.len(),
                out@.len() == i,
                forall|x: int| 0 <= x < i ==> #[trigger] out@[x] == &self.jobs@[order@[x] as int],
            decreases order.len() - i,
        {
            out.push(&self.jobs[order[i]]);
            i += 1;
        }
        assert(order@.len() == self@.len());
        out
    }
}

/// Replacing the job at `k` by one with the same id keeps the ids distinct,
/// the job findable at `k`, and every other job where it was.
proof fn lemma_update_at<P>(before: Seq<Job<P>>, after: Seq<Job<P>>, k: int)
    requires
        ids_distinct(before),
        0 <= k < before.len(),
        after.len() == before.len(),
        after[k].id == before[k].id,
        forall|w: int| 0 <= w < before.len() && w != k ==> after[w] == before[w],
    ensures
        ids_distinct(after),
        find_job(after, before[k].id@) == Some(k),
        forall|other: Seq<char>|
            other != before[k].id@ ==> #[trigger] job_kept(before, after, other),
{
    assert forall|a: int, b: int| 0 <= a < b < after.len() implies after[a].id@ != after[b].id@ by {
        if a != k {
            assert(after[a] == before[a]);
        }
        if b != k {
            assert(after[b] == before[b]);
        }
    }
    lemma_find_unique(after, before[k].id@, k);
    assert forall|other: Seq<char>| other != before[k].id@ implies #[trigger] job_kept(
        before,
        after,
        other,
    ) by {
        lemma_find_job(before, other);
        lemma_find_job(after, other);
        match find_job(before, other) {
            Some(w) => {
                assert(w != k);
                assert(after[w] == before[w]);
                lemma_find_unique(after, other, w);
            },
            None => {
                assert forall|w: int| 0 <= w < after.len() implies after[w].id@ != other by {
                    if w != k {
                        assert(after[w] == before[w]);
                    }
                }
            },
        }
    }
}

proof fn lemma_kept_all<P>(jobs: Seq<Job<P>>, id: Seq<char>)
    ensures
        forall|other: Seq<char>| other != id ==> #[trigger] job_kept(jobs, jobs, other),
{
    assert forall|other: Seq<char>| other != id implies #[trigger] job_kept(jobs, jobs, other) by {
        lemma_find_job(jobs, other);
    }
}

/// A fresh random identifier (`uuid::Uuid::new_v4`, hyphenated). Trusted:
/// it makes the call; nothing is claimed of the random value.
#[verifier::external_body]
pub(crate) fn new_uuid() -> (r: String) {
    uuid::Uuid::new_v4().to_string()
}

/// What is left of `before` once the job with id `id` is taken out.
proof fn lemma_without_id<P>(before: Seq<Job<P>>, id: Seq<char>, mid: Seq<Job<P>>)
    requires
        ids_distinct(before),
        mid == match find_job(before, id) {
            Some(r) => before.remove(r),
            None => before,
        },
    ensures
        ids_distinct(mid),
        forall|w: int| 0 <= w < mid.len() ==> #[trigger] mid[w].id@ != id,
        forall|w: int|
            0 <= w < mid.len() ==> 0 <= new_to_old(before, id, w) < before.len() && #[trigger] mid[w]
                == before[new_to_old(before, id, w)],
        forall|k: int|
            0 <= k < before.len() && before[k].id@ != id ==> 0 <= old_to_new(before, id, k)
                < mid.len() && mid[old_to_new(before, id, k)] == #[trigger] before[k],
{
    lemma_find_job(before, id);
    match find_job(before, id) {
        Some(r) => {
            assert forall|w: int| 0 <= w < mid.len() implies #[trigger] mid[w].id@ != id by {
                if w < r {
                    assert(mid[w] == before[w]);
                } else {
                    assert(mid[w] == before[w + 1]);
                }
            }
        },
        None => {},
    }
}

/// Where a job of `old` stands once the job with id `id` is removed.
spec fn old_to_new<P>(old: Seq<Job<P>>, id: Seq<char>, k: int) -> int {
    match find_job(old, id) {
        Some(r) => if k < r {
            k
        } else {
            k - 1
        },
        None => k,
    }
}

/// Where a job stood in `old` before the job with id `id` was removed.
spec fn new_to_old<P>(old: Seq<Job<P>>, id: Seq<char>, w: int) -> int {
    match find_job(old, id) {
        Some(r) => if w < r {
            w
        } else {
            w + 1
        },
        None => w,
    }
}

} // verus!
