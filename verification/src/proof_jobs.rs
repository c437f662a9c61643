//! Proof jobs handed to the MPC nodes, and how each job's status moves:
//! pending when queued, running when the worker takes it, then completed,
//! failed or timeout. The queue and the worker loop live outside the library;
//! the decisions they take are here.

use vstd::prelude::*;
use crate::game::BatchKey;
use crate::proof_requests::ProofJob;
use crate::services::NodeJobStatus;
use crate::support::{str_eq, first_where, lemma_first_where};
use crate::text::{to_ascii_lowercase, ascii_lower};
use crate::profile::{find_first, split_once, lemma_find_first};

verus! {

/// The status of one proof job and of each node's part in it. Times are in
/// milliseconds since the Unix epoch.
pub struct ProofJobStatus {
    /// pending, running, completed, failed or timeout.
    pub state: String,
    pub batch_id: String,
    pub room_id: String,
    pub batch_key: BatchKey,
    /// One entry per node URL, each URL once.
    pub job_node_status: Vec<(String, NodeJobStatus)>,
    pub attempt_count: u32,
    pub last_error: Option<String>,
    pub created_at: i64,
    pub updated_at: i64,
}

/// The text of an optional string.
pub open spec fn text_opt(o: Option<String>) -> Option<Seq<char>> {
    match o {
        Some(s) => Some(s@),
        None => None,
    }
}

/// The node URLs in their order, each kept at its first occurrence.
pub open spec fn first_occurrences(s: Seq<Seq<char>>) -> Seq<Seq<char>>
    decreases s.len(),
{
    if s.len() == 0 {
        s
    } else {
        let d = first_occurrences(s.drop_last());
        if d.contains(s.last()) {
            d
        } else {
            d.push(s.last())
        }
    }
}

pub open spec fn url_views(urls: Seq<String>) -> Seq<Seq<char>> {
    urls.map_values(|u: String| u@)
}

/// A state in which the job may not be queued again.
pub open spec fn is_active_state(state: Seq<char>) -> bool {
    state == "pending"@ || state == "running"@
}

/// The state a job ends in: completed without an error; timeout when the
/// error mentions a timeout, in any letter case; failed otherwise.
pub open spec fn final_state(error: Option<Seq<char>>) -> Seq<char> {
    match error {
        None => "completed"@,
        Some(e) => if find_first(e.map_values(|c: char| ascii_lower(c)), "timeout"@) >= 0 {
            "timeout"@
        } else {
            "failed"@
        },
    }
}

impl ProofJobStatus {
    pub open spec fn node_urls(self) -> Seq<Seq<char>> {
        self.job_node_status@.map_values(|e: (String, NodeJobStatus)| e.0@)
    }

    /// Every node's part is in `state`, after `attempts` tries, with `error`.
    pub open spec fn nodes_are(self, state: Seq<char>, attempts: u32, error: Option<Seq<char>>) -> bool {
        forall|i: int|
            0 <= i < self.job_node_status@.len() ==> {
                let n = #[trigger] self.job_node_status@[i].1;
                &&& n.state@ == state
                &&& n.attempt_count == attempts
                &&& text_opt(n.last_error) == error
            }
    }

    /// Each node's attempt count is the job's.
    pub open spec fn attempts_agree(self) -> bool {
        forall|i: int|
            0 <= i < self.job_node_status@.len() ==> #[trigger] self.job_node_status@[i].1.attempt_count
                == self.attempt_count
    }

    /// The status of a job just queued at `now` for the nodes at `urls`.
    pub open spec fn is_initial(self, job: ProofJob, urls: Seq<String>, now: i64) -> bool {
        &&& self.state@ == "pending"@
        &&& self.batch_id@ == job.batch_request.batch_id@
        &&& self.room_id@ == job.room_id@
        &&& self.batch_key == job.batch_key
        &&& self.node_urls() == first_occurrences(url_views(urls))
        &&& self.nodes_are("pending"@, 0, None)
        &&& self.attempt_count == 0
        &&& self.last_error is None
        &&& self.created_at == now
        &&& self.updated_at == now
    }

    /// `self` is `old` with the job taken up by the worker at `now`.
    pub open spec fn is_running_from(self, old: ProofJobStatus, now: i64) -> bool {
        &&& self.state@ == "running"@
        &&& self.batch_id@ == old.batch_id@
        &&& self.room_id@ == old.room_id@
        &&& self.batch_key == old.batch_key
        &&& self.node_urls() == old.node_urls()
        &&& self.job_node_status@.len() == old.job_node_status@.len()
        &&& forall|i: int|
            0 <= i < self.job_node_status@.len() ==> {
                let n = #[trigger] self.job_node_status@[i].1;
                let o = old.job_node_status@[i].1;
                &&& n.state@ == "running"@
                &&& n.attempt_count == o.attempt_count + 1
                &&& text_opt(n.last_error) == text_opt(o.last_error)
            }
        &&& self.attempt_count == old.attempt_count + 1
        &&& text_opt(self.last_error) == text_opt(old.last_error)
        &&& self.created_at == old.created_at
        &&& self.updated_at == now
    }

    /// `self` is `old` with the job ended at `now` with `error`.
    pub open spec fn is_finished_from(self, old: ProofJobStatus, error: Option<Seq<char>>, now: i64) -> bool {
        &&& self.state@ == final_state(error)
        &&& self.batch_id@ == old.batch_id@
        &&& self.room_id@ == old.room_id@
        &&& self.batch_key == old.batch_key
        &&& self.node_urls() == old.node_urls()
        &&& self.job_node_status@.len() == old.job_node_status@.len()
        &&& forall|i: int|
            0 <= i < self.job_node_status@.len() ==> {
                let n = #[trigger] self.job_node_status@[i].1;
                &&& n.state@ == final_state(error)
                &&& n.attempt_count == old.job_node_status@[i].1.attempt_count
                &&& text_opt(n.last_error) == error
            }
        &&& self.attempt_count == old.attempt_count
        &&& text_opt(self.last_error) == error
        &&& self.created_at == old.created_at
        &&& self.updated_at == now
    }
}

fn clone_text(o: &Option<String>) -> (r: Option<String>)
    ensures
        text_opt(r) == text_opt(*o),
{
    match o {
        Some(s) => Some(s.clone()),
        None => None,
    }
}

/// Whether some entry of `entries` is for `url`.
fn has_url(entries: &Vec<(String, NodeJobStatus)>, url: &str) -> (r: bool)
    ensures
        r == entries@.map_values(|e: (String, NodeJobStatus)| e.0@).contains(url@),
{
    let ghost urls = entries@.map_values(|e: (String, NodeJobStatus)| e.0@);
    let n = entries.len();
    let mut i: usize = 0;
    while i < n
        invariant
            n == entries@.len(),
            urls == entries@.map_values(|e: (String, NodeJobStatus)| e.0@),
            i <= n,
            forall|k: int| 0 <= k < i ==> urls[k] != url@,
        decreases n - i,
    {
        if str_eq(entries[i].0.as_str(), url) {
            assert(urls[i as int] == url@);
            return true;
        }
        i += 1;
    }
    false
}

impl ProofJobStatus {
    /// The status of `job` when queued at `now`: pending, with a pending part
    /// for each distinct node URL.
    pub fn new(job: &ProofJob, node_urls: &Vec<String>, now: i64) -> (s: Self)
        ensures
            s.is_initial(*job, node_urls@, now),
    {
        let mut entries: Vec<(String, NodeJobStatus)> = Vec::new();
        let n = node_urls.len();
        let mut i: usize = 0;
        while i < n
            invariant
                n == node_urls@.len(),
                i <= n,
                entries@.map_values(|e: (String, NodeJobStatus)| e.0@) == first_occurrences(
                    url_views(node_urls@).take(i as int),
                ),
                forall|k: int|
                    0 <= k < entries@.len() ==> {
                        let s = #[trigger] entries@[k].1;
                        &&& s.state@ == "pending"@
                        &&& s.attempt_count == 0
                        &&& s.last_error is None
                    },
            decreases n - i,
        {
            let ghost before = url_views(node_urls@).take(i as int);
            let ghost after = url_views(node_urls@).take(i + 1);
            assert(after.drop_last() =~= before);
            assert(after.last() == node_urls@[i as int]@);
            if !has_url(&entries, node_urls[i].as_str()) {
                let url = node_urls[i].clone();
                entries.push((url, NodeJobStatus::pending()));
                assert(entries@.map_values(|e: (String, NodeJobStatus)| e.0@) =~= first_occurrences(after));
            }
            i += 1;
        }
        assert(url_views(node_urls@).take(n as int) =~= url_views(node_urls@));
        ProofJobStatus {
            state: "pending".to_owned(),
            batch_id: job.batch_request.batch_id.clone(),
            room_id: job.room_id.clone(),
            batch_key: job.batch_key.clone(),
            job_node_status: entries,
            attempt_count: 0,
            last_error: None,
            created_at: now,
            updated_at: now,
        }
    }

    /// The worker takes the job up at `now`: it and every node's part are
    /// running, with one more attempt each.
    pub fn mark_running(&mut self, now: i64)
        requires
            old(self).attempt_count < u32::MAX,
            old(self).attempts_agree(),
        ensures
            final(self).is_running_from(*old(self), now),
            final(self).attempts_agree(),
    {
        let n = self.job_node_status.len();
        let mut entries: Vec<(String, NodeJobStatus)> = Vec::new();
        let mut i: usize = 0;
        while i < n
            invariant
                n == self.job_node_status@.len(),
                i <= n,
                self.attempt_count < u32::MAX,
                self.attempts_agree(),
                entries@.len() == i,
                forall|k: int|
                    0 <= k < i ==> {
                        let e = #[trigger] entries@[k];
                        let o = self.job_node_status@[k];
                        &&& e.0@ == o.0@
                        &&& e.1.state@ == "running"@
                        &&& e.1.attempt_count == o.1.attempt_count + 1
                        &&& text_opt(e.1.last_error) == text_opt(o.1.last_error)
                    },
            decreases n - i,
        {
            let url = self.job_node_status[i].0.clone();
            let last_error = clone_text(&self.job_node_status[i].1.last_error);
            let attempts = self.job_node_status[i].1.attempt_count + 1;
            entries.push((url, NodeJobStatus { state: "running".to_owned(), attempt_count: attempts, last_error }));
            i += 1;
        }
        let ghost before = *self;
        self.job_node_status = entries;
        self.state = "running".to_owned();
        self.attempt_count = self.attempt_count + 1;
        self.updated_at = now;
        assert(self.node_urls() =~= before.node_urls());
    }

    /// The job ends at `now` with `error` (none on success): its state and
    /// every node's part follow `final_state`, and all carry the error.
    pub fn mark_finished(&mut self, error: Option<String>, now: i64)
        requires
            old(self).attempts_agree(),
        ensures
            final(self).is_finished_from(*old(self), text_opt(error), now),
            final(self).attempts_agree(),
    {
        let state = state_after(&error);
        let n = self.job_node_status.len();
        let mut entries: Vec<(String, NodeJobStatus)> = Vec::new();
        let mut i: usize = 0;
        while i < n
            invariant
                n == self.job_node_status@.len(),
                i <= n,
                state@ == final_state(text_opt(error)),
                self.attempts_agree(),
                entries@.len() == i,
                forall|k: int|
                    0 <= k < i ==> {
                        let e = #[trigger] entries@[k];
                        let o = self.job_node_status@[k];
                        &&& e.0@ == o.0@
                        &&& e.1.state@ == final_state(text_opt(error))
                        &&& e.1.attempt_count == o.1.attempt_count
                        &&& text_opt(e.1.last_error) == text_opt(error)
                    },
            decreases n - i,
        {
            let url = self.job_node_status[i].0.clone();
            let attempts = self.job_node_status[i].1.attempt_count;
            entries.push((url, NodeJobStatus { state: state.clone(), attempt_count: attempts, last_error: clone_text(&error) }));
            i += 1;
        }
        let ghost before = *self;
        self.job_node_status = entries;
        self.state = state;
        self.last_error = error;
        self.updated_at = now;
        assert(self.node_urls() =~= before.node_urls());
    }
}

/// The state a job ends in after `error`.
fn state_after(error: &Option<String>) -> (s: String)
    ensures
        s@ == final_state(text_opt(*error)),
{
    proof {
        reveal_strlit("timeout");
    }
    match error {
        None => "completed".to_owned(),
        Some(e) => {
            let lower = to_ascii_lowercase(e.as_str());
            let found = split_once(lower.as_str(), "timeout");
            proof {
                lemma_find_first(lower@, "timeout"@);
            }
            if found.is_some() {
                "timeout".to_owned()
            } else {
                "failed".to_owned()
            }
        },
    }
}

/// What a finished job reports: the execution error, or, after a successful
/// execution whose game is gone, that the game was not found.
pub open spec fn completion_error_spec(
    execution_error: Option<Seq<char>>,
    game_found: bool,
    room_id: Seq<char>,
) -> Option<Seq<char>> {
    match execution_error {
        Some(e) => Some(e),
        None => if game_found {
            None
        } else {
            Some("Game not found while applying proof result: room_id="@ + room_id)
        },
    }
}

pub fn completion_error(execution_error: Option<String>, game_found: bool, room_id: &str) -> (r: Option<String>)
    ensures
        text_opt(r) == completion_error_spec(text_opt(execution_error), game_found, room_id@),
{
    match execution_error {
        Some(e) => Some(e),
        None => if game_found {
            None
        } else {
            Some("Game not found while applying proof result: room_id=".to_owned().concat(room_id))
        },
    }
}

/// The index of the status for batch `id`, or -1.
pub open spec fn job_index(s: Seq<ProofJobStatus>, id: Seq<char>) -> int {
    first_where(s, |st: ProofJobStatus| st.batch_id@ == id)
}

/// The message that refuses to queue again the job at `st`.
pub open spec fn already_queued_message(st: ProofJobStatus) -> Seq<char> {
    "proof job "@ + st.batch_id@ + " is already "@ + st.state@
}

fn find_job(statuses: &Vec<ProofJobStatus>, id: &str) -> (r: Option<usize>)
    ensures
        match r {
            Some(k) => k == job_index(statuses@, id@) && k < statuses@.len(),
            None => job_index(statuses@, id@) < 0,
        },
{
    let ghost p = |st: ProofJobStatus| st.batch_id@ == id@;
    proof {
        lemma_first_where(statuses@, p);
    }
    let n = statuses.len();
    let mut i: usize = 0;
    while i < n
        invariant
            n == statuses@.len(),
            i <= n,
            p == (|st: ProofJobStatus| st.batch_id@ == id@),
            forall|k: int| 0 <= k < i ==> !p(#[trigger] statuses@[k]),
            -1 <= first_where(statuses@, p) < statuses@.len(),
            first_where(statuses@, p) >= 0 ==> p(statuses@[first_where(statuses@, p)]),
            first_where(statuses@, p) < 0 <==> forall|j: int| 0 <= j < statuses@.len() ==> !p(#[trigger] statuses@[j]),
            forall|j: int| 0 <= j < first_where(statuses@, p) ==> !p(#[trigger] statuses@[j]),
        decreases n - i,
    {
        if str_eq(statuses[i].batch_id.as_str(), id) {
            assert(p(statuses@[i as int]));
            return Some(i);
        }
        i += 1;
    }
    None
}

/// The statuses of the proof jobs, one per batch id.
pub struct ProofJobService {
    pub statuses: Vec<ProofJobStatus>,
}

impl ProofJobService {
    /// Batch ids are distinct, and each node's attempt count is its job's.
    pub open spec fn wf(self) -> bool {
        &&& forall|i: int, j: int|
            0 <= i < j < self.statuses@.len() ==> #[trigger] self.statuses@[i].batch_id@
                != #[trigger] self.statuses@[j].batch_id@
        &&& forall|i: int| 0 <= i < self.statuses@.len() ==> #[trigger] self.statuses@[i].attempts_agree()
    }

    /// Whether queueing `id` again is refused.
    pub open spec fn refuses(self, id: Seq<char>) -> bool {
        let k = job_index(self.statuses@, id);
        k >= 0 && is_active_state(self.statuses@[k].state@)
    }

    pub fn new() -> (s: Self)
        ensures
            s.wf(),
            s.statuses@.len() == 0,
    {
        ProofJobService { statuses: Vec::new() }
    }

    /// The status of batch `batch_id`, if a job was ever queued for it.
    pub fn get_status(&self, batch_id: &str) -> (r: Option<&ProofJobStatus>)
        ensures
            job_index(self.statuses@, batch_id@) < 0 ==> r is None,
            job_index(self.statuses@, batch_id@) >= 0 ==> r is Some && *r->Some_0
                == self.statuses@[job_index(self.statuses@, batch_id@)],
    {
        match find_job(&self.statuses, batch_id) {
            Some(k) => Some(&self.statuses[k]),
            None => None,
        }
    }

    /// Queues `job` at `now` for the nodes at `node_urls`: refused while a job
    /// for the same batch is pending or running; otherwise its status, fresh,
    /// takes the place of any earlier one.
    pub fn enqueue_job(&mut self, job: &ProofJob, node_urls: &Vec<String>, now: i64) -> (r: Result<(), String>)
        requires
            old(self).wf(),
        ensures
            final(self).wf(),
            old(self).refuses(job.batch_request.batch_id@) ==> {
                &&& r is Err
                &&& r->Err_0@ == already_queued_message(
                    old(self).statuses@[job_index(old(self).statuses@, job.batch_request.batch_id@)],
                )
                &&& final(self).statuses@ == old(self).statuses@
            },
            !old(self).refuses(job.batch_request.batch_id@) ==> {
                let k = job_index(old(self).statuses@, job.batch_request.batch_id@);
                &&& r is Ok
                &&& k >= 0 ==> {
                    &&& final(self).statuses@.len() == old(self).statuses@.len()
                    &&& forall|j: int|
                        0 <= j < old(self).statuses@.len() && j != k ==> #[trigger] final(self).statuses@[j]
                            == old(self).statuses@[j]
                    &&& final(self).statuses@[k].is_initial(*job, node_urls@, now)
                }
                &&& k < 0 ==> {
                    &&& final(self).statuses@.len() == old(self).statuses@.len() + 1
                    &&& final(self).statuses@.drop_last() == old(self).statuses@
                    &&& final(self).statuses@.last().is_initial(*job, node_urls@, now)
                }
            },
    {
        let id = job.batch_request.batch_id.as_str();
        let found = find_job(&self.statuses, id);
        proof {
            lemma_first_where(self.statuses@, |st: ProofJobStatus| st.batch_id@ == id@);
        }
        if let Some(k) = found {
            let state = self.statuses[k].state.as_str();
            proof {
                reveal_strlit("pending");
                reveal_strlit("running");
            }
            if str_eq(state, "pending") || str_eq(state, "running") {
                let msg = "proof job ".to_owned().concat(self.statuses[k].batch_id.as_str()).concat(
                    " is already ",
                ).concat(state);
                return Err(msg);
            }
        }
        let status = ProofJobStatus::new(job, node_urls, now);
        match found {
            Some(k) => {
                self.statuses.set(k, status);
            },
            None => {
                self.statuses.push(status);
            },
        }
        Ok(())
    }

    /// The worker takes up the job for `batch_id` at `now`. Returns whether a
    /// status was there to update.
    pub fn start_job(&mut self, batch_id: &str, now: i64) -> (found: bool)
        requires
            old(self).wf(),
            job_index(old(self).statuses@, batch_id@) >= 0 ==> old(self).statuses@[job_index(
                old(self).statuses@,
                batch_id@,
            )].attempt_count < u32::MAX,
        ensures
            final(self).wf(),
            found == (job_index(old(self).statuses@, batch_id@) >= 0),
            !found ==> final(self).statuses@ == old(self).statuses@,
            found ==> {
                let k = job_index(old(self).statuses@, batch_id@);
                &&& final(self).statuses@.len() == old(self).statuses@.len()
                &&& forall|j: int|
                    0 <= j < old(self).statuses@.len() && j != k ==> #[trigger] final(self).statuses@[j]
                        == old(self).statuses@[j]
                &&& final(self).statuses@[k].is_running_from(old(self).statuses@[k], now)
            },
    {
        proof {
            lemma_first_where(self.statuses@, |st: ProofJobStatus| st.batch_id@ == batch_id@);
        }
        match find_job(&self.statuses, batch_id) {
            Some(k) => {
                let ghost before = self.statuses@;
                self.statuses[k].mark_running(now);
                assert(self.statuses@[k as int].batch_id@ == before[k as int].batch_id@);
                true
            },
            None => false,
        }
    }

    /// The job for `batch_id` ends at `now` with `error`. Returns whether a
    /// status was there to update.
    pub fn finish_job(&mut self, batch_id: &str, error: Option<String>, now: i64) -> (found: bool)
        requires
            old(self).wf(),
        ensures
            final(self).wf(),
            found == (job_index(old(self).statuses@, batch_id@) >= 0),
            !found ==> final(self).statuses@ == old(self).statuses@,
            found ==> {
                let k = job_index(old(self).statuses@, batch_id@);
                &&& final(self).statuses@.len() == old(self).statuses@.len()
                &&& forall|j: int|
                    0 <= j < old(self).statuses@.len() && j != k ==> #[trigger] final(self).statuses@[j]
                        == old(self).statuses@[j]
                &&& final(self).statuses@[k].is_finished_from(old(self).statuses@[k], text_opt(error), now)
            },
    {
        proof {
            lemma_first_where(self.statuses@, |st: ProofJobStatus| st.batch_id@ == batch_id@);
        }
        match find_job(&self.statuses, batch_id) {
            Some(k) => {
                let ghost before = self.statuses@;
                self.statuses[k].mark_finished(error, now);
                assert(self.statuses@[k as int].batch_id@ == before[k as int].batch_id@);
                true
            },
            None => false,
        }
    }
}

/// A job that was just queued cannot be queued again until it ends.
pub proof fn lemma_queued_job_refused(svc: ProofJobService, st: ProofJobStatus, k: int)
    requires
        0 <= k < svc.statuses@.len(),
        svc.statuses@[k] == st,
        job_index(svc.statuses@, st.batch_id@) == k,
        st.state@ == "pending"@ || st.state@ == "running"@,
    ensures
        svc.refuses(st.batch_id@),
{
}

impl ProofJobService {
    /// Forgets the jobs of room `room_id` (its room was cleaned up) and
    /// returns how many there were; the other jobs stay, in order.
    pub fn remove_room_jobs(&mut self, room_id: &str) -> (n: usize)
        requires
            old(self).wf(),
        ensures
            final(self).wf(),
            n == old(self).statuses@.len() - final(self).statuses@.len(),
            forall|k: int| 0 <= k < final(self).statuses@.len() ==> (#[trigger] final(self).statuses@[k]).room_id@ != room_id@,
            forall|k: int| 0 <= k < final(self).statuses@.len() ==> old(self).statuses@.contains(#[trigger] final(self).statuses@[k]),
            forall|j: int|
                0 <= j < old(self).statuses@.len() && (#[trigger] old(self).statuses@[j]).room_id@ != room_id@
                    ==> final(self).statuses@.contains(old(self).statuses@[j]),
    {
        let ghost before = self.statuses@;
        let ghost mut idx: Seq<int> = Seq::empty();
        let ghost mut j: int = 0;
        let mut i: usize = 0;
        let mut removed: usize = 0;
        let total = self.statuses.len();
        assert(before.len() == total);
        while i < self.statuses.len()
            invariant
                before == old(self).statuses@,
                before.len() <= usize::MAX,
                0 <= j <= before.len(),
                i == idx.len(),
                self.statuses@.len() == i + (before.len() - j),
                removed == j - i,
                forall|k: int| 0 <= k < i ==> 0 <= #[trigger] idx[k] < j && self.statuses@[k] == before[idx[k]],
                forall|a: int, b: int| 0 <= a < b < i ==> #[trigger] idx[a] < #[trigger] idx[b],
                forall|k: int| 0 <= k < i ==> (#[trigger] self.statuses@[k]).room_id@ != room_id@,
                forall|k: int| 0 <= k < before.len() - j ==> #[trigger] self.statuses@[i + k] == before[j + k],
                forall|m: int|
                    0 <= m < j && (#[trigger] before[m]).room_id@ != room_id@ ==> exists|k: int|
                        0 <= k < i && idx[k] == m,
            decreases before.len() - j,
        {
            assert(self.statuses@[i + 0] == before[j + 0]);
            if str_eq(self.statuses[i].room_id.as_str(), room_id) {
                let ghost prev = self.statuses@;
                self.statuses.remove(i);
                proof {
                    assert forall|k: int| 0 <= k < before.len() - (j + 1) implies #[trigger] self.statuses@[i + k]
                        == before[j + 1 + k] by {
                        assert(self.statuses@[i + k] == prev[i + k + 1]);
                        assert(prev[i + (k + 1)] == before[j + (k + 1)]);
                    }
                    assert forall|k: int| 0 <= k < i implies self.statuses@[k] == prev[k] by {}
                    j = j + 1;
                }
                removed = removed + 1;
            } else {
                proof {
                    let old_idx = idx;
                    idx = idx.push(j);
                    assert forall|k: int| 0 <= k < before.len() - (j + 1) implies #[trigger] self.statuses@[(i + 1) + k]
                        == before[j + 1 + k] by {
                        assert(self.statuses@[i + (k + 1)] == before[j + (k + 1)]);
                    }
                    assert forall|m: int|
                        0 <= m < j + 1 && (#[trigger] before[m]).room_id@ != room_id@ implies exists|k: int|
                            0 <= k < i + 1 && idx[k] == m by {
                        if m == j {
                            assert(idx[i as int] == m);
                        } else {
                            let k = choose|k: int| 0 <= k < i && old_idx[k] == m;
                            assert(idx[k] == m);
                        }
                    }
                    j = j + 1;
                }
                i += 1;
            }
        }
        proof {
            assert(j == before.len());
            assert forall|a: int, b: int| 0 <= a < b < self.statuses@.len() implies #[trigger] self.statuses@[a].batch_id@
                != #[trigger] self.statuses@[b].batch_id@ by {
                assert(idx[a] < idx[b]);
            }
            assert forall|k: int| 0 <= k < self.statuses@.len() implies before.contains(#[trigger] self.statuses@[k]) by {
                assert(before[idx[k]] == self.statuses@[k]);
            }
            assert forall|m: int|
                0 <= m < before.len() && (#[trigger] before[m]).room_id@ != room_id@ implies self.statuses@.contains(
                    before[m],
                ) by {
                let k = choose|k: int| 0 <= k < i && idx[k] == m;
                assert(self.statuses@[k] == before[m]);
            }
        }
        removed
    }
}

} // verus!
