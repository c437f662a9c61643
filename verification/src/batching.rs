//! Collecting proof requests into batches, one batch per room, phase, day,
//! proof type and circuit size, until every expected prover has sent its share.

use vstd::prelude::*;
use crate::batch::{
    BatchEnqueueError, BatchEnqueueResult, BatchRequest, BatchStatus, CircuitProfileKey,
    ClientRequestType, ProofTypeKey, info_of, is_dummy_spec, proof_type_of,
};
use crate::game::{ActiveBatch, BatchKey, Game, same_key};
use crate::support::{first_where, lemma_first_where, str_eq};

verus! {

/// The key of the batch that `r` joins in game `g`.
pub open spec fn batch_key_spec(g: Game, r: ClientRequestType) -> BatchKey {
    BatchKey {
        room_id: g.room_id,
        phase: g.phase,
        day_count: g.day_count,
        proof_type: proof_type_of(r),
        circuit_profile: CircuitProfileKey {
            player_count: g.grouping_parameter.num_players_spec() as usize,
            werewolf_count: g.grouping_parameter.werewolf.0,
        },
    }
}

/// The text of a conflict, if `r` is one.
pub open spec fn conflict_message(r: Result<BatchEnqueueResult, BatchEnqueueError>) -> Option<Seq<char>> {
    match r {
        Err(BatchEnqueueError::Conflict(m)) => Some(m@),
        Ok(_) => None,
    }
}

/// Index of the active batch under `key`, or -1.
pub open spec fn active_index(active: Seq<ActiveBatch>, key: BatchKey) -> int {
    first_where(active, |a: ActiveBatch| same_key(a.key, key))
}

/// Index of the request from the same user as `r`, or -1.
pub open spec fn user_index(reqs: Seq<ClientRequestType>, r: ClientRequestType) -> int {
    first_where(reqs, |q: ClientRequestType| info_of(q).user_id@ == info_of(r).user_id@)
}

/// A user's request joins the batch once; a real request replaces the user's
/// dummy one, anything else from a user already present is ignored.
pub open spec fn upsert(reqs: Seq<ClientRequestType>, r: ClientRequestType) -> Seq<ClientRequestType> {
    let k = user_index(reqs, r);
    if k >= 0 {
        if is_dummy_spec(reqs[k]) && !is_dummy_spec(r) {
            reqs.update(k, r)
        } else {
            reqs
        }
    } else {
        reqs.push(r)
    }
}

/// The requests of an active batch before `r` joins it.
pub open spec fn base_requests(g: Game, r: ClientRequestType) -> Seq<ClientRequestType> {
    let ai = active_index(g.active_batches@, batch_key_spec(g, r));
    if ai >= 0 {
        g.active_batches@[ai].batch.requests@
    } else {
        Seq::empty()
    }
}

/// Active batches are well formed: one per key; every request in a batch has
/// the key's proof type and the batch's prover count; a user has at most one
/// request per batch; and no batch has reached its prover count.
pub open spec fn batches_wf(active: Seq<ActiveBatch>) -> bool {
    &&& forall|i: int, j: int|
        0 <= i < j < active.len() ==> !same_key((#[trigger] active[i]).key, (#[trigger] active[j]).key)
    &&& forall|i: int|
        0 <= i < active.len() ==> (#[trigger] active[i]).batch.requests@.len()
            < active[i].batch.expected_prover_count
    &&& forall|i: int, k: int|
        0 <= i < active.len() && 0 <= k < active[i].batch.requests@.len() ==> proof_type_of(
            #[trigger] active[i].batch.requests@[k],
        ) == active[i].key.proof_type && info_of(active[i].batch.requests@[k]).prover_count
            == active[i].batch.expected_prover_count
    &&& forall|i: int, k1: int, k2: int|
        0 <= i < active.len() && 0 <= k1 < k2 < active[i].batch.requests@.len() ==> info_of(
            #[trigger] active[i].batch.requests@[k1],
        ).user_id@ != info_of(#[trigger] active[i].batch.requests@[k2]).user_id@
}

fn find_active(active: &Vec<ActiveBatch>, key: &BatchKey) -> (r: Option<usize>)
    ensures
        match r {
            Some(i) => i == active_index(active@, *key),
            None => active_index(active@, *key) == -1,
        },
{
    let ghost p = |a: ActiveBatch| same_key(a.key, *key);
    proof {
        lemma_first_where(active@, p);
    }
    let n = active.len();
    let mut i: usize = 0;
    while i < n
        invariant
            n == active@.len(),
            p == (|a: ActiveBatch| same_key(a.key, *key)),
            i <= n,
            forall|j: int| 0 <= j < i ==> !p(#[trigger] active@[j]),
            -1 <= first_where(active@, p) < active@.len(),
            first_where(active@, p) >= 0 ==> p(active@[first_where(active@, p)]),
            first_where(active@, p) < 0 <==> forall|j: int|
                0 <= j < active@.len() ==> !p(#[trigger] active@[j]),
            forall|j: int| 0 <= j < first_where(active@, p) ==> !p(#[trigger] active@[j]),
        decreases n - i,
    {
        if active[i].key.matches(key) {
            return Some(i);
        }
        i += 1;
    }
    None
}

fn find_user(reqs: &Vec<ClientRequestType>, r: &ClientRequestType) -> (k: Option<usize>)
    ensures
        match k {
            Some(i) => i == user_index(reqs@, *r),
            None => user_index(reqs@, *r) == -1,
        },
{
    let ghost p = |q: ClientRequestType| info_of(q).user_id@ == info_of(*r).user_id@;
    proof {
        lemma_first_where(reqs@, p);
    }
    let n = reqs.len();
    let mut i: usize = 0;
    while i < n
        invariant
            n == reqs@.len(),
            p == (|q: ClientRequestType| info_of(q).user_id@ == info_of(*r).user_id@),
            i <= n,
            forall|j: int| 0 <= j < i ==> !p(#[trigger] reqs@[j]),
            -1 <= first_where(reqs@, p) < reqs@.len(),
            first_where(reqs@, p) >= 0 ==> p(reqs@[first_where(reqs@, p)]),
            first_where(reqs@, p) < 0 <==> forall|j: int|
                0 <= j < reqs@.len() ==> !p(#[trigger] reqs@[j]),
            forall|j: int| 0 <= j < first_where(reqs@, p) ==> !p(#[trigger] reqs@[j]),
        decreases n - i,
    {
        if str_eq(reqs[i].get_user_id(), r.get_user_id()) {
            return Some(i);
        }
        i += 1;
    }
    None
}

/// Whether some request has a proof type other than `t`.
fn has_other_type(reqs: &Vec<ClientRequestType>, t: ProofTypeKey) -> (b: bool)
    ensures
        b == exists|k: int| 0 <= k < reqs@.len() && proof_type_of(#[trigger] reqs@[k]) != t,
{
    let n = reqs.len();
    let mut i: usize = 0;
    while i < n
        invariant
            n == reqs@.len(),
            i <= n,
            forall|k: int| 0 <= k < i ==> proof_type_of(#[trigger] reqs@[k]) == t,
        decreases n - i,
    {
        if reqs[i].get_proof_type() != t {
            return true;
        }
        i += 1;
    }
    false
}

impl Game {
    /// The key of the batch that `request` joins.
    pub fn build_batch_key(&self, request: &ClientRequestType) -> (k: BatchKey)
        requires
            self.grouping_parameter.num_players_spec() <= usize::MAX,
        ensures
            k == batch_key_spec(*self, *request),
    {
        BatchKey {
            room_id: self.room_id.clone(),
            phase: self.phase,
            day_count: self.day_count,
            proof_type: request.get_proof_type(),
            circuit_profile: CircuitProfileKey {
                player_count: self.grouping_parameter.get_num_players(),
                werewolf_count: self.grouping_parameter.get_werewolf_count(),
            },
        }
    }

    /// Adds `request` to the batch of its key. When the batch then holds as
    /// many requests as its prover count, it leaves the active batches and
    /// becomes the batch to process (`should_process`).
    pub fn add_request_to_batch(&mut self, request: ClientRequestType) -> (r: Result<
        BatchEnqueueResult,
        BatchEnqueueError,
    >)
        requires
            old(self).grouping_parameter.num_players_spec() <= usize::MAX,
        ensures
            ({
                let g = *old(self);
                let n = info_of(request).prover_count;
                let key = batch_key_spec(g, request);
                let ai = active_index(g.active_batches@, key);
                let reqs = upsert(base_requests(g, request), request);
                &&& n == 0 ==> conflict_message(r) == Some("prover_count must be greater than zero"@)
                &&& n > 0 && ai >= 0 && g.active_batches@[ai].batch.expected_prover_count != n
                    ==> conflict_message(r) == Some(
                    "conflicting prover_count for the same batch key"@,
                )
                &&& n > 0 && ai >= 0 && g.active_batches@[ai].batch.expected_prover_count == n
                    && (exists|k: int|
                    0 <= k < g.active_batches@[ai].batch.requests@.len() && proof_type_of(
                        #[trigger] g.active_batches@[ai].batch.requests@[k],
                    ) != proof_type_of(request)) ==> conflict_message(r) == Some(
                    "proof type mismatch in existing batch"@,
                )
                &&& r is Err ==> *final(self) == g
                &&& r is Ok ==> {
                    let res = r->Ok_0;
                    &&& n > 0
                    &&& res.should_process == (reqs.len() >= n)
                    &&& ai >= 0 ==> res.batch_id == g.active_batches@[ai].batch.batch_id
                    &&& *final(self) == (Game {
                        active_batches: final(self).active_batches,
                        batch_request: final(self).batch_request,
                        ..g
                    })
                    &&& res.should_process ==> {
                        &&& final(self).active_batches@ == (if ai >= 0 {
                            g.active_batches@.remove(ai)
                        } else {
                            g.active_batches@
                        })
                        &&& final(self).batch_request.requests@ == reqs
                        &&& final(self).batch_request.expected_prover_count == n
                        &&& final(self).batch_request.status == BatchStatus::Collecting
                        &&& final(self).batch_request.batch_id == res.batch_id
                    }
                    &&& !res.should_process ==> {
                        let k = if ai >= 0 { ai } else { g.active_batches@.len() as int };
                        &&& final(self).batch_request == g.batch_request
                        &&& final(self).active_batches@.len() == (if ai >= 0 {
                            g.active_batches@.len() as int
                        } else {
                            g.active_batches@.len() + 1int
                        })
                        &&& forall|j: int|
                            0 <= j < g.active_batches@.len() && j != k
                                ==> #[trigger] final(self).active_batches@[j]
                                == g.active_batches@[j]
                        &&& same_key(final(self).active_batches@[k].key, key)
                        &&& ai >= 0 ==> final(self).active_batches@[k].key
                            == g.active_batches@[ai].key
                        &&& final(self).active_batches@[k].batch.requests@ == reqs
                        &&& final(self).active_batches@[k].batch.expected_prover_count == n
                        &&& final(self).active_batches@[k].batch.batch_id == res.batch_id
                        &&& ai >= 0 ==> final(self).active_batches@[k].batch.status
                            == g.active_batches@[ai].batch.status
                            && final(self).active_batches@[k].batch.created_at
                            == g.active_batches@[ai].batch.created_at
                        &&& ai < 0 ==> final(self).active_batches@[k].batch.status
                            == BatchStatus::Collecting
                    }
                }
                &&& n > 0 && (ai < 0 || (g.active_batches@[ai].batch.expected_prover_count == n
                    && forall|k: int|
                    0 <= k < g.active_batches@[ai].batch.requests@.len() ==> proof_type_of(
                        #[trigger] g.active_batches@[ai].batch.requests@[k],
                    ) == proof_type_of(request))) ==> r is Ok
                &&& batches_wf(g.active_batches@) ==> batches_wf(final(self).active_batches@)
                &&& no_user_twice(g.active_batches@) ==> no_user_twice(final(self).active_batches@)
                &&& batches_wf(g.active_batches@) && r is Ok && r->Ok_0.should_process
                    ==> one_kind_one_per_user(final(self).batch_request.requests@, proof_type_of(request))
            }),
    {
        let expected = request.get_prover_count();
        if expected == 0 {
            return Err(BatchEnqueueError::Conflict("prover_count must be greater than zero".to_owned()));
        }
        let key = self.build_batch_key(&request);
        let ghost g = *old(self);
        let ghost ai = active_index(g.active_batches@, key);
        proof {
            lemma_first_where(g.active_batches@, |a: ActiveBatch| same_key(a.key, key));
        }
        let idx = match find_active(&self.active_batches, &key) {
            Some(i) => {
                if self.active_batches[i].batch.expected_prover_count != expected {
                    return Err(
                        BatchEnqueueError::Conflict(
                            "conflicting prover_count for the same batch key".to_owned(),
                        ),
                    );
                }
                if has_other_type(&self.active_batches[i].batch.requests, request.get_proof_type()) {
                    return Err(
                        BatchEnqueueError::Conflict("proof type mismatch in existing batch".to_owned()),
                    );
                }
                i
            },
            None => {
                let fresh = ActiveBatch { key: key.clone(), batch: BatchRequest::new(expected) };
                self.active_batches.push(fresh);
                self.active_batches.len() - 1
            },
        };
        assert(self.active_batches@[idx as int].batch.requests@ == base_requests(g, request));
        let ghost base = base_requests(g, request);
        proof {
            lemma_first_where(base, |q: ClientRequestType| info_of(q).user_id@ == info_of(request).user_id@);
        }
        let incoming_is_dummy = request.is_dummy();
        match find_user(&self.active_batches[idx].batch.requests, &request) {
            Some(j) => {
                if self.active_batches[idx].batch.requests[j].is_dummy() && !incoming_is_dummy {
                    self.active_batches[idx].batch.requests[j] = request;
                }
            },
            None => {
                self.active_batches[idx].batch.requests.push(request);
            },
        }
        assert(self.active_batches@[idx as int].batch.requests@ =~= upsert(base, request));
        proof {
            lemma_upsert_wf(g, request);
        }
        let batch_id = self.active_batches[idx].batch.batch_id.clone();
        let should_process = self.active_batches[idx].batch.requests.len() >= expected;
        if should_process {
            let mut ready = self.active_batches.remove(idx);
            ready.batch.status = BatchStatus::Collecting;
            self.batch_request = ready.batch;
            proof {
                if ai < 0 {
                    assert(self.active_batches@ =~= g.active_batches@);
                }
            }
        }
        Ok(BatchEnqueueResult { batch_id, should_process })
    }
}

/// No active batch holds two requests from one user.
pub open spec fn no_user_twice(active: Seq<ActiveBatch>) -> bool {
    forall|i: int, k1: int, k2: int|
        0 <= i < active.len() && 0 <= k1 < k2 < active[i].batch.requests@.len() ==> info_of(
            #[trigger] active[i].batch.requests@[k1],
        ).user_id@ != info_of(#[trigger] active[i].batch.requests@[k2]).user_id@
}

/// Every request is of kind `t`, and no user has two requests.
pub open spec fn one_kind_one_per_user(reqs: Seq<ClientRequestType>, t: ProofTypeKey) -> bool {
    &&& forall|k: int| 0 <= k < reqs.len() ==> proof_type_of(#[trigger] reqs[k]) == t
    &&& forall|k1: int, k2: int|
        0 <= k1 < k2 < reqs.len() ==> info_of(#[trigger] reqs[k1]).user_id@ != info_of(
            #[trigger] reqs[k2],
        ).user_id@
}

/// Facts about `upsert` that keep the active batches well formed.
pub proof fn lemma_upsert_wf(g: Game, r: ClientRequestType)
    ensures
        ({
            let base = base_requests(g, r);
            let reqs = upsert(base, r);
            &&& reqs.len() == base.len() || reqs.len() == base.len() + 1
            &&& forall|k: int|
                0 <= k < reqs.len() ==> (#[trigger] reqs[k] == r || exists|m: int|
                    0 <= m < base.len() && base[m] == reqs[k])
            &&& (forall|k1: int, k2: int|
                0 <= k1 < k2 < base.len() ==> info_of(#[trigger] base[k1]).user_id@ != info_of(
                    #[trigger] base[k2],
                ).user_id@) ==> forall|k1: int, k2: int|
                0 <= k1 < k2 < reqs.len() ==> info_of(#[trigger] reqs[k1]).user_id@ != info_of(
                    #[trigger] reqs[k2],
                ).user_id@
        }),
{
    let base = base_requests(g, r);
    let p = |q: ClientRequestType| info_of(q).user_id@ == info_of(r).user_id@;
    lemma_first_where(base, p);
    let reqs = upsert(base, r);
    assert forall|k: int| 0 <= k < reqs.len() implies (#[trigger] reqs[k] == r || exists|m: int|
        0 <= m < base.len() && base[m] == reqs[k]) by {
        if reqs[k] != r {
            assert(base[k] == reqs[k]);
        }
    }
}

/// A request joining a batch whose users are distinct: a real (non-dummy)
/// request from a user that had none, or only a dummy one, ends up in the
/// batch; the user then has a request there; no real request already in the
/// batch is lost; and nothing comes in but the request itself.
pub proof fn lemma_upsert_keeps_real_requests(reqs: Seq<ClientRequestType>, r: ClientRequestType)
    requires
        forall|k1: int, k2: int|
            0 <= k1 < k2 < reqs.len() ==> info_of(#[trigger] reqs[k1]).user_id@ != info_of(#[trigger] reqs[k2]).user_id@,
    ensures
        ({
            let out = upsert(reqs, r);
            let k = user_index(reqs, r);
            &&& (k < 0 || is_dummy_spec(reqs[k])) && !is_dummy_spec(r) ==> out.contains(r)
            &&& k < 0 ==> out.contains(r)
            &&& exists|i: int| 0 <= i < out.len() && info_of(#[trigger] out[i]).user_id@ == info_of(r).user_id@
            &&& forall|j: int| 0 <= j < reqs.len() && !is_dummy_spec(#[trigger] reqs[j]) ==> out.contains(reqs[j])
            &&& forall|i: int| 0 <= i < out.len() ==> #[trigger] out[i] == r || reqs.contains(out[i])
            &&& out.len() <= reqs.len() + 1
        }),
{
    let p = |q: ClientRequestType| info_of(q).user_id@ == info_of(r).user_id@;
    lemma_first_where(reqs, p);
    let out = upsert(reqs, r);
    let k = user_index(reqs, r);
    if k < 0 {
        assert(out[reqs.len() as int] == r);
    } else {
        if is_dummy_spec(reqs[k]) && !is_dummy_spec(r) {
            assert(out[k] == r);
        } else {
            assert(out[k] == reqs[k]);
        }
        assert(info_of(out[k]).user_id@ == info_of(r).user_id@);
    }
    assert forall|j: int| 0 <= j < reqs.len() && !is_dummy_spec(#[trigger] reqs[j]) implies out.contains(reqs[j]) by {
        assert(out[j] == reqs[j]);
    }
    assert forall|i: int| 0 <= i < out.len() implies #[trigger] out[i] == r || reqs.contains(out[i]) by {
        if out[i] != r {
            assert(out[i] == reqs[i]);
        }
    }
}

/// What `add_request_to_batch` makes the batch of a request's key hold (its
/// requests after the request joins), in a game where no batch holds two
/// requests of one user: a real request from a user with none, or only a
/// dummy, in that batch is kept; no real request already there is lost.
pub proof fn lemma_batch_keeps_real_requests(g: Game, r: ClientRequestType)
    requires
        no_user_twice(g.active_batches@),
    ensures
        ({
            let base = base_requests(g, r);
            let out = upsert(base, r);
            let k = user_index(base, r);
            &&& (k < 0 || is_dummy_spec(base[k])) && !is_dummy_spec(r) ==> out.contains(r)
            &&& forall|j: int| 0 <= j < base.len() && !is_dummy_spec(#[trigger] base[j]) ==> out.contains(base[j])
        }),
{
    let base = base_requests(g, r);
    let ai = active_index(g.active_batches@, batch_key_spec(g, r));
    lemma_first_where(g.active_batches@, |a: ActiveBatch| same_key(a.key, batch_key_spec(g, r)));
    if ai >= 0 {
        assert forall|k1: int, k2: int| 0 <= k1 < k2 < base.len() implies info_of(#[trigger] base[k1]).user_id@
            != info_of(#[trigger] base[k2]).user_id@ by {
            assert(base[k1] == g.active_batches@[ai].batch.requests@[k1]);
            assert(base[k2] == g.active_batches@[ai].batch.requests@[k2]);
        }
    }
    lemma_upsert_keeps_real_requests(base, r);
}

} // verus!
