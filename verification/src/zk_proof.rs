//! The server's side of running a batch on the MPC nodes: preparing what the
//! nodes are sent, judging each round of their status reports, turning the
//! last report into the batch's result, and keeping results computed ahead
//! until the game takes them.

use vstd::prelude::*;
use crate::batch::{BatchRequest, ClientRequestType, ProofTypeKey, proof_type_of};
use crate::proof_inputs::{
    try_convert_to_identifier, all_inputs_parse, input_parses, order_requests_by_user, output_type_for, uniform_kind, user_sort_key, recipients,
    key_view,
};
use crate::proof_output::{ProofOutput, ProofOutputType, ProofStatus, UserPublicKey, merge_proof_outputs, merges};
use crate::sort::{is_order, stably_keyed};
use crate::support::{str_eq, first_where, lemma_first_where};

verus! {

/// How many rounds of status reports are asked for before giving up.
pub const MAX_RETRY_ATTEMPTS: u32 = 180;

/// Seconds between two rounds of status reports.
pub const RETRY_DELAY_SECS: u64 = 1;

/// What one round of the nodes' status reports says of a proof.
#[derive(Debug)]
pub enum ProofRound {
    /// Every node completed; their outputs merged.
    Completed(Option<ProofOutput>),
    /// Some node failed.
    Failed,
    /// Some node is still working.
    Pending,
}

/// The reports of completed nodes, in order.
pub open spec fn completed_reports(s: Seq<ProofStatus>) -> Seq<ProofStatus> {
    s.filter(|st: ProofStatus| st.state@ == "completed"@)
}

/// Some node reported a failure.
pub open spec fn some_failed(s: Seq<ProofStatus>) -> bool {
    exists|i: int| 0 <= i < s.len() && #[trigger] s[i].state@ == "failed"@
}

/// Judges one round of reports from `node_count` nodes: completed when every
/// node completed, with their outputs merged; failed when one failed;
/// pending otherwise.
pub fn assess_proof_round(statuses: Vec<ProofStatus>, node_count: usize) -> (r: ProofRound)
    ensures
        completed_reports(statuses@).len() == node_count ==> (r matches ProofRound::Completed(o) && merges(
            o,
            completed_reports(statuses@),
        )),
        completed_reports(statuses@).len() != node_count && some_failed(statuses@) ==> r is Failed,
        completed_reports(statuses@).len() != node_count && !some_failed(statuses@) ==> r is Pending,
{
    let ghost all = statuses@;
    let ghost p = |st: ProofStatus| st.state@ == "completed"@;
    let mut rest = statuses;
    let mut completed: Vec<ProofStatus> = Vec::new();
    let mut failed = false;
    let ghost mut taken: int = 0;
    proof {
        reveal_strlit("completed");
        reveal_strlit("failed");
    }
    while rest.len() > 0
        invariant
            0 <= taken <= all.len(),
            rest@ == all.skip(taken),
            p == (|st: ProofStatus| st.state@ == "completed"@),
            completed@ == all.take(taken).filter(p),
            failed == exists|i: int| 0 <= i < taken && #[trigger] all[i].state@ == "failed"@,
        decreases rest@.len(),
    {
        let ghost before = rest@;
        let status = rest.remove(0);
        proof {
            assert(rest@ =~= all.skip(taken + 1));
            assert(all[taken] == status);
            crate::support::lemma_filter_take_step(all, p, taken);
        }
        if str_eq(status.state.as_str(), "failed") {
            failed = true;
        }
        if str_eq(status.state.as_str(), "completed") {
            completed.push(status);
        }
        proof {
            taken = taken + 1;
        }
    }
    assert(all.take(taken) =~= all);
    if completed.len() == node_count {
        ProofRound::Completed(merge_proof_outputs(completed))
    } else if failed {
        ProofRound::Failed
    } else {
        ProofRound::Pending
    }
}

/// What a batch sends the nodes: the kind of circuit, who may read the
/// output, and the requests in the nodes' order.
pub open spec fn prepared_from(
    requests: Seq<ClientRequestType>,
    kind: ProofTypeKey,
    output_type: ProofOutputType,
    ordered: Seq<ClientRequestType>,
) -> bool {
    &&& exists|ord: Seq<int>|
        #![trigger is_order(ord, requests.len())]
        is_order(ord, requests.len()) && stably_keyed(
            requests.map_values(|q: ClientRequestType| user_sort_key(q)),
            ord,
        ) && ordered.len() == requests.len() && forall|k: int|
            0 <= k < ordered.len() ==> ordered[k] == requests[#[trigger] ord[k]]
    &&& kind == proof_type_of(ordered[0])
    &&& kind != ProofTypeKey::RoleAssignment ==> output_type is Public
    &&& kind == ProofTypeKey::RoleAssignment ==> output_type is PrivateToPublic
        && output_type->PrivateToPublic_0@.map_values(|k: UserPublicKey| key_view(k)) == recipients(ordered)
}

/// Prepares a batch for the nodes: its requests ordered by user, their one
/// kind, and who may read the output. Fails on an empty batch, on mixed
/// kinds, and on a role assignment without any public key.
pub fn prepare_batch(batch_request: &BatchRequest) -> (r: Result<
    (ProofTypeKey, ProofOutputType, Vec<ClientRequestType>),
    String,
>)
    ensures
        batch_request.requests@.len() == 0 ==> r is Err && r->Err_0@ == "Empty request list"@,
        r matches Ok((kind, output_type, ordered)) ==> prepared_from(
            batch_request.requests@,
            kind,
            output_type,
            ordered@,
        ),
        batch_request.requests@.len() > 0 && uniform_kind(batch_request.requests@) && all_inputs_parse(
            batch_request.requests@,
        ) && (proof_type_of(batch_request.requests@[0]) != ProofTypeKey::RoleAssignment || recipients(
            batch_request.requests@,
        ).len() > 0) ==> r is Ok,
        !all_inputs_parse(batch_request.requests@) ==> r is Err,
{
    let requests = batch_request.requests.clone();
    assert(requests@ =~= batch_request.requests@);
    let ordered = order_requests_by_user(requests);
    let ghost reqs = batch_request.requests@;
    let ghost ord = choose|ord: Seq<int>|
        #![trigger is_order(ord, reqs.len())]
        is_order(ord, reqs.len()) && stably_keyed(reqs.map_values(|q: ClientRequestType| user_sort_key(q)), ord)
            && ordered@.len() == reqs.len() && forall|k: int|
            0 <= k < ordered@.len() ==> ordered@[k] == reqs[#[trigger] ord[k]];
    proof {
        lemma_order_keeps_kind_and_keys(reqs, ordered@, ord);
    }
    let kind = match try_convert_to_identifier(&ordered) {
        Ok(k) => k,
        Err(e) => return Err(e),
    };
    let output_type = match output_type_for(kind, &ordered) {
        Ok(t) => t,
        Err(e) => return Err(e),
    };
    Ok((kind, output_type, ordered))
}

/// Ordering a batch keeps whether its kinds are uniform, its first kind
/// when they are, and whether any request carries a public key.
proof fn lemma_order_keeps_kind_and_keys(reqs: Seq<ClientRequestType>, ordered: Seq<ClientRequestType>, ord: Seq<int>)
    requires
        is_order(ord, reqs.len()),
        ordered.len() == reqs.len(),
        forall|k: int| 0 <= k < ordered.len() ==> ordered[k] == reqs[#[trigger] ord[k]],
    ensures
        reqs.len() > 0 && uniform_kind(reqs) ==> uniform_kind(ordered) && proof_type_of(ordered[0]) == proof_type_of(
            reqs[0],
        ),
        recipients(reqs).len() > 0 ==> recipients(ordered).len() > 0,
        all_inputs_parse(reqs) <==> all_inputs_parse(ordered),
{
    if all_inputs_parse(reqs) {
        assert forall|i: int| 0 <= i < ordered.len() implies input_parses(#[trigger] ordered[i]) by {
            assert(0 <= ord[i] < reqs.len());
            assert(input_parses(reqs[ord[i]]));
        }
    }
    if all_inputs_parse(ordered) {
        assert forall|j: int| 0 <= j < reqs.len() implies input_parses(#[trigger] reqs[j]) by {
            crate::sort::lemma_order_onto(ord, reqs.len(), j);
            let k = choose|k: int| 0 <= k < ord.len() && ord[k] == j;
            assert(input_parses(ordered[k]));
        }
    }
    if reqs.len() > 0 && uniform_kind(reqs) {
        assert forall|i: int| 0 <= i < ordered.len() implies proof_type_of(#[trigger] ordered[i]) == proof_type_of(
            ordered[0],
        ) by {
            assert(0 <= ord[i] < reqs.len());
            assert(0 <= ord[0] < reqs.len());
            assert(proof_type_of(reqs[ord[i]]) == proof_type_of(reqs[0]));
            assert(proof_type_of(reqs[ord[0]]) == proof_type_of(reqs[0]));
        }
        assert(0 <= ord[0] < reqs.len());
        assert(proof_type_of(reqs[ord[0]]) == proof_type_of(reqs[0]));
    }
    if recipients(reqs).len() > 0 {
        let j = lemma_recipient_witness(reqs);
        crate::sort::lemma_order_onto(ord, reqs.len(), j);
        let k = choose|k: int| 0 <= k < ord.len() && ord[k] == j;
        lemma_recipient_present(ordered, k);
    }
}

/// A batch with recipients has a request that carries a public key.
proof fn lemma_recipient_witness(reqs: Seq<ClientRequestType>) -> (j: int)
    requires
        recipients(reqs).len() > 0,
    ensures
        0 <= j < reqs.len(),
        crate::batch::info_of(reqs[j]).public_key is Some,
    decreases reqs.len(),
{
    if crate::batch::info_of(reqs.last()).public_key is Some {
        reqs.len() - 1
    } else {
        let j = lemma_recipient_witness(reqs.drop_last());
        j
    }
}

/// A batch with a request that carries a public key has recipients.
proof fn lemma_recipient_present(reqs: Seq<ClientRequestType>, k: int)
    requires
        0 <= k < reqs.len(),
        crate::batch::info_of(reqs[k]).public_key is Some,
    ensures
        recipients(reqs).len() > 0,
    decreases reqs.len(),
{
    if k < reqs.len() - 1 {
        lemma_recipient_present(reqs.drop_last(), k);
    }
}

/// The result of a batch once the nodes stopped reporting: its output when
/// the proof completed with one; an error naming the batch otherwise.
pub fn batch_execution_result(batch_id: &str, completed: bool, output: Option<ProofOutput>) -> (r: Result<
    ProofOutput,
    String,
>)
    ensures
        completed && output is Some ==> r is Ok && r->Ok_0 == output->Some_0,
        completed && output is None ==> r is Err && r->Err_0@ == "Proof completed without output for batch "@
            + batch_id@,
        !completed ==> r is Err && r->Err_0@ == "Proof failed for batch "@ + batch_id@,
{
    if completed {
        match output {
            Some(o) => Ok(o),
            None => Err("Proof completed without output for batch ".to_owned().concat(batch_id)),
        }
    } else {
        Err("Proof failed for batch ".to_owned().concat(batch_id))
    }
}

/// Results computed ahead of time, under their batch id, until taken.
pub struct PrecomputedResults<T> {
    pub entries: Vec<(String, T)>,
}

/// An entry is for batch `id`.
pub open spec fn is_entry_for<T>(id: Seq<char>) -> spec_fn((String, T)) -> bool {
    |e: (String, T)| e.0@ == id
}

pub open spec fn entry_index<T>(s: Seq<(String, T)>, id: Seq<char>) -> int {
    first_where(s, is_entry_for::<T>(id))
}

fn find_entry<T>(entries: &Vec<(String, T)>, id: &str) -> (r: Option<usize>)
    ensures
        match r {
            Some(k) => k == entry_index(entries@, id@) && k < entries@.len(),
            None => entry_index(entries@, id@) < 0,
        },
{
    let ghost p = is_entry_for::<T>(id@);
    proof {
        lemma_first_where(entries@, p);
    }
    let n = entries.len();
    let mut i: usize = 0;
    while i < n
        invariant
            n == entries@.len(),
            i <= n,
            p == is_entry_for::<T>(id@),
            forall|k: int| 0 <= k < i ==> !p(#[trigger] entries@[k]),
            -1 <= first_where(entries@, p) < entries@.len(),
            first_where(entries@, p) >= 0 ==> p(entries@[first_where(entries@, p)]),
            first_where(entries@, p) < 0 <==> forall|j: int| 0 <= j < entries@.len() ==> !p(#[trigger] entries@[j]),
            forall|j: int| 0 <= j < first_where(entries@, p) ==> !p(#[trigger] entries@[j]),
        decreases n - i,
    {
        if str_eq(entries[i].0.as_str(), id) {
            assert(p(entries@[i as int]));
            return Some(i);
        }
        i += 1;
    }
    None
}

impl<T> PrecomputedResults<T> {
    /// The stored results as a map from batch id.
    pub open spec fn view_map(self) -> Map<Seq<char>, T> {
        Map::new(
            |id: Seq<char>| entry_index(self.entries@, id) >= 0,
            |id: Seq<char>| self.entries@[entry_index(self.entries@, id)].1,
        )
    }

    /// Batch ids are distinct.
    pub open spec fn wf(self) -> bool {
        forall|i: int, j: int|
            0 <= i < j < self.entries@.len() ==> #[trigger] self.entries@[i].0@ != #[trigger] self.entries@[j].0@
    }

    pub fn new() -> (s: Self)
        ensures
            s.wf(),
            s.view_map() == Map::<Seq<char>, T>::empty(),
    {
        let s = PrecomputedResults { entries: Vec::new() };
        assert(s.view_map() =~= Map::<Seq<char>, T>::empty());
        s
    }

    /// Stores `result` for `batch_id`, in place of any earlier one.
    pub fn store_precomputed_batch_result(&mut self, batch_id: String, result: T)
        requires
            old(self).wf(),
        ensures
            final(self).wf(),
            final(self).view_map() == old(self).view_map().insert(batch_id@, result),
    {
        let ghost before = self.entries@;
        let ghost id = batch_id@;
        proof {
            lemma_entry_index(before, id);
        }
        match find_entry(&self.entries, batch_id.as_str()) {
            Some(k) => {
                self.entries.set(k, (batch_id, result));
                proof {
                    assert(before[k as int].0@ == id);
                    assert forall|i: int| 0 <= i < self.entries@.len() implies #[trigger] self.entries@[i].0@
                        == before[i].0@ by {}
                    assert forall|x: Seq<char>| #[trigger] entry_index(self.entries@, x) == entry_index(before, x) by {
                        lemma_same_keys_same_index(self.entries@, before, x);
                    }
                }
            },
            None => {
                self.entries.push((batch_id, result));
                proof {
                    assert(self.entries@.drop_last() =~= before);
                    assert forall|x: Seq<char>| x != id implies #[trigger] entry_index(self.entries@, x) == entry_index(
                        before,
                        x,
                    ) by {
                        lemma_entry_index(before, x);
                        lemma_entry_index(self.entries@, x);
                        assert(self.entries@.drop_last() =~= before);
                    }
                    lemma_entry_index(self.entries@, id);
                }
            },
        }
        proof {
            assert forall|x: Seq<char>| #[trigger] entry_index(self.entries@, x) >= 0 implies x == id || entry_index(
                before,
                x,
            ) >= 0 by {}
            assert forall|x: Seq<char>| x != id && #[trigger] entry_index(before, x) >= 0 implies self.entries@[entry_index(
                self.entries@,
                x,
            )] == before[entry_index(before, x)] by {
                lemma_entry_index(before, x);
            }
            lemma_entry_index(self.entries@, id);
            assert(self.view_map() =~= old(self).view_map().insert(id, result));
        }
    }

    /// Takes out the result stored for `batch_id`, if any.
    pub fn take_precomputed_batch_result(&mut self, batch_id: &str) -> (r: Option<T>)
        requires
            old(self).wf(),
        ensures
            final(self).wf(),
            r == (if old(self).view_map().contains_key(batch_id@) {
                Some(old(self).view_map()[batch_id@])
            } else {
                None::<T>
            }),
            final(self).view_map() == old(self).view_map().remove(batch_id@),
    {
        let ghost before = self.entries@;
        let ghost id = batch_id@;
        proof {
            lemma_entry_index(before, id);
        }
        match find_entry(&self.entries, batch_id) {
            Some(k) => {
                let (_, result) = self.entries.remove(k);
                proof {
                    assert forall|x: Seq<char>| x != id implies (#[trigger] entry_index(self.entries@, x) >= 0
                        <==> entry_index(before, x) >= 0) && (entry_index(before, x) >= 0 ==> self.entries@[entry_index(
                        self.entries@,
                        x,
                    )] == before[entry_index(before, x)]) by {
                        lemma_remove_index(before, k as int, x);
                    }
                    lemma_remove_index(before, k as int, id);
                    assert(self.view_map() =~= old(self).view_map().remove(id));
                }
                Some(result)
            },
            None => {
                assert(self.view_map() =~= old(self).view_map().remove(id));
                None
            },
        }
    }
}

/// Where `entry_index` finds `x`, and that it finds the first entry for it.
proof fn lemma_entry_index<T>(s: Seq<(String, T)>, x: Seq<char>)
    ensures
        -1 <= entry_index(s, x) < s.len(),
        entry_index(s, x) >= 0 ==> s[entry_index(s, x)].0@ == x,
        entry_index(s, x) < 0 <==> forall|j: int| 0 <= j < s.len() ==> #[trigger] s[j].0@ != x,
        forall|j: int| 0 <= j < entry_index(s, x) ==> #[trigger] s[j].0@ != x,
{
    lemma_first_where(s, is_entry_for::<T>(x));
}

/// Two entry lists with the same ids find an id at the same place.
proof fn lemma_same_keys_same_index<T>(a: Seq<(String, T)>, b: Seq<(String, T)>, x: Seq<char>)
    requires
        a.len() == b.len(),
        forall|i: int| 0 <= i < a.len() ==> #[trigger] a[i].0@ == b[i].0@,
    ensures
        entry_index(a, x) == entry_index(b, x),
    decreases a.len(),
{
    if a.len() > 0 {
        lemma_same_keys_same_index(a.drop_last(), b.drop_last(), x);
    }
}

/// Removing the entry at `k` of a list with distinct ids leaves every other
/// id found, at the entry it had.
proof fn lemma_remove_index<T>(s: Seq<(String, T)>, k: int, x: Seq<char>)
    requires
        0 <= k < s.len(),
        forall|i: int, j: int| 0 <= i < j < s.len() ==> #[trigger] s[i].0@ != #[trigger] s[j].0@,
    ensures
        x != s[k].0@ ==> (entry_index(s.remove(k), x) >= 0 <==> entry_index(s, x) >= 0),
        x != s[k].0@ && entry_index(s, x) >= 0 ==> s.remove(k)[entry_index(s.remove(k), x)] == s[entry_index(s, x)],
        x == s[k].0@ ==> entry_index(s.remove(k), x) < 0,
{
    let t = s.remove(k);
    let p = |e: (String, T)| e.0@ == x;
    assert(t.len() == s.len() - 1);
    assert forall|i: int| 0 <= i < t.len() implies #[trigger] t[i] == (if i < k { s[i] } else { s[i + 1] }) by {
        assert(t =~= s.subrange(0, k) + s.subrange(k + 1, s.len() as int));
    }
    lemma_entry_index(s, x);
    lemma_entry_index(t, x);
    if x == s[k].0@ {
        if entry_index(t, x) >= 0 {
            let i = entry_index(t, x);
            if i < k {
                assert(t[i] == s[i]);
            } else {
                assert(t[i] == s[i + 1]);
            }
        }
    } else {
        if entry_index(s, x) >= 0 {
            let i = entry_index(s, x);
            let i2 = if i < k { i } else { i - 1 };
            assert(t[i2] == s[i]);
            assert(p(t[i2]));
            let j = entry_index(t, x);
            let j2 = if j < k { j } else { j + 1 };
            assert(t[j] == s[j2]);
            assert(j2 == i);
        }
        if entry_index(t, x) >= 0 {
            let j = entry_index(t, x);
            let j2 = if j < k { j } else { j + 1 };
            assert(t[j] == s[j2]);
            assert(p(s[j2]));
        }
    }
}

/// A result stored for a batch is what taking it gives back.
pub proof fn lemma_take_after_store<T>(before: Map<Seq<char>, T>, id: Seq<char>, result: T)
    ensures
        before.insert(id, result).contains_key(id),
        before.insert(id, result)[id] == result,
        !before.insert(id, result).remove(id).contains_key(id),
{
}

/// What requesting a proof gives once the first node has answered: the
/// proof's id when the node reports success.
pub fn proof_request_result(success: bool, proof_id: String) -> (r: Result<String, String>)
    ensures
        success ==> r == Ok::<String, String>(proof_id),
        !success ==> r is Err && r->Err_0@ == "Failed to generate proof"@,
{
    if success {
        Ok(proof_id)
    } else {
        Err("Failed to generate proof".to_owned())
    }
}

} // verus!
