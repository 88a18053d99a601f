//! The executor's decision logic. Batches run in order; within a batch the
//! intents are dispatched together, and the host hands back one event per
//! intent — completion, failure or deadline elapse. Everything that turns
//! events into results and results into an overall status is here and
//! verified; only the dispatching itself (sleeping, awaiting) lives with
//! the host.

use vstd::prelude::*;
use crate::model::{
    ActionResult, ActionResultModel, ExecutionPlan, IntentModel, ParsedIntent, PlanModel,
};
use crate::plan::batch_seqs;

verus! {

/// Executor options: the per-action deadline and whether to simulate.
#[derive(Debug, PartialEq, Clone)]
pub struct ExecOptions {
    pub timeout_ms: u64,
    pub simulate: bool,
}

impl Default for ExecOptions {
    /// The default options: a five-second deadline, real execution.
    fn default() -> (r: Self)
        ensures
            r.timeout_ms == 5000,
            r.simulate == false,
    {
        ExecOptions { timeout_ms: 5000, simulate: false }
    }
}

/// The outcome of running a plan: one result per dispatched intent, in
/// dispatch order, and the derived overall status.
#[derive(Debug, PartialEq)]
pub struct ExecutionOutcome {
    pub results: Vec<ActionResult>,
    pub overall_status: String,
}

/// The mathematical shape of an [`ExecutionOutcome`].
pub ghost struct OutcomeModel {
    pub results: Seq<ActionResultModel>,
    pub overall_status: Seq<char>,
}

impl DeepView for ExecutionOutcome {
    type V = OutcomeModel;

    open spec fn deep_view(&self) -> OutcomeModel {
        OutcomeModel {
            results: self.results.deep_view(),
            overall_status: self.overall_status@,
        }
    }
}

/// What the host reports of one dispatched intent: it finished, it failed
/// with a reason, or its deadline elapsed first.
#[derive(Debug, PartialEq)]
pub enum DispatchEvent {
    Succeeded { started_at: u64, finished_at: u64 },
    Failed { reason: String, started_at: u64, finished_at: u64 },
    TimedOut { started_at: u64 },
}

/// The mathematical shape of a [`DispatchEvent`].
pub ghost enum EventModel {
    Succeeded { started_at: int, finished_at: int },
    Failed { reason: Seq<char>, started_at: int, finished_at: int },
    TimedOut { started_at: int },
}

impl DeepView for DispatchEvent {
    type V = EventModel;

    open spec fn deep_view(&self) -> EventModel {
        match *self {
            DispatchEvent::Succeeded { started_at, finished_at } => EventModel::Succeeded {
                started_at: started_at as int,
                finished_at: finished_at as int,
            },
            DispatchEvent::Failed { ref reason, started_at, finished_at } => EventModel::Failed {
                reason: reason@,
                started_at: started_at as int,
                finished_at: finished_at as int,
            },
            DispatchEvent::TimedOut { started_at } => EventModel::TimedOut {
                started_at: started_at as int,
            },
        }
    }
}

/// A well-formed event: a completion does not finish before it starts,
/// and its duration fits the result's field.
pub open spec fn event_wf(ev: EventModel) -> bool {
    match ev {
        EventModel::Succeeded { started_at, finished_at } => started_at <= finished_at
            && finished_at - started_at <= u32::MAX,
        EventModel::Failed { reason, started_at, finished_at } => started_at <= finished_at
            && finished_at - started_at <= u32::MAX,
        EventModel::TimedOut { .. } => true,
    }
}

/// The result recorded for one intent, given the event the host reported:
/// a success or failure carries its duration and finish time; an elapsed
/// deadline carries the fixed reason and retry hint and no duration.
pub open spec fn result_for_event(intent_id: Seq<char>, ev: EventModel) -> ActionResultModel {
    match ev {
        EventModel::Succeeded { started_at, finished_at } => ActionResultModel {
            intent_id,
            status: "success"@,
            reason: Option::None,
            retry_hint: Option::None,
            predicted_effects: Option::None,
            duration_ms: Option::Some(finished_at - started_at),
            started_at,
            finished_at: Option::Some(finished_at),
        },
        EventModel::Failed { reason, started_at, finished_at } => ActionResultModel {
            intent_id,
            status: "failed"@,
            reason: Option::Some(reason),
            retry_hint: Option::Some("retry-later"@),
            predicted_effects: Option::None,
            duration_ms: Option::Some(finished_at - started_at),
            started_at,
            finished_at: Option::Some(finished_at),
        },
        EventModel::TimedOut { started_at } => ActionResultModel {
            intent_id,
            status: "timeout"@,
            reason: Option::Some("timeout_ms exceeded"@),
            retry_hint: Option::Some("increase-timeout"@),
            predicted_effects: Option::None,
            duration_ms: Option::None,
            started_at,
            finished_at: Option::None,
        },
    }
}

/// The predicted effect of an intent: `<app or empty>:<action>`.
pub open spec fn predicted_effect(i: IntentModel) -> Seq<char> {
    (match i.target_app_id {
        Option::Some(a) => a,
        Option::None => Seq::empty(),
    }) + seq![':'] + i.action_name
}

/// The result recorded for one intent in simulate mode.
pub open spec fn simulated_result(i: IntentModel, now: int) -> ActionResultModel {
    ActionResultModel {
        intent_id: i.id,
        status: "simulated"@,
        reason: Option::None,
        retry_hint: Option::None,
        predicted_effects: Option::Some(seq![predicted_effect(i)]),
        duration_ms: Option::Some(0),
        started_at: now,
        finished_at: Option::Some(now),
    }
}

/// The result recorded for one intent when the deadline is zero.
pub open spec fn zero_timeout_result(i: IntentModel, now: int) -> ActionResultModel {
    result_for_event(i.id, EventModel::TimedOut { started_at: now })
}

/// The simulate-mode results of a list of intents, in order.
pub open spec fn simulated_results(intents: Seq<IntentModel>, now: int) -> Seq<ActionResultModel>
    decreases intents,
{
    if intents.len() == 0 {
        Seq::empty()
    } else {
        seq![simulated_result(intents[0], now)] + simulated_results(intents.skip(1), now)
    }
}

/// The settled results of a list of intents under the host's events.
pub open spec fn settled_results(intents: Seq<IntentModel>, evs: Seq<EventModel>) -> Seq<
    ActionResultModel,
>
    decreases intents,
{
    if intents.len() == 0 || evs.len() == 0 {
        Seq::empty()
    } else {
        seq![result_for_event(intents[0].id, evs[0])] + settled_results(
            intents.skip(1),
            evs.skip(1),
        )
    }
}

/// The intents of a plan in dispatch order: batch after batch, each batch
/// in its stored order.
pub open spec fn dispatch_order(p: PlanModel) -> Seq<IntentModel> {
    batch_seqs(p.batches).flatten()
}

/// Whether any result has this status.
pub open spec fn any_status(results: Seq<ActionResultModel>, status: Seq<char>) -> bool {
    exists|k: int| 0 <= k < results.len() && #[trigger] results[k].status == status
}

/// The overall status of a set of results: `partial` when failures and
/// successes mix, `failed` when only failures (and nothing simulated),
/// `success` otherwise — which covers all-success, all-simulated and the
/// empty plan.
pub open spec fn overall_of(results: Seq<ActionResultModel>) -> Seq<char> {
    let any_success = any_status(results, "success"@);
    let any_fail = any_status(results, "failed"@) || any_status(results, "timeout"@);
    let any_sim = any_status(results, "simulated"@);
    if any_fail && any_success {
        "partial"@
    } else if any_fail && !any_success && !any_sim {
        "failed"@
    } else {
        "success"@
    }
}

/// The five per-action statuses are pairwise distinct, and distinct from
/// the three overall statuses where the two sets meet.
pub proof fn lemma_status_distinct()
    ensures
        "success"@ != "failed"@,
        "success"@ != "timeout"@,
        "success"@ != "simulated"@,
        "success"@ != "skipped"@,
        "failed"@ != "timeout"@,
        "failed"@ != "simulated"@,
        "failed"@ != "skipped"@,
        "timeout"@ != "simulated"@,
        "timeout"@ != "skipped"@,
        "simulated"@ != "skipped"@,
        "partial"@ != "success"@,
        "partial"@ != "failed"@,
{
    reveal_strlit("success");
    reveal_strlit("failed");
    reveal_strlit("timeout");
    reveal_strlit("simulated");
    reveal_strlit("skipped");
    reveal_strlit("partial");
    assert("success"@.len() == 7);
    assert("failed"@.len() == 6);
    assert("timeout"@.len() == 7);
    assert("simulated"@.len() == 9);
    assert("skipped"@.len() == 7);
    assert("partial"@.len() == 7);
    assert("success"@[0] == 's' && "timeout"@[0] == 't' && "partial"@[0] == 'p');
    assert("success"@[1] == 'u' && "skipped"@[1] == 'k');
}

/// Derive the overall status from the results.
pub fn derive_overall_status(results: &Vec<ActionResult>) -> (r: String)
    ensures
        r@ == overall_of(results.deep_view()),
{
    let ghost dv = results.deep_view();
    let mut any_success = false;
    let mut any_fail = false;
    let mut any_sim = false;
    let mut k: usize = 0;
    while k < results.len()
        invariant
            0 <= k <= results@.len(),
            dv == results.deep_view(),
            any_success == any_status(dv.take(k as int), "success"@),
            any_fail == (any_status(dv.take(k as int), "failed"@) || any_status(
                dv.take(k as int),
                "timeout"@,
            )),
            any_sim == any_status(dv.take(k as int), "simulated"@),
        decreases results@.len() - k,
    {
        let ghost pre_s = any_success;
        let ghost pre_f = any_fail;
        let ghost pre_m = any_sim;
        let is_success = crate::text::str_eq(results[k].status.as_str(), "success");
        let is_failed = crate::text::str_eq(results[k].status.as_str(), "failed");
        let is_timeout = crate::text::str_eq(results[k].status.as_str(), "timeout");
        let is_sim = crate::text::str_eq(results[k].status.as_str(), "simulated");
        if is_success {
            any_success = true;
        }
        if is_failed || is_timeout {
            any_fail = true;
        }
        if is_sim {
            any_sim = true;
        }
        proof {
            let stepped = dv.take(k + 1);
            assert(stepped =~= dv.take(k as int).push(dv[k as int]));
            assert(dv[k as int].status == results@[k as int].deep_view().status);
            lemma_any_status_push(dv.take(k as int), dv[k as int], "success"@);
            lemma_any_status_push(dv.take(k as int), dv[k as int], "failed"@);
            lemma_any_status_push(dv.take(k as int), dv[k as int], "timeout"@);
            lemma_any_status_push(dv.take(k as int), dv[k as int], "simulated"@);
        }
        k = k + 1;
    }
    proof {
        assert(dv.take(dv.len() as int) =~= dv);
    }
    let mut out = String::new();
    if any_fail && any_success {
        out.append("partial");
    } else if any_fail && !any_success && !any_sim {
        out.append("failed");
    } else {
        out.append("success");
    }
    out
}

proof fn lemma_any_status_push(s: Seq<ActionResultModel>, x: ActionResultModel, st: Seq<char>)
    ensures
        any_status(s.push(x), st) == (any_status(s, st) || x.status == st),
{
    if any_status(s, st) {
        let k = choose|k: int| 0 <= k < s.len() && s[k].status == st;
        assert(s.push(x)[k].status == st);
    }
    if x.status == st {
        assert(s.push(x)[s.len() as int].status == st);
    }
    if any_status(s.push(x), st) {
        let k = choose|k: int| 0 <= k < s.push(x).len() && s.push(x)[k].status == st;
        if k < s.len() {
            assert(s[k].status == st);
        }
    }
}

proof fn lemma_simulated_push(a: Seq<IntentModel>, x: IntentModel, now: int)
    ensures
        simulated_results(a.push(x), now) == simulated_results(a, now).push(
            simulated_result(x, now),
        ),
    decreases a.len(),
{
    assert(simulated_results(Seq::<IntentModel>::empty(), now) =~= Seq::<
        ActionResultModel,
    >::empty());
    if a.len() == 0 {
        assert(a.push(x).skip(1) =~= Seq::<IntentModel>::empty());
        assert(a.push(x)[0] == x);
        assert(simulated_results(a.push(x), now) == seq![simulated_result(a.push(x)[0], now)]
            + simulated_results(a.push(x).skip(1), now));
        assert(simulated_results(a.push(x), now) =~= simulated_results(a, now).push(
            simulated_result(x, now),
        ));
    } else {
        assert(a.push(x).skip(1) =~= a.skip(1).push(x));
        assert(a.push(x)[0] == a[0]);
        lemma_simulated_push(a.skip(1), x, now);
        assert(simulated_results(a.push(x), now) == seq![simulated_result(a.push(x)[0], now)]
            + simulated_results(a.push(x).skip(1), now));
        assert(simulated_results(a.push(x), now) =~= simulated_results(a, now).push(
            simulated_result(x, now),
        ));
    }
}

proof fn lemma_settled_push(a: Seq<IntentModel>, b: Seq<EventModel>, x: IntentModel, y: EventModel)
    requires
        a.len() == b.len(),
    ensures
        settled_results(a.push(x), b.push(y)) == settled_results(a, b).push(
            result_for_event(x.id, y),
        ),
    decreases a.len(),
{
    assert(settled_results(Seq::<IntentModel>::empty(), Seq::<EventModel>::empty()) =~= Seq::<
        ActionResultModel,
    >::empty());
    if a.len() == 0 {
        assert(a.push(x).skip(1) =~= Seq::<IntentModel>::empty());
        assert(b.push(y).skip(1) =~= Seq::<EventModel>::empty());
        assert(a.push(x)[0] == x && b.push(y)[0] == y);
        assert(settled_results(a.push(x), b.push(y)) == seq![result_for_event(
            a.push(x)[0].id,
            b.push(y)[0],
        )] + settled_results(a.push(x).skip(1), b.push(y).skip(1)));
        assert(settled_results(a.push(x), b.push(y)) =~= settled_results(a, b).push(
            result_for_event(x.id, y),
        ));
    } else {
        assert(a.push(x).skip(1) =~= a.skip(1).push(x));
        assert(b.push(y).skip(1) =~= b.skip(1).push(y));
        assert(a.push(x)[0] == a[0] && b.push(y)[0] == b[0]);
        lemma_settled_push(a.skip(1), b.skip(1), x, y);
        assert(settled_results(a.push(x), b.push(y)) == seq![result_for_event(
            a.push(x)[0].id,
            b.push(y)[0],
        )] + settled_results(a.push(x).skip(1), b.push(y).skip(1)));
        assert(settled_results(a.push(x), b.push(y)) =~= settled_results(a, b).push(
            result_for_event(x.id, y),
        ));
    }
}

/// Each position of the simulated results is the simulated result of the
/// intent at that position; every one is `simulated` and predicts one
/// effect.
pub proof fn lemma_simulated_index(intents: Seq<IntentModel>, now: int)
    ensures
        simulated_results(intents, now).len() == intents.len(),
        forall|k: int|
            0 <= k < intents.len() ==> #[trigger] simulated_results(intents, now)[k]
                == simulated_result(intents[k], now),
    decreases intents.len(),
{
    if intents.len() > 0 {
        lemma_simulated_index(intents.skip(1), now);
        assert forall|k: int| 0 <= k < intents.len() implies #[trigger] simulated_results(
            intents,
            now,
        )[k] == simulated_result(intents[k], now) by {
            if k > 0 {
                assert(simulated_results(intents, now)[k] == simulated_results(
                    intents.skip(1),
                    now,
                )[k - 1]);
            }
        }
    }
}

/// Each position of the settled results is the classification of the
/// intent at that position under its event.
pub proof fn lemma_settled_index(intents: Seq<IntentModel>, evs: Seq<EventModel>)
    requires
        intents.len() == evs.len(),
    ensures
        settled_results(intents, evs).len() == intents.len(),
        forall|k: int|
            0 <= k < intents.len() ==> #[trigger] settled_results(intents, evs)[k]
                == result_for_event(intents[k].id, evs[k]),
    decreases intents.len(),
{
    if intents.len() > 0 {
        lemma_settled_index(intents.skip(1), evs.skip(1));
        assert forall|k: int| 0 <= k < intents.len() implies #[trigger] settled_results(
            intents,
            evs,
        )[k] == result_for_event(intents[k].id, evs[k]) by {
            if k > 0 {
                assert(settled_results(intents, evs)[k] == settled_results(
                    intents.skip(1),
                    evs.skip(1),
                )[k - 1]);
            }
        }
    }
}

/// A set of results that are all `simulated` derives the overall status
/// `success`; so does an empty one.
pub proof fn lemma_overall_simulated(rs: Seq<ActionResultModel>)
    requires
        forall|k: int| 0 <= k < rs.len() ==> #[trigger] rs[k].status == "simulated"@,
    ensures
        overall_of(rs) == "success"@,
{
    lemma_status_distinct();
    if any_status(rs, "failed"@) {
        let k = choose|k: int| 0 <= k < rs.len() && rs[k].status == "failed"@;
        assert(false);
    }
    if any_status(rs, "timeout"@) {
        let k = choose|k: int| 0 <= k < rs.len() && rs[k].status == "timeout"@;
        assert(false);
    }
}

/// A non-empty set of results that are all `timeout` derives `failed`;
/// an empty one derives `success`.
pub proof fn lemma_overall_all_timeout(rs: Seq<ActionResultModel>)
    requires
        forall|k: int| 0 <= k < rs.len() ==> #[trigger] rs[k].status == "timeout"@,
    ensures
        rs.len() > 0 ==> overall_of(rs) == "failed"@,
        rs.len() == 0 ==> overall_of(rs) == "success"@,
{
    lemma_status_distinct();
    if rs.len() > 0 {
        assert(rs[0].status == "timeout"@);
        assert(any_status(rs, "timeout"@));
        if any_status(rs, "success"@) {
            let k = choose|k: int| 0 <= k < rs.len() && rs[k].status == "success"@;
            assert(false);
        }
        if any_status(rs, "simulated"@) {
            let k = choose|k: int| 0 <= k < rs.len() && rs[k].status == "simulated"@;
            assert(false);
        }
    }
}

proof fn lemma_flatten_one(x: Seq<IntentModel>)
    ensures
        seq![x].flatten() == x,
{
    assert(seq![x].drop_first() =~= Seq::<Seq<IntentModel>>::empty());
    assert(Seq::<Seq<IntentModel>>::empty().flatten() =~= Seq::<IntentModel>::empty());
    assert(seq![x].first() == x);
    assert(seq![x].flatten() == seq![x].first() + seq![x].drop_first().flatten());
    assert(seq![x].flatten() =~= x);
}

/// The intents of a plan in dispatch order, as values.
pub fn plan_dispatch(plan: &ExecutionPlan) -> (r: Vec<ParsedIntent>)
    ensures
        r.deep_view() == dispatch_order(plan.deep_view()),
{
    let ghost bs = batch_seqs(plan.batches.deep_view());
    let mut out: Vec<ParsedIntent> = Vec::new();
    let mut b: usize = 0;
    proof {
        assert(bs.take(0) =~= Seq::<Seq<IntentModel>>::empty());
        assert(out.deep_view() =~= bs.take(0).flatten());
    }
    while b < plan.batches.len()
        invariant
            0 <= b <= plan.batches@.len(),
            bs == batch_seqs(plan.batches.deep_view()),
            out.deep_view() == bs.take(b as int).flatten(),
        decreases plan.batches@.len() - b,
    {
        let batch = &plan.batches[b];
        let mut j: usize = 0;
        let ghost base = out.deep_view();
        proof {
            assert(bs[b as int] == plan.batches.deep_view()[b as int].intents);
            assert(plan.batches.deep_view()[b as int] == plan.batches@[b as int].deep_view());
        }
        while j < batch.intents.len()
            invariant
                0 <= j <= batch.intents@.len(),
                batch == &plan.batches[b as int],
                b < plan.batches@.len(),
                bs == batch_seqs(plan.batches.deep_view()),
                bs[b as int] == batch.intents.deep_view(),
                base == bs.take(b as int).flatten(),
                out.deep_view() == base + batch.intents.deep_view().subrange(0, j as int),
            decreases batch.intents@.len() - j,
        {
            let c = batch.intents[j].clone();
            proof {
                assert(c.deep_view() == batch.intents@[j as int].deep_view());
                assert(batch.intents.deep_view()[j as int] == batch.intents@[
                    j as int
                ].deep_view());
            }
            let ghost pre = out.deep_view();
            out.push(c);
            proof {
                assert(pre == base + batch.intents.deep_view().subrange(0, j as int));
                assert(pre.len() == base.len() + j);
                assert(out.deep_view().len() == pre.len() + 1);
                assert(out.deep_view()[pre.len() as int] == c.deep_view());
                assert(forall|q: int| 0 <= q < pre.len() ==> out.deep_view()[q] == pre[q]);
                assert(batch.intents.deep_view().subrange(0, j + 1)
                    =~= batch.intents.deep_view().subrange(0, j as int).push(
                    batch.intents.deep_view()[j as int],
                ));
                let rhs = base + batch.intents.deep_view().subrange(0, j + 1);
                assert(rhs.len() == out.deep_view().len());
                assert forall|q: int| 0 <= q < out.deep_view().len() implies out.deep_view()[q]
                    == rhs[q] by {
                    if q < base.len() {
                        assert(pre[q] == base[q]);
                        assert(rhs[q] == base[q]);
                    } else if q < pre.len() {
                        assert(pre[q] == batch.intents.deep_view().subrange(0, j as int)[q
                            - base.len()]);
                        assert(rhs[q] == batch.intents.deep_view().subrange(0, j + 1)[q
                            - base.len()]);
                    } else {
                        assert(out.deep_view()[q] == c.deep_view());
                        assert(rhs[q] == batch.intents.deep_view()[j as int]);
                    }
                }
                assert(out.deep_view() =~= rhs);
            }
            j = j + 1;
        }
        proof {
            assert(batch.intents.deep_view().subrange(0, batch.intents@.len() as int)
                =~= batch.intents.deep_view());
            assert(bs.take(b + 1) =~= bs.take(b as int) + seq![bs[b as int]]);
            crate::plan::lemma_flatten_concat(bs.take(b as int), seq![bs[b as int]]);
            lemma_flatten_one(bs[b as int]);
            assert(out.deep_view() =~= bs.take(b + 1).flatten());
        }
        b = b + 1;
    }
    proof {
        assert(bs.take(bs.len() as int) =~= bs);
    }
    out
}

/// The result recorded for one intent under the event the host reported.
pub fn classify_event(intent: &ParsedIntent, ev: &DispatchEvent) -> (r: ActionResult)
    requires
        event_wf(ev.deep_view()),
    ensures
        r.deep_view() == result_for_event(intent.deep_view().id, ev.deep_view()),
{
    match ev {
        DispatchEvent::Succeeded { started_at, finished_at } => {
            let mut status = String::new();
            status.append("success");
            ActionResult {
                intent_id: intent.id.clone(),
                status,
                reason: Option::None,
                retry_hint: Option::None,
                predicted_effects: Option::None,
                duration_ms: Option::Some((*finished_at - *started_at) as u32),
                started_at: *started_at,
                finished_at: Option::Some(*finished_at),
            }
        },
        DispatchEvent::Failed { reason, started_at, finished_at } => {
            let mut status = String::new();
            status.append("failed");
            let mut hint = String::new();
            hint.append("retry-later");
            ActionResult {
                intent_id: intent.id.clone(),
                status,
                reason: Option::Some(reason.clone()),
                retry_hint: Option::Some(hint),
                predicted_effects: Option::None,
                duration_ms: Option::Some((*finished_at - *started_at) as u32),
                started_at: *started_at,
                finished_at: Option::Some(*finished_at),
            }
        },
        DispatchEvent::TimedOut { started_at } => {
            let mut status = String::new();
            status.append("timeout");
            let mut why = String::new();
            why.append("timeout_ms exceeded");
            let mut hint = String::new();
            hint.append("increase-timeout");
            ActionResult {
                intent_id: intent.id.clone(),
                status,
                reason: Option::Some(why),
                retry_hint: Option::Some(hint),
                predicted_effects: Option::None,
                duration_ms: Option::None,
                started_at: *started_at,
                finished_at: Option::None,
            }
        },
    }
}

/// The simulate-mode result of one intent.
fn render_simulated(intent: &ParsedIntent, now: u64) -> (r: ActionResult)
    ensures
        r.deep_view() == simulated_result(intent.deep_view(), now as int),
{
    let mut effect: Vec<char> = Vec::new();
    match &intent.target_app_id {
        Option::Some(a) => {
            let app = crate::text::str_chars(a.as_str());
            crate::text::push_all(&mut effect, &app);
        },
        Option::None => {},
    }
    effect.push(':');
    let action = crate::text::str_chars(intent.action_name.as_str());
    crate::text::push_all(&mut effect, &action);
    proof {
        assert(effect@ =~= predicted_effect(intent.deep_view()));
    }
    let text = crate::text::chars_string(&effect);
    let mut effects: Vec<String> = Vec::new();
    effects.push(text);
    proof {
        assert(effects.deep_view() =~= seq![predicted_effect(intent.deep_view())]);
    }
    let mut status = String::new();
    status.append("simulated");
    ActionResult {
        intent_id: intent.id.clone(),
        status,
        reason: Option::None,
        retry_hint: Option::None,
        predicted_effects: Option::Some(effects),
        duration_ms: Option::Some(0),
        started_at: now,
        finished_at: Option::Some(now),
    }
}

/// Simulate a plan: every dispatched intent yields a `simulated` result
/// carrying its predicted effect, and the overall status is `success`.
/// The dispatcher is never invoked and the deadline plays no part.
pub fn simulate_plan(plan: &ExecutionPlan, now: u64) -> (r: ExecutionOutcome)
    ensures
        r.deep_view().results == simulated_results(dispatch_order(plan.deep_view()), now as int),
        r.deep_view().overall_status == overall_of(r.deep_view().results),
        r.deep_view().overall_status == "success"@,
{
    let flat = plan_dispatch(plan);
    let ghost fdv = flat.deep_view();
    let mut results: Vec<ActionResult> = Vec::new();
    let mut t: usize = 0;
    proof {
        assert(fdv.take(0) =~= Seq::<IntentModel>::empty());
        assert(results.deep_view() =~= simulated_results(fdv.take(0), now as int));
    }
    while t < flat.len()
        invariant
            0 <= t <= flat@.len(),
            fdv == flat.deep_view(),
            results.deep_view() == simulated_results(fdv.take(t as int), now as int),
        decreases flat@.len() - t,
    {
        let one = render_simulated(&flat[t], now);
        let ghost pre = results.deep_view();
        results.push(one);
        proof {
            assert(fdv[t as int] == flat@[t as int].deep_view());
            assert(results.deep_view().len() == pre.len() + 1);
            assert(results.deep_view()[pre.len() as int] == one.deep_view());
            assert(forall|q: int| 0 <= q < pre.len() ==> results.deep_view()[q] == pre[q]);
            assert(fdv.take(t + 1) =~= fdv.take(t as int).push(fdv[t as int]));
            lemma_simulated_push(fdv.take(t as int), fdv[t as int], now as int);
            assert(results.deep_view() =~= simulated_results(fdv.take(t + 1), now as int));
        }
        t = t + 1;
    }
    proof {
        assert(fdv.take(fdv.len() as int) =~= fdv);
    }
    let overall = derive_overall_status(&results);
    proof {
        lemma_simulated_index(dispatch_order(plan.deep_view()), now as int);
        lemma_overall_simulated(results.deep_view());
    }
    ExecutionOutcome { results, overall_status: overall }
}

/// Settle a plan under the events the host reported, one per dispatched
/// intent in dispatch order; the overall status follows the derivation
/// rule.
pub fn settle_plan(plan: &ExecutionPlan, events: &Vec<DispatchEvent>) -> (r: ExecutionOutcome)
    requires
        events.deep_view().len() == dispatch_order(plan.deep_view()).len(),
        forall|k: int|
            0 <= k < events.deep_view().len() ==> event_wf(#[trigger] events.deep_view()[k]),
    ensures
        r.deep_view().results == settled_results(
            dispatch_order(plan.deep_view()),
            events.deep_view(),
        ),
        r.deep_view().overall_status == overall_of(r.deep_view().results),
{
    let flat = plan_dispatch(plan);
    let ghost fdv = flat.deep_view();
    let ghost edv = events.deep_view();
    let mut results: Vec<ActionResult> = Vec::new();
    let mut t: usize = 0;
    proof {
        assert(fdv.take(0) =~= Seq::<IntentModel>::empty());
        assert(edv.take(0) =~= Seq::<EventModel>::empty());
        assert(results.deep_view() =~= settled_results(fdv.take(0), edv.take(0)));
    }
    while t < flat.len()
        invariant
            0 <= t <= flat@.len(),
            fdv == flat.deep_view(),
            edv == events.deep_view(),
            fdv.len() == edv.len(),
            forall|k: int| 0 <= k < edv.len() ==> event_wf(#[trigger] edv[k]),
            results.deep_view() == settled_results(fdv.take(t as int), edv.take(t as int)),
        decreases flat@.len() - t,
    {
        proof {
            assert(edv[t as int] == events@[t as int].deep_view());
            assert(event_wf(events@[t as int].deep_view()));
        }
        let one = classify_event(&flat[t], &events[t]);
        let ghost pre = results.deep_view();
        results.push(one);
        proof {
            assert(fdv[t as int] == flat@[t as int].deep_view());
            assert(results.deep_view().len() == pre.len() + 1);
            assert(results.deep_view()[pre.len() as int] == one.deep_view());
            assert(forall|q: int| 0 <= q < pre.len() ==> results.deep_view()[q] == pre[q]);
            assert(fdv.take(t + 1) =~= fdv.take(t as int).push(fdv[t as int]));
            assert(edv.take(t + 1) =~= edv.take(t as int).push(edv[t as int]));
            lemma_settled_push(fdv.take(t as int), edv.take(t as int), fdv[t as int], edv[
                t as int
            ]);
            assert(results.deep_view() =~= settled_results(fdv.take(t + 1), edv.take(t + 1)));
        }
        t = t + 1;
    }
    proof {
        assert(fdv.take(fdv.len() as int) =~= fdv);
        assert(edv.take(edv.len() as int) =~= edv);
    }
    let overall = derive_overall_status(&results);
    ExecutionOutcome { results, overall_status: overall }
}

/// The outcome of a plan run with a deadline of zero: every non-simulated
/// intent elapses at once, so every result is a `timeout`, and the overall
/// status is `failed` — `success` only for the empty plan.
pub fn zero_timeout_outcome(plan: &ExecutionPlan, now: u64) -> (r: ExecutionOutcome)
    ensures
        r.deep_view().results == settled_results(
            dispatch_order(plan.deep_view()),
            Seq::new(dispatch_order(plan.deep_view()).len(), |k: int| EventModel::TimedOut {
                started_at: now as int,
            }),
        ),
        forall|k: int|
            0 <= k < r.deep_view().results.len() ==> (#[trigger] r.deep_view().results[k]).status
                == "timeout"@,
        dispatch_order(plan.deep_view()).len() > 0 ==> r.deep_view().overall_status == "failed"@,
        dispatch_order(plan.deep_view()).len() == 0 ==> r.deep_view().overall_status
            == "success"@,
{
    let flat = plan_dispatch(plan);
    let mut events: Vec<DispatchEvent> = Vec::new();
    let mut t: usize = 0;
    let ghost n = dispatch_order(plan.deep_view()).len();
    let ghost all = Seq::new(n, |k: int| EventModel::TimedOut { started_at: now as int });
    while t < flat.len()
        invariant
            0 <= t <= flat@.len(),
            flat.deep_view() == dispatch_order(plan.deep_view()),
            n == dispatch_order(plan.deep_view()).len(),
            all == Seq::new(n, |k: int| EventModel::TimedOut { started_at: now as int }),
            events.deep_view() == all.take(t as int),
        decreases flat@.len() - t,
    {
        let ghost pre = events.deep_view();
        events.push(DispatchEvent::TimedOut { started_at: now });
        proof {
            assert(events.deep_view().len() == pre.len() + 1);
            assert(events.deep_view()[pre.len() as int] == EventModel::TimedOut {
                started_at: now as int,
            });
            assert(forall|q: int| 0 <= q < pre.len() ==> events.deep_view()[q] == pre[q]);
            assert(events.deep_view() =~= all.take(t + 1));
        }
        t = t + 1;
    }
    proof {
        assert(all.take(n as int) =~= all);
        assert(events.deep_view() =~= all);
        assert(forall|k: int| 0 <= k < all.len() ==> event_wf(#[trigger] all[k]));
    }
    let outcome = settle_plan(plan, &events);
    proof {
        lemma_settled_index(dispatch_order(plan.deep_view()), all);
        assert forall|k: int| 0 <= k < outcome.deep_view().results.len() implies (
        #[trigger] outcome.deep_view().results[k]).status == "timeout"@ by {
            assert(outcome.deep_view().results[k] == result_for_event(
                dispatch_order(plan.deep_view())[k].id,
                all[k],
            ));
        }
        lemma_overall_all_timeout(outcome.deep_view().results);
    }
    outcome
}

} // verus!
