//! The request façade: validate a request, acquire a plan by input or by
//! id, run the simulation or hand the plan to the host for execution,
//! record history, and shape uniform responses and errors.

use vstd::prelude::*;
use crate::concurrency::{compute_concurrency, spec_concurrency};
use crate::executor::{
    dispatch_order, event_wf, overall_of, settle_plan, settled_results, simulate_plan,
    simulated_results, DispatchEvent,
};
use crate::history::{bound_val, HistoryStore};
use crate::model::{
    ActionResult, ActionResultModel, CommandHistoryRecord, ExecutionPlan, ExplainModel,
    ExplainPayload, HistoryRecordModel, IntentModel, ParsedIntent, PlanModel,
};
use crate::parser::{parse_post, ParseOptions, RuleBasedParser};
use crate::plan::{build_plan_with_cache, dedup_of, plan_built_cached, SignatureSet};
use crate::plan_cache::{find_plan, fresh_entries, PlanCache};
use crate::signature::signature_hex;
use crate::text::{blank, is_blank, str_chars};

verus! {

/// A parse request: the input text and whether to produce an explain
/// payload.
#[derive(Debug, PartialEq)]
pub struct IntentParseRequest {
    pub input: String,
    pub explain: bool,
}

/// A dry-run request: exactly one of `input` and `plan_id` must be given.
#[derive(Debug, PartialEq)]
pub struct PlanExecuteRequest {
    pub input: Option<String>,
    pub plan_id: Option<String>,
    pub dry_run: bool,
}

/// An execute request: exactly one of `input` and `plan_id`, and an
/// optional per-action deadline.
#[derive(Debug, PartialEq)]
pub struct ExecutePlanRequest {
    pub input: Option<String>,
    pub plan_id: Option<String>,
    pub timeout_ms: Option<u64>,
}

/// A history page request.
#[derive(Debug, PartialEq)]
pub struct ListHistoryRequest {
    pub limit: Option<u32>,
    pub after: Option<u64>,
}

/// A uniform error: a code and a human-readable message.
#[derive(Debug, PartialEq)]
pub struct ErrorPayload {
    pub code: String,
    pub message: String,
}

/// The response to a parse request.
#[derive(Debug, PartialEq)]
pub struct ParseResponse {
    pub plan_id: String,
    pub strategy: String,
    pub batches: u32,
    pub conflicts: u32,
    pub cache_hit: bool,
    pub signature: String,
    pub explain: Option<ExplainPayload>,
}

/// One action of an execution response.
#[derive(Debug, PartialEq)]
pub struct ActionView {
    pub intent_id: String,
    pub status: String,
    pub reason: Option<String>,
    pub retry_hint: Option<String>,
    pub predicted_effects: Option<Vec<String>>,
    pub duration_ms: Option<u32>,
}

/// The response to a dry-run or execute request.
#[derive(Debug, PartialEq)]
pub struct ExecResponse {
    pub plan_id: String,
    pub overall_status: String,
    pub actions: Vec<ActionView>,
    pub batches: u32,
    pub conflicts: u32,
    pub cache_hit: bool,
}

/// One listed history item.
#[derive(Debug, PartialEq)]
pub struct HistoryItem {
    pub signature: String,
    pub input: String,
    pub overall_status: String,
    pub plan_size: u32,
    pub explain_used: bool,
    pub created_at: u64,
    pub intents: Vec<String>,
}

/// A page of history, newest first, with the cursor for the next page.
#[derive(Debug, PartialEq)]
pub struct HistoryPage {
    pub items: Vec<HistoryItem>,
    pub next_after: Option<u64>,
}

/// The shared state behind the façade: the parser, the plan cache, the
/// signature set and the history store.
pub struct CoreState<H: HistoryStore> {
    pub parser: RuleBasedParser,
    pub plan_cache: PlanCache,
    pub signatures: SignatureSet,
    pub history: H,
}

/// The façade's state invariant.
pub open spec fn state_wf<H: HistoryStore>(s: &CoreState<H>) -> bool {
    s.history.store_wf()
}

/// The plan cache and the signature set are exactly as they were.
pub open spec fn caches_untouched<H: HistoryStore>(
    old_state: &CoreState<H>,
    new_state: &CoreState<H>,
) -> bool {
    &&& new_state.plan_cache.entries() == old_state.plan_cache.entries()
    &&& new_state.plan_cache.ttl() == old_state.plan_cache.ttl()
    &&& new_state.signatures@ == old_state.signatures@
}

/// The plan cache lost only its expired entries; the signature set is
/// unchanged.
pub open spec fn caches_only_purged<H: HistoryStore>(
    old_state: &CoreState<H>,
    new_state: &CoreState<H>,
    now: int,
) -> bool {
    &&& new_state.plan_cache.entries() == fresh_entries(
        old_state.plan_cache.entries(),
        now,
        old_state.plan_cache.ttl(),
    )
    &&& new_state.plan_cache.ttl() == old_state.plan_cache.ttl()
    &&& new_state.signatures@ == old_state.signatures@
}

/// A plan acquired by fresh parse of the input: it is built over some
/// parse of the input under the request's concurrency bound, its
/// signature is recorded in the set, and it is appended to the purged
/// plan cache.
pub open spec fn acquired_by_input<H: HistoryStore>(
    old_state: &CoreState<H>,
    new_state: &CoreState<H>,
    input: Seq<char>,
    p: PlanModel,
    logical: nat,
    now: int,
) -> bool {
    &&& exists|intents: Seq<IntentModel>, explain: Option<ExplainModel>|
        {
            &&& #[trigger] parse_post(input, intents, explain, false)
            &&& plan_built_cached(
                p,
                intents,
                spec_concurrency(logical),
                input,
                now,
                old_state.signatures@,
            )
            &&& new_state.signatures@ == old_state.signatures@.insert(
                signature_hex(dedup_of(intents)),
            )
        }
    &&& new_state.plan_cache.entries() == fresh_entries(
        old_state.plan_cache.entries(),
        now,
        old_state.plan_cache.ttl(),
    ).push((p, now))
    &&& new_state.plan_cache.ttl() == old_state.plan_cache.ttl()
}

/// A plan acquired by id: the purged plan cache holds it under that id;
/// nothing else moved.
pub open spec fn acquired_by_id<H: HistoryStore>(
    old_state: &CoreState<H>,
    new_state: &CoreState<H>,
    id: Seq<char>,
    p: PlanModel,
    now: int,
) -> bool {
    &&& find_plan(new_state.plan_cache.entries(), id) == Option::Some(p)
    &&& caches_only_purged(old_state, new_state, now)
}

impl<H: HistoryStore> CoreState<H> {
    /// A fresh state around the given history store, with a two-minute
    /// plan time-to-live.
    pub fn new(history: H) -> (r: Self)
        requires
            history.store_wf(),
        ensures
            state_wf(&r),
            r.plan_cache.entries() == Seq::<(PlanModel, int)>::empty(),
            r.signatures@ == Set::<Seq<char>>::empty(),
            r.history == history,
    {
        CoreState {
            parser: RuleBasedParser::new(),
            plan_cache: PlanCache::new(120000),
            signatures: SignatureSet::new(),
            history,
        }
    }
}

/// `n` clamped into a `u32`.
fn count_u32(n: usize) -> (r: u32)
    ensures
        r == if n <= u32::MAX {
            n as int
        } else {
            u32::MAX as int
        },
{
    if n <= 4294967295 {
        n as u32
    } else {
        4294967295
    }
}

/// A fresh `INVALID_INPUT` error.
fn invalid_input(message: &str) -> (r: ErrorPayload)
    ensures
        r.code@ == "INVALID_INPUT"@,
        r.message@ == message@,
{
    let mut code = String::new();
    code.append("INVALID_INPUT");
    ErrorPayload { code, message: message.to_owned() }
}

/// Parse the input and build a plan: reject blank input, parse, build the
/// plan under the concurrency bound with the signature set consulted, and
/// keep the plan in the cache.
///
/// The error is `INVALID_INPUT` exactly when the input is blank; on
/// success the response carries the signature of the deduplicated
/// intents, whether it was already known, the strategy, and the batch and
/// conflict counts of a plan built from some parse of the input.
pub fn parse_intent<H: HistoryStore>(
    state: &mut CoreState<H>,
    req: &IntentParseRequest,
    logical: usize,
    now: u64,
) -> (r: Result<ParseResponse, ErrorPayload>)
    requires
        state_wf(old(state)),
        req.input@.len() <= u32::MAX,
    ensures
        state_wf(final(state)),
        final(state).history == old(state).history,
        final(state).plan_cache.ttl() == old(state).plan_cache.ttl(),
        match r {
            Result::Ok(resp) => {
                &&& !is_blank(req.input@)
                &&& exists|intents: Seq<IntentModel>, explain: Option<ExplainModel>, p: PlanModel|
                    #![trigger parse_post(req.input@, intents, explain, req.explain),
                        plan_built_cached(
                            (PlanModel { explain: Option::None, ..p }),
                            intents,
                            spec_concurrency(logical as nat),
                            req.input@,
                            now as int,
                            old(state).signatures@,
                        )]
                    {
                        &&& parse_post(req.input@, intents, explain, req.explain)
                        &&& plan_built_cached(
                            (PlanModel { explain: Option::None, ..p }),
                            intents,
                            spec_concurrency(logical as nat),
                            req.input@,
                            now as int,
                            old(state).signatures@,
                        )
                        &&& p.explain == (if req.explain {
                            explain
                        } else {
                            Option::<ExplainModel>::None
                        })
                        &&& final(state).signatures@ == old(state).signatures@.insert(
                            signature_hex(dedup_of(intents)),
                        )
                        &&& final(state).plan_cache.entries() == fresh_entries(
                            old(state).plan_cache.entries(),
                            now as int,
                            old(state).plan_cache.ttl(),
                        ).push((p, now as int))
                        &&& resp.plan_id@ == p.plan_id
                        &&& resp.strategy@ == p.strategy
                        &&& resp.batches == clamp32(p.batches.len() as int)
                        &&& resp.conflicts == clamp32(p.conflicts.len() as int)
                        &&& resp.cache_hit == (p.cache_hit == Option::Some(true))
                        &&& Option::Some(resp.signature@) == p.signature
                        &&& resp.explain.deep_view() == p.explain
                    }
            },
            Result::Err(e) => {
                &&& is_blank(req.input@)
                &&& e.code@ == "INVALID_INPUT"@
                &&& caches_untouched(old(state), final(state))
            },
        },
{
    let input_chars = str_chars(req.input.as_str());
    if blank(&input_chars) {
        return Result::Err(invalid_input("input is empty"));
    }
    let opts = ParseOptions { enable_explain: req.explain };
    let parsed = state.parser.parse_input(req.input.as_str(), &opts);
    let ghost explain_model = parsed.explain.deep_view();
    let mc = compute_concurrency(logical);
    let mut plan = build_plan_with_cache(
        &parsed.intents,
        mc,
        req.input.as_str(),
        &mut state.signatures,
        now,
    );
    let ghost built = plan.deep_view();
    if req.explain {
        plan.explain = parsed.explain;
    }
    let ghost pm = plan.deep_view();
    let plan_id = plan.plan_id.clone();
    let strategy = plan.strategy.clone();
    let batches = count_u32(plan.batches.len());
    let conflicts = count_u32(plan.conflicts.len());
    let cache_hit = match plan.cache_hit {
        Option::Some(h) => h,
        Option::None => false,
    };
    let signature = match &plan.signature {
        Option::Some(s) => s.clone(),
        Option::None => plan.plan_id.clone(),
    };
    let explain = match &plan.explain {
        Option::Some(e) => Option::Some(e.clone()),
        Option::None => Option::None,
    };
    state.plan_cache.insert(plan, now);
    let resp = ParseResponse {
        plan_id,
        strategy,
        batches,
        conflicts,
        cache_hit,
        signature,
        explain,
    };
    proof {
        let intents = parsed.intents.deep_view();
        assert(parse_post(req.input@, intents, explain_model, req.explain));
        assert(PlanModel { explain: Option::None, ..pm } == built);
        assert(pm.explain == (if req.explain {
            explain_model
        } else {
            Option::<ExplainModel>::None
        }));
        assert(resp.explain.deep_view() == pm.explain);
    }
    Result::Ok(resp)
}

/// Two parses of one input carry the same signature over their
/// deduplicated intents: the parsed content is fixed by the input and the
/// signature ignores the fresh ids. A second `parse_intent` on an input
/// whose first call recorded its signature therefore reports a cache
/// hit.
pub proof fn lemma_same_input_same_signature(
    input: Seq<char>,
    i1: Seq<IntentModel>,
    e1: Option<ExplainModel>,
    x1: bool,
    i2: Seq<IntentModel>,
    e2: Option<ExplainModel>,
    x2: bool,
)
    requires
        parse_post(input, i1, e1, x1),
        parse_post(input, i2, e2, x2),
    ensures
        signature_hex(dedup_of(i2)) == signature_hex(dedup_of(i1)),
{
    assert(crate::parser::strip_ids(i1) == crate::parser::strip_ids(i2));
    crate::signature::lemma_signature_ignores_ids(i1, i2);
}

/// `n` clamped into the `u32` range.
pub open spec fn clamp32(n: int) -> int {
    if n <= u32::MAX {
        n
    } else {
        u32::MAX as int
    }
}

/// The mathematical shape of an [`ActionView`].
pub ghost struct ActionViewModel {
    pub intent_id: Seq<char>,
    pub status: Seq<char>,
    pub reason: Option<Seq<char>>,
    pub retry_hint: Option<Seq<char>>,
    pub predicted_effects: Option<Seq<Seq<char>>>,
    pub duration_ms: Option<int>,
}

impl DeepView for ActionView {
    type V = ActionViewModel;

    open spec fn deep_view(&self) -> ActionViewModel {
        ActionViewModel {
            intent_id: self.intent_id@,
            status: self.status@,
            reason: self.reason.deep_view(),
            retry_hint: self.retry_hint.deep_view(),
            predicted_effects: match self.predicted_effects {
                Option::Some(v) => Option::Some(v.deep_view()),
                Option::None => Option::None,
            },
            duration_ms: match self.duration_ms {
                Option::Some(d) => Option::Some(d as int),
                Option::None => Option::None,
            },
        }
    }
}

/// The view of one result.
pub open spec fn view_of_result(r: ActionResultModel) -> ActionViewModel {
    ActionViewModel {
        intent_id: r.intent_id,
        status: r.status,
        reason: r.reason,
        retry_hint: r.retry_hint,
        predicted_effects: r.predicted_effects,
        duration_ms: r.duration_ms,
    }
}

/// Render the per-action results as response views, in order.
fn render_actions(results: &Vec<ActionResult>) -> (r: Vec<ActionView>)
    ensures
        r.deep_view().len() == results.deep_view().len(),
        forall|k: int|
            0 <= k < results.deep_view().len() ==> #[trigger] r.deep_view()[k] == view_of_result(
                results.deep_view()[k],
            ),
{
    let mut out: Vec<ActionView> = Vec::new();
    let mut k: usize = 0;
    while k < results.len()
        invariant
            0 <= k <= results@.len(),
            out.deep_view().len() == k,
            forall|q: int|
                0 <= q < k ==> #[trigger] out.deep_view()[q] == view_of_result(
                    results.deep_view()[q],
                ),
        decreases results@.len() - k,
    {
        let src = &results[k];
        let predicted = match &src.predicted_effects {
            Option::Some(v) => Option::Some(crate::model::clone_string_vec(v)),
            Option::None => Option::None,
        };
        let view = ActionView {
            intent_id: src.intent_id.clone(),
            status: src.status.clone(),
            reason: crate::model::clone_opt_string(&src.reason),
            retry_hint: crate::model::clone_opt_string(&src.retry_hint),
            predicted_effects: predicted,
            duration_ms: src.duration_ms,
        };
        let ghost pre = out.deep_view();
        out.push(view);
        proof {
            assert(results.deep_view()[k as int] == results@[k as int].deep_view());
            assert(out.deep_view().len() == pre.len() + 1);
            assert(out.deep_view()[pre.len() as int] == view_of_result(
                results.deep_view()[k as int],
            ));
            assert(forall|q: int| 0 <= q < pre.len() ==> out.deep_view()[q] == pre[q]);
            assert forall|q: int|
                0 <= q < k + 1 implies #[trigger] out.deep_view()[q] == view_of_result(
                results.deep_view()[q],
            ) by {
                if q < pre.len() {
                    assert(out.deep_view()[q] == pre[q]);
                }
            }
        }
        k = k + 1;
    }
    out
}

/// The action names of the intents, in order.
fn action_names(intents: &Vec<ParsedIntent>) -> (r: Vec<String>)
    ensures
        r.deep_view().len() == intents.deep_view().len(),
        forall|k: int|
            0 <= k < intents.deep_view().len() ==> #[trigger] r.deep_view()[k]
                == intents.deep_view()[k].action_name,
{
    let mut out: Vec<String> = Vec::new();
    let mut k: usize = 0;
    while k < intents.len()
        invariant
            0 <= k <= intents@.len(),
            out.deep_view().len() == k,
            forall|q: int|
                0 <= q < k ==> #[trigger] out.deep_view()[q] == intents.deep_view()[q].action_name,
        decreases intents@.len() - k,
    {
        let ghost pre = out.deep_view();
        out.push(intents[k].action_name.clone());
        proof {
            assert(intents.deep_view()[k as int] == intents@[k as int].deep_view());
            assert(out.deep_view().len() == pre.len() + 1);
            assert(out.deep_view()[pre.len() as int] == intents.deep_view()[k as int].action_name);
            assert(forall|q: int| 0 <= q < pre.len() ==> out.deep_view()[q] == pre[q]);
            assert forall|q: int|
                0 <= q < k + 1 implies #[trigger] out.deep_view()[q] == intents.deep_view()[
                q
            ].action_name by {
                if q < pre.len() {
                    assert(out.deep_view()[q] == pre[q]);
                }
            }
        }
        k = k + 1;
    }
    out
}

/// The intent summary a plan's history record carries: the action names
/// of the deduplicated intents, of all intents when the deduplication is
/// empty.
pub open spec fn summary_of(p: PlanModel) -> Seq<Seq<char>> {
    let source = if p.deduplicated.len() > 0 {
        p.deduplicated
    } else {
        p.intents
    };
    source.map_values(|i: IntentModel| i.action_name)
}

/// The history record one execution of a plan leaves: keyed by the
/// plan's signature (its id when no signature was computed), carrying the
/// input, the intent summary, the outcome, and the plan size; the store
/// assigns the creation time.
pub open spec fn history_record_of(p: PlanModel, overall: Seq<char>) -> HistoryRecordModel {
    HistoryRecordModel {
        signature: match p.signature {
            Option::Some(s) => s,
            Option::None => p.plan_id,
        },
        input: p.original_input,
        intents_summary: summary_of(p),
        overall_status: overall,
        created_at: 0,
        plan_size: clamp32(p.deduplicated.len() as int),
        explain_used: p.explain is Some,
    }
}

/// The history record written for one execution of a plan.
fn record_of(plan: &ExecutionPlan, overall_status: &String) -> (r: CommandHistoryRecord)
    ensures
        r.deep_view() == history_record_of(plan.deep_view(), overall_status@),
{
    let signature = match &plan.signature {
        Option::Some(s) => s.clone(),
        Option::None => plan.plan_id.clone(),
    };
    let summary = if plan.deduplicated.len() > 0 {
        action_names(&plan.deduplicated)
    } else {
        action_names(&plan.intents)
    };
    let explain_used = match &plan.explain {
        Option::Some(_) => true,
        Option::None => false,
    };
    proof {
        assert(summary.deep_view() =~= summary_of(plan.deep_view()));
    }
    CommandHistoryRecord {
        signature,
        input: plan.original_input.clone(),
        intents_summary: summary,
        overall_status: overall_status.clone(),
        created_at: 0,
        plan_size: count_u32(plan.deduplicated.len()),
        explain_used,
    }
}

/// Acquire the plan a request names: by fresh parse of its input, or by
/// id from the plan cache. Exactly one of the two must be given.
fn acquire_plan<H: HistoryStore>(
    state: &mut CoreState<H>,
    input: &Option<String>,
    plan_id: &Option<String>,
    logical: usize,
    now: u64,
) -> (r: Result<ExecutionPlan, ErrorPayload>)
    requires
        state_wf(old(state)),
        match input {
            Option::Some(i) => i@.len() <= u32::MAX,
            Option::None => true,
        },
    ensures
        state_wf(final(state)),
        final(state).history == old(state).history,
        match r {
            Result::Ok(plan) => {
                &&& (input is Some ==> plan_id is None && !is_blank(input->0@)
                    && acquired_by_input(
                    old(state),
                    final(state),
                    input->0@,
                    plan.deep_view(),
                    logical as nat,
                    now as int,
                ))
                &&& (input is None ==> plan_id is Some)
                &&& (plan_id is Some ==> input is None && acquired_by_id(
                    old(state),
                    final(state),
                    plan_id->0@,
                    plan.deep_view(),
                    now as int,
                ))
            },
            Result::Err(e) => {
                &&& (input is Some && plan_id is Some) ==> e.code@ == "INVALID_INPUT"@
                    && caches_untouched(old(state), final(state))
                &&& (input is None && plan_id is None) ==> e.code@ == "INVALID_INPUT"@
                    && caches_untouched(old(state), final(state))
                &&& (input is Some && plan_id is None) ==> is_blank(input->0@)
                    && e.code@ == "INVALID_INPUT"@
                    && caches_untouched(old(state), final(state))
                &&& (plan_id is Some && input is None) ==> e.code@ == "PLAN_NOT_FOUND"@
                    && find_plan(final(state).plan_cache.entries(), plan_id->0@) is None
                    && caches_only_purged(old(state), final(state), now as int)
            },
        },
{
    if input.is_some() && plan_id.is_some() {
        return Result::Err(invalid_input("provide either input or planId"));
    }
    match plan_id {
        Option::Some(pid) => {
            let found = state.plan_cache.lookup(pid, now);
            match found {
                Option::Some(plan) => Result::Ok(plan),
                Option::None => {
                    let mut code = String::new();
                    code.append("PLAN_NOT_FOUND");
                    Result::Err(
                        ErrorPayload { code, message: "planId not found".to_owned() },
                    )
                },
            }
        },
        Option::None => {
            match input {
                Option::Some(text) => {
                    let input_chars = str_chars(text.as_str());
                    if blank(&input_chars) {
                        return Result::Err(invalid_input("input is empty"));
                    }
                    let opts = ParseOptions { enable_explain: false };
                    let parsed = state.parser.parse_input(text.as_str(), &opts);
                    let mc = compute_concurrency(logical);
                    let plan = build_plan_with_cache(
                        &parsed.intents,
                        mc,
                        text.as_str(),
                        &mut state.signatures,
                        now,
                    );
                    let copy = plan.clone();
                    state.plan_cache.insert(plan, now);
                    Result::Ok(copy)
                },
                Option::None => Result::Err(invalid_input("missing input or planId")),
            }
        },
    }
}

/// What a successful dry run leaves: a plan acquired from the request,
/// a response mirroring that plan whose actions are the views of its
/// simulated results, and the plan's `success` history record saved.
pub open spec fn dry_run_ok<H: HistoryStore>(
    old_state: &CoreState<H>,
    new_state: &CoreState<H>,
    req: &PlanExecuteRequest,
    resp: ExecResponse,
    p: PlanModel,
    logical: nat,
    now: int,
) -> bool {
    &&& (req.input is Some ==> acquired_by_input(
        old_state,
        new_state,
        req.input->0@,
        p,
        logical,
        now,
    ))
    &&& (req.plan_id is Some ==> acquired_by_id(old_state, new_state, req.plan_id->0@, p, now))
    &&& resp.plan_id@ == p.plan_id
    &&& resp.batches == clamp32(p.batches.len() as int)
    &&& resp.conflicts == clamp32(p.conflicts.len() as int)
    &&& resp.cache_hit == (p.cache_hit == Option::Some(true))
    &&& resp.overall_status@ == "success"@
    &&& resp.actions.deep_view().len() == dispatch_order(p).len()
    &&& forall|k: int|
        0 <= k < resp.actions.deep_view().len() ==> #[trigger] resp.actions.deep_view()[k]
            == view_of_result(simulated_results(dispatch_order(p), now)[k])
    &&& new_state.history.records() == old_state.history.saved_model(
        history_record_of(p, "success"@),
        now,
    )
}

/// Run a plan in simulate mode and record the outcome: every action is
/// `simulated` with its predicted effect, the overall status is
/// `success`, and one history record is written.
pub fn dry_run<H: HistoryStore>(
    state: &mut CoreState<H>,
    req: &PlanExecuteRequest,
    logical: usize,
    now: u64,
) -> (r: Result<ExecResponse, ErrorPayload>)
    requires
        state_wf(old(state)),
        match req.input {
            Option::Some(i) => i@.len() <= u32::MAX,
            Option::None => true,
        },
    ensures
        state_wf(final(state)),
        r is Err ==> final(state).history == old(state).history,
        match r {
            Result::Ok(resp) => {
                &&& (req.input is Some ==> req.plan_id is None && !is_blank(req.input->0@))
                &&& (req.input is None ==> req.plan_id is Some)
                &&& resp.overall_status@ == "success"@
                &&& forall|k: int|
                    0 <= k < resp.actions.deep_view().len() ==> (
                    #[trigger] resp.actions.deep_view()[k]).status == "simulated"@ && (match resp.actions.deep_view()[k].predicted_effects {
                        Option::Some(es) => es.len() > 0,
                        Option::None => false,
                    })
                &&& exists|p: PlanModel|
                    #[trigger] dry_run_ok(
                        old(state),
                        final(state),
                        req,
                        resp,
                        p,
                        logical as nat,
                        now as int,
                    )
            },
            Result::Err(e) => {
                &&& (req.input is Some && req.plan_id is Some) ==> e.code@ == "INVALID_INPUT"@
                    && caches_untouched(old(state), final(state))
                &&& (req.input is None && req.plan_id is None) ==> e.code@ == "INVALID_INPUT"@
                    && caches_untouched(old(state), final(state))
                &&& (req.input is Some && req.plan_id is None) ==> is_blank(req.input->0@)
                    && e.code@ == "INVALID_INPUT"@
                    && caches_untouched(old(state), final(state))
                &&& (req.plan_id is Some && req.input is None) ==> e.code@ == "PLAN_NOT_FOUND"@
                    && caches_only_purged(old(state), final(state), now as int)
            },
        },
{
    let acquired = acquire_plan(state, &req.input, &req.plan_id, logical, now);
    let plan = match acquired {
        Result::Ok(p) => p,
        Result::Err(e) => {
            return Result::Err(e);
        },
    };
    let outcome = simulate_plan(&plan, now);
    let record = record_of(&plan, &outcome.overall_status);
    state.history.save(record, now);
    let actions = render_actions(&outcome.results);
    proof {
        crate::executor::lemma_simulated_index(dispatch_order(plan.deep_view()), now as int);
        assert forall|k: int|
            0 <= k < actions.deep_view().len() implies (#[trigger] actions.deep_view()[k]).status
            == "simulated"@ && (match actions.deep_view()[k].predicted_effects {
            Option::Some(es) => es.len() > 0,
            Option::None => false,
        }) by {
            assert(actions.deep_view()[k] == view_of_result(outcome.results.deep_view()[k]));
            assert(outcome.results.deep_view()[k] == crate::executor::simulated_result(
                dispatch_order(plan.deep_view())[k],
                now as int,
            ));
        }
    }
    let batches = count_u32(plan.batches.len());
    let conflicts = count_u32(plan.conflicts.len());
    let cache_hit = match plan.cache_hit {
        Option::Some(h) => h,
        Option::None => false,
    };
    let resp = ExecResponse {
        plan_id: plan.plan_id.clone(),
        overall_status: outcome.overall_status,
        actions,
        batches,
        conflicts,
        cache_hit,
    };
    proof {
        let p = plan.deep_view();
        assert(resp.overall_status@ == "success"@);
        assert(history_record_of(p, resp.overall_status@) == history_record_of(p, "success"@));
        assert(dry_run_ok(old(state), state, req, resp, p, logical as nat, now as int));
    }
    Result::Ok(resp)
}

/// Whether an execute request's deadline is acceptable: the default of
/// two seconds when absent, else within 100 milliseconds and 30 seconds.
pub open spec fn resolved_timeout(t: Option<u64>) -> int {
    match t {
        Option::None => 2000,
        Option::Some(v) => v as int,
    }
}

/// Validate an execute request and acquire its plan. The resolved
/// deadline comes back beside the plan; the host dispatches the actions
/// under it and settles the outcome with `execute_plan_finish`.
pub fn execute_plan_prepare<H: HistoryStore>(
    state: &mut CoreState<H>,
    req: &ExecutePlanRequest,
    logical: usize,
    now: u64,
) -> (r: Result<(ExecutionPlan, u64), ErrorPayload>)
    requires
        state_wf(old(state)),
        match req.input {
            Option::Some(i) => i@.len() <= u32::MAX,
            Option::None => true,
        },
    ensures
        state_wf(final(state)),
        final(state).history == old(state).history,
        !(100 <= resolved_timeout(req.timeout_ms) <= 30000) ==> r is Err && caches_untouched(
            old(state),
            final(state),
        ),
        match r {
            Result::Ok(pt) => {
                &&& 100 <= resolved_timeout(req.timeout_ms) <= 30000
                &&& pt.1 == resolved_timeout(req.timeout_ms)
                &&& (req.input is Some ==> req.plan_id is None && !is_blank(req.input->0@)
                    && acquired_by_input(
                    old(state),
                    final(state),
                    req.input->0@,
                    pt.0.deep_view(),
                    logical as nat,
                    now as int,
                ))
                &&& (req.input is None ==> req.plan_id is Some)
                &&& (req.plan_id is Some ==> req.input is None && acquired_by_id(
                    old(state),
                    final(state),
                    req.plan_id->0@,
                    pt.0.deep_view(),
                    now as int,
                ))
            },
            Result::Err(e) => {
                &&& !(100 <= resolved_timeout(req.timeout_ms) <= 30000) ==> e.code@
                    == "INVALID_INPUT"@
                &&& (100 <= resolved_timeout(req.timeout_ms) <= 30000) ==> {
                    &&& (req.input is Some && req.plan_id is Some) ==> e.code@
                        == "INVALID_INPUT"@ && caches_untouched(old(state), final(state))
                    &&& (req.input is None && req.plan_id is None) ==> e.code@
                        == "INVALID_INPUT"@ && caches_untouched(old(state), final(state))
                    &&& (req.input is Some && req.plan_id is None) ==> is_blank(
                        req.input->0@,
                    ) && e.code@ == "INVALID_INPUT"@ && caches_untouched(
                        old(state),
                        final(state),
                    )
                    &&& (req.plan_id is Some && req.input is None) ==> e.code@
                        == "PLAN_NOT_FOUND"@ && find_plan(
                        final(state).plan_cache.entries(),
                        req.plan_id->0@,
                    ) is None && caches_only_purged(old(state), final(state), now as int)
                }
            },
        },
{
    let timeout = match req.timeout_ms {
        Option::Some(t) => t,
        Option::None => 2000,
    };
    if timeout < 100 || timeout > 30000 {
        return Result::Err(invalid_input("timeout_ms out of range"));
    }
    let acquired = acquire_plan(state, &req.input, &req.plan_id, logical, now);
    match acquired {
        Result::Ok(plan) => Result::Ok((plan, timeout)),
        Result::Err(e) => Result::Err(e),
    }
}

/// Settle an executed plan under the host's events and record the
/// outcome: the results follow the per-event classification, the overall
/// status follows the derivation rule, and one history record is
/// written.
pub fn execute_plan_finish<H: HistoryStore>(
    state: &mut CoreState<H>,
    plan: &ExecutionPlan,
    events: &Vec<DispatchEvent>,
    now: u64,
) -> (r: ExecResponse)
    requires
        state_wf(old(state)),
        events.deep_view().len() == dispatch_order(plan.deep_view()).len(),
        forall|k: int|
            0 <= k < events.deep_view().len() ==> event_wf(#[trigger] events.deep_view()[k]),
    ensures
        state_wf(final(state)),
        caches_untouched(old(state), final(state)),
        final(state).history.records() == old(state).history.saved_model(
            history_record_of(
                plan.deep_view(),
                overall_of(settled_results(dispatch_order(plan.deep_view()), events.deep_view())),
            ),
            now as int,
        ),
        r.plan_id@ == plan.deep_view().plan_id,
        r.batches == clamp32(plan.deep_view().batches.len() as int),
        r.conflicts == clamp32(plan.deep_view().conflicts.len() as int),
        r.cache_hit == (plan.deep_view().cache_hit == Option::Some(true)),
        r.overall_status@ == overall_of(
            settled_results(dispatch_order(plan.deep_view()), events.deep_view()),
        ),
        r.actions.deep_view().len() == dispatch_order(plan.deep_view()).len(),
        forall|k: int|
            0 <= k < r.actions.deep_view().len() ==> #[trigger] r.actions.deep_view()[k]
                == view_of_result(
                settled_results(dispatch_order(plan.deep_view()), events.deep_view())[k],
            ),
{
    let outcome = settle_plan(plan, events);
    let record = record_of(plan, &outcome.overall_status);
    state.history.save(record, now);
    let actions = render_actions(&outcome.results);
    proof {
        crate::executor::lemma_settled_index(
            dispatch_order(plan.deep_view()),
            events.deep_view(),
        );
    }
    let batches = count_u32(plan.batches.len());
    let conflicts = count_u32(plan.conflicts.len());
    let cache_hit = match plan.cache_hit {
        Option::Some(h) => h,
        Option::None => false,
    };
    ExecResponse {
        plan_id: plan.plan_id.clone(),
        overall_status: outcome.overall_status,
        actions,
        batches,
        conflicts,
        cache_hit,
    }
}

impl DeepView for HistoryItem {
    type V = HistoryRecordModel;

    /// A history item shows one record.
    open spec fn deep_view(&self) -> HistoryRecordModel {
        HistoryRecordModel {
            signature: self.signature@,
            input: self.input@,
            intents_summary: self.intents.deep_view(),
            overall_status: self.overall_status@,
            created_at: self.created_at as int,
            plan_size: self.plan_size as int,
            explain_used: self.explain_used,
        }
    }
}

/// The page bound a request resolves to: the default of 20, capped at
/// 100.
pub open spec fn resolved_limit(l: Option<u32>) -> int {
    let raw = match l {
        Option::None => 20,
        Option::Some(v) => v as int,
    };
    if raw <= 100 {
        raw
    } else {
        100
    }
}

/// The cursor a request resolves to: absent or zero means from the
/// newest.
pub open spec fn resolved_cursor(a: Option<u64>) -> Option<int> {
    match a {
        Option::None => Option::None,
        Option::Some(v) => if v == 0 {
            Option::None
        } else {
            Option::Some(v as int)
        },
    }
}

/// List a page of history: at most the resolved limit of records
/// strictly older than the cursor, newest first with strictly decreasing
/// creation times; the next cursor is the last item's creation time when
/// the page is full, and absent otherwise.
pub fn list_history<H: HistoryStore>(state: &CoreState<H>, req: &ListHistoryRequest) -> (r:
    HistoryPage)
    requires
        state_wf(state),
    ensures
        crate::history::list_before_post(
            state.history.records(),
            resolved_limit(req.limit),
            resolved_cursor(req.after),
            r.items.deep_view(),
        ),
        forall|i: int, j: int|
            0 <= i < j < r.items.deep_view().len() ==> (#[trigger] r.items.deep_view()[
                i
            ]).created_at > (#[trigger] r.items.deep_view()[j]).created_at,
        r.next_after == (if r.items.deep_view().len() == resolved_limit(req.limit)
            && resolved_limit(req.limit) > 0 {
            Option::Some(r.items.deep_view()[r.items.deep_view().len() - 1].created_at as u64)
        } else {
            Option::<u64>::None
        }),
{
    let raw_limit = match req.limit {
        Option::Some(v) => v,
        Option::None => 20,
    };
    let limit: usize = if raw_limit > 100 {
        100
    } else {
        raw_limit as usize
    };
    let before: Option<u64> = match req.after {
        Option::Some(v) => if v == 0 {
            Option::None
        } else {
            Option::Some(v)
        },
        Option::None => Option::None,
    };
    let records = state.history.list_before(limit, before);
    let mut items: Vec<HistoryItem> = Vec::new();
    let mut k: usize = 0;
    while k < records.len()
        invariant
            0 <= k <= records@.len(),
            items.deep_view().len() == k,
            forall|q: int|
                0 <= q < k ==> #[trigger] items.deep_view()[q] == records.deep_view()[q],
        decreases records@.len() - k,
    {
        let src = &records[k];
        let item = HistoryItem {
            signature: src.signature.clone(),
            input: src.input.clone(),
            overall_status: src.overall_status.clone(),
            plan_size: src.plan_size,
            explain_used: src.explain_used,
            created_at: src.created_at,
            intents: crate::model::clone_string_vec(&src.intents_summary),
        };
        let ghost pre = items.deep_view();
        items.push(item);
        proof {
            assert(records.deep_view()[k as int] == records@[k as int].deep_view());
            assert(items.deep_view().len() == pre.len() + 1);
            assert(items.deep_view()[pre.len() as int] == records.deep_view()[k as int]);
            assert(forall|q: int| 0 <= q < pre.len() ==> items.deep_view()[q] == pre[q]);
            assert forall|q: int|
                0 <= q < k + 1 implies #[trigger] items.deep_view()[q] == records.deep_view()[
                q
            ] by {
                if q < pre.len() {
                    assert(items.deep_view()[q] == pre[q]);
                }
            }
        }
        k = k + 1;
    }
    let next_after: Option<u64>;
    if items.len() == limit && limit > 0 {
        next_after = Option::Some(items[items.len() - 1].created_at);
    } else {
        next_after = Option::None;
    }
    proof {
        assert(items.deep_view() =~= records.deep_view());
        assert(resolved_limit(req.limit) == limit as int);
        assert(resolved_cursor(req.after) == bound_val(before));
    }
    HistoryPage { items, next_after }
}

} // verus!
