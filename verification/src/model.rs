//! The data model of the pipeline: intents, conflicts, batches, plans,
//! explain payloads, per-action results and history records. Each type has a
//! mathematical model (its deep view) that the contracts speak of, and a
//! `Clone` that provably keeps the model.

use vstd::prelude::*;
use crate::params::{ParamModel, ParamValue};

verus! {

pub type IntentId = String;

/// One parsed intent: an action, its optional target application, its
/// parameters, and provenance metadata. Confidence is kept in hundredths,
/// so `100` stands for certainty and `75` for the keyword-rule weight.
#[derive(Debug, PartialEq)]
pub struct ParsedIntent {
    pub id: IntentId,
    pub action_name: String,
    pub target_app_id: Option<String>,
    pub params: ParamValue,
    pub confidence: u32,
    pub source_start: u32,
    pub source_end: u32,
    pub explicit: bool,
}

/// The mathematical shape of a [`ParsedIntent`].
pub ghost struct IntentModel {
    pub id: Seq<char>,
    pub action_name: Seq<char>,
    pub target_app_id: Option<Seq<char>>,
    pub params: ParamModel,
    pub confidence: int,
    pub source_start: int,
    pub source_end: int,
    pub explicit: bool,
}

impl DeepView for ParsedIntent {
    type V = IntentModel;

    open spec fn deep_view(&self) -> IntentModel {
        IntentModel {
            id: self.id@,
            action_name: self.action_name@,
            target_app_id: self.target_app_id.deep_view(),
            params: self.params.deep_view(),
            confidence: self.confidence as int,
            source_start: self.source_start as int,
            source_end: self.source_end as int,
            explicit: self.explicit,
        }
    }
}

/// A copy of an optional string with the same view.
pub fn clone_opt_string(v: &Option<String>) -> (r: Option<String>)
    ensures
        r.deep_view() == v.deep_view(),
{
    match v {
        Option::Some(s) => Option::Some(s.clone()),
        Option::None => Option::None,
    }
}

/// A copy of a string vector with the same views.
pub fn clone_string_vec(v: &Vec<String>) -> (r: Vec<String>)
    ensures
        r.deep_view() == v.deep_view(),
{
    let mut out: Vec<String> = Vec::new();
    let mut k: usize = 0;
    while k < v.len()
        invariant
            0 <= k <= v@.len(),
            out.deep_view() == v.deep_view().subrange(0, k as int),
        decreases v@.len() - k,
    {
        let c = v[k].clone();
        proof {
            assert(c == v@[k as int]);
        }
        let ghost pre = out.deep_view();
        out.push(c);
        proof {
            assert(out.deep_view().len() == pre.len() + 1);
            assert(out.deep_view()[k as int] == c.deep_view());
            assert(forall|i: int| 0 <= i < k ==> out.deep_view()[i] == pre[i]);
            assert(out.deep_view() =~~= v.deep_view().subrange(0, k + 1));
        }
        k = k + 1;
    }
    proof {
        assert(v.deep_view().subrange(0, v@.len() as int) =~= v.deep_view());
        assert(out.deep_view() =~= v.deep_view());
    }
    out
}

impl Clone for ParsedIntent {
    /// Cloning keeps the model.
    fn clone(&self) -> (r: Self)
        ensures
            r.deep_view() == self.deep_view(),
    {
        let r = ParsedIntent {
            id: self.id.clone(),
            action_name: self.action_name.clone(),
            target_app_id: clone_opt_string(&self.target_app_id),
            params: self.params.clone(),
            confidence: self.confidence,
            source_start: self.source_start,
            source_end: self.source_end,
            explicit: self.explicit,
        };
        r
    }
}

/// Two or more intents that share an application and action and are forced
/// into sequential order.
#[derive(Debug, PartialEq)]
pub struct ConflictDetection {
    pub conflict_key: String,
    pub intents: Vec<IntentId>,
    pub reason: String,
    pub resolution: String,
}

/// The mathematical shape of a [`ConflictDetection`].
pub ghost struct ConflictModel {
    pub conflict_key: Seq<char>,
    pub intents: Seq<Seq<char>>,
    pub reason: Seq<char>,
    pub resolution: Seq<char>,
}

impl DeepView for ConflictDetection {
    type V = ConflictModel;

    open spec fn deep_view(&self) -> ConflictModel {
        ConflictModel {
            conflict_key: self.conflict_key@,
            intents: self.intents.deep_view(),
            reason: self.reason@,
            resolution: self.resolution@,
        }
    }
}

impl Clone for ConflictDetection {
    /// Cloning keeps the model.
    fn clone(&self) -> (r: Self)
        ensures
            r.deep_view() == self.deep_view(),
    {
        ConflictDetection {
            conflict_key: self.conflict_key.clone(),
            intents: clone_string_vec(&self.intents),
            reason: self.reason.clone(),
            resolution: self.resolution.clone(),
        }
    }
}

/// A group of intents dispatched concurrently as one unit.
#[derive(Debug, PartialEq)]
pub struct ExecutionPlanBatch {
    pub batch_id: String,
    pub intents: Vec<ParsedIntent>,
}

/// The mathematical shape of an [`ExecutionPlanBatch`].
pub ghost struct BatchModel {
    pub batch_id: Seq<char>,
    pub intents: Seq<IntentModel>,
}

impl DeepView for ExecutionPlanBatch {
    type V = BatchModel;

    open spec fn deep_view(&self) -> BatchModel {
        BatchModel { batch_id: self.batch_id@, intents: self.intents.deep_view() }
    }
}

/// A copy of an intent vector with the same models.
pub fn clone_intents(v: &Vec<ParsedIntent>) -> (r: Vec<ParsedIntent>)
    ensures
        r.deep_view() == v.deep_view(),
{
    let mut out: Vec<ParsedIntent> = Vec::new();
    let mut k: usize = 0;
    while k < v.len()
        invariant
            0 <= k <= v@.len(),
            out.deep_view() == v.deep_view().subrange(0, k as int),
        decreases v@.len() - k,
    {
        let c = v[k].clone();
        proof {
            assert(c.deep_view() == v@[k as int].deep_view());
        }
        let ghost pre = out.deep_view();
        out.push(c);
        proof {
            assert(out.deep_view().len() == pre.len() + 1);
            assert(out.deep_view()[k as int] == c.deep_view());
            assert(forall|i: int| 0 <= i < k ==> out.deep_view()[i] == pre[i]);
            assert(out.deep_view() =~= v.deep_view().subrange(0, k + 1));
        }
        k = k + 1;
    }
    proof {
        assert(v.deep_view().subrange(0, v@.len() as int) =~= v.deep_view());
        assert(out.deep_view() =~= v.deep_view());
    }
    out
}

impl Clone for ExecutionPlanBatch {
    /// Cloning keeps the model.
    fn clone(&self) -> (r: Self)
        ensures
            r.deep_view() == self.deep_view(),
    {
        ExecutionPlanBatch {
            batch_id: self.batch_id.clone(),
            intents: clone_intents(&self.intents),
        }
    }
}

/// One rule that the parser applied, for the explain payload.
#[derive(Debug, PartialEq)]
pub struct MatchedRule {
    pub rule_id: String,
    /// Rule weight in hundredths: `100` for the explicit rule, `75` for a
    /// keyword rule.
    pub weight: u32,
    pub intent_id: Option<IntentId>,
}

/// The mathematical shape of a [`MatchedRule`].
pub ghost struct MatchedRuleModel {
    pub rule_id: Seq<char>,
    pub weight: int,
    pub intent_id: Option<Seq<char>>,
}

impl DeepView for MatchedRule {
    type V = MatchedRuleModel;

    open spec fn deep_view(&self) -> MatchedRuleModel {
        MatchedRuleModel {
            rule_id: self.rule_id@,
            weight: self.weight as int,
            intent_id: self.intent_id.deep_view(),
        }
    }
}

impl Clone for MatchedRule {
    /// Cloning keeps the model.
    fn clone(&self) -> (r: Self)
        ensures
            r.deep_view() == self.deep_view(),
    {
        MatchedRule {
            rule_id: self.rule_id.clone(),
            weight: self.weight,
            intent_id: clone_opt_string(&self.intent_id),
        }
    }
}

/// Human-readable rule traces and the structured list of applied rules.
#[derive(Debug, PartialEq)]
pub struct ExplainPayload {
    pub tokens: Vec<String>,
    pub matched_rules: Vec<MatchedRule>,
}

/// The mathematical shape of an [`ExplainPayload`].
pub ghost struct ExplainModel {
    pub tokens: Seq<Seq<char>>,
    pub matched_rules: Seq<MatchedRuleModel>,
}

impl DeepView for ExplainPayload {
    type V = ExplainModel;

    open spec fn deep_view(&self) -> ExplainModel {
        ExplainModel {
            tokens: self.tokens.deep_view(),
            matched_rules: self.matched_rules.deep_view(),
        }
    }
}

impl Clone for ExplainPayload {
    /// Cloning keeps the model.
    fn clone(&self) -> (r: Self)
        ensures
            r.deep_view() == self.deep_view(),
    {
        let mut rules: Vec<MatchedRule> = Vec::new();
        let mut k: usize = 0;
        while k < self.matched_rules.len()
            invariant
                0 <= k <= self.matched_rules@.len(),
                rules.deep_view() == self.matched_rules.deep_view().subrange(0, k as int),
            decreases self.matched_rules@.len() - k,
        {
            let c = self.matched_rules[k].clone();
            proof {
                assert(c.deep_view() == self.matched_rules@[k as int].deep_view());
            }
            let ghost pre = rules.deep_view();
            rules.push(c);
            proof {
                assert(rules.deep_view().len() == pre.len() + 1);
                assert(rules.deep_view()[k as int] == c.deep_view());
                assert(forall|i: int| 0 <= i < k ==> rules.deep_view()[i] == pre[i]);
                assert(rules.deep_view() =~= self.matched_rules.deep_view().subrange(0, k + 1));
            }
            k = k + 1;
        }
        proof {
            assert(self.matched_rules.deep_view().subrange(0, self.matched_rules@.len() as int)
                =~= self.matched_rules.deep_view());
            assert(rules.deep_view() =~= self.matched_rules.deep_view());
        }
        ExplainPayload { tokens: clone_string_vec(&self.tokens), matched_rules: rules }
    }
}

/// An immutable, batched execution program derived from a set of intents.
#[derive(Debug, PartialEq)]
pub struct ExecutionPlan {
    pub plan_id: String,
    pub original_input: String,
    pub intents: Vec<ParsedIntent>,
    pub deduplicated: Vec<ParsedIntent>,
    pub batches: Vec<ExecutionPlanBatch>,
    pub conflicts: Vec<ConflictDetection>,
    pub strategy: String,
    pub generated_at: u64,
    pub dry_run: bool,
    pub explain: Option<ExplainPayload>,
    pub signature: Option<String>,
    pub cache_hit: Option<bool>,
}

/// The mathematical shape of an [`ExecutionPlan`].
pub ghost struct PlanModel {
    pub plan_id: Seq<char>,
    pub original_input: Seq<char>,
    pub intents: Seq<IntentModel>,
    pub deduplicated: Seq<IntentModel>,
    pub batches: Seq<BatchModel>,
    pub conflicts: Seq<ConflictModel>,
    pub strategy: Seq<char>,
    pub generated_at: int,
    pub dry_run: bool,
    pub explain: Option<ExplainModel>,
    pub signature: Option<Seq<char>>,
    pub cache_hit: Option<bool>,
}

impl DeepView for ExecutionPlan {
    type V = PlanModel;

    open spec fn deep_view(&self) -> PlanModel {
        PlanModel {
            plan_id: self.plan_id@,
            original_input: self.original_input@,
            intents: self.intents.deep_view(),
            deduplicated: self.deduplicated.deep_view(),
            batches: self.batches.deep_view(),
            conflicts: self.conflicts.deep_view(),
            strategy: self.strategy@,
            generated_at: self.generated_at as int,
            dry_run: self.dry_run,
            explain: self.explain.deep_view(),
            signature: self.signature.deep_view(),
            cache_hit: self.cache_hit,
        }
    }
}

impl Clone for ExecutionPlan {
    /// Cloning keeps the model.
    fn clone(&self) -> (r: Self)
        ensures
            r.deep_view() == self.deep_view(),
    {
        let mut batches: Vec<ExecutionPlanBatch> = Vec::new();
        let mut k: usize = 0;
        while k < self.batches.len()
            invariant
                0 <= k <= self.batches@.len(),
                batches.deep_view() == self.batches.deep_view().subrange(0, k as int),
            decreases self.batches@.len() - k,
        {
            let c = self.batches[k].clone();
            proof {
                assert(c.deep_view() == self.batches@[k as int].deep_view());
            }
            let ghost pre = batches.deep_view();
            batches.push(c);
            proof {
                assert(batches.deep_view().len() == pre.len() + 1);
                assert(batches.deep_view()[k as int] == c.deep_view());
                assert(forall|i: int| 0 <= i < k ==> batches.deep_view()[i] == pre[i]);
                assert(batches.deep_view() =~= self.batches.deep_view().subrange(0, k + 1));
            }
            k = k + 1;
        }
        let mut conflicts: Vec<ConflictDetection> = Vec::new();
        let mut j: usize = 0;
        while j < self.conflicts.len()
            invariant
                0 <= j <= self.conflicts@.len(),
                conflicts.deep_view() == self.conflicts.deep_view().subrange(0, j as int),
            decreases self.conflicts@.len() - j,
        {
            let c = self.conflicts[j].clone();
            proof {
                assert(c.deep_view() == self.conflicts@[j as int].deep_view());
            }
            let ghost pre = conflicts.deep_view();
            conflicts.push(c);
            proof {
                assert(conflicts.deep_view().len() == pre.len() + 1);
                assert(conflicts.deep_view()[j as int] == c.deep_view());
                assert(forall|i: int| 0 <= i < j ==> conflicts.deep_view()[i] == pre[i]);
                assert(conflicts.deep_view() =~= self.conflicts.deep_view().subrange(0, j + 1));
            }
            j = j + 1;
        }
        proof {
            assert(self.batches.deep_view().subrange(0, self.batches@.len() as int)
                =~= self.batches.deep_view());
            assert(batches.deep_view() =~= self.batches.deep_view());
            assert(self.conflicts.deep_view().subrange(0, self.conflicts@.len() as int)
                =~= self.conflicts.deep_view());
            assert(conflicts.deep_view() =~= self.conflicts.deep_view());
        }
        let explain = match &self.explain {
            Option::Some(e) => Option::Some(e.clone()),
            Option::None => Option::None,
        };
        ExecutionPlan {
            plan_id: self.plan_id.clone(),
            original_input: self.original_input.clone(),
            intents: clone_intents(&self.intents),
            deduplicated: clone_intents(&self.deduplicated),
            batches,
            conflicts,
            strategy: self.strategy.clone(),
            generated_at: self.generated_at,
            dry_run: self.dry_run,
            explain,
            signature: clone_opt_string(&self.signature),
            cache_hit: self.cache_hit,
        }
    }
}

/// The recorded outcome of dispatching one intent.
#[derive(Debug, PartialEq)]
pub struct ActionResult {
    pub intent_id: IntentId,
    pub status: String,
    pub reason: Option<String>,
    pub retry_hint: Option<String>,
    pub predicted_effects: Option<Vec<String>>,
    pub duration_ms: Option<u32>,
    pub started_at: u64,
    pub finished_at: Option<u64>,
}

/// The mathematical shape of an [`ActionResult`].
pub ghost struct ActionResultModel {
    pub intent_id: Seq<char>,
    pub status: Seq<char>,
    pub reason: Option<Seq<char>>,
    pub retry_hint: Option<Seq<char>>,
    pub predicted_effects: Option<Seq<Seq<char>>>,
    pub duration_ms: Option<int>,
    pub started_at: int,
    pub finished_at: Option<int>,
}

impl DeepView for ActionResult {
    type V = ActionResultModel;

    open spec fn deep_view(&self) -> ActionResultModel {
        ActionResultModel {
            intent_id: self.intent_id@,
            status: self.status@,
            reason: self.reason.deep_view(),
            retry_hint: self.retry_hint.deep_view(),
            predicted_effects: match self.predicted_effects {
                Option::Some(v) => Option::Some(v.deep_view()),
                Option::None => Option::None,
            },
            duration_ms: match self.duration_ms {
                Option::Some(d) => Option::Some(d as int),
                Option::None => Option::None,
            },
            started_at: self.started_at as int,
            finished_at: match self.finished_at {
                Option::Some(f) => Option::Some(f as int),
                Option::None => Option::None,
            },
        }
    }
}

impl Clone for ActionResult {
    /// Cloning keeps the model.
    fn clone(&self) -> (r: Self)
        ensures
            r.deep_view() == self.deep_view(),
    {
        let predicted = match &self.predicted_effects {
            Option::Some(v) => Option::Some(clone_string_vec(v)),
            Option::None => Option::None,
        };
        ActionResult {
            intent_id: self.intent_id.clone(),
            status: self.status.clone(),
            reason: clone_opt_string(&self.reason),
            retry_hint: clone_opt_string(&self.retry_hint),
            predicted_effects: predicted,
            duration_ms: self.duration_ms,
            started_at: self.started_at,
            finished_at: self.finished_at,
        }
    }
}

/// One history entry: the signature of the executed plan, its input, a
/// summary of its intents and the overall outcome.
#[derive(Debug, PartialEq)]
pub struct CommandHistoryRecord {
    pub signature: String,
    pub input: String,
    pub intents_summary: Vec<String>,
    pub overall_status: String,
    pub created_at: u64,
    pub plan_size: u32,
    pub explain_used: bool,
}

/// The mathematical shape of a [`CommandHistoryRecord`].
pub ghost struct HistoryRecordModel {
    pub signature: Seq<char>,
    pub input: Seq<char>,
    pub intents_summary: Seq<Seq<char>>,
    pub overall_status: Seq<char>,
    pub created_at: int,
    pub plan_size: int,
    pub explain_used: bool,
}

impl DeepView for CommandHistoryRecord {
    type V = HistoryRecordModel;

    open spec fn deep_view(&self) -> HistoryRecordModel {
        HistoryRecordModel {
            signature: self.signature@,
            input: self.input@,
            intents_summary: self.intents_summary.deep_view(),
            overall_status: self.overall_status@,
            created_at: self.created_at as int,
            plan_size: self.plan_size as int,
            explain_used: self.explain_used,
        }
    }
}

impl Clone for CommandHistoryRecord {
    /// Cloning keeps the model.
    fn clone(&self) -> (r: Self)
        ensures
            r.deep_view() == self.deep_view(),
    {
        CommandHistoryRecord {
            signature: self.signature.clone(),
            input: self.input.clone(),
            intents_summary: clone_string_vec(&self.intents_summary),
            overall_status: self.overall_status.clone(),
            created_at: self.created_at,
            plan_size: self.plan_size,
            explain_used: self.explain_used,
        }
    }
}

/// A problem met while loading an application descriptor.
#[derive(Debug, PartialEq)]
pub struct DescriptorLoadIssue {
    pub app_id: Option<String>,
    pub level: String,
    pub message: String,
    pub path: String,
}

/// The mathematical shape of a [`DescriptorLoadIssue`].
pub ghost struct LoadIssueModel {
    pub app_id: Option<Seq<char>>,
    pub level: Seq<char>,
    pub message: Seq<char>,
    pub path: Seq<char>,
}

impl DeepView for DescriptorLoadIssue {
    type V = LoadIssueModel;

    open spec fn deep_view(&self) -> LoadIssueModel {
        LoadIssueModel {
            app_id: self.app_id.deep_view(),
            level: self.level@,
            message: self.message@,
            path: self.path@,
        }
    }
}

impl Clone for DescriptorLoadIssue {
    /// Cloning keeps the fields' views.
    fn clone(&self) -> (r: Self)
        ensures
            r.app_id.deep_view() == self.app_id.deep_view(),
            r.level@ == self.level@,
            r.message@ == self.message@,
            r.path@ == self.path@,
    {
        DescriptorLoadIssue {
            app_id: clone_opt_string(&self.app_id),
            level: self.level.clone(),
            message: self.message.clone(),
            path: self.path.clone(),
        }
    }
}

} // verus!
