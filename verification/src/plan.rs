//! The plan builder: deduplicate the intents, detect conflicts, put each
//! conflict intent into its own batch, window the remaining intents under
//! the concurrency bound, and pick the strategy. A second entry point also
//! computes the signature and consults the signature set for a cache hit.

use vstd::prelude::*;
use crate::conflict::{conflicts_of, detect_conflicts, is_conflicted};
use crate::model::{
    BatchModel, ExecutionPlan, ExecutionPlanBatch, IntentModel, ParsedIntent, PlanModel,
};
use crate::params::json_of;
use crate::text::{chars_eq, push_all, str_chars};

verus! {

/// The deduplication key of an intent:
/// `<app or _>|<action>|<serialized params>`. It uses the serialized form
/// of the parameters, with object entries in stored order; the signature
/// uses the canonical form instead.
pub open spec fn dedup_key(i: IntentModel) -> Seq<char> {
    (match i.target_app_id {
        Option::Some(a) => a,
        Option::None => seq!['_'],
    }) + seq!['|'] + i.action_name + seq!['|'] + json_of(i.params)
}

/// How many of the intents have the given deduplication key.
pub open spec fn dk_count(intents: Seq<IntentModel>, k: Seq<char>) -> nat
    decreases intents,
{
    if intents.len() == 0 {
        0
    } else {
        (if dedup_key(intents[0]) == k {
            1nat
        } else {
            0nat
        }) + dk_count(intents.skip(1), k)
    }
}

pub proof fn lemma_dk_count_concat(a: Seq<IntentModel>, b: Seq<IntentModel>, k: Seq<char>)
    ensures
        dk_count(a + b, k) == dk_count(a, k) + dk_count(b, k),
    decreases a.len(),
{
    if a.len() == 0 {
        assert(a + b =~= b);
    } else {
        assert((a + b).skip(1) =~= a.skip(1) + b);
        lemma_dk_count_concat(a.skip(1), b, k);
    }
}

/// The first-occurrence deduplication of the first `n` intents: an intent
/// is kept iff no earlier intent has its deduplication key.
pub open spec fn deduped_upto(intents: Seq<IntentModel>, n: int) -> Seq<IntentModel>
    decreases n,
{
    if n <= 0 {
        Seq::empty()
    } else {
        deduped_upto(intents, n - 1) + (if dk_count(
            intents.take(n - 1),
            dedup_key(intents[n - 1]),
        ) == 0 {
            seq![intents[n - 1]]
        } else {
            Seq::empty()
        })
    }
}

/// The deduplicated intents, first occurrence of each key, in order.
pub open spec fn dedup_of(intents: Seq<IntentModel>) -> Seq<IntentModel> {
    deduped_upto(intents, intents.len() as int)
}

/// The intents of the first `n` positions whose conflict state equals
/// `conflicted`, in order.
pub open spec fn part_upto(intents: Seq<IntentModel>, n: int, conflicted: bool) -> Seq<
    IntentModel,
>
    decreases n,
{
    if n <= 0 {
        Seq::empty()
    } else {
        part_upto(intents, n - 1, conflicted) + (if is_conflicted(intents, intents[n - 1])
            == conflicted {
            seq![intents[n - 1]]
        } else {
            Seq::empty()
        })
    }
}

/// The intents that belong to some conflict group, in original order.
pub open spec fn conflict_part(intents: Seq<IntentModel>) -> Seq<IntentModel> {
    part_upto(intents, intents.len() as int, true)
}

/// The intents free of conflicts, in original order.
pub open spec fn normal_part(intents: Seq<IntentModel>) -> Seq<IntentModel> {
    part_upto(intents, intents.len() as int, false)
}

/// Consecutive windows of at most `max(1, mc)` intents; the remainder
/// forms a final smaller window.
pub open spec fn windows(s: Seq<IntentModel>, mc: nat) -> Seq<Seq<IntentModel>>
    decreases s.len(),
{
    if s.len() == 0 {
        Seq::empty()
    } else {
        let w = if mc == 0 {
            1nat
        } else if mc < s.len() {
            mc
        } else {
            s.len()
        };
        seq![s.take(w as int)] + windows(s.skip(w as int), mc)
    }
}

/// Each conflict intent alone in its own window.
pub open spec fn singletons(s: Seq<IntentModel>) -> Seq<Seq<IntentModel>> {
    s.map_values(|i: IntentModel| seq![i])
}

/// The intent lists of the plan's batches: one single-intent batch per
/// conflict intent, in order, then the windows of the conflict-free
/// intents.
pub open spec fn batch_intents_of(intents: Seq<IntentModel>, mc: nat) -> Seq<Seq<IntentModel>> {
    singletons(conflict_part(intents)) + windows(normal_part(intents), mc)
}

/// The intent lists of built batches.
pub open spec fn batch_seqs(bs: Seq<BatchModel>) -> Seq<Seq<IntentModel>> {
    bs.map_values(|b: BatchModel| b.intents)
}

/// The strategy of a plan: `parallel-limited` iff the bound allows
/// parallelism and some batch holds more than one intent.
pub open spec fn strategy_of(intents: Seq<IntentModel>, mc: nat) -> Seq<char> {
    if mc > 1 && exists|k: int|
        0 <= k < batch_intents_of(intents, mc).len() && #[trigger] batch_intents_of(
            intents,
            mc,
        )[k].len() > 1 {
        "parallel-limited"@
    } else {
        "sequential"@
    }
}

/// What `build_plan` promises of the plan it returns, apart from the
/// fresh identifiers: all parts of the plan are functions of the intents,
/// the concurrency bound, the input text and the clock reading.
pub open spec fn plan_built(
    p: PlanModel,
    intents: Seq<IntentModel>,
    mc: nat,
    input: Seq<char>,
    now: int,
) -> bool {
    &&& p.original_input == input
    &&& p.intents == intents
    &&& p.deduplicated == dedup_of(intents)
    &&& p.conflicts == conflicts_of(intents)
    &&& batch_seqs(p.batches) == batch_intents_of(intents, mc)
    &&& p.strategy == strategy_of(intents, mc)
    &&& p.generated_at == now
    &&& p.dry_run == false
    &&& p.explain is None
    &&& p.signature is None
    &&& p.cache_hit is None
    &&& p.plan_id.len() == 36
}

/// The deduplication key of one intent, rendered.
fn render_dedup_key(i: &ParsedIntent) -> (r: Vec<char>)
    ensures
        r@ == dedup_key(i.deep_view()),
{
    let mut out: Vec<char> = Vec::new();
    match &i.target_app_id {
        Option::Some(a) => {
            let app = str_chars(a.as_str());
            push_all(&mut out, &app);
        },
        Option::None => {
            out.push('_');
        },
    }
    out.push('|');
    let action = str_chars(i.action_name.as_str());
    push_all(&mut out, &action);
    out.push('|');
    let ps = crate::params::json_text(&i.params);
    push_all(&mut out, &ps);
    proof {
        assert(out@ =~= dedup_key(i.deep_view()));
    }
    out
}

/// First-occurrence deduplication on the serialized key.
fn dedup_intents(intents: &Vec<ParsedIntent>) -> (r: Vec<ParsedIntent>)
    ensures
        r.deep_view() == dedup_of(intents.deep_view()),
{
    let ghost dv = intents.deep_view();
    let mut keys: Vec<Vec<char>> = Vec::new();
    let mut out: Vec<ParsedIntent> = Vec::new();
    let mut i: usize = 0;
    proof {
        assert(out.deep_view() =~= deduped_upto(dv, 0));
    }
    while i < intents.len()
        invariant
            0 <= i <= intents@.len(),
            dv == intents.deep_view(),
            out.deep_view() == deduped_upto(dv, i as int),
            keys@.len() == i,
            forall|j: int|
                0 <= j < i ==> #[trigger] keys@[j]@ == dedup_key(dv[j]),
        decreases intents@.len() - i,
    {
        let key = render_dedup_key(&intents[i]);
        proof {
            assert(dv[i as int] == intents@[i as int].deep_view());
        }
        let mut seen = false;
        let mut j: usize = 0;
        while j < i
            invariant
                0 <= j <= i < intents@.len(),
                dv == intents.deep_view(),
                keys@.len() == i,
                forall|q: int|
                    0 <= q < i ==> #[trigger] keys@[q]@ == dedup_key(dv[q]),
                key@ == dedup_key(dv[i as int]),
                seen == (dk_count(dv.take(j as int), key@) > 0),
            decreases i - j,
        {
            let ghost pre_seen = seen;
            let hit = chars_eq(&keys[j], &key);
            if hit {
                seen = true;
            }
            proof {
                assert(dv.take(j + 1) =~= dv.take(j as int) + seq![dv[j as int]]);
                lemma_dk_count_concat(dv.take(j as int), seq![dv[j as int]], key@);
                assert(seq![dv[j as int]].skip(1) =~= Seq::<IntentModel>::empty());
                assert(dk_count(Seq::<IntentModel>::empty(), key@) == 0);
                assert(dk_count(seq![dv[j as int]], key@) == (if dedup_key(dv[j as int]) == key@ {
                    1nat
                } else {
                    0nat
                }) + dk_count(Seq::<IntentModel>::empty(), key@));
                assert(keys@[j as int]@ == dedup_key(dv[j as int]));
                assert(seen == (dk_count(dv.take(j + 1), key@) > 0));
            }
            j = j + 1;
        }
        let ghost pre = out.deep_view();
        if !seen {
            out.push(intents[i].clone());
        }
        keys.push(key);
        proof {
            assert(dv.take(i as int) == intents.deep_view().take(i as int));
            if !seen {
                assert(out.deep_view() =~= pre.push(dv[i as int]));
                assert(deduped_upto(dv, i + 1) =~= deduped_upto(dv, i as int).push(
                    dv[i as int],
                ));
            } else {
                assert(deduped_upto(dv, i + 1) =~= deduped_upto(dv, i as int));
            }
            assert(out.deep_view() =~= deduped_upto(dv, i + 1));
        }
        i = i + 1;
    }
    out
}

/// Whether `intents[at]` belongs to some conflict group.
fn conflicted_at(intents: &Vec<ParsedIntent>, at: usize) -> (r: bool)
    requires
        at < intents@.len(),
    ensures
        r == is_conflicted(intents.deep_view(), intents.deep_view()[at as int]),
{
    let ids = crate::conflict::collect_ids(intents, at);
    ids.len() >= 2
}

/// Split the intents into the conflicted and the conflict-free part, each
/// in original order.
fn partition_intents(intents: &Vec<ParsedIntent>) -> (r: (Vec<ParsedIntent>, Vec<ParsedIntent>))
    ensures
        r.0.deep_view() == conflict_part(intents.deep_view()),
        r.1.deep_view() == normal_part(intents.deep_view()),
{
    let ghost dv = intents.deep_view();
    let mut conf: Vec<ParsedIntent> = Vec::new();
    let mut norm: Vec<ParsedIntent> = Vec::new();
    let mut i: usize = 0;
    proof {
        assert(conf.deep_view() =~= part_upto(dv, 0, true));
        assert(norm.deep_view() =~= part_upto(dv, 0, false));
    }
    while i < intents.len()
        invariant
            0 <= i <= intents@.len(),
            dv == intents.deep_view(),
            conf.deep_view() == part_upto(dv, i as int, true),
            norm.deep_view() == part_upto(dv, i as int, false),
        decreases intents@.len() - i,
    {
        let ghost pre_c = conf.deep_view();
        let ghost pre_n = norm.deep_view();
        let c = conflicted_at(intents, i);
        if c {
            conf.push(intents[i].clone());
        } else {
            norm.push(intents[i].clone());
        }
        proof {
            assert(dv[i as int] == intents@[i as int].deep_view());
            if c {
                assert(conf.deep_view() =~= pre_c.push(dv[i as int]));
                assert(part_upto(dv, i + 1, true) =~= part_upto(dv, i as int, true).push(
                    dv[i as int],
                ));
                assert(part_upto(dv, i + 1, false) =~= part_upto(dv, i as int, false));
            } else {
                assert(norm.deep_view() =~= pre_n.push(dv[i as int]));
                assert(part_upto(dv, i + 1, false) =~= part_upto(dv, i as int, false).push(
                    dv[i as int],
                ));
                assert(part_upto(dv, i + 1, true) =~= part_upto(dv, i as int, true));
            }
            assert(conf.deep_view() =~= part_upto(dv, i + 1, true));
            assert(norm.deep_view() =~= part_upto(dv, i + 1, false));
        }
        i = i + 1;
    }
    (conf, norm)
}

/// One single-intent batch per conflict intent, then windows of the
/// conflict-free intents under the bound.
fn build_batches(conf: Vec<ParsedIntent>, norm: Vec<ParsedIntent>, mc: usize) -> (r: Vec<
    ExecutionPlanBatch,
>)
    ensures
        batch_seqs(r.deep_view()) == singletons(conf.deep_view()) + windows(
            norm.deep_view(),
            mc as nat,
        ),
{
    let ghost conf_dv = conf.deep_view();
    let ghost norm_dv = norm.deep_view();
    let mut out: Vec<ExecutionPlanBatch> = Vec::new();
    let mut i: usize = 0;
    proof {
        assert(batch_seqs(out.deep_view()) =~= singletons(conf_dv.take(0)));
    }
    while i < conf.len()
        invariant
            0 <= i <= conf@.len(),
            conf_dv == conf.deep_view(),
            batch_seqs(out.deep_view()) == singletons(conf_dv.take(i as int)),
        decreases conf@.len() - i,
    {
        let ghost pre = batch_seqs(out.deep_view());
        let mut members: Vec<ParsedIntent> = Vec::new();
        members.push(conf[i].clone());
        let batch = ExecutionPlanBatch { batch_id: crate::util::new_uuid(), intents: members };
        proof {
            assert(conf_dv[i as int] == conf@[i as int].deep_view());
            assert(batch.deep_view().intents =~= seq![conf_dv[i as int]]);
        }
        out.push(batch);
        proof {
            assert(conf_dv.take(i + 1) =~= conf_dv.take(i as int).push(conf_dv[i as int]));
            assert(batch_seqs(out.deep_view()) =~= pre.push(seq![conf_dv[i as int]]));
            assert(singletons(conf_dv.take(i + 1)) =~= singletons(conf_dv.take(i as int)).push(
                seq![conf_dv[i as int]],
            ));
        }
        i = i + 1;
    }
    proof {
        assert(conf_dv.take(conf@.len() as int) =~= conf_dv);
        assert(norm_dv.skip(0) =~= norm_dv);
    }
    let mut pos: usize = 0;
    while pos < norm.len()
        invariant
            0 <= pos <= norm@.len(),
            conf_dv == conf.deep_view(),
            norm_dv == norm.deep_view(),
            singletons(conf_dv) + windows(norm_dv, mc as nat) == batch_seqs(out.deep_view())
                + windows(norm_dv.skip(pos as int), mc as nat),
        decreases norm@.len() - pos,
    {
        let rest_len = norm.len() - pos;
        let w = if mc == 0 {
            1
        } else if mc < rest_len {
            mc
        } else {
            rest_len
        };
        let mut members: Vec<ParsedIntent> = Vec::new();
        let mut k: usize = 0;
        while k < w
            invariant
                0 <= k <= w,
                0 <= pos,
                pos + w <= norm@.len(),
                norm@.len() <= usize::MAX,
                norm_dv == norm.deep_view(),
                members.deep_view() == norm_dv.subrange(pos as int, pos + k),
            decreases w - k,
        {
            let ghost pre_m = members.deep_view();
            let c = norm[pos + k].clone();
            proof {
                assert(c.deep_view() == norm@[pos + k].deep_view());
                assert(norm_dv[pos + k] == norm@[pos + k].deep_view());
            }
            members.push(c);
            proof {
                assert(members.deep_view().len() == pre_m.len() + 1);
                assert(members.deep_view()[k as int] == c.deep_view());
                assert(forall|q: int| 0 <= q < k ==> members.deep_view()[q] == pre_m[q]);
                assert(members.deep_view() =~= norm_dv.subrange(pos as int, pos + k + 1));
            }
            k = k + 1;
        }
        let ghost pre = batch_seqs(out.deep_view());
        let batch = ExecutionPlanBatch { batch_id: crate::util::new_uuid(), intents: members };
        out.push(batch);
        proof {
            let rest = norm_dv.skip(pos as int);
            let wn = if (mc as nat) == 0 {
                1nat
            } else if (mc as nat) < rest.len() {
                mc as nat
            } else {
                rest.len()
            };
            assert(wn == w as nat);
            assert(rest.take(w as int) =~= norm_dv.subrange(pos as int, pos + w));
            assert(windows(rest, mc as nat) == seq![rest.take(w as int)] + windows(
                rest.skip(w as int),
                mc as nat,
            ));
            assert(batch_seqs(out.deep_view()) =~= pre.push(norm_dv.subrange(
                pos as int,
                pos + w,
            )));
            assert(rest.skip(w as int) =~= norm_dv.skip(pos + w));
            assert(singletons(conf_dv) + windows(norm_dv, mc as nat) =~= batch_seqs(
                out.deep_view(),
            ) + windows(norm_dv.skip(pos + w), mc as nat));
        }
        pos = pos + w;
    }
    proof {
        assert(norm_dv.skip(norm@.len() as int) =~= Seq::<IntentModel>::empty());
        assert(windows(Seq::<IntentModel>::empty(), mc as nat) =~= Seq::<Seq<IntentModel>>::empty());
        assert(batch_seqs(out.deep_view()) =~= singletons(conf_dv) + windows(
            norm_dv,
            mc as nat,
        ));
    }
    out
}

/// Whether some batch holds more than one intent.
fn has_wide_batch(batches: &Vec<ExecutionPlanBatch>) -> (r: bool)
    ensures
        r == exists|k: int|
            0 <= k < batches.deep_view().len() && #[trigger] batches.deep_view()[k].intents.len()
                > 1,
{
    let mut k: usize = 0;
    while k < batches.len()
        invariant
            0 <= k <= batches@.len(),
            forall|q: int|
                0 <= q < k ==> #[trigger] batches.deep_view()[q].intents.len() <= 1,
        decreases batches@.len() - k,
    {
        if batches[k].intents.len() > 1 {
            proof {
                assert(batches.deep_view()[k as int].intents.len() > 1);
            }
            return true;
        }
        k = k + 1;
    }
    false
}

/// Build an execution plan: keep the intents in order, deduplicate them,
/// detect conflicts, emit one single-intent batch per conflict intent and
/// window the rest under the bound, and pick the strategy. `now` is the
/// clock reading stamped as `generated_at`.
pub fn build_plan(
    intents: &Vec<ParsedIntent>,
    max_concurrency: usize,
    original_input: &str,
    now: u64,
) -> (r: ExecutionPlan)
    ensures
        plan_built(
            r.deep_view(),
            intents.deep_view(),
            max_concurrency as nat,
            original_input@,
            now as int,
        ),
{
    let all = crate::model::clone_intents(intents);
    let deduped = dedup_intents(intents);
    let conflicts = detect_conflicts(intents);
    let (conf, norm) = partition_intents(intents);
    let batches = build_batches(conf, norm, max_concurrency);
    let wide = has_wide_batch(&batches);
    let mut strategy = String::new();
    if max_concurrency > 1 && wide {
        strategy.append("parallel-limited");
    } else {
        strategy.append("sequential");
    }
    proof {
        let dv = intents.deep_view();
        let mcn = max_concurrency as nat;
        let bs = batch_intents_of(dv, mcn);
        assert(batch_seqs(batches.deep_view()) == bs);
        assert forall|k: int| 0 <= k < bs.len() implies #[trigger] bs[k]
            == batches.deep_view()[k].intents by {
            assert(batch_seqs(batches.deep_view())[k] == batches.deep_view()[k].intents);
        }
        if max_concurrency > 1 && wide {
            let k = choose|k: int|
                0 <= k < batches.deep_view().len() && #[trigger] batches.deep_view()[
                    k
                ].intents.len() > 1;
            assert(bs[k].len() > 1);
            assert(strategy_of(dv, mcn) == "parallel-limited"@);
            assert(strategy@ == strategy_of(dv, mcn));
        } else {
            if max_concurrency > 1 {
                assert forall|k: int| 0 <= k < bs.len() implies !(#[trigger] bs[k].len() > 1) by {
                    assert(bs[k] == batches.deep_view()[k].intents);
                    assert(!(batches.deep_view()[k].intents.len() > 1));
                }
            }
            assert(strategy_of(dv, mcn) == "sequential"@);
            assert(strategy@ == strategy_of(dv, mcn));
        }
    }
    let plan_id = crate::util::new_uuid();
    ExecutionPlan {
        plan_id,
        original_input: original_input.to_owned(),
        intents: all,
        deduplicated: deduped,
        batches,
        conflicts,
        strategy,
        generated_at: now,
        dry_run: false,
        explain: Option::None,
        signature: Option::None,
        cache_hit: Option::None,
    }
}

/// The set of signatures seen so far, for cache-hit detection.
pub struct SignatureSet {
    items: Vec<String>,
}

impl View for SignatureSet {
    type V = Set<Seq<char>>;

    closed spec fn view(&self) -> Set<Seq<char>> {
        self.items.deep_view().to_set()
    }
}

impl SignatureSet {
    /// An empty signature set.
    pub fn new() -> (r: Self)
        ensures
            r@ == Set::<Seq<char>>::empty(),
    {
        let r = SignatureSet { items: Vec::new() };
        proof {
            assert(r@ =~= Set::<Seq<char>>::empty());
        }
        r
    }

    /// Whether the set holds this signature.
    pub fn contains(&self, s: &String) -> (r: bool)
        ensures
            r == self@.contains(s@),
    {
        let mut k: usize = 0;
        while k < self.items.len()
            invariant
                0 <= k <= self.items@.len(),
                forall|q: int|
                    0 <= q < k ==> #[trigger] self.items.deep_view()[q] != s@,
            decreases self.items@.len() - k,
        {
            if self.items[k].eq(s) {
                proof {
                    assert(self.items.deep_view()[k as int] == s@);
                    assert(self.items.deep_view().contains(s@));
                }
                return true;
            }
            k = k + 1;
        }
        proof {
            assert(!self.items.deep_view().contains(s@));
        }
        false
    }

    /// Add a signature; the set then holds it, beside everything it held.
    pub fn insert(&mut self, s: &String)
        ensures
            final(self)@ == old(self)@.insert(s@),
    {
        let already = self.contains(s);
        if !already {
            let ghost pre = self.items.deep_view();
            self.items.push(s.clone());
            proof {
                assert(self.items.deep_view().len() == pre.len() + 1);
                assert(self.items.deep_view()[pre.len() as int] == s@);
                assert(forall|q: int| 0 <= q < pre.len() ==> self.items.deep_view()[q] == pre[q]);
                assert(self@ =~= old(self)@.insert(s@)) by {
                    assert forall|x: Seq<char>| self@.contains(x) implies old(self)@.insert(
                        s@,
                    ).contains(x) by {
                        let i = choose|i: int|
                            0 <= i < self.items.deep_view().len() && self.items.deep_view()[i]
                                == x;
                        if i < pre.len() {
                            assert(pre[i] == x);
                            assert(pre.contains(x));
                        }
                    }
                    assert forall|x: Seq<char>| old(self)@.insert(s@).contains(x) implies
                        self@.contains(x) by {
                        if x == s@ {
                            assert(self.items.deep_view()[pre.len() as int] == x);
                            assert(self.items.deep_view().contains(x));
                        } else {
                            let i = choose|i: int| 0 <= i < pre.len() && pre[i] == x;
                            assert(self.items.deep_view()[i] == x);
                            assert(self.items.deep_view().contains(x));
                        }
                    }
                }
            }
        } else {
            proof {
                assert(self@ =~= old(self)@.insert(s@));
            }
        }
    }
}

/// What `build_plan_with_cache` promises: a built plan carrying the
/// signature of its deduplicated intents, with `cache_hit` saying whether
/// that signature was already in the set.
pub open spec fn plan_built_cached(
    p: PlanModel,
    intents: Seq<IntentModel>,
    mc: nat,
    input: Seq<char>,
    now: int,
    cache_before: Set<Seq<char>>,
) -> bool {
    &&& p.original_input == input
    &&& p.intents == intents
    &&& p.deduplicated == dedup_of(intents)
    &&& p.conflicts == conflicts_of(intents)
    &&& batch_seqs(p.batches) == batch_intents_of(intents, mc)
    &&& p.strategy == strategy_of(intents, mc)
    &&& p.generated_at == now
    &&& p.dry_run == false
    &&& p.explain is None
    &&& p.signature == Option::Some(crate::signature::signature_hex(dedup_of(intents)))
    &&& p.cache_hit == Option::Some(
        cache_before.contains(crate::signature::signature_hex(dedup_of(intents))),
    )
    &&& p.plan_id.len() == 36
}

/// Build a plan, compute the signature of its deduplicated intents, and
/// mark whether the signature set had seen it before; the signature is
/// left in the set either way.
pub fn build_plan_with_cache(
    intents: &Vec<ParsedIntent>,
    max_concurrency: usize,
    original_input: &str,
    cache: &mut SignatureSet,
    now: u64,
) -> (r: ExecutionPlan)
    ensures
        plan_built_cached(
            r.deep_view(),
            intents.deep_view(),
            max_concurrency as nat,
            original_input@,
            now as int,
            old(cache)@,
        ),
        final(cache)@ == old(cache)@.insert(
            crate::signature::signature_hex(dedup_of(intents.deep_view())),
        ),
{
    let mut plan = build_plan(intents, max_concurrency, original_input, now);
    let sig = crate::signature::normalize_signature(&plan.deduplicated);
    let hit = cache.contains(&sig);
    if !hit {
        cache.insert(&sig);
    } else {
        proof {
            assert(cache@ =~= old(cache)@.insert(sig@));
        }
    }
    plan.signature = Option::Some(sig);
    plan.cache_hit = Option::Some(hit);
    plan
}

/// The batches of a plan dispatch exactly the plan's intents: flattened,
/// they are the conflict part followed by the conflict-free part, which
/// together hold every intent exactly as often as the plan does.
pub proof fn lemma_batches_cover(intents: Seq<IntentModel>, mc: nat)
    ensures
        batch_intents_of(intents, mc).flatten() == conflict_part(intents) + normal_part(intents),
        (conflict_part(intents) + normal_part(intents)).to_multiset() == intents.to_multiset(),
        batch_intents_of(intents, mc).flatten().len() == intents.len(),
{
    lemma_flatten_concat(singletons(conflict_part(intents)), windows(normal_part(intents), mc));
    lemma_flatten_singletons(conflict_part(intents));
    lemma_flatten_windows(normal_part(intents), mc);
    assert(batch_intents_of(intents, mc).flatten() =~= conflict_part(intents) + normal_part(
        intents,
    ));
    lemma_partition_multiset(intents, intents.len() as int);
    assert(intents.take(intents.len() as int) =~= intents);
    broadcast use vstd::seq_lib::group_to_multiset_ensures;

    assert(batch_intents_of(intents, mc).flatten().to_multiset().len() == batch_intents_of(
        intents,
        mc,
    ).flatten().len());
    assert(intents.to_multiset().len() == intents.len());
}

pub proof fn lemma_flatten_concat(a: Seq<Seq<IntentModel>>, b: Seq<Seq<IntentModel>>)
    ensures
        (a + b).flatten() == a.flatten() + b.flatten(),
    decreases a.len(),
{
    if a.len() == 0 {
        assert(a + b =~= b);
        assert(a.flatten() =~= Seq::<IntentModel>::empty());
        assert(a.flatten() + b.flatten() =~= b.flatten());
    } else {
        assert((a + b).drop_first() =~= a.drop_first() + b);
        lemma_flatten_concat(a.drop_first(), b);
        assert((a + b).flatten() =~= a.flatten() + b.flatten());
    }
}

proof fn lemma_flatten_singletons(s: Seq<IntentModel>)
    ensures
        singletons(s).flatten() == s,
    decreases s.len(),
{
    if s.len() == 0 {
        assert(singletons(s) =~= Seq::<Seq<IntentModel>>::empty());
        assert(singletons(s).flatten() =~= s);
    } else {
        assert(singletons(s).drop_first() =~= singletons(s.drop_first()));
        lemma_flatten_singletons(s.drop_first());
        assert(singletons(s)[0] == seq![s[0]]);
        assert(singletons(s).flatten() =~= s);
    }
}

proof fn lemma_flatten_windows(s: Seq<IntentModel>, mc: nat)
    ensures
        windows(s, mc).flatten() == s,
    decreases s.len(),
{
    if s.len() == 0 {
        assert(windows(s, mc) =~= Seq::<Seq<IntentModel>>::empty());
        assert(windows(s, mc).flatten() =~= s);
    } else {
        let w = if mc == 0 {
            1nat
        } else if mc < s.len() {
            mc
        } else {
            s.len()
        };
        assert(windows(s, mc).drop_first() =~= windows(s.skip(w as int), mc));
        lemma_flatten_windows(s.skip(w as int), mc);
        assert(windows(s, mc)[0] == s.take(w as int));
        assert(s.take(w as int) + s.skip(w as int) =~= s);
        assert(windows(s, mc).flatten() =~= s);
    }
}

proof fn lemma_partition_multiset(intents: Seq<IntentModel>, n: int)
    requires
        0 <= n <= intents.len(),
    ensures
        (part_upto(intents, n, true) + part_upto(intents, n, false)).to_multiset()
            == intents.take(n).to_multiset(),
    decreases n,
{
    broadcast use vstd::seq_lib::group_to_multiset_ensures;
    broadcast use vstd::multiset::group_multiset_axioms;

    if n <= 0 {
        assert(part_upto(intents, n, true) + part_upto(intents, n, false) =~= Seq::<
            IntentModel,
        >::empty());
        assert(intents.take(n) =~= Seq::<IntentModel>::empty());
    } else {
        lemma_partition_multiset(intents, n - 1);
        let x = intents[n - 1];
        let ct = part_upto(intents, n - 1, true);
        let nt = part_upto(intents, n - 1, false);
        assert(intents.take(n) =~= intents.take(n - 1).push(x));
        if is_conflicted(intents, x) {
            assert(part_upto(intents, n, true) =~= ct.push(x));
            assert(part_upto(intents, n, false) =~= nt);
            assert(ct.push(x) + nt =~= (ct + nt).insert(ct.len() as int, x));
            crate::params::lemma_insert_to_multiset(ct + nt, ct.len() as int, x);
        } else {
            assert(part_upto(intents, n, true) =~= ct);
            assert(part_upto(intents, n, false) =~= nt.push(x));
            assert(ct + nt.push(x) =~= (ct + nt).push(x));
        }
    }
}

/// Under distinct intent ids — the parser's guarantee — every intent is
/// dispatched exactly once: it occurs exactly once among the flattened
/// batches, in whichever batch the partition put it.
pub proof fn lemma_each_intent_once(intents: Seq<IntentModel>, mc: nat)
    requires
        forall|i: int, j: int|
            0 <= i < j < intents.len() ==> (#[trigger] intents[i]).id != (
            #[trigger] intents[j]).id,
    ensures
        forall|x: IntentModel|
            #[trigger] batch_intents_of(intents, mc).flatten().to_multiset().count(x)
                == intents.to_multiset().count(x),
        forall|x: IntentModel|
            intents.contains(x) ==> #[trigger] batch_intents_of(
                intents,
                mc,
            ).flatten().to_multiset().count(x) == 1,
{
    broadcast use vstd::seq_lib::group_to_multiset_ensures;

    lemma_batches_cover(intents, mc);
    assert(intents.no_duplicates()) by {
        assert forall|i: int, j: int|
            0 <= i < intents.len() && 0 <= j < intents.len() && i != j implies intents[i]
            != intents[j] by {
            if i < j {
                assert(intents[i].id != intents[j].id);
            } else {
                assert(intents[j].id != intents[i].id);
            }
        }
    }
    intents.lemma_multiset_has_no_duplicates();
}

/// Every batch holds at least one intent and at most `max(1, mc)`.
pub proof fn lemma_batch_sizes(intents: Seq<IntentModel>, mc: nat)
    ensures
        forall|k: int|
            0 <= k < batch_intents_of(intents, mc).len() ==> 1 <= (#[trigger] batch_intents_of(
                intents,
                mc,
            )[k]).len() <= (if mc == 0 {
                1nat
            } else {
                mc
            }),
{
    let bs = batch_intents_of(intents, mc);
    let sing = singletons(conflict_part(intents));
    let wins = windows(normal_part(intents), mc);
    lemma_windows_sizes(normal_part(intents), mc);
    assert forall|k: int| 0 <= k < bs.len() implies 1 <= (#[trigger] bs[k]).len() <= (if mc == 0 {
        1nat
    } else {
        mc
    }) by {
        if k < sing.len() {
            assert(bs[k] == sing[k]);
            assert(sing[k] == seq![conflict_part(intents)[k]]);
        } else {
            assert(bs[k] == wins[k - sing.len()]);
        }
    }
}

proof fn lemma_windows_sizes(s: Seq<IntentModel>, mc: nat)
    ensures
        forall|k: int|
            0 <= k < windows(s, mc).len() ==> 1 <= (#[trigger] windows(s, mc)[k]).len() <= (
            if mc == 0 {
                1nat
            } else {
                mc
            }),
    decreases s.len(),
{
    if s.len() > 0 {
        let w = if mc == 0 {
            1nat
        } else if mc < s.len() {
            mc
        } else {
            s.len()
        };
        lemma_windows_sizes(s.skip(w as int), mc);
        assert forall|k: int| 0 <= k < windows(s, mc).len() implies 1 <= (#[trigger] windows(
            s,
            mc,
        )[k]).len() <= (if mc == 0 {
            1nat
        } else {
            mc
        }) by {
            if k == 0 {
                assert(windows(s, mc)[0] == s.take(w as int));
            } else {
                assert(windows(s, mc)[k] == windows(s.skip(w as int), mc)[k - 1]);
            }
        }
    }
}

/// Conflict batches come strictly first: the first `|conflict_part|`
/// batches are exactly the single-intent batches of the conflict intents,
/// and every later batch holds conflict-free intents only.
pub proof fn lemma_conflict_batches_first(intents: Seq<IntentModel>, mc: nat)
    ensures
        forall|k: int|
            0 <= k < conflict_part(intents).len() ==> #[trigger] batch_intents_of(intents, mc)[k]
                == seq![conflict_part(intents)[k]] && is_conflicted(
                intents,
                conflict_part(intents)[k],
            ),
        forall|k: int, p: int|
            conflict_part(intents).len() <= k < batch_intents_of(intents, mc).len() && 0 <= p
                < batch_intents_of(intents, mc)[k].len() ==> !is_conflicted(
                intents,
                #[trigger] batch_intents_of(intents, mc)[k][p],
            ),
{
    let bs = batch_intents_of(intents, mc);
    let cp = conflict_part(intents);
    let np = normal_part(intents);
    let sing = singletons(cp);
    let wins = windows(np, mc);
    lemma_part_members(intents, intents.len() as int, true);
    lemma_part_members(intents, intents.len() as int, false);
    assert forall|k: int| 0 <= k < cp.len() implies #[trigger] bs[k] == seq![cp[k]]
        && is_conflicted(intents, cp[k]) by {
        assert(bs[k] == sing[k]);
        assert(sing[k] == seq![cp[k]]);
        assert(cp.contains(cp[k]));
    }
    assert forall|k: int, p: int|
        cp.len() <= k < bs.len() && 0 <= p < bs[k].len() implies !is_conflicted(
        intents,
        #[trigger] bs[k][p],
    ) by {
        assert(bs[k] == wins[k - cp.len()]);
        lemma_windows_members(np, mc, k - cp.len(), p);
        assert(np.contains(bs[k][p]));
    }
}

proof fn lemma_part_members(intents: Seq<IntentModel>, n: int, conflicted: bool)
    requires
        0 <= n <= intents.len(),
    ensures
        forall|x: IntentModel|
            part_upto(intents, n, conflicted).contains(x) ==> is_conflicted(intents, x)
                == conflicted,
    decreases n,
{
    if n > 0 {
        lemma_part_members(intents, n - 1, conflicted);
        assert forall|x: IntentModel|
            part_upto(intents, n, conflicted).contains(x) implies is_conflicted(intents, x)
            == conflicted by {
            let s = part_upto(intents, n, conflicted);
            let prev = part_upto(intents, n - 1, conflicted);
            let i = choose|i: int| 0 <= i < s.len() && s[i] == x;
            if i < prev.len() {
                assert(prev[i] == x);
                assert(prev.contains(x));
            } else {
                assert(is_conflicted(intents, intents[n - 1]) == conflicted);
                assert(x == intents[n - 1]);
            }
        }
    }
}

proof fn lemma_windows_members(s: Seq<IntentModel>, mc: nat, k: int, p: int)
    requires
        0 <= k < windows(s, mc).len(),
        0 <= p < windows(s, mc)[k].len(),
    ensures
        s.contains(windows(s, mc)[k][p]),
    decreases s.len(),
{
    let w = if mc == 0 {
        1nat
    } else if mc < s.len() {
        mc
    } else {
        s.len()
    };
    if k == 0 {
        assert(windows(s, mc)[0] == s.take(w as int));
        assert(windows(s, mc)[0][p] == s[p]);
    } else {
        assert(windows(s, mc)[k] == windows(s.skip(w as int), mc)[k - 1]);
        lemma_windows_members(s.skip(w as int), mc, k - 1, p);
        let rest = s.skip(w as int);
        let x = windows(rest, mc)[k - 1][p];
        let i = choose|i: int| 0 <= i < rest.len() && rest[i] == x;
        assert(s[w + i] == x);
    }
}

/// The strategy is `parallel-limited` exactly when the bound allows
/// parallelism and some batch holds more than one intent, and
/// `sequential` otherwise; the two labels differ.
pub proof fn lemma_strategy_iff(intents: Seq<IntentModel>, mc: nat)
    ensures
        strategy_of(intents, mc) == "parallel-limited"@ <==> (mc > 1 && exists|k: int|
            0 <= k < batch_intents_of(intents, mc).len() && (#[trigger] batch_intents_of(
                intents,
                mc,
            )[k]).len() > 1),
        strategy_of(intents, mc) == "sequential"@ <==> !(mc > 1 && exists|k: int|
            0 <= k < batch_intents_of(intents, mc).len() && (#[trigger] batch_intents_of(
                intents,
                mc,
            )[k]).len() > 1),
{
    reveal_strlit("parallel-limited");
    reveal_strlit("sequential");
    assert("parallel-limited"@.len() != "sequential"@.len());
}

/// A second plan built over intents whose deduplicated set has the same
/// signature finds that signature in the set: the first build left it
/// there.
pub proof fn lemma_second_build_hits(
    cache0: Set<Seq<char>>,
    first: Seq<IntentModel>,
    second: Seq<IntentModel>,
)
    requires
        crate::signature::signature_hex(dedup_of(second)) == crate::signature::signature_hex(
            dedup_of(first),
        ),
    ensures
        cache0.insert(crate::signature::signature_hex(dedup_of(first))).contains(
            crate::signature::signature_hex(dedup_of(second)),
        ),
{
}

} // verus!
