//! Conflict detection: intents sharing an application and action are
//! mutually exclusive. Each group of two or more becomes one detection,
//! listing the ids of all members in their original order; groups appear in
//! order of their first member.

use vstd::prelude::*;
use crate::model::{ConflictDetection, ConflictModel, IntentModel, ParsedIntent};

verus! {

/// The grouping key of an intent: its target application and action.
pub open spec fn intent_key(i: IntentModel) -> (Option<Seq<char>>, Seq<char>) {
    (i.target_app_id, i.action_name)
}

/// The ids of the intents with the given key, in order.
pub open spec fn ids_with_key(
    intents: Seq<IntentModel>,
    k: (Option<Seq<char>>, Seq<char>),
) -> Seq<Seq<char>>
    decreases intents,
{
    if intents.len() == 0 {
        Seq::empty()
    } else {
        (if intent_key(intents[0]) == k {
            seq![intents[0].id]
        } else {
            Seq::empty()
        }) + ids_with_key(intents.skip(1), k)
    }
}

/// How many intents have the given key.
pub open spec fn key_count(intents: Seq<IntentModel>, k: (Option<Seq<char>>, Seq<char>)) -> nat {
    ids_with_key(intents, k).len()
}

/// Collecting ids distributes over concatenation.
pub proof fn lemma_ids_with_key_concat(
    a: Seq<IntentModel>,
    b: Seq<IntentModel>,
    k: (Option<Seq<char>>, Seq<char>),
)
    ensures
        ids_with_key(a + b, k) == ids_with_key(a, k) + ids_with_key(b, k),
    decreases a.len(),
{
    if a.len() == 0 {
        assert(a + b =~= b);
        assert(ids_with_key(a, k) + ids_with_key(b, k) =~= ids_with_key(b, k));
    } else {
        assert((a + b).skip(1) =~= a.skip(1) + b);
        lemma_ids_with_key_concat(a.skip(1), b, k);
        assert(ids_with_key(a + b, k) =~= ids_with_key(a, k) + ids_with_key(b, k));
    }
}

/// The conflict key string: `<app or _>::<action>`.
pub open spec fn conflict_key_text(k: (Option<Seq<char>>, Seq<char>)) -> Seq<char> {
    (match k.0 {
        Option::Some(a) => a,
        Option::None => seq!['_'],
    }) + seq![':', ':'] + k.1
}

/// The keys of the conflict groups among the first `n` intents' positions:
/// a key is taken at the first position that holds it, and only when the
/// whole sequence holds it at least twice.
pub open spec fn conflict_keys_upto(intents: Seq<IntentModel>, n: int) -> Seq<
    (Option<Seq<char>>, Seq<char>),
>
    decreases n,
{
    if n <= 0 {
        Seq::empty()
    } else {
        let k = intent_key(intents[n - 1]);
        conflict_keys_upto(intents, n - 1) + (if key_count(intents.take(n - 1), k) == 0
            && key_count(intents, k) >= 2 {
            seq![k]
        } else {
            Seq::empty()
        })
    }
}

/// The conflict model for one key.
pub open spec fn conflict_for_key(
    intents: Seq<IntentModel>,
    k: (Option<Seq<char>>, Seq<char>),
) -> ConflictModel {
    ConflictModel {
        conflict_key: conflict_key_text(k),
        intents: ids_with_key(intents, k),
        reason: "same-app-action-mutual-exclusion"@,
        resolution: "force-order"@,
    }
}

/// The conflicts found among the first `n` positions.
pub open spec fn conflicts_upto(intents: Seq<IntentModel>, n: int) -> Seq<ConflictModel> {
    conflict_keys_upto(intents, n).map_values(
        |k: (Option<Seq<char>>, Seq<char>)| conflict_for_key(intents, k),
    )
}

/// All conflicts of a sequence of intents, in order of first occurrence.
pub open spec fn conflicts_of(intents: Seq<IntentModel>) -> Seq<ConflictModel> {
    conflicts_upto(intents, intents.len() as int)
}

/// Whether an intent belongs to some conflict group: its key occurs at
/// least twice.
pub open spec fn is_conflicted(intents: Seq<IntentModel>, i: IntentModel) -> bool {
    key_count(intents, intent_key(i)) >= 2
}

/// Decides whether two intents share their grouping key.
fn key_eq(a: &ParsedIntent, b: &ParsedIntent) -> (r: bool)
    ensures
        r == (intent_key(a.deep_view()) == intent_key(b.deep_view())),
{
    let apps_equal = match (&a.target_app_id, &b.target_app_id) {
        (Option::Some(x), Option::Some(y)) => x.eq(y),
        (Option::None, Option::None) => true,
        _ => false,
    };
    apps_equal && a.action_name.eq(&b.action_name)
}

/// The ids of the intents sharing the key of `intents[at]`, in order.
pub(crate) fn collect_ids(intents: &Vec<ParsedIntent>, at: usize) -> (r: Vec<String>)
    requires
        at < intents@.len(),
    ensures
        r.deep_view() == ids_with_key(intents.deep_view(), intent_key(
            intents.deep_view()[at as int],
        )),
{
    let ghost key = intent_key(intents.deep_view()[at as int]);
    let mut out: Vec<String> = Vec::new();
    let mut j: usize = 0;
    proof {
        assert(out.deep_view() =~= ids_with_key(intents.deep_view().take(0), key));
    }
    while j < intents.len()
        invariant
            0 <= j <= intents@.len(),
            at < intents@.len(),
            key == intent_key(intents.deep_view()[at as int]),
            out.deep_view() == ids_with_key(intents.deep_view().take(j as int), key),
        decreases intents@.len() - j,
    {
        let ghost pre = out.deep_view();
        let same = key_eq(&intents[j], &intents[at]);
        if same {
            out.push(intents[j].id.clone());
        }
        proof {
            let dv = intents.deep_view();
            assert(dv[j as int] == intents@[j as int].deep_view());
            assert(dv[at as int] == intents@[at as int].deep_view());
            let stepped = dv.take(j + 1);
            assert(stepped =~= dv.take(j as int) + seq![dv[j as int]]);
            lemma_ids_with_key_concat(dv.take(j as int), seq![dv[j as int]], key);
            assert(seq![dv[j as int]].skip(1) =~= Seq::<IntentModel>::empty());
            assert(seq![dv[j as int]].len() == 1);
            assert(seq![dv[j as int]][0] == dv[j as int]);
            assert(ids_with_key(Seq::<IntentModel>::empty(), key) =~= Seq::<Seq<char>>::empty());
            assert(ids_with_key(seq![dv[j as int]], key) == (if intent_key(dv[j as int]) == key {
                seq![dv[j as int].id]
            } else {
                Seq::<Seq<char>>::empty()
            }) + ids_with_key(Seq::<IntentModel>::empty(), key));
            if same {
                assert(intent_key(dv[j as int]) == key);
                assert(ids_with_key(seq![dv[j as int]], key) =~= seq![dv[j as int].id]);
                assert(out.deep_view() =~= pre.push(dv[j as int].id));
            } else {
                assert(ids_with_key(seq![dv[j as int]], key) =~= Seq::<Seq<char>>::empty());
                assert(out.deep_view() =~= pre);
            }
            assert(out.deep_view() =~= ids_with_key(dv.take(j + 1), key));
        }
        j = j + 1;
    }
    proof {
        assert(intents.deep_view().take(intents@.len() as int) =~= intents.deep_view());
    }
    out
}

/// Whether some earlier intent shares the key of `intents[at]`.
fn seen_before(intents: &Vec<ParsedIntent>, at: usize) -> (r: bool)
    requires
        at < intents@.len(),
    ensures
        r == (key_count(intents.deep_view().take(at as int), intent_key(
            intents.deep_view()[at as int],
        )) > 0),
{
    let ghost key = intent_key(intents.deep_view()[at as int]);
    let mut j: usize = 0;
    while j < at
        invariant
            0 <= j <= at < intents@.len(),
            key == intent_key(intents.deep_view()[at as int]),
            key_count(intents.deep_view().take(j as int), key) == 0,
        decreases at - j,
    {
        let same = key_eq(&intents[j], &intents[at]);
        proof {
            let dv = intents.deep_view();
            assert(dv[j as int] == intents@[j as int].deep_view());
            assert(dv[at as int] == intents@[at as int].deep_view());
            assert(dv.take(j + 1) =~= dv.take(j as int) + seq![dv[j as int]]);
            lemma_ids_with_key_concat(dv.take(j as int), seq![dv[j as int]], key);
            assert(seq![dv[j as int]].skip(1) =~= Seq::<IntentModel>::empty());
            assert(seq![dv[j as int]].len() == 1);
            assert(seq![dv[j as int]][0] == dv[j as int]);
            assert(ids_with_key(Seq::<IntentModel>::empty(), key) =~= Seq::<Seq<char>>::empty());
            assert(ids_with_key(seq![dv[j as int]], key) == (if intent_key(dv[j as int]) == key {
                seq![dv[j as int].id]
            } else {
                Seq::<Seq<char>>::empty()
            }) + ids_with_key(Seq::<IntentModel>::empty(), key));
        }
        if same {
            proof {
                let dv = intents.deep_view();
                assert(intent_key(dv[j as int]) == key);
                assert(ids_with_key(seq![dv[j as int]], key) =~= seq![dv[j as int].id]);
                assert(dv.take(at as int) =~= dv.take(j + 1) + dv.take(at as int).skip(j + 1));
                lemma_ids_with_key_concat(
                    dv.take(j + 1),
                    dv.take(at as int).skip(j + 1),
                    key,
                );
            }
            return true;
        }
        proof {
            let dv = intents.deep_view();
            assert(intent_key(dv[j as int]) != key);
            assert(ids_with_key(seq![dv[j as int]], key) =~= Seq::<Seq<char>>::empty());
            assert(ids_with_key(dv.take(j + 1), key) =~= ids_with_key(dv.take(j as int), key));
        }
        j = j + 1;
    }
    false
}

/// Renders the conflict key of `intents[at]` as `<app or _>::<action>`.
fn render_conflict_key(intents: &Vec<ParsedIntent>, at: usize) -> (r: String)
    requires
        at < intents@.len(),
    ensures
        r@ == conflict_key_text(intent_key(intents.deep_view()[at as int])),
{
    let mut out: Vec<char> = Vec::new();
    match &intents[at].target_app_id {
        Option::Some(a) => {
            let app = crate::text::str_chars(a.as_str());
            crate::text::push_all(&mut out, &app);
        },
        Option::None => {
            out.push('_');
        },
    }
    out.push(':');
    out.push(':');
    let action = crate::text::str_chars(intents[at].action_name.as_str());
    crate::text::push_all(&mut out, &action);
    proof {
        assert(out@ =~= conflict_key_text(intent_key(intents.deep_view()[at as int])));
    }
    crate::text::chars_string(&out)
}

/// Detect conflicts among intents: one detection per key held by two or
/// more intents, listing all member ids in original order; detections come
/// in order of each group's first member.
pub fn detect_conflicts(intents: &Vec<ParsedIntent>) -> (r: Vec<ConflictDetection>)
    ensures
        r.deep_view() == conflicts_of(intents.deep_view()),
{
    let ghost dv = intents.deep_view();
    let mut out: Vec<ConflictDetection> = Vec::new();
    let mut i: usize = 0;
    proof {
        assert(out.deep_view() =~= conflicts_upto(dv, 0));
    }
    while i < intents.len()
        invariant
            0 <= i <= intents@.len(),
            dv == intents.deep_view(),
            out.deep_view() == conflicts_upto(dv, i as int),
        decreases intents@.len() - i,
    {
        let ghost key = intent_key(dv[i as int]);
        let ghost pre = out.deep_view();
        let fresh = !seen_before(intents, i);
        let mut pushed = false;
        if fresh {
            let members = collect_ids(intents, i);
            if members.len() >= 2 {
                let ck = render_conflict_key(intents, i);
                let mut reason = String::new();
                reason.append("same-app-action-mutual-exclusion");
                let mut resolution = String::new();
                resolution.append("force-order");
                let det = ConflictDetection {
                    conflict_key: ck,
                    intents: members,
                    reason,
                    resolution,
                };
                proof {
                    assert(det.deep_view() == conflict_for_key(dv, key));
                }
                out.push(det);
                pushed = true;
            }
        }
        proof {
            let keys_step = conflict_keys_upto(dv, i + 1);
            assert(dv.take(i as int) == intents.deep_view().take(i as int));
            if fresh && key_count(dv, key) >= 2 {
                assert(keys_step =~= conflict_keys_upto(dv, i as int) + seq![key]);
                assert(pushed);
                assert(out.deep_view() =~= pre.push(conflict_for_key(dv, key)));
                assert(conflicts_upto(dv, i + 1) =~= conflicts_upto(dv, i as int).push(
                    conflict_for_key(dv, key),
                ));
                assert(out.deep_view() =~= conflicts_upto(dv, i + 1));
            } else {
                assert(keys_step =~= conflict_keys_upto(dv, i as int));
                assert(!pushed);
                assert(out.deep_view() =~= conflicts_upto(dv, i + 1));
            }
        }
        i = i + 1;
    }
    out
}

} // verus!
