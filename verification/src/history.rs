//! The history of executions: a pluggable store of records ordered by
//! creation time, with retention-bounded purging and newest-first
//! pagination. Two stores implement the contract: one keeps every
//! execution, one keeps the last outcome per signature.

use vstd::prelude::*;
use crate::model::{CommandHistoryRecord, HistoryRecordModel};

verus! {

/// Records strictly ascending by creation time: no two records collide on
/// `created_at`.
pub open spec fn sorted_strict(rs: Seq<HistoryRecordModel>) -> bool {
    forall|i: int, j: int|
        0 <= i < j < rs.len() ==> #[trigger] rs[i].created_at < #[trigger] rs[j].created_at
}

/// Whether a record is newer than the bound (no bound admits all).
pub open spec fn newer(r: HistoryRecordModel, after: Option<int>) -> bool {
    match after {
        Option::None => true,
        Option::Some(a) => r.created_at > a,
    }
}

/// Whether a record is older than the bound (no bound admits all).
pub open spec fn older(r: HistoryRecordModel, before: Option<int>) -> bool {
    match before {
        Option::None => true,
        Option::Some(b) => r.created_at < b,
    }
}

/// How many records are newer than the bound.
pub open spec fn count_newer(rs: Seq<HistoryRecordModel>, after: Option<int>) -> nat
    decreases rs,
{
    if rs.len() == 0 {
        0
    } else {
        (if newer(rs[0], after) {
            1nat
        } else {
            0nat
        }) + count_newer(rs.skip(1), after)
    }
}

/// How many records are older than the bound.
pub open spec fn count_older(rs: Seq<HistoryRecordModel>, before: Option<int>) -> nat
    decreases rs,
{
    if rs.len() == 0 {
        0
    } else {
        (if older(rs[0], before) {
            1nat
        } else {
            0nat
        }) + count_older(rs.skip(1), before)
    }
}

/// The value of an optional bound.
pub open spec fn bound_val(b: Option<u64>) -> Option<int> {
    match b {
        Option::None => Option::None,
        Option::Some(v) => Option::Some(v as int),
    }
}

/// What `list` returns: the newest records first, at most `limit` of them
/// and no more than are newer than `after`; position `i` of the page is
/// the store's record `len - 1 - i`.
pub open spec fn list_post(
    rs: Seq<HistoryRecordModel>,
    limit: int,
    after: Option<int>,
    out: Seq<HistoryRecordModel>,
) -> bool {
    &&& out.len() == if limit <= count_newer(rs, after) {
        limit
    } else {
        count_newer(rs, after) as int
    }
    &&& forall|i: int| 0 <= i < out.len() ==> #[trigger] out[i] == rs[rs.len() - 1 - i]
    &&& forall|i: int| 0 <= i < out.len() ==> newer(#[trigger] out[i], after)
    &&& forall|i: int, j: int|
        0 <= i < j < out.len() ==> #[trigger] out[i].created_at > #[trigger] out[j].created_at
}

/// What `list_before` returns: the newest records strictly older than
/// `before`, at most `limit` of them; position `i` of the page is the
/// store's record `count_older - 1 - i`.
pub open spec fn list_before_post(
    rs: Seq<HistoryRecordModel>,
    limit: int,
    before: Option<int>,
    out: Seq<HistoryRecordModel>,
) -> bool {
    let cnt = count_older(rs, before) as int;
    &&& out.len() == if limit <= cnt {
        limit
    } else {
        cnt
    }
    &&& forall|i: int| 0 <= i < out.len() ==> #[trigger] out[i] == rs[cnt - 1 - i]
    &&& forall|i: int| 0 <= i < out.len() ==> older(#[trigger] out[i], before)
    &&& forall|i: int, j: int|
        0 <= i < j < out.len() ==> #[trigger] out[i].created_at > #[trigger] out[j].created_at
}

/// The records kept by a purge: those not older than the cutoff.
pub open spec fn keep_from(rs: Seq<HistoryRecordModel>, cutoff: int) -> Seq<HistoryRecordModel>
    decreases rs,
{
    if rs.len() == 0 {
        Seq::empty()
    } else {
        (if rs[0].created_at >= cutoff {
            seq![rs[0]]
        } else {
            Seq::empty()
        }) + keep_from(rs.skip(1), cutoff)
    }
}

/// A store of history records: saving assigns a fresh unique creation
/// time when asked and purges expired records; listing pages newest
/// first.
pub trait HistoryStore: Sized {
    /// The stored records, oldest first.
    spec fn records(&self) -> Seq<HistoryRecordModel>;

    /// The store's invariant: creation times strictly ascending.
    spec fn store_wf(&self) -> bool;

    /// What the records become when this record is saved at `now`; each
    /// store defines its own retention and replacement discipline.
    spec fn saved_model(&self, record: HistoryRecordModel, now: int) -> Seq<HistoryRecordModel>;

    /// Save a record, assigning `now` as its creation time when it has
    /// none, adjusted so that no two records collide.
    fn save(&mut self, record: CommandHistoryRecord, now: u64)
        requires
            old(self).store_wf(),
        ensures
            final(self).store_wf(),
            final(self).records() == old(self).saved_model(record.deep_view(), now as int),
    ;

    /// At most `limit` records newer than `after`, newest first.
    fn list(&self, limit: usize, after: Option<u64>) -> (r: Vec<CommandHistoryRecord>)
        requires
            self.store_wf(),
        ensures
            list_post(self.records(), limit as int, bound_val(after), r.deep_view()),
    ;

    /// At most `limit` records strictly older than `before`, newest
    /// first.
    fn list_before(&self, limit: usize, before: Option<u64>) -> (r: Vec<CommandHistoryRecord>)
        requires
            self.store_wf(),
        ensures
            list_before_post(self.records(), limit as int, bound_val(before), r.deep_view()),
    ;

    /// Remove every record older than the cutoff; the count removed comes
    /// back.
    fn purge_older_than(&mut self, cutoff_ts: u64) -> (n: usize)
        requires
            old(self).store_wf(),
        ensures
            final(self).store_wf(),
            final(self).records() == keep_from(old(self).records(), cutoff_ts as int),
            n == old(self).records().len() - final(self).records().len(),
    ;
}

/// Two successive pages never share a record: every record of the page
/// fetched under the first page's cursor is strictly older than every
/// record of the first page.
pub proof fn lemma_pages_disjoint(
    rs: Seq<HistoryRecordModel>,
    limit: int,
    first_bound: Option<int>,
    page1: Seq<HistoryRecordModel>,
    page2: Seq<HistoryRecordModel>,
)
    requires
        list_before_post(rs, limit, first_bound, page1),
        page1.len() > 0,
        list_before_post(rs, limit, Option::Some(page1.last().created_at), page2),
    ensures
        forall|i: int, j: int|
            0 <= i < page1.len() && 0 <= j < page2.len() ==> (#[trigger] page1[i]).created_at > (
            #[trigger] page2[j]).created_at,
{
    assert forall|i: int, j: int|
        0 <= i < page1.len() && 0 <= j < page2.len() implies (#[trigger] page1[i]).created_at > (
    #[trigger] page2[j]).created_at by {
        if i < page1.len() - 1 {
            assert(page1[i].created_at > page1[page1.len() - 1].created_at);
        }
        assert(older(page2[j], Option::Some(page1.last().created_at)));
    }
}

/// How many records are older than the cutoff.
pub open spec fn count_below(rs: Seq<HistoryRecordModel>, cutoff: int) -> nat
    decreases rs,
{
    if rs.len() == 0 {
        0
    } else {
        (if rs[0].created_at < cutoff {
            1nat
        } else {
            0nat
        }) + count_below(rs.skip(1), cutoff)
    }
}

proof fn lemma_count_below_zero(rs: Seq<HistoryRecordModel>, cutoff: int)
    requires
        forall|i: int| 0 <= i < rs.len() ==> #[trigger] rs[i].created_at >= cutoff,
    ensures
        count_below(rs, cutoff) == 0,
    decreases rs,
{
    if rs.len() > 0 {
        assert(forall|i: int| 0 <= i < rs.skip(1).len() ==> rs.skip(1)[i] == rs[i + 1]);
        lemma_count_below_zero(rs.skip(1), cutoff);
    }
}

proof fn lemma_keep_all(rs: Seq<HistoryRecordModel>, cutoff: int)
    requires
        forall|i: int| 0 <= i < rs.len() ==> #[trigger] rs[i].created_at >= cutoff,
    ensures
        keep_from(rs, cutoff) == rs,
    decreases rs,
{
    if rs.len() == 0 {
        assert(keep_from(rs, cutoff) =~= rs);
    } else {
        assert(forall|i: int| 0 <= i < rs.skip(1).len() ==> rs.skip(1)[i] == rs[i + 1]);
        lemma_keep_all(rs.skip(1), cutoff);
        assert(keep_from(rs, cutoff) =~= rs);
    }
}

/// In a sorted store the expired records form a prefix: purging keeps
/// exactly the suffix from `count_below` on.
pub proof fn lemma_keep_from_suffix(rs: Seq<HistoryRecordModel>, cutoff: int)
    requires
        sorted_strict(rs),
    ensures
        count_below(rs, cutoff) <= rs.len(),
        keep_from(rs, cutoff) == rs.skip(count_below(rs, cutoff) as int),
    decreases rs,
{
    if rs.len() == 0 {
        assert(keep_from(rs, cutoff) =~= rs.skip(0));
    } else if rs[0].created_at < cutoff {
        assert(forall|i: int| 0 <= i < rs.skip(1).len() ==> rs.skip(1)[i] == rs[i + 1]);
        lemma_keep_from_suffix(rs.skip(1), cutoff);
        let c1 = count_below(rs.skip(1), cutoff) as int;
        assert(rs.skip(1).skip(c1) =~= rs.skip(1 + c1));
        assert(keep_from(rs, cutoff) =~= rs.skip(count_below(rs, cutoff) as int));
    } else {
        assert forall|i: int| 0 <= i < rs.len() implies #[trigger] rs[i].created_at >= cutoff by {
            if i > 0 {
                assert(rs[0].created_at < rs[i].created_at);
            }
        }
        lemma_count_below_zero(rs, cutoff);
        lemma_keep_all(rs, cutoff);
        assert(rs.skip(0) =~= rs);
    }
}

proof fn lemma_count_newer_split(rs: Seq<HistoryRecordModel>, after: Option<int>, idx: int)
    requires
        0 <= idx <= rs.len(),
        forall|i: int| 0 <= i < idx ==> !newer(#[trigger] rs[i], after),
        forall|i: int| idx <= i < rs.len() ==> newer(#[trigger] rs[i], after),
    ensures
        count_newer(rs, after) == rs.len() - idx,
    decreases rs,
{
    if rs.len() > 0 {
        assert(forall|i: int| 0 <= i < rs.skip(1).len() ==> rs.skip(1)[i] == rs[i + 1]);
        if idx == 0 {
            lemma_count_newer_split(rs.skip(1), after, 0);
        } else {
            lemma_count_newer_split(rs.skip(1), after, idx - 1);
        }
    }
}

proof fn lemma_count_newer_lower(rs: Seq<HistoryRecordModel>, after: Option<int>, idx: int)
    requires
        0 <= idx <= rs.len(),
        forall|i: int| idx <= i < rs.len() ==> newer(#[trigger] rs[i], after),
    ensures
        count_newer(rs, after) >= rs.len() - idx,
    decreases rs,
{
    if rs.len() > 0 {
        assert(forall|i: int| 0 <= i < rs.skip(1).len() ==> rs.skip(1)[i] == rs[i + 1]);
        if idx == 0 {
            lemma_count_newer_lower(rs.skip(1), after, 0);
        } else {
            lemma_count_newer_lower(rs.skip(1), after, idx - 1);
        }
    }
}

proof fn lemma_count_older_split(rs: Seq<HistoryRecordModel>, before: Option<int>, idx: int)
    requires
        0 <= idx <= rs.len(),
        forall|i: int| 0 <= i < idx ==> older(#[trigger] rs[i], before),
        forall|i: int| idx <= i < rs.len() ==> !older(#[trigger] rs[i], before),
    ensures
        count_older(rs, before) == idx,
    decreases rs,
{
    if rs.len() > 0 {
        assert(forall|i: int| 0 <= i < rs.skip(1).len() ==> rs.skip(1)[i] == rs[i + 1]);
        if idx == 0 {
            lemma_count_older_split(rs.skip(1), before, 0);
        } else {
            lemma_count_older_split(rs.skip(1), before, idx - 1);
        }
    }
}

/// At most `limit` of the records newer than `after`, newest first.
fn page_list(records: &Vec<CommandHistoryRecord>, limit: usize, after: Option<u64>) -> (r: Vec<
    CommandHistoryRecord,
>)
    requires
        sorted_strict(records.deep_view()),
    ensures
        list_post(records.deep_view(), limit as int, bound_val(after), r.deep_view()),
{
    let ghost dv = records.deep_view();
    let ghost av = bound_val(after);
    let mut out: Vec<CommandHistoryRecord> = Vec::new();
    let mut idx: usize = records.len();
    loop
        invariant
            0 <= idx <= records@.len(),
            dv == records.deep_view(),
            av == bound_val(after),
            sorted_strict(dv),
            out.deep_view().len() == records@.len() - idx,
            out.deep_view().len() <= limit,
            forall|i: int|
                0 <= i < out.deep_view().len() ==> #[trigger] out.deep_view()[i] == dv[dv.len() - 1
                    - i],
            forall|i: int| idx <= i < dv.len() ==> newer(#[trigger] dv[i], av),
        ensures
            0 <= idx <= records@.len(),
            dv == records.deep_view(),
            out.deep_view().len() == records@.len() - idx,
            out.deep_view().len() <= limit,
            forall|i: int|
                0 <= i < out.deep_view().len() ==> #[trigger] out.deep_view()[i] == dv[dv.len() - 1
                    - i],
            forall|i: int| idx <= i < dv.len() ==> newer(#[trigger] dv[i], av),
            idx == 0 || out.deep_view().len() == limit || !newer(dv[idx - 1], av),
        decreases idx,
    {
        if idx == 0 {
            break;
        }
        if out.len() == limit {
            break;
        }
        let take = match after {
            Option::Some(a) => records[idx - 1].created_at > a,
            Option::None => true,
        };
        proof {
            assert(dv[idx - 1] == records@[idx - 1].deep_view());
            assert(take == newer(dv[idx - 1], av));
        }
        if !take {
            break;
        }
        let c = records[idx - 1].clone();
        proof {
            assert(c.deep_view() == records@[idx - 1].deep_view());
        }
        let ghost pre = out.deep_view();
        out.push(c);
        proof {
            assert(out.deep_view().len() == pre.len() + 1);
            assert(out.deep_view()[pre.len() as int] == dv[idx - 1]);
            assert(forall|q: int| 0 <= q < pre.len() ==> out.deep_view()[q] == pre[q]);
            assert(pre.len() == dv.len() - idx);
            assert forall|i: int|
                0 <= i < out.deep_view().len() implies #[trigger] out.deep_view()[i] == dv[dv.len()
                - 1 - i] by {
                if i < pre.len() {
                    assert(out.deep_view()[i] == pre[i]);
                }
            }
        }
        idx = idx - 1;
    }
    proof {
        assert forall|i: int, j: int|
            0 <= i < j < out.deep_view().len() implies #[trigger] out.deep_view()[i].created_at
            > #[trigger] out.deep_view()[j].created_at by {
            assert(out.deep_view()[i] == dv[dv.len() - 1 - i]);
            assert(out.deep_view()[j] == dv[dv.len() - 1 - j]);
        }
        if idx == 0 {
            lemma_count_newer_split(dv, av, 0);
        } else if out.deep_view().len() == limit {
            lemma_count_newer_lower(dv, av, idx as int);
        } else {
            assert(!newer(dv[idx - 1], av));
            assert forall|i: int| 0 <= i < idx implies !newer(#[trigger] dv[i], av) by {
                if i < idx - 1 {
                    assert(dv[i].created_at < dv[idx - 1].created_at);
                }
            }
            lemma_count_newer_split(dv, av, idx as int);
        }
    }
    out
}

/// At most `limit` of the records strictly older than `before`, newest
/// first.
fn page_before(records: &Vec<CommandHistoryRecord>, limit: usize, before: Option<u64>) -> (r: Vec<
    CommandHistoryRecord,
>)
    requires
        sorted_strict(records.deep_view()),
    ensures
        list_before_post(records.deep_view(), limit as int, bound_val(before), r.deep_view()),
{
    let ghost dv = records.deep_view();
    let ghost bv = bound_val(before);
    let mut idx: usize = records.len();
    loop
        invariant
            0 <= idx <= records@.len(),
            dv == records.deep_view(),
            bv == bound_val(before),
            sorted_strict(dv),
            forall|i: int| idx <= i < dv.len() ==> !older(#[trigger] dv[i], bv),
        ensures
            0 <= idx <= records@.len(),
            dv == records.deep_view(),
            forall|i: int| idx <= i < dv.len() ==> !older(#[trigger] dv[i], bv),
            idx == 0 || older(dv[idx - 1], bv),
        decreases idx,
    {
        if idx == 0 {
            break;
        }
        let is_older = match before {
            Option::Some(b) => records[idx - 1].created_at < b,
            Option::None => true,
        };
        proof {
            assert(dv[idx - 1] == records@[idx - 1].deep_view());
            assert(is_older == older(dv[idx - 1], bv));
        }
        if is_older {
            break;
        }
        idx = idx - 1;
    }
    proof {
        assert forall|i: int| 0 <= i < idx implies older(#[trigger] dv[i], bv) by {
            if idx > 0 && i < idx - 1 {
                assert(dv[i].created_at < dv[idx - 1].created_at);
            }
        }
        lemma_count_older_split(dv, bv, idx as int);
    }
    let ghost cnt = idx as int;
    let mut out: Vec<CommandHistoryRecord> = Vec::new();
    while idx > 0 && out.len() < limit
        invariant
            0 <= idx <= cnt,
            dv == records.deep_view(),
            bv == bound_val(before),
            cnt == count_older(dv, bv),
            cnt <= dv.len(),
            sorted_strict(dv),
            forall|i: int| 0 <= i < cnt ==> older(#[trigger] dv[i], bv),
            out.deep_view().len() == cnt - idx,
            out.deep_view().len() <= limit,
            forall|i: int|
                0 <= i < out.deep_view().len() ==> #[trigger] out.deep_view()[i] == dv[cnt - 1
                    - i],
        decreases idx,
    {
        let c = records[idx - 1].clone();
        proof {
            assert(c.deep_view() == records@[idx - 1].deep_view());
        }
        let ghost pre = out.deep_view();
        out.push(c);
        proof {
            assert(dv[idx - 1] == records@[idx - 1].deep_view());
            assert(out.deep_view().len() == pre.len() + 1);
            assert(out.deep_view()[pre.len() as int] == dv[idx - 1]);
            assert(forall|q: int| 0 <= q < pre.len() ==> out.deep_view()[q] == pre[q]);
            assert(pre.len() == cnt - idx);
            assert forall|i: int|
                0 <= i < out.deep_view().len() implies #[trigger] out.deep_view()[i] == dv[cnt - 1
                - i] by {
                if i < pre.len() {
                    assert(out.deep_view()[i] == pre[i]);
                }
            }
        }
        idx = idx - 1;
    }
    proof {
        assert forall|i: int, j: int|
            0 <= i < j < out.deep_view().len() implies #[trigger] out.deep_view()[i].created_at
            > #[trigger] out.deep_view()[j].created_at by {
            assert(out.deep_view()[i] == dv[cnt - 1 - i]);
            assert(out.deep_view()[j] == dv[cnt - 1 - j]);
        }
    }
    out
}

/// The records not expired at the cutoff, in order.
fn purge_records(records: &mut Vec<CommandHistoryRecord>, cutoff: u64) -> (n: usize)
    requires
        sorted_strict(old(records).deep_view()),
    ensures
        sorted_strict(final(records).deep_view()),
        final(records).deep_view() == keep_from(old(records).deep_view(), cutoff as int),
        n == old(records).deep_view().len() - final(records).deep_view().len(),
{
    let ghost dv = records.deep_view();
    proof {
        lemma_keep_from_suffix(dv, cutoff as int);
    }
    let mut cut: usize = 0;
    while cut < records.len() && records[cut].created_at < cutoff
        invariant
            0 <= cut <= records@.len(),
            dv == records.deep_view(),
            sorted_strict(dv),
            forall|i: int| 0 <= i < cut ==> #[trigger] dv[i].created_at < cutoff,
        decreases records@.len() - cut,
    {
        proof {
            assert(dv[cut as int] == records@[cut as int].deep_view());
        }
        cut = cut + 1;
    }
    proof {
        if (cut as int) < dv.len() {
            assert(dv[cut as int] == records@[cut as int].deep_view());
            assert(dv[cut as int].created_at >= cutoff);
            assert forall|i: int| cut <= i < dv.len() implies #[trigger] dv[i].created_at
                >= cutoff by {
                if i > cut {
                    assert(dv[cut as int].created_at < dv[i].created_at);
                }
            }
        }
        assert(count_below(dv, cutoff as int) == cut) by {
            lemma_count_below_split(dv, cutoff as int, cut as int);
        }
    }
    let mut kept: Vec<CommandHistoryRecord> = Vec::new();
    let mut i: usize = cut;
    while i < records.len()
        invariant
            cut <= i <= records@.len(),
            dv == records.deep_view(),
            kept.deep_view() == dv.subrange(cut as int, i as int),
        decreases records@.len() - i,
    {
        let c = records[i].clone();
        let ghost pre = kept.deep_view();
        kept.push(c);
        proof {
            assert(dv[i as int] == records@[i as int].deep_view());
            assert(kept.deep_view().len() == pre.len() + 1);
            assert(kept.deep_view()[pre.len() as int] == dv[i as int]);
            assert(forall|q: int| 0 <= q < pre.len() ==> kept.deep_view()[q] == pre[q]);
            assert(kept.deep_view() =~= dv.subrange(cut as int, i + 1));
        }
        i = i + 1;
    }
    let n = records.len() - kept.len();
    proof {
        assert(dv.subrange(cut as int, dv.len() as int) =~= dv.skip(cut as int));
        assert(kept.deep_view() =~= keep_from(dv, cutoff as int));
    }
    *records = kept;
    n
}

proof fn lemma_count_below_split(rs: Seq<HistoryRecordModel>, cutoff: int, idx: int)
    requires
        0 <= idx <= rs.len(),
        forall|i: int| 0 <= i < idx ==> #[trigger] rs[i].created_at < cutoff,
        forall|i: int| idx <= i < rs.len() ==> #[trigger] rs[i].created_at >= cutoff,
    ensures
        count_below(rs, cutoff) == idx,
    decreases rs,
{
    if rs.len() > 0 {
        assert(forall|i: int| 0 <= i < rs.skip(1).len() ==> rs.skip(1)[i] == rs[i + 1]);
        if idx == 0 {
            lemma_count_below_split(rs.skip(1), cutoff, 0);
        } else {
            lemma_count_below_split(rs.skip(1), cutoff, idx - 1);
        }
    }
}

/// The retention cutoff for a clock reading.
pub open spec fn cutoff_of(now: int, retention: int) -> int {
    if now >= retention {
        now - retention
    } else {
        0
    }
}

/// The unique creation key a save assigns: the wished time itself when it
/// comes after everything stored, the next free time otherwise.
pub open spec fn assign_key(purged: Seq<HistoryRecordModel>, created: int) -> int {
    if purged.len() == 0 || created > purged.last().created_at {
        created
    } else {
        purged.last().created_at + 1
    }
}

/// The records after an in-memory save: expired records purged, then the
/// record appended under its assigned key. A key past the clock's range
/// cannot be stored, and the save then only purges.
pub open spec fn saved_records(
    rs: Seq<HistoryRecordModel>,
    rec: HistoryRecordModel,
    now: int,
    retention: int,
) -> Seq<HistoryRecordModel> {
    let purged = keep_from(rs, cutoff_of(now, retention));
    let created = if rec.created_at == 0 {
        now
    } else {
        rec.created_at
    };
    let key = assign_key(purged, created);
    if key <= u64::MAX {
        purged.push(HistoryRecordModel { created_at: key, ..rec })
    } else {
        purged
    }
}

/// In-memory history store: keeps one record per execution, creation
/// times strictly ascending, with a retention bound in days.
pub struct InMemoryHistoryStore {
    records: Vec<CommandHistoryRecord>,
    retention_ms: u64,
}

impl InMemoryHistoryStore {
    /// The retention bound, in milliseconds.
    pub closed spec fn retention(&self) -> int {
        self.retention_ms as int
    }

    /// An empty store keeping records for `retention_days` days.
    pub fn new(retention_days: u64) -> (r: Self)
        requires
            retention_days <= 213503982334,
        ensures
            r.records() == Seq::<HistoryRecordModel>::empty(),
            r.store_wf(),
            r.retention() == retention_days * 86400000,
    {
        proof {
            assert(retention_days * 86400000 <= 18446744073657600000u64) by (nonlinear_arith)
                requires retention_days <= 213503982334u64;
        }
        let r = InMemoryHistoryStore {
            records: Vec::new(),
            retention_ms: retention_days * 86400000,
        };
        proof {
            assert(r.records() =~= Seq::<HistoryRecordModel>::empty());
        }
        r
    }
}

impl HistoryStore for InMemoryHistoryStore {
    closed spec fn records(&self) -> Seq<HistoryRecordModel> {
        self.records.deep_view()
    }

    closed spec fn store_wf(&self) -> bool {
        sorted_strict(self.records.deep_view())
    }

    /// Saving keeps every execution: expired records go, the record is
    /// appended under its assigned key.
    open spec fn saved_model(&self, record: HistoryRecordModel, now: int) -> Seq<
        HistoryRecordModel,
    > {
        saved_records(self.records(), record, now, self.retention())
    }

    /// Purge expired records, then append the record under a fresh
    /// creation key: `now` when the record carries none.
    fn save(&mut self, record: CommandHistoryRecord, now: u64)
        ensures
            final(self).records() == saved_records(
                old(self).records(),
                record.deep_view(),
                now as int,
                old(self).retention(),
            ),
            final(self).retention() == old(self).retention(),
    {
        let cutoff = if now >= self.retention_ms {
            now - self.retention_ms
        } else {
            0
        };
        purge_records(&mut self.records, cutoff);
        let created = if record.created_at == 0 {
            now
        } else {
            record.created_at
        };
        let ghost purged = self.records.deep_view();
        let n = self.records.len();
        let key: u64;
        if n == 0 {
            key = created;
        } else {
            let last = self.records[n - 1].created_at;
            proof {
                assert(purged.last() == self.records@[n - 1].deep_view());
            }
            if created > last {
                key = created;
            } else if last < u64::MAX {
                key = last + 1;
            } else {
                proof {
                    assert(assign_key(purged, created as int) > u64::MAX);
                }
                return;
            }
        }
        let mut rec = record;
        rec.created_at = key;
        let ghost pre = self.records.deep_view();
        self.records.push(rec);
        proof {
            assert(self.records.deep_view().len() == pre.len() + 1);
            assert(self.records.deep_view()[pre.len() as int] == rec.deep_view());
            assert(forall|q: int|
                0 <= q < pre.len() ==> self.records.deep_view()[q] == pre[q]);
            assert(rec.deep_view() == HistoryRecordModel {
                created_at: key as int,
                ..record.deep_view()
            });
            assert(key as int == assign_key(purged, created as int));
            assert(sorted_strict(pre));
            assert(pre.len() > 0 ==> (key as int) > pre.last().created_at);
            assert forall|i: int, j: int|
                0 <= i < j < self.records.deep_view().len() implies #[trigger] self.records.deep_view()[i].created_at
                < #[trigger] self.records.deep_view()[j].created_at by {
                if j < pre.len() {
                    assert(self.records.deep_view()[i] == pre[i]);
                    assert(self.records.deep_view()[j] == pre[j]);
                } else {
                    assert(j == pre.len());
                    assert(self.records.deep_view()[i] == pre[i]);
                    assert(self.records.deep_view()[j] == rec.deep_view());
                    if i < pre.len() - 1 {
                        assert(pre[i].created_at < pre[pre.len() - 1].created_at);
                    }
                    assert(pre[i].created_at <= pre.last().created_at);
                }
            }
            assert(self.records.deep_view() =~= saved_records(
                old(self).records(),
                record.deep_view(),
                now as int,
                old(self).retention(),
            ));
        }
    }

    fn list(&self, limit: usize, after: Option<u64>) -> (r: Vec<CommandHistoryRecord>) {
        page_list(&self.records, limit, after)
    }

    fn list_before(&self, limit: usize, before: Option<u64>) -> (r: Vec<CommandHistoryRecord>) {
        page_before(&self.records, limit, before)
    }

    fn purge_older_than(&mut self, cutoff_ts: u64) -> (n: usize) {
        purge_records(&mut self.records, cutoff_ts)
    }
}

/// The records without any record of the given signature.
pub open spec fn remove_sig(rs: Seq<HistoryRecordModel>, sig: Seq<char>) -> Seq<
    HistoryRecordModel,
>
    decreases rs,
{
    if rs.len() == 0 {
        Seq::empty()
    } else {
        (if rs[0].signature == sig {
            Seq::empty()
        } else {
            seq![rs[0]]
        }) + remove_sig(rs.skip(1), sig)
    }
}

proof fn lemma_remove_sig_none(rs: Seq<HistoryRecordModel>, sig: Seq<char>)
    requires
        forall|i: int| 0 <= i < rs.len() ==> #[trigger] rs[i].signature != sig,
    ensures
        remove_sig(rs, sig) == rs,
    decreases rs,
{
    if rs.len() == 0 {
        assert(remove_sig(rs, sig) =~= rs);
    } else {
        assert(forall|i: int| 0 <= i < rs.skip(1).len() ==> rs.skip(1)[i] == rs[i + 1]);
        lemma_remove_sig_none(rs.skip(1), sig);
        assert(remove_sig(rs, sig) =~= rs);
    }
}

proof fn lemma_remove_sig_at(rs: Seq<HistoryRecordModel>, sig: Seq<char>, at: int)
    requires
        0 <= at < rs.len(),
        rs[at].signature == sig,
        forall|i: int| 0 <= i < rs.len() && i != at ==> #[trigger] rs[i].signature != sig,
    ensures
        remove_sig(rs, sig) == rs.remove(at),
    decreases rs,
{
    assert(forall|i: int| 0 <= i < rs.skip(1).len() ==> rs.skip(1)[i] == rs[i + 1]);
    if at == 0 {
        lemma_remove_sig_none(rs.skip(1), sig);
        assert(rs.remove(0) =~= rs.skip(1));
        assert(remove_sig(rs, sig) =~= rs.remove(0));
    } else {
        lemma_remove_sig_at(rs.skip(1), sig, at - 1);
        assert(rs.remove(at).skip(1) =~= rs.skip(1).remove(at - 1));
        assert(remove_sig(rs, sig) =~= rs.remove(at));
    }
}

/// The records after a save in the last-outcome store: expired records
/// purged, any record of the same signature removed, then the record
/// appended under its assigned key.
pub open spec fn upserted_records(
    rs: Seq<HistoryRecordModel>,
    rec: HistoryRecordModel,
    now: int,
    retention: int,
) -> Seq<HistoryRecordModel> {
    let base = remove_sig(keep_from(rs, cutoff_of(now, retention)), rec.signature);
    let created = if rec.created_at == 0 {
        now
    } else {
        rec.created_at
    };
    let key = assign_key(base, created);
    if key <= u64::MAX {
        base.push(HistoryRecordModel { created_at: key, ..rec })
    } else {
        base
    }
}

/// Signatures pairwise distinct.
pub open spec fn sigs_unique(rs: Seq<HistoryRecordModel>) -> bool {
    forall|i: int, j: int|
        0 <= i < j < rs.len() ==> #[trigger] rs[i].signature != #[trigger] rs[j].signature
}

/// Last-outcome history store: one record per signature; saving a
/// signature again replaces its previous record.
pub struct LastOutcomeHistoryStore {
    records: Vec<CommandHistoryRecord>,
    retention_ms: u64,
}

impl LastOutcomeHistoryStore {
    /// The retention bound, in milliseconds.
    pub closed spec fn retention(&self) -> int {
        self.retention_ms as int
    }

    /// An empty store keeping records for `retention_days` days.
    pub fn new(retention_days: u64) -> (r: Self)
        requires
            retention_days <= 213503982334,
        ensures
            r.records() == Seq::<HistoryRecordModel>::empty(),
            r.store_wf(),
            r.retention() == retention_days * 86400000,
    {
        proof {
            assert(retention_days * 86400000 <= 18446744073657600000u64) by (nonlinear_arith)
                requires
                    retention_days <= 213503982334u64,
            ;
        }
        let r = LastOutcomeHistoryStore {
            records: Vec::new(),
            retention_ms: retention_days * 86400000,
        };
        proof {
            assert(r.records() =~= Seq::<HistoryRecordModel>::empty());
        }
        r
    }
}

impl HistoryStore for LastOutcomeHistoryStore {
    closed spec fn records(&self) -> Seq<HistoryRecordModel> {
        self.records.deep_view()
    }

    closed spec fn store_wf(&self) -> bool {
        sorted_strict(self.records.deep_view()) && sigs_unique(self.records.deep_view())
    }

    /// Saving keeps the last outcome per signature: expired records go,
    /// any record of this signature goes, the record is appended under
    /// its assigned key.
    open spec fn saved_model(&self, record: HistoryRecordModel, now: int) -> Seq<
        HistoryRecordModel,
    > {
        upserted_records(self.records(), record, now, self.retention())
    }

    /// Purge expired records, drop any record with the same signature,
    /// then append the record under a fresh creation key: a re-execution
    /// of a signature replaces its prior record.
    #[verifier::rlimit(60)]
    fn save(&mut self, record: CommandHistoryRecord, now: u64)
        ensures
            final(self).records() == upserted_records(
                old(self).records(),
                record.deep_view(),
                now as int,
                old(self).retention(),
            ),
            final(self).retention() == old(self).retention(),
    {
        let cutoff = if now >= self.retention_ms {
            now - self.retention_ms
        } else {
            0
        };
        let ghost pre_purge = self.records.deep_view();
        purge_records(&mut self.records, cutoff);
        let ghost purged = self.records.deep_view();
        proof {
            lemma_keep_from_suffix(pre_purge, cutoff as int);
            let c = count_below(pre_purge, cutoff as int) as int;
            assert(purged =~= pre_purge.skip(c));
            assert forall|i: int, j: int|
                0 <= i < j < purged.len() implies #[trigger] purged[i].signature
                != #[trigger] purged[j].signature by {
                assert(purged[i] == pre_purge[c + i]);
                assert(purged[j] == pre_purge[c + j]);
            }
        }
        let mut at: usize = 0;
        let mut found = false;
        while at < self.records.len() && !found
            invariant
                0 <= at <= self.records@.len(),
                purged == self.records.deep_view(),
                sigs_unique(purged),
                found ==> at < self.records@.len() && purged[at as int].signature
                    == record.deep_view().signature,
                !found ==> forall|i: int|
                    0 <= i < at ==> #[trigger] purged[i].signature
                        != record.deep_view().signature,
            decreases self.records@.len() - at, (if found { 0int } else { 1int }),
        {
            if self.records[at].signature.eq(&record.signature) {
                found = true;
            } else {
                proof {
                    assert(purged[at as int] == self.records@[at as int].deep_view());
                }
                at = at + 1;
            }
        }
        proof {
            if found {
                assert(purged[at as int] == self.records@[at as int].deep_view());
            }
        }
        if found {
            proof {
                assert forall|i: int|
                    0 <= i < purged.len() && i != at implies #[trigger] purged[i].signature
                    != record.deep_view().signature by {
                    if i < at {
                        assert(purged[i].signature != purged[at as int].signature);
                    } else {
                        assert(purged[at as int].signature != purged[i].signature);
                    }
                }
                lemma_remove_sig_at(purged, record.deep_view().signature, at as int);
            }
            self.records.remove(at);
        } else {
            proof {
                lemma_remove_sig_none(purged, record.deep_view().signature);
            }
        }
        let ghost base = self.records.deep_view();
        proof {
            assert(base =~= remove_sig(purged, record.deep_view().signature));
            if found {
                assert forall|i: int, j: int|
                    0 <= i < j < base.len() implies #[trigger] base[i].created_at
                    < #[trigger] base[j].created_at && #[trigger] base[i].signature
                    != #[trigger] base[j].signature by {
                    let pi: int = if i < at {
                        i
                    } else {
                        i + 1
                    };
                    let pj: int = if j < at {
                        j
                    } else {
                        j + 1
                    };
                    assert(base[i] == purged[pi]);
                    assert(base[j] == purged[pj]);
                }
            }
        }
        let created = if record.created_at == 0 {
            now
        } else {
            record.created_at
        };
        let n = self.records.len();
        let key: u64;
        if n == 0 {
            key = created;
        } else {
            let last = self.records[n - 1].created_at;
            proof {
                assert(base.last() == self.records@[n - 1].deep_view());
            }
            if created > last {
                key = created;
            } else if last < u64::MAX {
                key = last + 1;
            } else {
                proof {
                    assert(assign_key(base, created as int) > u64::MAX);
                }
                return;
            }
        }
        let mut rec = record;
        rec.created_at = key;
        let ghost pre = self.records.deep_view();
        self.records.push(rec);
        proof {
            assert(self.records.deep_view().len() == pre.len() + 1);
            assert(self.records.deep_view()[pre.len() as int] == rec.deep_view());
            assert(forall|q: int| 0 <= q < pre.len() ==> self.records.deep_view()[q] == pre[q]);
            assert(rec.deep_view() == HistoryRecordModel {
                created_at: key as int,
                ..record.deep_view()
            });
            assert(key as int == assign_key(base, created as int));
            assert(sorted_strict(pre) && sigs_unique(pre));
            assert(pre.len() > 0 ==> (key as int) > pre.last().created_at);
            assert(forall|i: int|
                0 <= i < pre.len() ==> #[trigger] pre[i].signature
                    != record.deep_view().signature) by {
                assert(pre =~= remove_sig(purged, record.deep_view().signature));
                lemma_remove_sig_members(purged, record.deep_view().signature);
            }
            assert forall|i: int, j: int|
                0 <= i < j < self.records.deep_view().len() implies #[trigger] self.records.deep_view()[i].created_at
                < #[trigger] self.records.deep_view()[j].created_at by {
                if j < pre.len() {
                    assert(self.records.deep_view()[i] == pre[i]);
                    assert(self.records.deep_view()[j] == pre[j]);
                } else {
                    assert(j == pre.len());
                    assert(self.records.deep_view()[i] == pre[i]);
                    assert(self.records.deep_view()[j] == rec.deep_view());
                    if i < pre.len() - 1 {
                        assert(pre[i].created_at < pre[pre.len() - 1].created_at);
                    }
                    assert(pre[i].created_at <= pre.last().created_at);
                }
            }
            assert forall|i: int, j: int|
                0 <= i < j < self.records.deep_view().len() implies #[trigger] self.records.deep_view()[i].signature
                != #[trigger] self.records.deep_view()[j].signature by {
                if j < pre.len() {
                    assert(self.records.deep_view()[i] == pre[i]);
                    assert(self.records.deep_view()[j] == pre[j]);
                } else {
                    assert(self.records.deep_view()[i] == pre[i]);
                    assert(self.records.deep_view()[j] == rec.deep_view());
                    assert(pre[i].signature != record.deep_view().signature);
                }
            }
            assert(self.records.deep_view() =~= upserted_records(
                old(self).records(),
                record.deep_view(),
                now as int,
                old(self).retention(),
            ));
        }
    }

    fn list(&self, limit: usize, after: Option<u64>) -> (r: Vec<CommandHistoryRecord>) {
        page_list(&self.records, limit, after)
    }

    fn list_before(&self, limit: usize, before: Option<u64>) -> (r: Vec<CommandHistoryRecord>) {
        page_before(&self.records, limit, before)
    }

    fn purge_older_than(&mut self, cutoff_ts: u64) -> (n: usize) {
        let ghost pre = self.records.deep_view();
        let n = purge_records(&mut self.records, cutoff_ts);
        proof {
            lemma_keep_from_suffix(pre, cutoff_ts as int);
            let c = count_below(pre, cutoff_ts as int) as int;
            assert(self.records.deep_view() =~= pre.skip(c));
            assert forall|i: int, j: int|
                0 <= i < j < self.records.deep_view().len() implies #[trigger] self.records.deep_view()[i].signature
                != #[trigger] self.records.deep_view()[j].signature by {
                assert(self.records.deep_view()[i] == pre[c + i]);
                assert(self.records.deep_view()[j] == pre[c + j]);
            }
        }
        n
    }
}

proof fn lemma_remove_sig_members(rs: Seq<HistoryRecordModel>, sig: Seq<char>)
    ensures
        forall|i: int|
            0 <= i < remove_sig(rs, sig).len() ==> #[trigger] remove_sig(rs, sig)[i].signature
                != sig,
    decreases rs,
{
    if rs.len() > 0 {
        lemma_remove_sig_members(rs.skip(1), sig);
        assert forall|i: int|
            0 <= i < remove_sig(rs, sig).len() implies #[trigger] remove_sig(
            rs,
            sig,
        )[i].signature != sig by {
            let off: int = if rs[0].signature == sig {
                0
            } else {
                1
            };
            if i >= off {
                assert(remove_sig(rs, sig)[i] == remove_sig(rs.skip(1), sig)[i - off]);
            }
        }
    }
}

/// Saving a signature the store already holds replaces the prior record:
/// afterwards exactly the last record carries that signature, and no
/// other does.
pub proof fn lemma_upsert_replaces(
    rs: Seq<HistoryRecordModel>,
    rec: HistoryRecordModel,
    now: int,
    retention: int,
)
    requires
        assign_key(
            remove_sig(keep_from(rs, cutoff_of(now, retention)), rec.signature),
            if rec.created_at == 0 {
                now
            } else {
                rec.created_at
            },
        ) <= u64::MAX,
    ensures
        upserted_records(rs, rec, now, retention).len() > 0,
        upserted_records(rs, rec, now, retention).last().signature == rec.signature,
        forall|i: int|
            0 <= i < upserted_records(rs, rec, now, retention).len() - 1
                ==> #[trigger] upserted_records(rs, rec, now, retention)[i].signature
                != rec.signature,
{
    let base = remove_sig(keep_from(rs, cutoff_of(now, retention)), rec.signature);
    lemma_remove_sig_members(keep_from(rs, cutoff_of(now, retention)), rec.signature);
    let out = upserted_records(rs, rec, now, retention);
    assert(out == base.push(
        HistoryRecordModel {
            created_at: assign_key(
                base,
                if rec.created_at == 0 {
                    now
                } else {
                    rec.created_at
                },
            ),
            ..rec
        },
    ));
    assert forall|i: int| 0 <= i < out.len() - 1 implies #[trigger] out[i].signature
        != rec.signature by {
        assert(out[i] == base[i]);
    }
}

} // verus!
