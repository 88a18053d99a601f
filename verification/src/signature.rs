//! The plan signature: an order-invariant, content-addressed identity for a
//! set of intents. Each intent is rendered to a canonical part, the parts
//! are sorted, joined with a `NUL` separator after each, and hashed.
//!
//! Identifiers, confidence and source offsets are left out of the parts, so
//! the signature identifies the intents by content alone.

use vstd::prelude::*;
use crate::model::{IntentModel, ParsedIntent};
use crate::params::canon_of;
use crate::text::{
    chars_leq, chars_string, lemma_lex_total_ordering, lex_leq, lex_leq_rel, push_all, str_chars,
};

verus! {

/// The canonical part of one intent:
/// `<action>|<app or ->|<canonical params>`, with `|E` appended iff the
/// intent came from the explicit rule.
pub open spec fn canon_part(i: IntentModel) -> Seq<char> {
    let app = match i.target_app_id {
        Option::Some(a) => a,
        Option::None => seq!['-'],
    };
    let base = i.action_name + seq!['|'] + app + seq!['|'] + canon_of(i.params);
    if i.explicit {
        base + seq!['|', 'E']
    } else {
        base
    }
}

/// [`canon_part`] as a function value.
pub open spec fn canon_part_fn() -> spec_fn(IntentModel) -> Seq<char> {
    |i: IntentModel| canon_part(i)
}

/// The canonical parts of the intents, in given order.
pub open spec fn signature_parts(intents: Seq<IntentModel>) -> Seq<Seq<char>> {
    intents.map_values(canon_part_fn())
}

/// The parts joined, each part followed by one `NUL` character.
pub open spec fn join_parts(parts: Seq<Seq<char>>) -> Seq<char>
    decreases parts,
{
    if parts.len() == 0 {
        Seq::empty()
    } else {
        parts[0] + seq!['\u{0}'] + join_parts(parts.skip(1))
    }
}

/// The byte-stream identity of a set of intents: sorted canonical parts,
/// joined with separators.
pub open spec fn signature_input(intents: Seq<IntentModel>) -> Seq<char> {
    join_parts(signature_parts(intents).sort_by(lex_leq_rel()))
}

/// The BLAKE3 digest, in lower-case hex, of the UTF-8 encoding of a
/// character sequence. The digest takes pages to state, so it is only
/// named here; the hashing itself is done by the outside crate.
pub uninterp spec fn blake3_hex_of(s: Seq<char>) -> Seq<char>;

/// The signature of a set of intents.
pub open spec fn signature_hex(intents: Seq<IntentModel>) -> Seq<char> {
    blake3_hex_of(signature_input(intents))
}

/// Relies on `blake3::Hasher` (`update`, `finalize`) and `Hash::to_hex`:
/// the 64-character lower-case hex form of the 32-byte BLAKE3 digest of the
/// string's bytes. The digest depends on the characters alone.
#[verifier::external_body]
fn blake3_hex(s: &str) -> (r: String)
    ensures
        r@ == blake3_hex_of(s@),
        r@.len() == 64,
{
    let mut hasher = blake3::Hasher::new();
    hasher.update(s.as_bytes());
    hasher.finalize().to_hex().as_str().to_string()
}

/// Joining distributes over concatenation of part lists.
proof fn lemma_join_concat(a: Seq<Seq<char>>, b: Seq<Seq<char>>)
    ensures
        join_parts(a + b) == join_parts(a) + join_parts(b),
    decreases a.len(),
{
    if a.len() == 0 {
        assert(a + b =~= b);
        assert(join_parts(a) + join_parts(b) =~= join_parts(b));
    } else {
        assert((a + b).skip(1) =~= a.skip(1) + b);
        lemma_join_concat(a.skip(1), b);
        assert(join_parts(a + b) =~= join_parts(a) + join_parts(b));
    }
}

/// The views of a list of rendered parts.
pub open spec fn parts_model(s: Seq<Vec<char>>) -> Seq<Seq<char>> {
    s.map_values(|p: Vec<char>| p@)
}

/// Position before which every part is at most `x` and whose own part, if
/// any, is not.
fn find_part_pos(out: &Vec<Vec<char>>, x: &Vec<char>) -> (p: usize)
    ensures
        0 <= p <= out@.len(),
        forall|q: int| 0 <= q < p ==> lex_leq(#[trigger] parts_model(out@)[q], x@),
        (p as int) < out@.len() ==> !lex_leq(parts_model(out@)[p as int], x@),
{
    let mut p: usize = 0;
    loop
        invariant
            0 <= p <= out@.len(),
            forall|q: int| 0 <= q < p ==> lex_leq(#[trigger] parts_model(out@)[q], x@),
        decreases out@.len() - p,
    {
        if p == out.len() {
            return p;
        }
        if !chars_leq(&out[p], x) {
            proof {
                assert(parts_model(out@)[p as int] == out@[p as int]@);
            }
            return p;
        }
        proof {
            assert(parts_model(out@)[p as int] == out@[p as int]@);
        }
        p = p + 1;
    }
}

/// Sort rendered parts by [`lex_leq`]; the result is the
/// specification-level sort of the input.
fn sort_parts(input: Vec<Vec<char>>) -> (r: Vec<Vec<char>>)
    ensures
        parts_model(r@) == parts_model(input@).sort_by(lex_leq_rel()),
{
    broadcast use vstd::seq_lib::group_to_multiset_ensures;
    broadcast use vstd::multiset::group_multiset_axioms;

    let mut v = input;
    let ghost input_models = parts_model(v@);
    let mut out: Vec<Vec<char>> = Vec::new();
    proof {
        assert(parts_model(out@) =~= Seq::<Seq<char>>::empty());
        assert(parts_model(out@).to_multiset().add(parts_model(v@).to_multiset())
            =~= input_models.to_multiset());
    }
    while v.len() > 0
        invariant
            vstd::relations::sorted_by(parts_model(out@), lex_leq_rel()),
            parts_model(out@).to_multiset().add(parts_model(v@).to_multiset())
                == input_models.to_multiset(),
        decreases v@.len(),
    {
        let ghost pre_v = v@;
        let x = v.remove(0);
        let ghost xm = x@;
        proof {
            assert(parts_model(pre_v)[0] == xm);
            assert(parts_model(v@) =~= parts_model(pre_v).remove(0));
            parts_model(pre_v).to_multiset_ensures();
            assert(parts_model(pre_v).remove(0).to_multiset() == parts_model(
                pre_v,
            ).to_multiset().remove(xm));
            assert(parts_model(pre_v).to_multiset().contains(xm)) by {
                assert(parts_model(pre_v)[0] == xm);
                assert(parts_model(pre_v).contains(xm));
            }
        }
        let p = find_part_pos(&out, &x);
        let ghost pre_out = parts_model(out@);
        out.insert(p, x);
        proof {
            lemma_lex_total_ordering();
            if (p as int) < pre_out.len() {
                crate::text::lemma_lex_connected(pre_out[p as int], xm);
                assert(lex_leq(xm, pre_out[p as int]));
            }
            assert(parts_model(out@) =~= pre_out.insert(p as int, xm));
            pre_out.insert_ensures(p as int, xm);
            let now = parts_model(out@);
            let rel = lex_leq_rel();
            assert forall|i: int, j: int| 0 <= i < j < now.len() implies rel(
                #[trigger] now[i],
                #[trigger] now[j],
            ) by {
                if j < p {
                    assert(rel(pre_out[i], pre_out[j]));
                } else if i == p && j > p {
                    assert(now[j] == pre_out[j - 1]);
                    assert(lex_leq(xm, pre_out[p as int]));
                    if j - 1 > p {
                        assert(rel(pre_out[p as int], pre_out[j - 1]));
                        assert(vstd::relations::transitive(rel));
                        assert(rel(xm, pre_out[p as int]));
                        assert(rel(xm, pre_out[j - 1]));
                    }
                } else if j == p && i < p {
                    assert(lex_leq(pre_out[i], xm));
                } else if i < p && j > p {
                    assert(now[j] == pre_out[j - 1]);
                    assert(rel(pre_out[i], pre_out[j - 1]));
                } else if i > p {
                    assert(rel(pre_out[i - 1], pre_out[j - 1]));
                }
            }
            crate::params::lemma_insert_to_multiset(pre_out, p as int, xm);
            assert(parts_model(out@).to_multiset().add(parts_model(v@).to_multiset())
                =~= input_models.to_multiset());
        }
    }
    proof {
        assert(parts_model(v@) =~= Seq::<Seq<char>>::empty());
        assert(parts_model(out@).to_multiset() =~= input_models.to_multiset());
        lemma_lex_total_ordering();
        input_models.lemma_sort_by_ensures(lex_leq_rel());
        vstd::seq_lib::lemma_sorted_unique(
            parts_model(out@),
            input_models.sort_by(lex_leq_rel()),
            lex_leq_rel(),
        );
        assert(parts_model(out@) =~= input_models.sort_by(lex_leq_rel()));
    }
    out
}

/// The canonical part of one intent, rendered.
fn render_part(i: &ParsedIntent) -> (r: Vec<char>)
    ensures
        r@ == canon_part(i.deep_view()),
{
    let mut out: Vec<char> = Vec::new();
    let action = str_chars(i.action_name.as_str());
    push_all(&mut out, &action);
    out.push('|');
    match &i.target_app_id {
        Option::Some(a) => {
            let app = str_chars(a.as_str());
            push_all(&mut out, &app);
        },
        Option::None => {
            out.push('-');
        },
    }
    out.push('|');
    let ps = crate::params::canonical(&i.params);
    push_all(&mut out, &ps);
    if i.explicit {
        out.push('|');
        out.push('E');
    }
    proof {
        assert(out@ =~= canon_part(i.deep_view()));
    }
    out
}

/// The signature of a set of intents: the hex BLAKE3 digest of the sorted
/// canonical parts joined with `NUL` separators. Invariant under
/// reordering of the intents.
pub fn normalize_signature(intents: &Vec<ParsedIntent>) -> (r: String)
    ensures
        r@ == signature_hex(intents.deep_view()),
        r@.len() == 64,
{
    let mut parts: Vec<Vec<char>> = Vec::new();
    let mut k: usize = 0;
    proof {
        assert(parts_model(parts@) =~= signature_parts(intents.deep_view()).subrange(0, 0));
    }
    while k < intents.len()
        invariant
            0 <= k <= intents@.len(),
            parts_model(parts@) == signature_parts(intents.deep_view()).subrange(0, k as int),
        decreases intents@.len() - k,
    {
        let part = render_part(&intents[k]);
        let ghost pre = parts_model(parts@);
        parts.push(part);
        proof {
            assert(parts_model(parts@).len() == pre.len() + 1);
            assert(parts_model(parts@)[k as int] == canon_part(intents.deep_view()[k as int]));
            assert(forall|i: int| 0 <= i < k ==> parts_model(parts@)[i] == pre[i]);
            assert(parts_model(parts@) =~= signature_parts(intents.deep_view()).subrange(
                0,
                k + 1,
            ));
        }
        k = k + 1;
    }
    proof {
        assert(signature_parts(intents.deep_view()).subrange(
            0,
            intents@.len() as int,
        ) =~= signature_parts(intents.deep_view()));
    }
    let sorted = sort_parts(parts);
    let mut joined: Vec<char> = Vec::new();
    let ghost sorted_models = parts_model(sorted@);
    let mut j: usize = 0;
    proof {
        assert(joined@ =~= join_parts(sorted_models.subrange(0, 0)));
    }
    while j < sorted.len()
        invariant
            0 <= j <= sorted@.len(),
            sorted_models == parts_model(sorted@),
            joined@ == join_parts(sorted_models.subrange(0, j as int)),
        decreases sorted@.len() - j,
    {
        push_all(&mut joined, &sorted[j]);
        joined.push('\u{0}');
        proof {
            let pre = sorted_models.subrange(0, j as int);
            let one = seq![sorted_models[j as int]];
            assert(sorted_models.subrange(0, j + 1) =~= pre + one);
            lemma_join_concat(pre, one);
            assert(one.skip(1) =~= Seq::<Seq<char>>::empty());
            assert(join_parts(one) == one[0] + seq!['\u{0}'] + join_parts(one.skip(1)));
            assert(join_parts(Seq::<Seq<char>>::empty()) =~= Seq::<char>::empty());
            assert(sorted_models[j as int] == sorted@[j as int]@);
            assert(joined@ =~= join_parts(sorted_models.subrange(0, j + 1)));
        }
        j = j + 1;
    }
    proof {
        assert(sorted_models.subrange(0, sorted@.len() as int) =~= sorted_models);
        assert(joined@ =~= signature_input(intents.deep_view()));
    }
    let text = chars_string(&joined);
    blake3_hex(text.as_str())
}

/// The signature ignores the order of the intents: any permutation of a
/// set of intents has the same signature.
pub proof fn lemma_signature_permutation(a: Seq<IntentModel>, b: Seq<IntentModel>)
    requires
        a.to_multiset() == b.to_multiset(),
    ensures
        signature_hex(a) == signature_hex(b),
{
    crate::params::lemma_map_values_multiset(a, b, canon_part_fn());
    lemma_lex_total_ordering();
    signature_parts(a).lemma_sort_by_ensures(lex_leq_rel());
    signature_parts(b).lemma_sort_by_ensures(lex_leq_rel());
    vstd::seq_lib::lemma_sorted_unique(
        signature_parts(a).sort_by(lex_leq_rel()),
        signature_parts(b).sort_by(lex_leq_rel()),
        lex_leq_rel(),
    );
    assert(signature_parts(a).sort_by(lex_leq_rel()) =~= signature_parts(b).sort_by(
        lex_leq_rel(),
    ));
}

/// Deduplication keys agree on sequences that agree up to ids.
proof fn lemma_dk_count_strip(a: Seq<IntentModel>, b: Seq<IntentModel>, key: Seq<char>)
    requires
        a.len() == b.len(),
        forall|k: int|
            0 <= k < a.len() ==> crate::parser::strip_id(#[trigger] a[k])
                == crate::parser::strip_id(#[trigger] b[k]),
    ensures
        crate::plan::dk_count(a, key) == crate::plan::dk_count(b, key),
    decreases a.len(),
{
    if a.len() > 0 {
        assert(crate::parser::strip_id(a[0]) == crate::parser::strip_id(b[0]));
        assert(crate::plan::dedup_key(a[0]) == crate::plan::dedup_key(b[0]));
        assert(forall|k: int| 0 <= k < a.skip(1).len() ==> a.skip(1)[k] == a[k + 1]);
        assert(forall|k: int| 0 <= k < b.skip(1).len() ==> b.skip(1)[k] == b[k + 1]);
        lemma_dk_count_strip(a.skip(1), b.skip(1), key);
    }
}

/// Deduplication keeps the same positions on sequences that agree up to
/// ids, so the deduplicated sequences agree up to ids too.
proof fn lemma_deduped_strip(a: Seq<IntentModel>, b: Seq<IntentModel>, n: int)
    requires
        a.len() == b.len(),
        0 <= n <= a.len(),
        forall|k: int|
            0 <= k < a.len() ==> crate::parser::strip_id(#[trigger] a[k])
                == crate::parser::strip_id(#[trigger] b[k]),
    ensures
        crate::plan::deduped_upto(a, n).len() == crate::plan::deduped_upto(b, n).len(),
        forall|q: int|
            0 <= q < crate::plan::deduped_upto(a, n).len() ==> crate::parser::strip_id(
                #[trigger] crate::plan::deduped_upto(a, n)[q],
            ) == crate::parser::strip_id(#[trigger] crate::plan::deduped_upto(b, n)[q]),
    decreases n,
{
    if n > 0 {
        lemma_deduped_strip(a, b, n - 1);
        assert(crate::parser::strip_id(a[n - 1]) == crate::parser::strip_id(b[n - 1]));
        assert(crate::plan::dedup_key(a[n - 1]) == crate::plan::dedup_key(b[n - 1]));
        assert(forall|k: int| 0 <= k < a.take(n - 1).len() ==> a.take(n - 1)[k] == a[k]);
        assert(forall|k: int| 0 <= k < b.take(n - 1).len() ==> b.take(n - 1)[k] == b[k]);
        lemma_dk_count_strip(a.take(n - 1), b.take(n - 1), crate::plan::dedup_key(a[n - 1]));
        let pa = crate::plan::deduped_upto(a, n - 1);
        let pb = crate::plan::deduped_upto(b, n - 1);
        if crate::plan::dk_count(a.take(n - 1), crate::plan::dedup_key(a[n - 1])) == 0 {
            assert(crate::plan::deduped_upto(a, n) =~= pa.push(a[n - 1]));
            assert(crate::plan::deduped_upto(b, n) =~= pb.push(b[n - 1]));
        } else {
            assert(crate::plan::deduped_upto(a, n) =~= pa);
            assert(crate::plan::deduped_upto(b, n) =~= pb);
        }
    }
}

/// The signature ignores the fresh intent ids: two intent lists that
/// agree up to their ids — as two parses of one input do — have the same
/// signature over their deduplicated intents.
pub proof fn lemma_signature_ignores_ids(a: Seq<IntentModel>, b: Seq<IntentModel>)
    requires
        crate::parser::strip_ids(a) == crate::parser::strip_ids(b),
    ensures
        signature_hex(crate::plan::dedup_of(a)) == signature_hex(crate::plan::dedup_of(b)),
{
    assert(crate::parser::strip_ids(a).len() == a.len());
    assert(crate::parser::strip_ids(b).len() == b.len());
    assert(a.len() == b.len());
    assert forall|k: int|
        0 <= k < a.len() implies crate::parser::strip_id(#[trigger] a[k])
        == crate::parser::strip_id(#[trigger] b[k]) by {
        assert(crate::parser::strip_ids(a)[k] == crate::parser::strip_id(a[k]));
        assert(crate::parser::strip_ids(b)[k] == crate::parser::strip_id(b[k]));
    }
    lemma_deduped_strip(a, b, a.len() as int);
    let da = crate::plan::dedup_of(a);
    let db = crate::plan::dedup_of(b);
    assert(signature_parts(da) =~= signature_parts(db)) by {
        assert forall|k: int|
            0 <= k < da.len() implies #[trigger] signature_parts(da)[k] == signature_parts(db)[
            k
        ] by {
            assert(crate::parser::strip_id(da[k]) == crate::parser::strip_id(db[k]));
            assert(canon_part(da[k]) == canon_part(db[k]));
        }
    }
}

/// The signature ignores the stored order of object entries inside an
/// intent's parameters: an intent whose parameters hold the same entries in
/// another order contributes the same canonical part.
pub proof fn lemma_canon_part_obj_order(a: IntentModel, b: IntentModel)
    requires
        b == (IntentModel { params: b.params, ..a }),
        a.params is Obj,
        b.params is Obj,
        a.params->Obj_0.to_multiset() == b.params->Obj_0.to_multiset(),
    ensures
        canon_part(a) == canon_part(b),
{
    crate::params::lemma_canon_obj_entry_order(a.params->Obj_0, b.params->Obj_0);
}

/// The signature ignores the stored order of object entries anywhere
/// inside the intents' parameters, however deeply nested: intents equal
/// up to such rearrangement have the same signature.
pub proof fn lemma_signature_param_reorder(a: Seq<IntentModel>, b: Seq<IntentModel>)
    requires
        a.len() == b.len(),
        forall|k: int|
            0 <= k < a.len() ==> (#[trigger] b[k]) == (IntentModel { params: b[k].params, ..a[k] })
                && crate::params::reordered(a[k].params, b[k].params),
    ensures
        signature_hex(a) == signature_hex(b),
{
    assert(signature_parts(a) =~= signature_parts(b)) by {
        assert forall|k: int|
            0 <= k < a.len() implies #[trigger] signature_parts(a)[k] == signature_parts(b)[
            k
        ] by {
            crate::params::lemma_canon_reordered(a[k].params, b[k].params);
            assert(canon_part(a[k]) == canon_part(b[k]));
        }
    }
}

} // verus!
