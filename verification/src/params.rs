//! Structured intent parameters: a JSON-like value, its serialized text
//! (used by the plan builder's deduplication key) and its canonical form
//! (used by the plan signature).
//!
//! The two renderings differ on purpose: the serialized text keeps object
//! entries in stored order, while the canonical form sorts them by key, so
//! that the signature is invariant under reordering of object keys.

use vstd::prelude::*;
use vstd::multiset::Multiset;
use crate::text::{
    dec_chars_int, digit_char, i64_dec, lex_leq, lemma_lex_antisym, lemma_lex_connected,
    lemma_lex_refl, lemma_lex_trans, push_all,
};

verus! {

/// A structured parameter value: object, array, string, integer, boolean or
/// null.
#[derive(Debug, PartialEq)]
pub enum ParamValue {
    Null,
    Bool(bool),
    Int(i64),
    Str(String),
    Arr(Vec<ParamValue>),
    Obj(Vec<(String, ParamValue)>),
}

/// The mathematical shape of a [`ParamValue`].
pub ghost enum ParamModel {
    Null,
    Bool(bool),
    Int(int),
    Str(Seq<char>),
    Arr(Seq<ParamModel>),
    Obj(Seq<(Seq<char>, ParamModel)>),
}

pub open spec fn param_model(v: ParamValue) -> ParamModel
    decreases v,
{
    match v {
        ParamValue::Null => ParamModel::Null,
        ParamValue::Bool(b) => ParamModel::Bool(b),
        ParamValue::Int(i) => ParamModel::Int(i as int),
        ParamValue::Str(s) => ParamModel::Str(s@),
        ParamValue::Arr(elems) => ParamModel::Arr(params_model(elems@)),
        ParamValue::Obj(entries) => ParamModel::Obj(entries_model(entries@)),
    }
}

pub open spec fn params_model(s: Seq<ParamValue>) -> Seq<ParamModel>
    decreases s,
{
    if s.len() == 0 {
        Seq::empty()
    } else {
        seq![param_model(s[0])] + params_model(s.skip(1))
    }
}

pub open spec fn entries_model(s: Seq<(String, ParamValue)>) -> Seq<(Seq<char>, ParamModel)>
    decreases s,
{
    if s.len() == 0 {
        Seq::empty()
    } else {
        seq![(s[0].0@, param_model(s[0].1))] + entries_model(s.skip(1))
    }
}

impl View for ParamValue {
    type V = ParamModel;

    open spec fn view(&self) -> ParamModel {
        param_model(*self)
    }
}

impl DeepView for ParamValue {
    type V = ParamModel;

    open spec fn deep_view(&self) -> ParamModel {
        param_model(*self)
    }
}

pub broadcast proof fn lemma_params_model_index(s: Seq<ParamValue>, i: int)
    requires
        0 <= i < s.len(),
    ensures
        #[trigger] params_model(s)[i] == param_model(s[i]),
        params_model(s).len() == s.len(),
    decreases s.len(),
{
    lemma_params_model_len(s);
    if i > 0 {
        lemma_params_model_index(s.skip(1), i - 1);
    }
}

pub proof fn lemma_params_model_len(s: Seq<ParamValue>)
    ensures
        params_model(s).len() == s.len(),
    decreases s.len(),
{
    if s.len() > 0 {
        lemma_params_model_len(s.skip(1));
    }
}

pub broadcast proof fn lemma_entries_model_index(s: Seq<(String, ParamValue)>, i: int)
    requires
        0 <= i < s.len(),
    ensures
        #[trigger] entries_model(s)[i] == (s[i].0@, param_model(s[i].1)),
        entries_model(s).len() == s.len(),
    decreases s.len(),
{
    lemma_entries_model_len(s);
    if i > 0 {
        lemma_entries_model_index(s.skip(1), i - 1);
    }
}

pub proof fn lemma_entries_model_len(s: Seq<(String, ParamValue)>)
    ensures
        entries_model(s).len() == s.len(),
    decreases s.len(),
{
    if s.len() > 0 {
        lemma_entries_model_len(s.skip(1));
    }
}

/// Order on rendered object entries: by key, and by rendered value between
/// entries whose keys are equal. On objects with distinct keys this is the
/// ascending key order of the canonical form.
pub open spec fn entry_leq(a: (Seq<char>, Seq<char>), b: (Seq<char>, Seq<char>)) -> bool {
    if a.0 == b.0 {
        lex_leq(a.1, b.1)
    } else {
        lex_leq(a.0, b.0)
    }
}

/// [`entry_leq`] as a binary relation value.
pub open spec fn entry_leq_rel() -> spec_fn(
    (Seq<char>, Seq<char>),
    (Seq<char>, Seq<char>),
) -> bool {
    |a: (Seq<char>, Seq<char>), b: (Seq<char>, Seq<char>)| entry_leq(a, b)
}

/// [`entry_leq`] is a total ordering.
pub proof fn lemma_entry_total_ordering()
    ensures
        vstd::relations::total_ordering(entry_leq_rel()),
{
    let r = entry_leq_rel();
    assert forall|a: (Seq<char>, Seq<char>)| #[trigger] r(a, a) by {
        lemma_lex_refl(a.0);
        lemma_lex_refl(a.1);
    }
    assert forall|a: (Seq<char>, Seq<char>), b: (Seq<char>, Seq<char>)|
        #[trigger] r(a, b) && #[trigger] r(b, a) implies a == b by {
        if a.0 == b.0 {
            lemma_lex_antisym(a.1, b.1);
        } else {
            lemma_lex_antisym(a.0, b.0);
        }
    }
    assert forall|a: (Seq<char>, Seq<char>), b: (Seq<char>, Seq<char>), c: (Seq<char>, Seq<char>)|
        #[trigger] r(a, b) && #[trigger] r(b, c) implies r(a, c) by {
        if a.0 == b.0 && b.0 == c.0 {
            lemma_lex_trans(a.1, b.1, c.1);
        } else if a.0 == b.0 {
            lemma_lex_refl(a.0);
            lemma_lex_trans(a.0, b.0, c.0);
        } else if b.0 == c.0 {
            lemma_lex_refl(b.0);
            lemma_lex_trans(a.0, b.0, c.0);
        } else {
            lemma_lex_trans(a.0, b.0, c.0);
            if a.0 == c.0 {
                lemma_lex_antisym(a.0, b.0);
            }
        }
    }
    assert forall|a: (Seq<char>, Seq<char>), b: (Seq<char>, Seq<char>)|
        #[trigger] r(a, b) || #[trigger] r(b, a) by {
        if a.0 == b.0 {
            lemma_lex_connected(a.1, b.1);
        } else {
            lemma_lex_connected(a.0, b.0);
        }
    }
}

/// The canonical rendering of a value. Object entries are rendered and then
/// sorted, so the result does not depend on the stored order of object keys.
pub open spec fn canon_of(m: ParamModel) -> Seq<char>
    decreases m,
{
    match m {
        ParamModel::Null => seq!['n', 'u', 'l', 'l'],
        ParamModel::Bool(b) => if b {
            seq!['t', 'r', 'u', 'e']
        } else {
            seq!['f', 'a', 'l', 's', 'e']
        },
        ParamModel::Int(i) => dec_chars_int(i),
        ParamModel::Str(s) => s,
        ParamModel::Arr(es) => seq!['['] + canon_list(es) + seq![']'],
        ParamModel::Obj(es) => canon_entry_join(canon_entries(es).sort_by(entry_leq_rel())),
    }
}

/// Canonical renderings of array elements, joined by `,`.
pub open spec fn canon_list(es: Seq<ParamModel>) -> Seq<char>
    decreases es,
{
    if es.len() == 0 {
        Seq::empty()
    } else if es.len() == 1 {
        canon_of(es[0])
    } else {
        canon_of(es[0]) + seq![','] + canon_list(es.skip(1))
    }
}

/// Each object entry as its key and the canonical rendering of its value.
pub open spec fn canon_entries(es: Seq<(Seq<char>, ParamModel)>) -> Seq<(Seq<char>, Seq<char>)>
    decreases es,
{
    if es.len() == 0 {
        Seq::empty()
    } else {
        seq![(es[0].0, canon_of(es[0].1))] + canon_entries(es.skip(1))
    }
}

/// Rendered object entries joined as `k=v` separated by `;`.
pub open spec fn canon_entry_join(es: Seq<(Seq<char>, Seq<char>)>) -> Seq<char>
    decreases es,
{
    if es.len() == 0 {
        Seq::empty()
    } else if es.len() == 1 {
        es[0].0 + seq!['='] + es[0].1
    } else {
        es[0].0 + seq!['='] + es[0].1 + seq![';'] + canon_entry_join(es.skip(1))
    }
}

/// A lower-case hexadecimal digit.
pub open spec fn hex_lower(d: nat) -> char {
    if d < 10 {
        digit_char(d)
    } else if d == 10 {
        'a'
    } else if d == 11 {
        'b'
    } else if d == 12 {
        'c'
    } else if d == 13 {
        'd'
    } else if d == 14 {
        'e'
    } else {
        'f'
    }
}

/// The JSON escape of one character inside a string literal: quote and
/// backslash escaped, control characters as their short escape or `\u00XX`
/// with lower-case hex, all others kept.
pub open spec fn esc_char(c: char) -> Seq<char> {
    if c == '"' {
        seq!['\\', '"']
    } else if c == '\\' {
        seq!['\\', '\\']
    } else if c as u32 == 0x08 {
        seq!['\\', 'b']
    } else if c as u32 == 0x09 {
        seq!['\\', 't']
    } else if c as u32 == 0x0a {
        seq!['\\', 'n']
    } else if c as u32 == 0x0c {
        seq!['\\', 'f']
    } else if c as u32 == 0x0d {
        seq!['\\', 'r']
    } else if (c as u32) < 0x20 {
        seq!['\\', 'u', '0', '0'] + seq![hex_lower((c as u32 / 16) as nat)] + seq![hex_lower(
            (c as u32 % 16) as nat,
        )]
    } else {
        seq![c]
    }
}

/// The JSON escape of every character of a string, concatenated.
pub open spec fn esc(s: Seq<char>) -> Seq<char>
    decreases s,
{
    if s.len() == 0 {
        Seq::empty()
    } else {
        esc_char(s[0]) + esc(s.skip(1))
    }
}

/// The compact JSON text of a value, with object entries in stored order;
/// this is the serialized form that the deduplication key is built from.
pub open spec fn json_of(m: ParamModel) -> Seq<char>
    decreases m,
{
    match m {
        ParamModel::Null => seq!['n', 'u', 'l', 'l'],
        ParamModel::Bool(b) => if b {
            seq!['t', 'r', 'u', 'e']
        } else {
            seq!['f', 'a', 'l', 's', 'e']
        },
        ParamModel::Int(i) => dec_chars_int(i),
        ParamModel::Str(s) => seq!['"'] + esc(s) + seq!['"'],
        ParamModel::Arr(es) => seq!['['] + json_list(es) + seq![']'],
        ParamModel::Obj(es) => seq!['{'] + json_entries(es) + seq!['}'],
    }
}

/// JSON texts of array elements, joined by `,`.
pub open spec fn json_list(es: Seq<ParamModel>) -> Seq<char>
    decreases es,
{
    if es.len() == 0 {
        Seq::empty()
    } else if es.len() == 1 {
        json_of(es[0])
    } else {
        json_of(es[0]) + seq![','] + json_list(es.skip(1))
    }
}

/// JSON texts of object entries `"k":v`, in stored order, joined by `,`.
pub open spec fn json_entries(es: Seq<(Seq<char>, ParamModel)>) -> Seq<char>
    decreases es,
{
    if es.len() == 0 {
        Seq::empty()
    } else if es.len() == 1 {
        seq!['"'] + esc(es[0].0) + seq!['"', ':'] + json_of(es[0].1)
    } else {
        seq!['"'] + esc(es[0].0) + seq!['"', ':'] + json_of(es[0].1) + seq![','] + json_entries(
            es.skip(1),
        )
    }
}

/// Escaping distributes over concatenation.
pub proof fn lemma_esc_concat(a: Seq<char>, b: Seq<char>)
    ensures
        esc(a + b) == esc(a) + esc(b),
    decreases a.len(),
{
    if a.len() == 0 {
        assert(a + b =~= b);
        assert(esc(a) + esc(b) =~= esc(b));
    } else {
        assert((a + b).skip(1) =~= a.skip(1) + b);
        lemma_esc_concat(a.skip(1), b);
        assert(esc(a + b) =~= esc(a) + esc(b));
    }
}

/// Inserting an element anywhere adds exactly that element to the multiset.
pub proof fn lemma_insert_to_multiset<A>(s: Seq<A>, p: int, x: A)
    requires
        0 <= p <= s.len(),
    ensures
        s.insert(p, x).to_multiset() == s.to_multiset().insert(x),
{
    broadcast use vstd::seq_lib::group_to_multiset_ensures;
    broadcast use vstd::multiset::group_multiset_axioms;

    let l = s.subrange(0, p);
    let r = s.subrange(p, s.len() as int);
    assert(s.insert(p, x) =~= l + (seq![x] + r));
    assert(s =~= l + r);
    vstd::seq_lib::lemma_multiset_commutative(l, seq![x] + r);
    vstd::seq_lib::lemma_multiset_commutative(seq![x], r);
    vstd::seq_lib::lemma_multiset_commutative(l, r);
    assert(seq![x] =~= Seq::<A>::empty().push(x));
    assert(seq![x].to_multiset() =~= Multiset::<A>::empty().insert(x));
    assert(s.insert(p, x).to_multiset() =~= s.to_multiset().insert(x));
}

/// A valid permutation of `n` positions: a sequence of `n` pairwise
/// distinct indices into `[0, n)`.
pub open spec fn is_permutation(perm: Seq<int>, n: int) -> bool {
    &&& perm.len() == n
    &&& forall|i: int| 0 <= i < n ==> 0 <= #[trigger] perm[i] < n
    &&& forall|i: int, j: int| 0 <= i < j < n ==> #[trigger] perm[i] != #[trigger] perm[j]
}

/// A sequence read through a permutation of its positions holds the same
/// elements.
pub proof fn lemma_permuted_multiset<A>(s: Seq<A>, t: Seq<A>, perm: Seq<int>)
    requires
        s.len() == t.len(),
        is_permutation(perm, s.len() as int),
        forall|i: int| 0 <= i < t.len() ==> #[trigger] t[i] == s[perm[i]],
    ensures
        t.to_multiset() == s.to_multiset(),
    decreases s.len(),
{
    broadcast use vstd::seq_lib::group_to_multiset_ensures;
    broadcast use vstd::multiset::group_multiset_axioms;

    let n = s.len() as int;
    if n == 0 {
        assert(t =~= s);
    } else {
        let j = perm[n - 1];
        let s2 = s.remove(j);
        let t2 = t.drop_last();
        let perm2 = Seq::new((n - 1) as nat, |i: int| if perm[i] < j {
            perm[i]
        } else {
            perm[i] - 1
        });
        assert(is_permutation(perm2, n - 1)) by {
            assert forall|i: int| 0 <= i < n - 1 implies 0 <= #[trigger] perm2[i] < n - 1 by {
                assert(perm[i] != perm[n - 1]);
            }
            assert forall|a: int, b: int| 0 <= a < b < n - 1 implies #[trigger] perm2[a]
                != #[trigger] perm2[b] by {
                assert(perm[a] != perm[b]);
                assert(perm[a] != j && perm[b] != j);
            }
        }
        assert(forall|k: int| 0 <= k < j ==> #[trigger] s2[k] == s[k]);
        assert(forall|k: int| j <= k < s2.len() ==> #[trigger] s2[k] == s[k + 1]);
        assert forall|i: int| 0 <= i < t2.len() implies #[trigger] t2[i] == s2[perm2[i]] by {
            assert(t2[i] == t[i]);
            assert(t[i] == s[perm[i]]);
            assert(perm[i] != j);
            if perm[i] < j {
                assert(s2[perm2[i]] == s[perm[i]]);
            } else {
                assert(s2[perm2[i]] == s[perm2[i] + 1]);
            }
        }
        lemma_permuted_multiset(s2, t2, perm2);
        assert(t =~= t2.push(t[n - 1]));
        assert(t.to_multiset() == t2.to_multiset().insert(t[n - 1]));
        assert(s2.to_multiset() == s.to_multiset().remove(s[j]));
        assert(s.to_multiset().contains(s[j])) by {
            assert(s.contains(s[j]));
        }
        assert(t[n - 1] == s[j]);
        assert(s.to_multiset() =~= s.to_multiset().remove(s[j]).insert(s[j]));
        assert(t.to_multiset() == s.to_multiset());
    }
}

/// Mapping a function over two sequences that hold the same elements yields
/// sequences that hold the same elements.
pub proof fn lemma_map_values_multiset<A, U>(a: Seq<A>, b: Seq<A>, f: spec_fn(A) -> U)
    requires
        a.to_multiset() == b.to_multiset(),
    ensures
        a.map_values(f).to_multiset() == b.map_values(f).to_multiset(),
    decreases a.len(),
{
    broadcast use vstd::seq_lib::group_to_multiset_ensures;
    broadcast use vstd::multiset::group_multiset_axioms;

    if a.len() == 0 {
        assert(a.to_multiset().len() == a.len());
        assert(b.to_multiset().len() == b.len());
        assert(b.len() == 0);
        assert(a.map_values(f) =~= Seq::<U>::empty());
        assert(b.map_values(f) =~= Seq::<U>::empty());
    } else {
        let x = a.last();
        let a0 = a.drop_last();
        assert(a =~= a0.push(x));
        assert(a.to_multiset().contains(x)) by {
            assert(a.contains(x));
        }
        assert(b.contains(x));
        let j = choose|j: int| 0 <= j < b.len() && b[j] == x;
        let b0 = b.remove(j);
        assert(b0.to_multiset() == b.to_multiset().remove(x));
        assert(a0.push(x).to_multiset() == a0.to_multiset().insert(x));
        assert(a0.to_multiset() =~= a.to_multiset().remove(x));
        lemma_map_values_multiset(a0, b0, f);
        let fa = a.map_values(f);
        let fb = b.map_values(f);
        assert(fa =~= a0.map_values(f).push(f(x)));
        assert(fb.remove(j) =~= b0.map_values(f));
        assert(fb.remove(j).to_multiset() == fb.to_multiset().remove(f(x))) by {
            assert(fb[j] == f(x));
        }
        assert(fa.to_multiset() == a0.map_values(f).to_multiset().insert(f(x)));
        assert(fb.to_multiset().contains(f(x))) by {
            assert(fb[j] == f(x));
            assert(fb.contains(f(x)));
        }
        assert(fb.to_multiset() =~= fb.to_multiset().remove(f(x)).insert(f(x)));
        assert(fa.to_multiset() == fb.to_multiset());
    }
}

/// [`canon_entries`] is the elementwise rendering of the entries.
pub proof fn lemma_canon_entries_map(es: Seq<(Seq<char>, ParamModel)>)
    ensures
        canon_entries(es) == es.map_values(
            |e: (Seq<char>, ParamModel)| (e.0, canon_of(e.1)),
        ),
    decreases es,
{
    if es.len() == 0 {
        assert(canon_entries(es) =~= es.map_values(
            |e: (Seq<char>, ParamModel)| (e.0, canon_of(e.1)),
        ));
    } else {
        lemma_canon_entries_map(es.skip(1));
        assert(canon_entries(es) =~= es.map_values(
            |e: (Seq<char>, ParamModel)| (e.0, canon_of(e.1)),
        ));
    }
}

/// A value rearranged: equal, except that the entries of any object —
/// anywhere inside it — may appear in another order.
pub open spec fn reordered(p: ParamModel, q: ParamModel) -> bool
    decreases p,
{
    match (p, q) {
        (ParamModel::Arr(a), ParamModel::Arr(b)) => b.len() == a.len() && (forall|i: int|
            0 <= i < a.len() ==> reordered(#[trigger] a[i], #[trigger] b[i])),
        (ParamModel::Obj(a), ParamModel::Obj(b)) => b.len() == a.len() && exists|perm: Seq<int>|
            #[trigger] is_permutation(perm, a.len() as int) && (forall|i: int|
                0 <= i < b.len() ==> (#[trigger] b[i]).0 == a[perm[i]].0 && reordered(
                    a[perm[i]].1,
                    b[i].1,
                )),
        _ => p == q,
    }
}

/// Canonical renderings agree elementwise, so the joined lists agree.
proof fn lemma_canon_list_congruent(a: Seq<ParamModel>, b: Seq<ParamModel>)
    requires
        a.len() == b.len(),
        forall|i: int| 0 <= i < a.len() ==> canon_of(#[trigger] a[i]) == canon_of(#[trigger] b[i]),
    ensures
        canon_list(a) == canon_list(b),
    decreases a.len(),
{
    if a.len() > 1 {
        assert(forall|i: int| 0 <= i < a.skip(1).len() ==> a.skip(1)[i] == a[i + 1]);
        assert(forall|i: int| 0 <= i < b.skip(1).len() ==> b.skip(1)[i] == b[i + 1]);
        lemma_canon_list_congruent(a.skip(1), b.skip(1));
    }
}

/// Rearranging a value leaves its canonical rendering unchanged:
/// reordering the entries of any object, however deeply nested under
/// other objects or arrays, renders the same canonical text.
pub proof fn lemma_canon_reordered(p: ParamModel, q: ParamModel)
    requires
        reordered(p, q),
    ensures
        canon_of(p) == canon_of(q),
    decreases p,
{
    match (p, q) {
        (ParamModel::Arr(a), ParamModel::Arr(b)) => {
            assert forall|i: int| 0 <= i < a.len() implies canon_of(#[trigger] a[i]) == canon_of(
                b[i],
            ) by {
                lemma_canon_reordered(a[i], b[i]);
            }
            lemma_canon_list_congruent(a, b);
        },
        (ParamModel::Obj(a), ParamModel::Obj(b)) => {
            let perm = choose|perm: Seq<int>|
                #[trigger] is_permutation(perm, a.len() as int) && (forall|i: int|
                    0 <= i < b.len() ==> (#[trigger] b[i]).0 == a[perm[i]].0 && reordered(
                        a[perm[i]].1,
                        b[i].1,
                    ));
            lemma_canon_entries_map(a);
            lemma_canon_entries_map(b);
            assert forall|i: int|
                0 <= i < b.len() implies #[trigger] canon_entries(b)[i] == canon_entries(a)[
                perm[i]
            ] by {
                lemma_canon_reordered(a[perm[i]].1, b[i].1);
            }
            lemma_permuted_multiset(canon_entries(a), canon_entries(b), perm);
            lemma_entry_total_ordering();
            canon_entries(a).lemma_sort_by_ensures(entry_leq_rel());
            canon_entries(b).lemma_sort_by_ensures(entry_leq_rel());
            vstd::seq_lib::lemma_sorted_unique(
                canon_entries(a).sort_by(entry_leq_rel()),
                canon_entries(b).sort_by(entry_leq_rel()),
                entry_leq_rel(),
            );
            assert(canon_entries(a).sort_by(entry_leq_rel()) =~= canon_entries(b).sort_by(
                entry_leq_rel(),
            ));
        },
        _ => {},
    }
}

/// The canonical rendering of an object does not depend on the stored order
/// of its entries: objects holding the same entries render equally.
pub proof fn lemma_canon_obj_entry_order(
    a: Seq<(Seq<char>, ParamModel)>,
    b: Seq<(Seq<char>, ParamModel)>,
)
    requires
        a.to_multiset() == b.to_multiset(),
    ensures
        canon_of(ParamModel::Obj(a)) == canon_of(ParamModel::Obj(b)),
{
    let f = |e: (Seq<char>, ParamModel)| (e.0, canon_of(e.1));
    lemma_canon_entries_map(a);
    lemma_canon_entries_map(b);
    lemma_map_values_multiset(a, b, f);
    lemma_entry_total_ordering();
    canon_entries(a).lemma_sort_by_ensures(entry_leq_rel());
    canon_entries(b).lemma_sort_by_ensures(entry_leq_rel());
    vstd::seq_lib::lemma_sorted_unique(
        canon_entries(a).sort_by(entry_leq_rel()),
        canon_entries(b).sort_by(entry_leq_rel()),
        entry_leq_rel(),
    );
    assert(canon_entries(a).sort_by(entry_leq_rel()) =~= canon_entries(b).sort_by(
        entry_leq_rel(),
    ));
}

/// The models of a sequence of rendered entries.
pub open spec fn pairs_model(s: Seq<(Vec<char>, Vec<char>)>) -> Seq<(Seq<char>, Seq<char>)> {
    s.map_values(|e: (Vec<char>, Vec<char>)| (e.0@, e.1@))
}

/// Decides [`entry_leq`] on rendered entries.
fn entry_le(a: &(Vec<char>, Vec<char>), b: &(Vec<char>, Vec<char>)) -> (r: bool)
    ensures
        r == entry_leq((a.0@, a.1@), (b.0@, b.1@)),
{
    let kab = crate::text::chars_leq(&a.0, &b.0);
    let kba = crate::text::chars_leq(&b.0, &a.0);
    if kab && kba {
        proof {
            lemma_lex_antisym(a.0@, b.0@);
        }
        crate::text::chars_leq(&a.1, &b.1)
    } else {
        proof {
            if a.0@ == b.0@ {
                lemma_lex_refl(a.0@);
            }
        }
        kab
    }
}

/// Position before which every entry is at most `x` and whose own entry,
/// if any, is not.
fn find_insert_pos(out: &Vec<(Vec<char>, Vec<char>)>, x: &(Vec<char>, Vec<char>)) -> (p: usize)
    ensures
        0 <= p <= out@.len(),
        forall|q: int| 0 <= q < p ==> entry_leq(#[trigger] pairs_model(out@)[q], (x.0@, x.1@)),
        (p as int) < out@.len() ==> !entry_leq(pairs_model(out@)[p as int], (x.0@, x.1@)),
{
    let mut p: usize = 0;
    loop
        invariant
            0 <= p <= out@.len(),
            forall|q: int| 0 <= q < p ==> entry_leq(#[trigger] pairs_model(out@)[q], (x.0@, x.1@)),
        decreases out@.len() - p,
    {
        if p == out.len() {
            return p;
        }
        if !entry_le(&out[p], x) {
            proof {
                assert(pairs_model(out@)[p as int] == (out@[p as int].0@, out@[p as int].1@));
            }
            return p;
        }
        proof {
            assert(pairs_model(out@)[p as int] == (out@[p as int].0@, out@[p as int].1@));
        }
        p = p + 1;
    }
}

/// Sort rendered object entries by [`entry_leq`]; the result is the
/// specification-level sort of the input.
pub fn sort_entry_vec(input: Vec<(Vec<char>, Vec<char>)>) -> (r: Vec<(Vec<char>, Vec<char>)>)
    ensures
        pairs_model(r@) == pairs_model(input@).sort_by(entry_leq_rel()),
{
    broadcast use vstd::seq_lib::group_to_multiset_ensures;
    broadcast use vstd::multiset::group_multiset_axioms;

    let mut v = input;
    let ghost input_models = pairs_model(v@);
    let mut out: Vec<(Vec<char>, Vec<char>)> = Vec::new();
    proof {
        assert(pairs_model(out@) =~= Seq::<(Seq<char>, Seq<char>)>::empty());
        assert(pairs_model(out@).to_multiset().add(pairs_model(v@).to_multiset())
            =~= input_models.to_multiset());
    }
    while v.len() > 0
        invariant
            vstd::relations::sorted_by(pairs_model(out@), entry_leq_rel()),
            pairs_model(out@).to_multiset().add(pairs_model(v@).to_multiset())
                == input_models.to_multiset(),
        decreases v@.len(),
    {
        let ghost pre_v = v@;
        let x = v.remove(0);
        let ghost xm = (x.0@, x.1@);
        proof {
            assert(pairs_model(pre_v)[0] == xm);
            assert(pairs_model(v@) =~= pairs_model(pre_v).remove(0));
            pairs_model(pre_v).to_multiset_ensures();
            assert(pairs_model(pre_v).remove(0).to_multiset() == pairs_model(
                pre_v,
            ).to_multiset().remove(xm));
            assert(pairs_model(pre_v).to_multiset().contains(xm)) by {
                assert(pairs_model(pre_v)[0] == xm);
                assert(pairs_model(pre_v).contains(xm));
            }
        }
        let p = find_insert_pos(&out, &x);
        let ghost pre_out = pairs_model(out@);
        out.insert(p, x);
        proof {
            lemma_entry_total_ordering();
            if (p as int) < pre_out.len() {
                lemma_lex_connected(pre_out[p as int].0, xm.0);
                lemma_lex_connected(pre_out[p as int].1, xm.1);
                assert(entry_leq(xm, pre_out[p as int]));
            }
            assert(pairs_model(out@) =~= pre_out.insert(p as int, xm));
            pre_out.insert_ensures(p as int, xm);
            let now = pairs_model(out@);
            let rel = entry_leq_rel();
            assert forall|i: int, j: int| 0 <= i < j < now.len() implies rel(
                #[trigger] now[i],
                #[trigger] now[j],
            ) by {
                if j < p {
                    assert(rel(pre_out[i], pre_out[j]));
                } else if i == p && j > p {
                    assert(now[j] == pre_out[j - 1]);
                    assert(entry_leq(xm, pre_out[p as int]));
                    if j - 1 > p {
                        assert(rel(pre_out[p as int], pre_out[j - 1]));
                        assert(vstd::relations::transitive(rel));
                        assert(rel(xm, pre_out[p as int]));
                        assert(rel(xm, pre_out[j - 1]));
                    }
                } else if j == p && i < p {
                    assert(entry_leq(pre_out[i], xm));
                } else if i < p && j > p {
                    assert(now[j] == pre_out[j - 1]);
                    assert(rel(pre_out[i], pre_out[j - 1]));
                } else if i > p {
                    assert(rel(pre_out[i - 1], pre_out[j - 1]));
                }
            }
            lemma_insert_to_multiset(pre_out, p as int, xm);
            assert(pairs_model(out@).to_multiset().add(pairs_model(v@).to_multiset())
                =~= input_models.to_multiset());
        }
    }
    proof {
        assert(pairs_model(v@) =~= Seq::<(Seq<char>, Seq<char>)>::empty());
        assert(pairs_model(out@).to_multiset() =~= input_models.to_multiset());
        lemma_entry_total_ordering();
        input_models.lemma_sort_by_ensures(entry_leq_rel());
        vstd::seq_lib::lemma_sorted_unique(
            pairs_model(out@),
            input_models.sort_by(entry_leq_rel()),
            entry_leq_rel(),
        );
        assert(pairs_model(out@) =~= input_models.sort_by(entry_leq_rel()));
    }
    out
}

/// One lower-case hexadecimal digit.
fn hex_digit(d: u32) -> (c: char)
    requires
        d < 16,
    ensures
        c == hex_lower(d as nat),
{
    if d == 0 {
        '0'
    } else if d == 1 {
        '1'
    } else if d == 2 {
        '2'
    } else if d == 3 {
        '3'
    } else if d == 4 {
        '4'
    } else if d == 5 {
        '5'
    } else if d == 6 {
        '6'
    } else if d == 7 {
        '7'
    } else if d == 8 {
        '8'
    } else if d == 9 {
        '9'
    } else if d == 10 {
        'a'
    } else if d == 11 {
        'b'
    } else if d == 12 {
        'c'
    } else if d == 13 {
        'd'
    } else if d == 14 {
        'e'
    } else {
        'f'
    }
}

/// The JSON escape of one character.
fn esc_char_render(c: char) -> (r: Vec<char>)
    ensures
        r@ == esc_char(c),
{
    let mut out: Vec<char> = Vec::new();
    let n = c as u32;
    if c == '"' {
        out.push('\\');
        out.push('"');
    } else if c == '\\' {
        out.push('\\');
        out.push('\\');
    } else if n == 0x08 {
        out.push('\\');
        out.push('b');
    } else if n == 0x09 {
        out.push('\\');
        out.push('t');
    } else if n == 0x0a {
        out.push('\\');
        out.push('n');
    } else if n == 0x0c {
        out.push('\\');
        out.push('f');
    } else if n == 0x0d {
        out.push('\\');
        out.push('r');
    } else if n < 0x20 {
        out.push('\\');
        out.push('u');
        out.push('0');
        out.push('0');
        out.push(hex_digit(n / 16));
        out.push(hex_digit(n % 16));
    } else {
        out.push(c);
    }
    proof {
        assert(out@ =~= esc_char(c));
    }
    out
}

/// The JSON escape of a whole string.
fn esc_render(s: &Vec<char>) -> (r: Vec<char>)
    ensures
        r@ == esc(s@),
{
    let mut out: Vec<char> = Vec::new();
    let mut k: usize = 0;
    proof {
        assert(out@ =~= esc(s@.subrange(0, 0)));
    }
    while k < s.len()
        invariant
            0 <= k <= s@.len(),
            out@ == esc(s@.subrange(0, k as int)),
        decreases s@.len() - k,
    {
        let e = esc_char_render(s[k]);
        push_all(&mut out, &e);
        proof {
            let pre = s@.subrange(0, k as int);
            let one = seq![s@[k as int]];
            assert(s@.subrange(0, k + 1) =~= pre + one);
            lemma_esc_concat(pre, one);
            assert(one.skip(1) =~= Seq::<char>::empty());
            assert(one.len() == 1 && one[0] == s@[k as int]);
            assert(esc(one) == esc_char(one[0]) + esc(one.skip(1)));
            assert(esc(Seq::<char>::empty()) =~= Seq::<char>::empty());
            assert(esc(one) =~= esc_char(s@[k as int]));
            assert(out@ =~= esc(s@.subrange(0, k + 1)));
        }
        k = k + 1;
    }
    proof {
        assert(s@.subrange(0, s@.len() as int) =~= s@);
    }
    out
}

/// The canonical rendering of a value as characters.
pub fn canonical(v: &ParamValue) -> (r: Vec<char>)
    ensures
        r@ == canon_of(v@),
    decreases v, 0int,
{
    match v {
        ParamValue::Null => {
            let mut out: Vec<char> = Vec::new();
            out.push('n');
            out.push('u');
            out.push('l');
            out.push('l');
            proof {
                assert(out@ =~= canon_of(ParamModel::Null));
            }
            out
        },
        ParamValue::Bool(b) => {
            let mut out: Vec<char> = Vec::new();
            if *b {
                out.push('t');
                out.push('r');
                out.push('u');
                out.push('e');
            } else {
                out.push('f');
                out.push('a');
                out.push('l');
                out.push('s');
                out.push('e');
            }
            proof {
                assert(out@ =~= canon_of(ParamModel::Bool(*b)));
            }
            out
        },
        ParamValue::Int(i) => i64_dec(*i),
        ParamValue::Str(s) => crate::text::str_chars(s.as_str()),
        ParamValue::Arr(es) => {
            let mut out: Vec<char> = Vec::new();
            out.push('[');
            let mut body = canon_arr(es, 0);
            out.append(&mut body);
            out.push(']');
            proof {
                assert(params_model(es@).skip(0) =~= params_model(es@));
                assert(out@ =~= canon_of(ParamModel::Arr(params_model(es@))));
            }
            out
        },
        ParamValue::Obj(entries) => {
            let pairs = canon_obj_rendered(entries, 0);
            let sorted = sort_entry_vec(pairs);
            let out = canon_join(&sorted, 0);
            proof {
                assert(entries_model(entries@).skip(0) =~= entries_model(entries@));
                assert(pairs_model(sorted@).skip(0) =~= pairs_model(sorted@));
                assert(out@ =~= canon_of(ParamModel::Obj(entries_model(entries@))));
            }
            out
        },
    }
}

/// Canonical renderings of the array elements from `from` on, joined by `,`.
fn canon_arr(es: &Vec<ParamValue>, from: usize) -> (r: Vec<char>)
    requires
        from <= es@.len(),
    ensures
        r@ == canon_list(params_model(es@).skip(from as int)),
    decreases es, es@.len() - from,
{
    proof {
        lemma_params_model_len(es@);
    }
    let mut out: Vec<char> = Vec::new();
    if from == es.len() {
        proof {
            assert(params_model(es@).skip(from as int) =~= Seq::<ParamModel>::empty());
            assert(out@ =~= canon_list(params_model(es@).skip(from as int)));
        }
        return out;
    }
    let mut head = canonical(&es[from]);
    out.append(&mut head);
    proof {
        lemma_params_model_index(es@, from as int);
        assert(params_model(es@).skip(from as int)[0] == param_model(es@[from as int]));
    }
    if from + 1 < es.len() {
        out.push(',');
        let mut rest = canon_arr(es, from + 1);
        out.append(&mut rest);
        proof {
            assert(params_model(es@).skip(from as int).skip(1) =~= params_model(es@).skip(
                from + 1,
            ));
            assert(out@ =~= canon_list(params_model(es@).skip(from as int)));
        }
    } else {
        proof {
            assert(params_model(es@).skip(from as int).len() == 1);
            assert(out@ =~= canon_list(params_model(es@).skip(from as int)));
        }
    }
    out
}

/// Rendered `(key, canonical value)` pairs of the object entries from
/// `from` on, in stored order.
fn canon_obj_rendered(entries: &Vec<(String, ParamValue)>, from: usize) -> (r: Vec<
    (Vec<char>, Vec<char>),
>)
    requires
        from <= entries@.len(),
    ensures
        pairs_model(r@) == canon_entries(entries_model(entries@).skip(from as int)),
    decreases entries, entries@.len() - from,
{
    proof {
        lemma_entries_model_len(entries@);
    }
    let mut out: Vec<(Vec<char>, Vec<char>)> = Vec::new();
    if from == entries.len() {
        proof {
            assert(entries_model(entries@).skip(from as int) =~= Seq::<
                (Seq<char>, ParamModel),
            >::empty());
            assert(pairs_model(out@) =~= canon_entries(entries_model(entries@).skip(from as int)));
        }
        return out;
    }
    let key_chars = crate::text::str_chars(entries[from].0.as_str());
    let val_canon = canonical(&entries[from].1);
    out.push((key_chars, val_canon));
    let mut rest = canon_obj_rendered(entries, from + 1);
    out.append(&mut rest);
    proof {
        lemma_entries_model_index(entries@, from as int);
        let tail = entries_model(entries@).skip(from as int);
        assert(tail[0] == (entries@[from as int].0@, param_model(entries@[from as int].1)));
        assert(tail.skip(1) =~= entries_model(entries@).skip(from + 1));
        assert(pairs_model(out@) =~= canon_entries(tail));
    }
    out
}

/// Rendered entries from `from` on joined as `k=v` separated by `;`.
fn canon_join(sorted: &Vec<(Vec<char>, Vec<char>)>, from: usize) -> (r: Vec<char>)
    requires
        from <= sorted@.len(),
    ensures
        r@ == canon_entry_join(pairs_model(sorted@).skip(from as int)),
    decreases sorted@.len() - from,
{
    let mut out: Vec<char> = Vec::new();
    if from == sorted.len() {
        proof {
            assert(pairs_model(sorted@).skip(from as int) =~= Seq::<(Seq<char>, Seq<char>)>::empty());
            assert(out@ =~= canon_entry_join(pairs_model(sorted@).skip(from as int)));
        }
        return out;
    }
    push_all(&mut out, &sorted[from].0);
    out.push('=');
    push_all(&mut out, &sorted[from].1);
    proof {
        assert(pairs_model(sorted@).skip(from as int)[0] == (sorted@[from as int].0@, sorted@[
            from as int
        ].1@));
    }
    if from + 1 < sorted.len() {
        out.push(';');
        let mut rest = canon_join(sorted, from + 1);
        out.append(&mut rest);
        proof {
            assert(pairs_model(sorted@).skip(from as int).skip(1) =~= pairs_model(sorted@).skip(
                from + 1,
            ));
            assert(out@ =~= canon_entry_join(pairs_model(sorted@).skip(from as int)));
        }
    } else {
        proof {
            assert(pairs_model(sorted@).skip(from as int).len() == 1);
            assert(out@ =~= canon_entry_join(pairs_model(sorted@).skip(from as int)));
        }
    }
    out
}


/// The compact JSON text of a value as characters; object entries stay in
/// stored order.
pub fn json_text(v: &ParamValue) -> (r: Vec<char>)
    ensures
        r@ == json_of(v@),
    decreases v, 0int,
{
    match v {
        ParamValue::Null => {
            let mut out: Vec<char> = Vec::new();
            out.push('n');
            out.push('u');
            out.push('l');
            out.push('l');
            proof {
                assert(out@ =~= json_of(ParamModel::Null));
            }
            out
        },
        ParamValue::Bool(b) => {
            let mut out: Vec<char> = Vec::new();
            if *b {
                out.push('t');
                out.push('r');
                out.push('u');
                out.push('e');
            } else {
                out.push('f');
                out.push('a');
                out.push('l');
                out.push('s');
                out.push('e');
            }
            proof {
                assert(out@ =~= json_of(ParamModel::Bool(*b)));
            }
            out
        },
        ParamValue::Int(i) => i64_dec(*i),
        ParamValue::Str(s) => {
            let mut out: Vec<char> = Vec::new();
            out.push('"');
            let chars = crate::text::str_chars(s.as_str());
            let mut body = esc_render(&chars);
            out.append(&mut body);
            out.push('"');
            proof {
                assert(out@ =~= json_of(ParamModel::Str(s@)));
            }
            out
        },
        ParamValue::Arr(es) => {
            let mut out: Vec<char> = Vec::new();
            out.push('[');
            let mut body = json_arr(es, 0);
            out.append(&mut body);
            out.push(']');
            proof {
                assert(params_model(es@).skip(0) =~= params_model(es@));
                assert(out@ =~= json_of(ParamModel::Arr(params_model(es@))));
            }
            out
        },
        ParamValue::Obj(entries) => {
            let mut out: Vec<char> = Vec::new();
            out.push('{');
            let mut body = json_objs(entries, 0);
            out.append(&mut body);
            out.push('}');
            proof {
                assert(entries_model(entries@).skip(0) =~= entries_model(entries@));
                assert(out@ =~= json_of(ParamModel::Obj(entries_model(entries@))));
            }
            out
        },
    }
}

/// JSON texts of the array elements from `from` on, joined by `,`.
fn json_arr(es: &Vec<ParamValue>, from: usize) -> (r: Vec<char>)
    requires
        from <= es@.len(),
    ensures
        r@ == json_list(params_model(es@).skip(from as int)),
    decreases es, es@.len() - from,
{
    proof {
        lemma_params_model_len(es@);
    }
    let mut out: Vec<char> = Vec::new();
    if from == es.len() {
        proof {
            assert(params_model(es@).skip(from as int) =~= Seq::<ParamModel>::empty());
            assert(out@ =~= json_list(params_model(es@).skip(from as int)));
        }
        return out;
    }
    let mut head = json_text(&es[from]);
    out.append(&mut head);
    proof {
        lemma_params_model_index(es@, from as int);
        assert(params_model(es@).skip(from as int)[0] == param_model(es@[from as int]));
    }
    if from + 1 < es.len() {
        out.push(',');
        let mut rest = json_arr(es, from + 1);
        out.append(&mut rest);
        proof {
            assert(params_model(es@).skip(from as int).skip(1) =~= params_model(es@).skip(
                from + 1,
            ));
            assert(out@ =~= json_list(params_model(es@).skip(from as int)));
        }
    } else {
        proof {
            assert(params_model(es@).skip(from as int).len() == 1);
            assert(out@ =~= json_list(params_model(es@).skip(from as int)));
        }
    }
    out
}

/// JSON texts of the object entries from `from` on, joined by `,`.
fn json_objs(entries: &Vec<(String, ParamValue)>, from: usize) -> (r: Vec<char>)
    requires
        from <= entries@.len(),
    ensures
        r@ == json_entries(entries_model(entries@).skip(from as int)),
    decreases entries, entries@.len() - from,
{
    proof {
        lemma_entries_model_len(entries@);
    }
    let mut out: Vec<char> = Vec::new();
    if from == entries.len() {
        proof {
            assert(entries_model(entries@).skip(from as int) =~= Seq::<
                (Seq<char>, ParamModel),
            >::empty());
            assert(out@ =~= json_entries(entries_model(entries@).skip(from as int)));
        }
        return out;
    }
    out.push('"');
    let key_chars = crate::text::str_chars(entries[from].0.as_str());
    let mut key_esc = esc_render(&key_chars);
    out.append(&mut key_esc);
    out.push('"');
    out.push(':');
    let mut val = json_text(&entries[from].1);
    out.append(&mut val);
    proof {
        lemma_entries_model_index(entries@, from as int);
        let tail = entries_model(entries@).skip(from as int);
        assert(tail[0] == (entries@[from as int].0@, param_model(entries@[from as int].1)));
    }
    if from + 1 < entries.len() {
        out.push(',');
        let mut rest = json_objs(entries, from + 1);
        out.append(&mut rest);
        proof {
            assert(entries_model(entries@).skip(from as int).skip(1) =~= entries_model(
                entries@,
            ).skip(from + 1));
            assert(out@ =~= json_entries(entries_model(entries@).skip(from as int)));
        }
    } else {
        proof {
            assert(entries_model(entries@).skip(from as int).len() == 1);
            assert(out@ =~= json_entries(entries_model(entries@).skip(from as int)));
        }
    }
    out
}

/// A copy of a value with the same model.
pub fn clone_param(v: &ParamValue) -> (r: ParamValue)
    ensures
        r@ == v@,
    decreases v, 0int,
{
    match v {
        ParamValue::Null => ParamValue::Null,
        ParamValue::Bool(b) => ParamValue::Bool(*b),
        ParamValue::Int(i) => ParamValue::Int(*i),
        ParamValue::Str(s) => ParamValue::Str(s.clone()),
        ParamValue::Arr(es) => {
            let copies = clone_params(es, 0);
            proof {
                assert(params_model(es@).skip(0) =~= params_model(es@));
            }
            ParamValue::Arr(copies)
        },
        ParamValue::Obj(entries) => {
            let copies = clone_entries(entries, 0);
            proof {
                assert(entries_model(entries@).skip(0) =~= entries_model(entries@));
            }
            ParamValue::Obj(copies)
        },
    }
}

/// Copies of the array elements from `from` on.
fn clone_params(es: &Vec<ParamValue>, from: usize) -> (r: Vec<ParamValue>)
    requires
        from <= es@.len(),
    ensures
        params_model(r@) == params_model(es@).skip(from as int),
    decreases es, es@.len() - from,
{
    proof {
        lemma_params_model_len(es@);
    }
    let mut out: Vec<ParamValue> = Vec::new();
    if from == es.len() {
        proof {
            assert(params_model(out@) =~= params_model(es@).skip(from as int));
        }
        return out;
    }
    let head = clone_param(&es[from]);
    out.push(head);
    let mut rest = clone_params(es, from + 1);
    let ghost pre_rest = rest@;
    out.append(&mut rest);
    proof {
        let lhs = params_model(out@);
        let rhs = params_model(es@).skip(from as int);
        lemma_params_model_len(out@);
        lemma_params_model_len(pre_rest);
        assert forall|i: int| 0 <= i < lhs.len() implies lhs[i] == rhs[i] by {
            lemma_params_model_index(out@, i);
            lemma_params_model_index(es@, from + i);
            if i > 0 {
                assert(out@[i] == pre_rest[i - 1]);
                lemma_params_model_index(pre_rest, i - 1);
            }
        }
        assert(lhs =~= rhs);
    }
    out
}

/// Copies of the object entries from `from` on.
fn clone_entries(entries: &Vec<(String, ParamValue)>, from: usize) -> (r: Vec<
    (String, ParamValue),
>)
    requires
        from <= entries@.len(),
    ensures
        entries_model(r@) == entries_model(entries@).skip(from as int),
    decreases entries, entries@.len() - from,
{
    proof {
        lemma_entries_model_len(entries@);
    }
    let mut out: Vec<(String, ParamValue)> = Vec::new();
    if from == entries.len() {
        proof {
            assert(entries_model(out@) =~= entries_model(entries@).skip(from as int));
        }
        return out;
    }
    let key = entries[from].0.clone();
    let val = clone_param(&entries[from].1);
    out.push((key, val));
    let mut rest = clone_entries(entries, from + 1);
    let ghost pre_rest = rest@;
    out.append(&mut rest);
    proof {
        let lhs = entries_model(out@);
        let rhs = entries_model(entries@).skip(from as int);
        lemma_entries_model_len(out@);
        lemma_entries_model_len(pre_rest);
        assert forall|i: int| 0 <= i < lhs.len() implies lhs[i] == rhs[i] by {
            lemma_entries_model_index(out@, i);
            lemma_entries_model_index(entries@, from + i);
            if i > 0 {
                assert(out@[i] == pre_rest[i - 1]);
                lemma_entries_model_index(pre_rest, i - 1);
            }
        }
        assert(lhs =~= rhs);
    }
    out
}

impl Clone for ParamValue {
    /// Cloning keeps the model.
    fn clone(&self) -> (r: Self)
        ensures
            r@ == self@,
    {
        clone_param(self)
    }
}

} // verus!
