//! The rule-based parser. Two rules, applied in order: every
//! non-overlapping occurrence of the explicit `app:action(args)` syntax
//! becomes one intent, scanning left to right; then each keyword of a
//! fixed map whose application the explicit matches did not cover becomes
//! one keyword intent.

use vstd::prelude::*;
use crate::model::{ExplainPayload, IntentModel, MatchedRule, ParsedIntent};
use crate::params::{ParamModel, ParamValue};
use crate::text::{dec_chars, is_word_char, str_chars, word_char};

verus! {

/// The length of the maximal run of word characters starting at `i`.
pub open spec fn word_run(s: Seq<char>, i: int) -> nat
    decreases s.len() - i,
{
    if i < 0 || i >= s.len() || !is_word_char(s[i]) {
        0
    } else {
        1 + word_run(s, i + 1)
    }
}

/// The length of the maximal run of characters other than `)` starting at
/// `i`.
pub open spec fn arg_run(s: Seq<char>, i: int) -> nat
    decreases s.len() - i,
{
    if i < 0 || i >= s.len() || s[i] == ')' {
        0
    } else {
        1 + arg_run(s, i + 1)
    }
}

/// Whether an explicit match `app:action(args)` begins at position `i`:
/// a non-empty word run, a colon, a non-empty word run, an opening
/// parenthesis, a run free of closing parentheses, and the closing
/// parenthesis.
pub open spec fn match_at(s: Seq<char>, i: int) -> bool {
    let a = word_run(s, i) as int;
    let b = word_run(s, i + a + 1) as int;
    let c = arg_run(s, i + a + 1 + b + 1) as int;
    &&& 0 <= i
    &&& a > 0
    &&& i + a < s.len()
    &&& s[i + a] == ':'
    &&& b > 0
    &&& i + a + 1 + b < s.len()
    &&& s[i + a + 1 + b] == '('
    &&& i + a + 1 + b + 1 + c < s.len()
    &&& s[i + a + 1 + b + 1 + c] == ')'
}

/// The position just after the match starting at `i`.
pub open spec fn match_end(s: Seq<char>, i: int) -> int {
    let a = word_run(s, i) as int;
    let b = word_run(s, i + a + 1) as int;
    let c = arg_run(s, i + a + 1 + b + 1) as int;
    i + a + 1 + b + 1 + c + 1
}

/// The application text of the match starting at `i`.
pub open spec fn match_app(s: Seq<char>, i: int) -> Seq<char> {
    s.subrange(i, i + word_run(s, i) as int)
}

/// The action text of the match starting at `i`.
pub open spec fn match_action(s: Seq<char>, i: int) -> Seq<char> {
    let a = word_run(s, i) as int;
    s.subrange(i + a + 1, i + a + 1 + word_run(s, i + a + 1) as int)
}

/// The raw argument text of the match starting at `i`.
pub open spec fn match_args(s: Seq<char>, i: int) -> Seq<char> {
    let a = word_run(s, i) as int;
    let b = word_run(s, i + a + 1) as int;
    let start = i + a + 1 + b + 1;
    s.subrange(start, start + arg_run(s, start) as int)
}

/// The parameters of an explicit match: an empty object for empty
/// arguments, else an object with the raw text under the key `arg`.
pub open spec fn match_params(s: Seq<char>, i: int) -> ParamModel {
    if match_args(s, i).len() == 0 {
        ParamModel::Obj(Seq::empty())
    } else {
        ParamModel::Obj(seq![("arg"@, ParamModel::Str(match_args(s, i)))])
    }
}

/// The intent of the explicit match starting at `i`, with an empty id.
pub open spec fn match_intent(s: Seq<char>, i: int) -> IntentModel {
    IntentModel {
        id: Seq::empty(),
        action_name: match_action(s, i),
        target_app_id: Option::Some(match_app(s, i)),
        params: match_params(s, i),
        confidence: 100,
        source_start: 0,
        source_end: s.len() as int,
        explicit: true,
    }
}

/// The intents of the explicit matches found from position `i` on,
/// scanning left to right and resuming after each match.
pub open spec fn explicit_from(s: Seq<char>, i: int) -> Seq<IntentModel>
    decreases s.len() - i,
{
    if i < 0 || i >= s.len() {
        Seq::empty()
    } else if match_at(s, i) {
        if match_end(s, i) > i {
            seq![match_intent(s, i)] + explicit_from(s, match_end(s, i))
        } else {
            Seq::empty()
        }
    } else {
        explicit_from(s, i + 1)
    }
}

/// All explicit intents of the input.
pub open spec fn explicit_intents(s: Seq<char>) -> Seq<IntentModel> {
    explicit_from(s, 0)
}

/// Whether `needle` occurs in `hay`.
pub open spec fn contains_sub(hay: Seq<char>, needle: Seq<char>) -> bool {
    exists|i: int|
        0 <= i <= hay.len() - needle.len() && #[trigger] hay.subrange(i, i + needle.len() as int)
            == needle
}

/// Whether some explicit match targets the application.
pub open spec fn app_covered(s: Seq<char>, app: Seq<char>) -> bool {
    exists|k: int|
        0 <= k < explicit_intents(s).len() && #[trigger] explicit_intents(s)[k].target_app_id
            == Option::Some(app)
}

/// The keyword of the keyword rule that targets the application.
pub open spec fn keyword_of_app(app: Seq<char>) -> Seq<char> {
    if app == "clipboard"@ {
        seq!['\u{526a}', '\u{8d34}', '\u{677f}']
    } else {
        app
    }
}

/// The intent a keyword rule emits, with an empty id.
pub open spec fn keyword_intent(s: Seq<char>, app: Seq<char>, action: Seq<char>) -> IntentModel {
    IntentModel {
        id: Seq::empty(),
        action_name: action,
        target_app_id: Option::Some(app),
        params: ParamModel::Obj(Seq::empty()),
        confidence: 75,
        source_start: 0,
        source_end: s.len() as int,
        explicit: false,
    }
}

/// The keyword intents of the input: for each keyword of the fixed map,
/// in map order, one intent when the keyword occurs in the input and no
/// explicit match already covers its application.
pub open spec fn keyword_intents(s: Seq<char>) -> Seq<IntentModel> {
    (if contains_sub(s, "hosts"@) && !app_covered(s, "hosts"@) {
        seq![keyword_intent(s, "hosts"@, "switch"@)]
    } else {
        Seq::empty()
    }) + (if contains_sub(s, seq!['\u{526a}', '\u{8d34}', '\u{677f}']) && !app_covered(
        s,
        "clipboard"@,
    ) {
        seq![keyword_intent(s, "clipboard"@, "openHistory"@)]
    } else {
        Seq::empty()
    })
}

/// All intents the parser produces for the input, with empty ids: the
/// explicit intents in match order, then the keyword intents.
pub open spec fn expected_intents(s: Seq<char>) -> Seq<IntentModel> {
    explicit_intents(s) + keyword_intents(s)
}

/// An intent with its id blanked.
pub open spec fn strip_id(i: IntentModel) -> IntentModel {
    IntentModel { id: Seq::empty(), ..i }
}

/// The intents with their ids blanked.
pub open spec fn strip_ids(intents: Seq<IntentModel>) -> Seq<IntentModel> {
    intents.map_values(|i: IntentModel| strip_id(i))
}

/// Pairwise distinct intent ids.
pub open spec fn distinct_ids(intents: Seq<IntentModel>) -> bool {
    forall|i: int, j: int|
        0 <= i < j < intents.len() ==> #[trigger] intents[i].id != #[trigger] intents[j].id
}

/// The explain token recorded for an intent.
pub open spec fn token_of(i: IntentModel) -> Seq<char> {
    let app = match i.target_app_id {
        Option::Some(a) => a,
        Option::None => Seq::empty(),
    };
    if i.explicit {
        "explicit:"@ + app + seq![':'] + i.action_name
    } else {
        "kw:"@ + keyword_of_app(app) + "->"@ + app + seq![':'] + i.action_name
    }
}

/// The rule identifier recorded for an intent.
pub open spec fn rule_of(i: IntentModel) -> Seq<char> {
    let app = match i.target_app_id {
        Option::Some(a) => a,
        Option::None => Seq::empty(),
    };
    if i.explicit {
        "explicit:"@ + app + seq![':'] + i.action_name
    } else {
        "kw:"@ + keyword_of_app(app)
    }
}

/// What a parse result promises: the produced intents are the expected
/// ones up to their fresh ids, the ids are pairwise distinct, and the
/// explain payload, when asked for, carries one token and one matched
/// rule per intent, each rule naming its intent's id and weight.
pub open spec fn parse_post(
    s: Seq<char>,
    intents: Seq<IntentModel>,
    explain: Option<crate::model::ExplainModel>,
    want_explain: bool,
) -> bool {
    &&& strip_ids(intents) == expected_intents(s)
    &&& distinct_ids(intents)
    &&& if want_explain {
        match explain {
            Option::Some(e) => {
                &&& e.tokens.len() == intents.len()
                &&& forall|k: int|
                    0 <= k < intents.len() ==> #[trigger] e.tokens[k] == token_of(intents[k])
                &&& e.matched_rules.len() == intents.len()
                &&& forall|k: int|
                    0 <= k < intents.len() ==> (#[trigger] e.matched_rules[k]).rule_id == rule_of(
                        intents[k],
                    ) && e.matched_rules[k].weight == intents[k].confidence
                        && e.matched_rules[k].intent_id == Option::Some(intents[k].id)
            },
            Option::None => false,
        }
    } else {
        explain is None
    }
}

/// Parsing options.
#[derive(Debug, PartialEq, Clone)]
pub struct ParseOptions {
    pub enable_explain: bool,
}

impl Default for ParseOptions {
    /// By default no explain payload is produced.
    fn default() -> (r: Self)
        ensures
            r.enable_explain == false,
    {
        ParseOptions { enable_explain: false }
    }
}

/// A parse result: the intents, and the explain payload when asked for.
#[derive(Debug, PartialEq)]
pub struct ParseResult {
    pub intents: Vec<ParsedIntent>,
    pub explain: Option<ExplainPayload>,
}

/// A parser from free-form input to intents.
pub trait IntentParser {
    fn parse(&self, input: &str, opts: &ParseOptions) -> ParseResult;
}

/// The rule-based parser: explicit syntax first, keyword fallback second.
#[derive(Debug, PartialEq)]
pub struct RuleBasedParser {
}

impl RuleBasedParser {
    /// A parser with the fixed keyword map.
    pub fn new() -> (r: Self) {
        RuleBasedParser {  }
    }
}

/// The maximal word run starting at `i`.
fn scan_word_run(s: &Vec<char>, i: usize) -> (r: usize)
    requires
        i <= s@.len(),
    ensures
        r == word_run(s@, i as int),
        i + r <= s@.len(),
    decreases s@.len() - i,
{
    if i == s.len() {
        return 0;
    }
    if !word_char(s[i]) {
        return 0;
    }
    let rest = scan_word_run(s, i + 1);
    1 + rest
}

/// The maximal run free of `)` starting at `i`.
fn scan_arg_run(s: &Vec<char>, i: usize) -> (r: usize)
    requires
        i <= s@.len(),
    ensures
        r == arg_run(s@, i as int),
        i + r <= s@.len(),
    decreases s@.len() - i,
{
    if i == s.len() {
        return 0;
    }
    if s[i] == ')' {
        return 0;
    }
    let rest = scan_arg_run(s, i + 1);
    1 + rest
}

/// Whether `needle` occurs in `hay`.
fn find_sub(hay: &Vec<char>, needle: &Vec<char>) -> (r: bool)
    ensures
        r == contains_sub(hay@, needle@),
{
    if needle.len() > hay.len() {
        proof {
            assert(!contains_sub(hay@, needle@));
        }
        return false;
    }
    let mut i: usize = 0;
    while i <= hay.len() - needle.len()
        invariant
            needle@.len() <= hay@.len(),
            0 <= i <= hay@.len() - needle@.len() + 1,
            forall|p: int|
                0 <= p < i ==> #[trigger] hay@.subrange(p, p + needle@.len() as int) != needle@,
        decreases hay@.len() - needle@.len() + 1 - i,
    {
        let mut k: usize = 0;
        let mut all = true;
        while k < needle.len()
            invariant
                0 <= k <= needle@.len(),
                i + needle@.len() <= hay@.len(),
                hay@.len() <= usize::MAX,
                all == (forall|q: int| 0 <= q < k ==> hay@[i + q] == #[trigger] needle@[q]),
            decreases needle@.len() - k,
        {
            let ghost pre_all = all;
            if hay[i + k] != needle[k] {
                all = false;
            }
            proof {
                if pre_all && hay@[i + k] == needle@[k as int] {
                    assert(all == (forall|q: int|
                        0 <= q < k + 1 ==> hay@[i + q] == #[trigger] needle@[q]));
                } else {
                    assert(!all);
                    if hay@[i + k] != needle@[k as int] {
                        assert(!(forall|q: int|
                            0 <= q < k + 1 ==> hay@[i + q] == #[trigger] needle@[q])) by {
                            assert(hay@[i + k as int] != needle@[k as int]);
                        }
                    } else {
                        let q0 = choose|q: int|
                            0 <= q < k && hay@[i + q] != #[trigger] needle@[q];
                        assert(hay@[i + q0] != needle@[q0]);
                    }
                }
            }
            k = k + 1;
        }
        if all {
            proof {
                assert(hay@.subrange(i as int, i + needle@.len() as int) =~= needle@);
            }
            return true;
        }
        proof {
            if hay@.subrange(i as int, i + needle@.len() as int) == needle@ {
                let q0 = choose|q: int| 0 <= q < needle@.len() && hay@[i + q] != needle@[q];
                assert(hay@.subrange(i as int, i + needle@.len() as int)[q0] == hay@[i + q0]);
            }
        }
        i = i + 1;
    }
    proof {
        assert forall|p: int|
            0 <= p <= hay@.len() - needle@.len() implies #[trigger] hay@.subrange(
            p,
            p + needle@.len() as int,
        ) != needle@ by {
            assert(p < i);
        }
    }
    false
}

/// The id of the `k`-th intent of one parse: the parse's fresh base
/// followed by `-` and the index.
pub open spec fn id_text(base: Seq<char>, k: int) -> Seq<char> {
    base + seq!['-'] + dec_chars(k as nat)
}

/// Ids built from one base and distinct indices differ.
pub proof fn lemma_id_inj(base: Seq<char>, a: int, b: int)
    requires
        a >= 0,
        b >= 0,
        id_text(base, a) == id_text(base, b),
    ensures
        a == b,
{
    let ta = id_text(base, a);
    let tb = id_text(base, b);
    assert(ta.subrange(base.len() as int + 1, ta.len() as int) =~= dec_chars(a as nat));
    assert(tb.subrange(base.len() as int + 1, tb.len() as int) =~= dec_chars(b as nat));
    crate::text::lemma_dec_chars_inj(a as nat, b as nat);
}

/// The characters of `s` between `from` and `to`.
fn subvec(s: &Vec<char>, from: usize, to: usize) -> (r: Vec<char>)
    requires
        from <= to <= s@.len(),
    ensures
        r@ == s@.subrange(from as int, to as int),
{
    let mut out: Vec<char> = Vec::new();
    let mut k: usize = from;
    proof {
        assert(out@ =~= s@.subrange(from as int, from as int));
    }
    while k < to
        invariant
            from <= k <= to <= s@.len(),
            out@ == s@.subrange(from as int, k as int),
        decreases to - k,
    {
        out.push(s[k]);
        proof {
            assert(out@ =~= s@.subrange(from as int, k + 1));
        }
        k = k + 1;
    }
    out
}

/// The id of the `k`-th intent of this parse.
fn make_id(base: &Vec<char>, k: usize) -> (r: String)
    ensures
        r@ == id_text(base@, k as int),
{
    let mut chars: Vec<char> = Vec::new();
    crate::text::push_all(&mut chars, base);
    chars.push('-');
    let digits = crate::text::u64_dec(k as u64);
    crate::text::push_all(&mut chars, &digits);
    proof {
        assert(chars@ =~= id_text(base@, k as int));
    }
    crate::text::chars_string(&chars)
}

/// The spans of the explicit match at `pos`, when one begins there.
fn try_match(s: &Vec<char>, pos: usize) -> (r: Option<(usize, usize, usize)>)
    requires
        pos < s@.len(),
    ensures
        match r {
            Option::Some(spans) => {
                &&& match_at(s@, pos as int)
                &&& spans.0 == word_run(s@, pos as int)
                &&& spans.1 == word_run(s@, pos + spans.0 + 1)
                &&& spans.2 == arg_run(s@, pos + spans.0 + 1 + spans.1 + 1)
                &&& pos + spans.0 + 1 + spans.1 + 1 + spans.2 + 1 <= s@.len()
            },
            Option::None => !match_at(s@, pos as int),
        },
{
    let n = s.len();
    let a = scan_word_run(s, pos);
    if a == 0 || pos + a >= n {
        return Option::None;
    }
    if s[pos + a] != ':' {
        return Option::None;
    }
    let b = scan_word_run(s, pos + a + 1);
    if b == 0 || pos + a + 1 + b >= n {
        return Option::None;
    }
    if s[pos + a + 1 + b] != '(' {
        return Option::None;
    }
    let c = scan_arg_run(s, pos + a + 1 + b + 1);
    if pos + a + 1 + b + 1 + c >= n {
        return Option::None;
    }
    if s[pos + a + 1 + b + 1 + c] != ')' {
        return Option::None;
    }
    Option::Some((a, b, c))
}

/// Whether some explicit intent already targets the application.
fn covered_exec(intents: &Vec<ParsedIntent>, app: &Vec<char>) -> (r: bool)
    ensures
        r == exists|k: int|
            0 <= k < intents.deep_view().len() && (#[trigger] intents.deep_view()[
                k
            ]).target_app_id == Option::Some(app@),
{
    let mut k: usize = 0;
    while k < intents.len()
        invariant
            0 <= k <= intents@.len(),
            forall|q: int|
                0 <= q < k ==> (#[trigger] intents.deep_view()[q]).target_app_id != Option::Some(
                    app@,
                ),
        decreases intents@.len() - k,
    {
        let hit = match &intents[k].target_app_id {
            Option::Some(a) => {
                let a_chars = str_chars(a.as_str());
                crate::text::chars_eq(&a_chars, app)
            },
            Option::None => false,
        };
        proof {
            assert(intents.deep_view()[k as int] == intents@[k as int].deep_view());
        }
        if hit {
            proof {
                assert(intents.deep_view()[k as int].target_app_id == Option::Some(app@));
            }
            return true;
        }
        k = k + 1;
    }
    false
}

impl RuleBasedParser {
    /// Parse the input: every explicit `app:action(args)` occurrence in
    /// left-to-right order, then one keyword intent per uncovered keyword
    /// of the fixed map. Each intent gets a fresh id, distinct within this
    /// parse; the explain payload is produced exactly when asked for.
    pub fn parse_input(&self, input: &str, opts: &ParseOptions) -> (r: ParseResult)
        requires
            input@.len() <= u32::MAX,
        ensures
            parse_post(input@, r.intents.deep_view(), r.explain.deep_view(), opts.enable_explain),
    {
        let s = str_chars(input);
        let ghost sv = input@;
        let base = crate::util::new_uuid();
        let base_chars = str_chars(base.as_str());
        let source_end: u32 = s.len() as u32;
        let want = opts.enable_explain;
        let mut intents: Vec<ParsedIntent> = Vec::new();
        let mut tokens: Vec<String> = Vec::new();
        let mut rules: Vec<MatchedRule> = Vec::new();
        let mut pos: usize = 0;
        proof {
            assert(strip_ids(intents.deep_view()) =~= Seq::<IntentModel>::empty());
        }
        while pos < s.len()
            invariant
                0 <= pos <= s@.len(),
                s@ == sv,
                sv.len() <= u32::MAX,
                source_end == sv.len(),
                base_chars@ == base@,
                strip_ids(intents.deep_view()) + explicit_from(sv, pos as int) == explicit_intents(
                    sv,
                ),
                forall|k: int|
                    0 <= k < intents.deep_view().len() ==> (#[trigger] intents.deep_view()[k]).id
                        == id_text(base@, k),
                want ==> tokens.deep_view().len() == intents.deep_view().len() && forall|k: int|
                    0 <= k < intents.deep_view().len() ==> #[trigger] tokens.deep_view()[k]
                        == token_of(intents.deep_view()[k]),
                want ==> rules.deep_view().len() == intents.deep_view().len() && forall|k: int|
                    0 <= k < intents.deep_view().len() ==> (#[trigger] rules.deep_view()[
                        k
                    ]).rule_id == rule_of(intents.deep_view()[k]) && rules.deep_view()[k].weight
                        == intents.deep_view()[k].confidence && rules.deep_view()[k].intent_id
                        == Option::Some(intents.deep_view()[k].id),
                !want ==> tokens@.len() == 0 && rules@.len() == 0,
            decreases s@.len() - pos,
        {
            let m = try_match(&s, pos);
            match m {
                Option::Some((a, b, c)) => {
                    let app_chars = subvec(&s, pos, pos + a);
                    let action_chars = subvec(&s, pos + a + 1, pos + a + 1 + b);
                    let args_chars = subvec(
                        &s,
                        pos + a + 1 + b + 1,
                        pos + a + 1 + b + 1 + c,
                    );
                    let app = crate::text::chars_string(&app_chars);
                    let action = crate::text::chars_string(&action_chars);
                    let params: ParamValue;
                    if c == 0 {
                        params = ParamValue::Obj(Vec::new());
                    } else {
                        let args = crate::text::chars_string(&args_chars);
                        let mut key = String::new();
                        key.append("arg");
                        let mut entries: Vec<(String, ParamValue)> = Vec::new();
                        entries.push((key, ParamValue::Str(args)));
                        params = ParamValue::Obj(entries);
                    }
                    let id = make_id(&base_chars, intents.len());
                    let intent = ParsedIntent {
                        id,
                        action_name: action,
                        target_app_id: Option::Some(app),
                        params,
                        confidence: 100,
                        source_start: 0,
                        source_end,
                        explicit: true,
                    };
                    proof {
                        crate::params::lemma_entries_model_len(intent.params->Obj_0@);
                        if c > 0 {
                            crate::params::lemma_entries_model_index(intent.params->Obj_0@, 0);
                            assert(crate::params::entries_model(
                                intent.params->Obj_0@,
                            ) =~= seq![("arg"@, ParamModel::Str(match_args(sv, pos as int)))]);
                        } else {
                            assert(crate::params::entries_model(intent.params->Obj_0@) =~= Seq::<
                                (Seq<char>, ParamModel),
                            >::empty());
                        }
                        assert(strip_id(intent.deep_view()) == match_intent(sv, pos as int));
                    }
                    let ghost pre = intents.deep_view();
                    let ghost pre_tokens = tokens.deep_view();
                    let ghost pre_rules = rules.deep_view();
                    if want {
                        let mut token_chars: Vec<char> = Vec::new();
                        let prefix = str_chars("explicit:");
                        crate::text::push_all(&mut token_chars, &prefix);
                        crate::text::push_all(&mut token_chars, &app_chars);
                        token_chars.push(':');
                        crate::text::push_all(&mut token_chars, &action_chars);
                        proof {
                            assert(token_chars@ =~= token_of(intent.deep_view()));
                            assert(token_of(intent.deep_view()) == rule_of(intent.deep_view()));
                        }
                        let token = crate::text::chars_string(&token_chars);
                        let rule_text = crate::text::chars_string(&token_chars);
                        tokens.push(token);
                        rules.push(
                            MatchedRule {
                                rule_id: rule_text,
                                weight: 100,
                                intent_id: Option::Some(intent.id.clone()),
                            },
                        );
                    }
                    intents.push(intent);
                    proof {
                        assert(intents.deep_view().len() == pre.len() + 1);
                        assert(intents.deep_view()[pre.len() as int] == intent.deep_view());
                        assert(forall|q: int|
                            0 <= q < pre.len() ==> intents.deep_view()[q] == pre[q]);
                        assert(strip_ids(intents.deep_view()) =~= strip_ids(pre).push(
                            match_intent(sv, pos as int),
                        ));
                        assert(match_end(sv, pos as int) == pos + a + 1 + b + 1 + c + 1);
                        assert(explicit_from(sv, pos as int) == seq![match_intent(sv, pos as int)]
                            + explicit_from(sv, match_end(sv, pos as int)));
                        assert(strip_ids(intents.deep_view()) + explicit_from(
                            sv,
                            pos + a + 1 + b + 1 + c + 1,
                        ) =~= explicit_intents(sv));
                        assert(intent.deep_view().id == id_text(base@, pre.len() as int));
                        assert forall|k: int|
                            0 <= k < intents.deep_view().len() implies (
                        #[trigger] intents.deep_view()[k]).id == id_text(base@, k) by {
                            if k < pre.len() {
                                assert(intents.deep_view()[k] == pre[k]);
                                assert(pre[k].id == id_text(base@, k));
                            }
                        }
                        if want {
                            assert(tokens.deep_view().len() == pre_tokens.len() + 1);
                            assert(tokens.deep_view()[pre_tokens.len() as int] == token_of(
                                intent.deep_view(),
                            ));
                            assert(forall|q: int|
                                0 <= q < pre_tokens.len() ==> tokens.deep_view()[q]
                                    == pre_tokens[q]);
                            assert forall|k: int|
                                0 <= k < tokens.deep_view().len() implies
                                #[trigger] tokens.deep_view()[k] == token_of(
                                intents.deep_view()[k],
                            ) by {
                                if k < pre_tokens.len() {
                                    assert(tokens.deep_view()[k] == pre_tokens[k]);
                                    assert(intents.deep_view()[k] == pre[k]);
                                    assert(pre_tokens[k] == token_of(pre[k]));
                                }
                            }
                            assert(rules.deep_view().len() == pre_rules.len() + 1);
                            assert((rules.deep_view()[pre_rules.len() as int]).rule_id == rule_of(
                                intent.deep_view(),
                            ));
                            assert(forall|q: int|
                                0 <= q < pre_rules.len() ==> rules.deep_view()[q] == pre_rules[q]);
                            assert forall|k: int|
                                0 <= k < rules.deep_view().len() implies (
                            #[trigger] rules.deep_view()[k]).rule_id == rule_of(
                                intents.deep_view()[k],
                            ) && rules.deep_view()[k].weight == intents.deep_view()[k].confidence
                                && rules.deep_view()[k].intent_id == Option::Some(
                                intents.deep_view()[k].id,
                            ) by {
                                if k < pre_rules.len() {
                                    assert(rules.deep_view()[k] == pre_rules[k]);
                                    assert(intents.deep_view()[k] == pre[k]);
                                }
                            }
                        }
                    }
                    pos = pos + a + 1 + b + 1 + c + 1;
                },
                Option::None => {
                    proof {
                        assert(explicit_from(sv, pos as int) == explicit_from(sv, pos + 1));
                    }
                    pos = pos + 1;
                },
            }
        }
        proof {
            assert(explicit_from(sv, pos as int) =~= Seq::<IntentModel>::empty());
            assert(strip_ids(intents.deep_view()) =~= explicit_intents(sv));
        }
        let ghost explicit_n = intents.deep_view().len();
        let kw_hosts = str_chars("hosts");
        let kw_clip = str_chars("\u{526a}\u{8d34}\u{677f}");
        proof {
            reveal_strlit("\u{526a}\u{8d34}\u{677f}");
            assert(kw_clip@ =~= seq!['\u{526a}', '\u{8d34}', '\u{677f}']);
        }
        let hosts_hit = find_sub(&s, &kw_hosts) && !covered_exec(&intents, &kw_hosts);
        proof {
            assert forall|k: int| 0 <= k < explicit_intents(sv).len() implies (
            #[trigger] explicit_intents(sv)[k]).target_app_id == strip_ids(intents.deep_view())[
                k
            ].target_app_id by {
            }
            assert((exists|k: int|
                0 <= k < intents.deep_view().len() && (#[trigger] intents.deep_view()[
                    k
                ]).target_app_id == Option::Some("hosts"@)) == app_covered(sv, "hosts"@)) by {
                if exists|k: int|
                    0 <= k < intents.deep_view().len() && (#[trigger] intents.deep_view()[
                        k
                    ]).target_app_id == Option::Some("hosts"@) {
                    let k = choose|k: int|
                        0 <= k < intents.deep_view().len() && (#[trigger] intents.deep_view()[
                            k
                        ]).target_app_id == Option::Some("hosts"@);
                    assert(explicit_intents(sv)[k].target_app_id == Option::Some("hosts"@));
                }
                if app_covered(sv, "hosts"@) {
                    let k = choose|k: int|
                        0 <= k < explicit_intents(sv).len() && (#[trigger] explicit_intents(sv)[
                            k
                        ]).target_app_id == Option::Some("hosts"@);
                    assert(strip_ids(intents.deep_view())[k].target_app_id == Option::Some(
                        "hosts"@,
                    ));
                    assert(intents.deep_view()[k].target_app_id == Option::Some("hosts"@));
                }
            }
        }
        if hosts_hit {
            let id = make_id(&base_chars, intents.len());
            let mut action = String::new();
            action.append("switch");
            let mut app = String::new();
            app.append("hosts");
            let intent = ParsedIntent {
                id,
                action_name: action,
                target_app_id: Option::Some(app),
                params: ParamValue::Obj(Vec::new()),
                confidence: 75,
                source_start: 0,
                source_end,
                explicit: false,
            };
            proof {
                crate::params::lemma_entries_model_len(intent.params->Obj_0@);
                assert(crate::params::entries_model(intent.params->Obj_0@) =~= Seq::<
                    (Seq<char>, ParamModel),
                >::empty());
                assert(strip_id(intent.deep_view()) == keyword_intent(sv, "hosts"@, "switch"@));
            }
            let ghost pre = intents.deep_view();
            let ghost pre_tokens = tokens.deep_view();
            let ghost pre_rules = rules.deep_view();
            if want {
                let mut token_chars: Vec<char> = Vec::new();
                let t = str_chars("kw:hosts->hosts:switch");
                crate::text::push_all(&mut token_chars, &t);
                proof {
                    reveal_strlit("kw:hosts->hosts:switch");
                    reveal_strlit("kw:");
                    reveal_strlit("->");
                    reveal_strlit("hosts");
                    reveal_strlit("switch");
                    reveal_strlit("clipboard");
                    assert(keyword_of_app("hosts"@) =~= "hosts"@);
                    assert(token_chars@ =~= token_of(intent.deep_view()));
                }
                let token = crate::text::chars_string(&token_chars);
                let mut rule_chars: Vec<char> = Vec::new();
                let rt = str_chars("kw:hosts");
                crate::text::push_all(&mut rule_chars, &rt);
                proof {
                    reveal_strlit("kw:hosts");
                    assert(rule_chars@ =~= rule_of(intent.deep_view()));
                }
                let rule_text = crate::text::chars_string(&rule_chars);
                tokens.push(token);
                rules.push(
                    MatchedRule {
                        rule_id: rule_text,
                        weight: 75,
                        intent_id: Option::Some(intent.id.clone()),
                    },
                );
            }
            intents.push(intent);
            proof {
                assert(intents.deep_view().len() == pre.len() + 1);
                assert(intents.deep_view()[pre.len() as int] == intent.deep_view());
                assert(forall|q: int| 0 <= q < pre.len() ==> intents.deep_view()[q] == pre[q]);
                assert(strip_ids(intents.deep_view()) =~= strip_ids(pre).push(
                    keyword_intent(sv, "hosts"@, "switch"@),
                ));
                assert(intent.deep_view().id == id_text(base@, pre.len() as int));
                assert forall|k: int|
                    0 <= k < intents.deep_view().len() implies (#[trigger] intents.deep_view()[
                    k
                ]).id == id_text(base@, k) by {
                    if k < pre.len() {
                        assert(intents.deep_view()[k] == pre[k]);
                        assert(pre[k].id == id_text(base@, k));
                    }
                }
                if want {
                    assert(tokens.deep_view().len() == pre_tokens.len() + 1);
                    assert(tokens.deep_view()[pre_tokens.len() as int] == token_of(
                        intent.deep_view(),
                    ));
                    assert(forall|q: int|
                        0 <= q < pre_tokens.len() ==> tokens.deep_view()[q] == pre_tokens[q]);
                    assert forall|k: int|
                        0 <= k < tokens.deep_view().len() implies #[trigger] tokens.deep_view()[k]
                        == token_of(intents.deep_view()[k]) by {
                        if k < pre_tokens.len() {
                            assert(tokens.deep_view()[k] == pre_tokens[k]);
                            assert(intents.deep_view()[k] == pre[k]);
                            assert(pre_tokens[k] == token_of(pre[k]));
                        }
                    }
                    assert(rules.deep_view().len() == pre_rules.len() + 1);
                    assert((rules.deep_view()[pre_rules.len() as int]).rule_id == rule_of(
                        intent.deep_view(),
                    ));
                    assert(forall|q: int|
                        0 <= q < pre_rules.len() ==> rules.deep_view()[q] == pre_rules[q]);
                    assert forall|k: int|
                        0 <= k < rules.deep_view().len() implies (#[trigger] rules.deep_view()[
                        k
                    ]).rule_id == rule_of(intents.deep_view()[k]) && rules.deep_view()[k].weight
                        == intents.deep_view()[k].confidence && rules.deep_view()[k].intent_id
                        == Option::Some(intents.deep_view()[k].id) by {
                        if k < pre_rules.len() {
                            assert(rules.deep_view()[k] == pre_rules[k]);
                            assert(intents.deep_view()[k] == pre[k]);
                        }
                    }
                }
            }
        }
        let clip_sub = find_sub(&s, &kw_clip);
        let clip_app = str_chars("clipboard");
        let clip_cov = covered_exec(&intents, &clip_app);
        let clip_hit = clip_sub && !clip_cov;
        let ghost n_before_clip = intents.deep_view().len();
        proof {
            assert((exists|k: int|
                0 <= k < intents.deep_view().len() && (#[trigger] intents.deep_view()[
                    k
                ]).target_app_id == Option::Some("clipboard"@)) == app_covered(
                sv,
                "clipboard"@,
            )) by {
                reveal_strlit("clipboard");
                reveal_strlit("hosts");
                if exists|k: int|
                    0 <= k < intents.deep_view().len() && (#[trigger] intents.deep_view()[
                        k
                    ]).target_app_id == Option::Some("clipboard"@) {
                    let k = choose|k: int|
                        0 <= k < intents.deep_view().len() && (#[trigger] intents.deep_view()[
                            k
                        ]).target_app_id == Option::Some("clipboard"@);
                    assert(k < explicit_n || intents.deep_view()[k].target_app_id == Option::Some(
                        "hosts"@,
                    ));
                    assert(k < explicit_n);
                    assert(strip_ids(intents.deep_view())[k] == strip_id(intents.deep_view()[k]));
                    assert(explicit_intents(sv)[k].target_app_id == Option::Some("clipboard"@));
                }
                if app_covered(sv, "clipboard"@) {
                    let k = choose|k: int|
                        0 <= k < explicit_intents(sv).len() && (#[trigger] explicit_intents(sv)[
                            k
                        ]).target_app_id == Option::Some("clipboard"@);
                    assert(strip_ids(intents.deep_view())[k] == strip_id(intents.deep_view()[k]));
                    assert(intents.deep_view()[k].target_app_id == Option::Some("clipboard"@));
                }
            }
        }
        if clip_hit {
            let id = make_id(&base_chars, intents.len());
            let mut action = String::new();
            action.append("openHistory");
            let mut app = String::new();
            app.append("clipboard");
            let intent = ParsedIntent {
                id,
                action_name: action,
                target_app_id: Option::Some(app),
                params: ParamValue::Obj(Vec::new()),
                confidence: 75,
                source_start: 0,
                source_end,
                explicit: false,
            };
            proof {
                crate::params::lemma_entries_model_len(intent.params->Obj_0@);
                assert(crate::params::entries_model(intent.params->Obj_0@) =~= Seq::<
                    (Seq<char>, ParamModel),
                >::empty());
                assert(strip_id(intent.deep_view()) == keyword_intent(
                    sv,
                    "clipboard"@,
                    "openHistory"@,
                ));
            }
            let ghost pre = intents.deep_view();
            let ghost pre_tokens = tokens.deep_view();
            let ghost pre_rules = rules.deep_view();
            if want {
                let mut token_chars: Vec<char> = Vec::new();
                let t = str_chars("kw:\u{526a}\u{8d34}\u{677f}->clipboard:openHistory");
                crate::text::push_all(&mut token_chars, &t);
                proof {
                    reveal_strlit("kw:\u{526a}\u{8d34}\u{677f}->clipboard:openHistory");
                    reveal_strlit("kw:");
                    reveal_strlit("->");
                    reveal_strlit("clipboard");
                    reveal_strlit("openHistory");
                    assert(token_chars@ =~= token_of(intent.deep_view()));
                }
                let token = crate::text::chars_string(&token_chars);
                let mut rule_chars: Vec<char> = Vec::new();
                let rt = str_chars("kw:\u{526a}\u{8d34}\u{677f}");
                crate::text::push_all(&mut rule_chars, &rt);
                proof {
                    reveal_strlit("kw:\u{526a}\u{8d34}\u{677f}");
                    reveal_strlit("kw:");
                    assert(rule_chars@ =~= rule_of(intent.deep_view()));
                }
                let rule_text = crate::text::chars_string(&rule_chars);
                tokens.push(token);
                rules.push(
                    MatchedRule {
                        rule_id: rule_text,
                        weight: 75,
                        intent_id: Option::Some(intent.id.clone()),
                    },
                );
            }
            intents.push(intent);
            proof {
                assert(intents.deep_view().len() == pre.len() + 1);
                assert(intents.deep_view()[pre.len() as int] == intent.deep_view());
                assert(forall|q: int| 0 <= q < pre.len() ==> intents.deep_view()[q] == pre[q]);
                assert(strip_ids(intents.deep_view()) =~= strip_ids(pre).push(
                    keyword_intent(sv, "clipboard"@, "openHistory"@),
                ));
                assert(intent.deep_view().id == id_text(base@, pre.len() as int));
                assert forall|k: int|
                    0 <= k < intents.deep_view().len() implies (#[trigger] intents.deep_view()[
                    k
                ]).id == id_text(base@, k) by {
                    if k < pre.len() {
                        assert(intents.deep_view()[k] == pre[k]);
                        assert(pre[k].id == id_text(base@, k));
                    }
                }
                if want {
                    assert(tokens.deep_view().len() == pre_tokens.len() + 1);
                    assert(tokens.deep_view()[pre_tokens.len() as int] == token_of(
                        intent.deep_view(),
                    ));
                    assert(forall|q: int|
                        0 <= q < pre_tokens.len() ==> tokens.deep_view()[q] == pre_tokens[q]);
                    assert forall|k: int|
                        0 <= k < tokens.deep_view().len() implies #[trigger] tokens.deep_view()[k]
                        == token_of(intents.deep_view()[k]) by {
                        if k < pre_tokens.len() {
                            assert(tokens.deep_view()[k] == pre_tokens[k]);
                            assert(intents.deep_view()[k] == pre[k]);
                            assert(pre_tokens[k] == token_of(pre[k]));
                        }
                    }
                    assert(rules.deep_view().len() == pre_rules.len() + 1);
                    assert((rules.deep_view()[pre_rules.len() as int]).rule_id == rule_of(
                        intent.deep_view(),
                    ));
                    assert(forall|q: int|
                        0 <= q < pre_rules.len() ==> rules.deep_view()[q] == pre_rules[q]);
                    assert forall|k: int|
                        0 <= k < rules.deep_view().len() implies (#[trigger] rules.deep_view()[
                        k
                    ]).rule_id == rule_of(intents.deep_view()[k]) && rules.deep_view()[k].weight
                        == intents.deep_view()[k].confidence && rules.deep_view()[k].intent_id
                        == Option::Some(intents.deep_view()[k].id) by {
                        if k < pre_rules.len() {
                            assert(rules.deep_view()[k] == pre_rules[k]);
                            assert(intents.deep_view()[k] == pre[k]);
                        }
                    }
                }
            }
        }
        proof {
            assert(strip_ids(intents.deep_view()) =~= expected_intents(sv));
            assert forall|i: int, j: int|
                0 <= i < j < intents.deep_view().len() implies (#[trigger] intents.deep_view()[
                i
            ]).id != (#[trigger] intents.deep_view()[j]).id by {
                if intents.deep_view()[i].id == intents.deep_view()[j].id {
                    lemma_id_inj(base@, i, j);
                }
            }
        }
        let explain: Option<ExplainPayload>;
        if want {
            explain = Option::Some(ExplainPayload { tokens, matched_rules: rules });
        } else {
            explain = Option::None;
        }
        ParseResult { intents, explain }
    }
}

impl IntentParser for RuleBasedParser {
    /// Parse the input by the two rules; an input too long for the
    /// source-offset fields yields no intents.
    fn parse(&self, input: &str, opts: &ParseOptions) -> (r: ParseResult)
        ensures
            input@.len() <= u32::MAX ==> parse_post(
                input@,
                r.intents.deep_view(),
                r.explain.deep_view(),
                opts.enable_explain,
            ),
            input@.len() > u32::MAX ==> r.intents@.len() == 0 && r.explain is None,
    {
        if input.unicode_len() > 4294967295 {
            return ParseResult { intents: Vec::new(), explain: Option::None };
        }
        self.parse_input(input, opts)
    }
}

} // verus!
