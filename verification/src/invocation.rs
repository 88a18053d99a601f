//! Invocation types and argument validation: a request names an
//! application, an action and string arguments; validation holds the
//! arguments against the action's declared parameters, collecting missing
//! required arguments and type mismatches.

use vstd::prelude::*;
use crate::descriptor::{Action, ArgType};
use crate::params::ParamValue;

verus! {

/// A request to invoke one action of one application.
#[derive(Debug, PartialEq)]
pub struct InvocationRequest {
    pub app_id: String,
    pub action: String,
    pub args: Vec<(String, String)>,
    pub ts_ms: u128,
}

impl InvocationRequest {
    /// A request stamped with the current time.
    pub fn new(app_id: String, action: String, args: Vec<(String, String)>) -> (r: Self)
        ensures
            r.app_id@ == app_id@,
            r.action@ == action@,
            r.args@ == args@,
    {
        let ts = crate::util::now_ms() as u128;
        InvocationRequest { app_id, action, args, ts_ms: ts }
    }
}

/// The status of an invocation.
#[derive(Debug, PartialEq, Clone, Copy)]
pub enum InvocationStatus {
    Success,
    Error,
    Processing,
}

/// How long an invocation took.
#[derive(Debug, PartialEq, Clone, Copy)]
pub struct InvocationMeta {
    pub duration_ms: u128,
}

/// One argument problem: the argument's name and what went wrong.
#[derive(Debug, PartialEq)]
pub struct ArgError {
    pub name: String,
    pub kind: ArgErrorKind,
    pub message: String,
}

/// The kinds of argument problem.
#[derive(Debug, PartialEq, Clone, Copy)]
pub enum ArgErrorKind {
    Missing,
    TypeMismatch,
}

/// An invocation-level error with its argument problems.
#[derive(Debug, PartialEq)]
pub struct InvocationError {
    pub code: String,
    pub message: String,
    pub arg_errors: Vec<ArgError>,
}

/// The outcome of an invocation.
#[derive(Debug, PartialEq)]
pub struct InvocationResult {
    pub status: InvocationStatus,
    pub payload: Option<ParamValue>,
    pub error: Option<InvocationError>,
    pub meta: InvocationMeta,
}

/// Validation failed: the collected argument problems.
#[derive(Debug, PartialEq)]
pub enum ValidationFailure {
    Invalid(Vec<ArgError>),
}

/// An ASCII letter lowered, all other characters kept.
pub open spec fn lower_char(c: char) -> char {
    if 65 <= c as u32 && c as u32 <= 90 {
        ((c as u32 + 32) as u8) as char
    } else {
        c
    }
}

/// The ASCII-lowered form of a sequence.
pub open spec fn lower_ascii(s: Seq<char>) -> Seq<char> {
    s.map_values(|c: char| lower_char(c))
}

/// Whether a lowered text is one of the accepted boolean spellings, and
/// which value it names.
pub open spec fn bool_of(s: Seq<char>) -> Option<bool> {
    let l = lower_ascii(s);
    if l == "true"@ || l == "1"@ || l == "yes"@ || l == "on"@ {
        Option::Some(true)
    } else if l == "false"@ || l == "0"@ || l == "no"@ || l == "off"@ {
        Option::Some(false)
    } else {
        Option::None
    }
}

/// A decimal digit.
pub open spec fn is_digit(c: char) -> bool {
    48 <= c as u32 && c as u32 <= 57
}

/// A run of digits from `i` to `j`.
pub open spec fn digits_in(s: Seq<char>, i: int, j: int) -> bool {
    forall|k: int| i <= k < j ==> is_digit(#[trigger] s[k])
}

/// The body of a number after the optional sign: digits with an optional
/// point, at least one digit on some side of the point.
pub open spec fn mantissa_ok(s: Seq<char>) -> bool {
    ||| (s.len() > 0 && digits_in(s, 0, s.len() as int))
    ||| (s.len() > 1 && exists|d: int|
        0 <= d < s.len() && #[trigger] s[d] == '.' && digits_in(s, 0, d) && digits_in(
            s,
            d + 1,
            s.len() as int,
        ))
}

/// An exponent part: `e` or `E`, an optional sign, then digits.
pub open spec fn exponent_ok(s: Seq<char>) -> bool {
    s.len() >= 2 && (s[0] == 'e' || s[0] == 'E') && {
        let rest = if s[1] == '+' || s[1] == '-' {
            s.skip(2)
        } else {
            s.skip(1)
        };
        rest.len() > 0 && digits_in(rest, 0, rest.len() as int)
    }
}

/// A numeric text after the optional sign: the special spellings `inf`,
/// `infinity` and `nan` in any case, or a mantissa with an optional
/// exponent.
pub open spec fn unsigned_number_ok(s: Seq<char>) -> bool {
    let l = lower_ascii(s);
    ||| l == "inf"@
    ||| l == "infinity"@
    ||| l == "nan"@
    ||| exists|e: int|
        0 <= e <= s.len() && #[trigger] mantissa_ok(s.take(e)) && (e == s.len() || exponent_ok(
            s.skip(e),
        ))
}

/// A numeric text: an optional sign, then an unsigned number.
pub open spec fn is_number_text(s: Seq<char>) -> bool {
    if s.len() > 0 && (s[0] == '+' || s[0] == '-') {
        unsigned_number_ok(s.skip(1))
    } else {
        unsigned_number_ok(s)
    }
}

/// Whether a raw text fits a declared argument type: any text for a
/// string, a numeric text for a number, a boolean spelling for a boolean.
pub open spec fn type_ok(t: ArgType, raw: Seq<char>) -> bool {
    match t {
        ArgType::String => true,
        ArgType::Number => is_number_text(raw),
        ArgType::Boolean => bool_of(raw) is Some,
    }
}

/// The first value stored under the name.
pub open spec fn find_arg(pairs: Seq<(Seq<char>, Seq<char>)>, name: Seq<char>) -> Option<
    Seq<char>,
>
    decreases pairs,
{
    if pairs.len() == 0 {
        Option::None
    } else if pairs[0].0 == name {
        Option::Some(pairs[0].1)
    } else {
        find_arg(pairs.skip(1), name)
    }
}

/// The models of the argument pairs.
pub open spec fn pairs_view(pairs: Seq<(String, String)>) -> Seq<(Seq<char>, Seq<char>)> {
    pairs.map_values(|p: (String, String)| (p.0@, p.1@))
}

/// The argument problems of one declared argument: a missing required
/// argument, or a present required argument whose value does not fit its
/// type. An absent or ill-typed optional argument is ignored.
pub open spec fn arg_error_kind_of(
    def: crate::descriptor::ArgModel,
    pairs: Seq<(Seq<char>, Seq<char>)>,
) -> Option<ArgErrorKind> {
    match find_arg(pairs, def.name) {
        Option::None => if def.required {
            Option::Some(ArgErrorKind::Missing)
        } else {
            Option::None
        },
        Option::Some(v) => if def.required && !type_ok(def.arg_type, v) {
            Option::Some(ArgErrorKind::TypeMismatch)
        } else {
            Option::None
        },
    }
}

/// The expected argument problems, one per violated declaration, in
/// declaration order.
pub open spec fn expected_errors(
    defs: Seq<crate::descriptor::ArgModel>,
    pairs: Seq<(Seq<char>, Seq<char>)>,
) -> Seq<(Seq<char>, ArgErrorKind)>
    decreases defs,
{
    if defs.len() == 0 {
        Seq::empty()
    } else {
        (match arg_error_kind_of(defs[0], pairs) {
            Option::Some(k) => seq![(defs[0].name, k)],
            Option::None => Seq::empty(),
        }) + expected_errors(defs.skip(1), pairs)
    }
}

/// The name-and-kind views of collected argument errors.
pub open spec fn errors_view(es: Seq<ArgError>) -> Seq<(Seq<char>, ArgErrorKind)> {
    es.map_values(|e: ArgError| (e.name@, e.kind))
}

/// Whether a character is lowered by [`lower_char`].
fn lower_char_exec(c: char) -> (r: char)
    ensures
        r == lower_char(c),
{
    let n = c as u32;
    if 65 <= n && n <= 90 {
        ((n + 32) as u8) as char
    } else {
        c
    }
}

/// The ASCII-lowered form of a string's characters.
fn lower_chars(s: &Vec<char>) -> (r: Vec<char>)
    ensures
        r@ == lower_ascii(s@),
{
    let mut out: Vec<char> = Vec::new();
    let mut k: usize = 0;
    while k < s.len()
        invariant
            0 <= k <= s@.len(),
            out@.len() == k,
            forall|q: int| 0 <= q < k ==> out@[q] == lower_char(#[trigger] s@[q]),
        decreases s@.len() - k,
    {
        out.push(lower_char_exec(s[k]));
        k = k + 1;
    }
    proof {
        assert(out@ =~= lower_ascii(s@));
    }
    out
}

/// Parse a boolean spelling: `true`, `1`, `yes` and `on` in any case name
/// true; `false`, `0`, `no` and `off` name false; everything else is
/// refused.
pub fn parse_bool(v: &str) -> (r: Result<bool, ()>)
    ensures
        match r {
            Result::Ok(b) => bool_of(v@) == Option::Some(b),
            Result::Err(_) => bool_of(v@) is None,
        },
{
    let chars = crate::text::str_chars(v);
    let l = lower_chars(&chars);
    proof {
        reveal_strlit("true");
        reveal_strlit("1");
        reveal_strlit("yes");
        reveal_strlit("on");
        reveal_strlit("false");
        reveal_strlit("0");
        reveal_strlit("no");
        reveal_strlit("off");
    }
    let tt = crate::text::str_chars("true");
    let one = crate::text::str_chars("1");
    let yes = crate::text::str_chars("yes");
    let on = crate::text::str_chars("on");
    let ff = crate::text::str_chars("false");
    let zero = crate::text::str_chars("0");
    let no = crate::text::str_chars("no");
    let off = crate::text::str_chars("off");
    if crate::text::chars_eq(&l, &tt) || crate::text::chars_eq(&l, &one) || crate::text::chars_eq(
        &l,
        &yes,
    ) || crate::text::chars_eq(&l, &on) {
        Result::Ok(true)
    } else if crate::text::chars_eq(&l, &ff) || crate::text::chars_eq(&l, &zero)
        || crate::text::chars_eq(&l, &no) || crate::text::chars_eq(&l, &off) {
        Result::Ok(false)
    } else {
        Result::Err(())
    }
}

/// Whether every character in `[from, to)` is a digit.
fn digits_exec(s: &Vec<char>, from: usize, to: usize) -> (r: bool)
    requires
        from <= to <= s@.len(),
    ensures
        r == digits_in(s@, from as int, to as int),
{
    let mut k: usize = from;
    while k < to
        invariant
            from <= k <= to <= s@.len(),
            forall|q: int| from <= q < k ==> is_digit(#[trigger] s@[q]),
        decreases to - k,
    {
        let n = s[k] as u32;
        if n < 48 || n > 57 {
            return false;
        }
        k = k + 1;
    }
    true
}

/// Whether the unsigned part is numeric.
fn unsigned_number_exec(s: &Vec<char>) -> (r: bool)
    ensures
        r == unsigned_number_ok(s@),
{
    let l = lower_chars(s);
    proof {
        reveal_strlit("inf");
        reveal_strlit("infinity");
        reveal_strlit("nan");
    }
    let inf = crate::text::str_chars("inf");
    let infinity = crate::text::str_chars("infinity");
    let nan = crate::text::str_chars("nan");
    if crate::text::chars_eq(&l, &inf) || crate::text::chars_eq(&l, &infinity)
        || crate::text::chars_eq(&l, &nan) {
        return true;
    }
    let mut e: usize = 0;
    while e < s.len() && s[e] != 'e' && s[e] != 'E'
        invariant
            0 <= e <= s@.len(),
            forall|q: int| 0 <= q < e ==> s@[q] != 'e' && #[trigger] s@[q] != 'E',
        decreases s@.len() - e,
    {
        e = e + 1;
    }
    let mantissa_good = mantissa_exec(s, e);
    if !mantissa_good {
        proof {
            assert forall|e2: int|
                0 <= e2 <= s@.len() implies !(#[trigger] mantissa_ok(s@.take(e2)) && (e2
                == s@.len() || exponent_ok(s@.skip(e2)))) by {
                if e2 != e {
                    if e2 > e {
                        assert(!mantissa_ok(s@.take(e2))) by {
                            assert(s@.take(e2)[e as int] == s@[e as int]);
                            assert(s@[e as int] == 'e' || s@[e as int] == 'E');
                            if exists|d: int|
                                0 <= d < s@.take(e2).len() && #[trigger] s@.take(e2)[d] == '.' {
                                let d = choose|d: int|
                                    0 <= d < s@.take(e2).len() && #[trigger] s@.take(e2)[d]
                                        == '.';
                                assert(!is_digit(s@.take(e2)[e as int]));
                            } else {
                                assert(!is_digit(s@.take(e2)[e as int]));
                            }
                        }
                    } else {
                        assert(e2 < s@.len());
                        assert(!exponent_ok(s@.skip(e2))) by {
                            assert(s@.skip(e2)[0] == s@[e2]);
                            assert(s@[e2] != 'e' && s@[e2] != 'E');
                        }
                    }
                }
            }
        }
        return false;
    }
    if e == s.len() {
        proof {
            assert(mantissa_ok(s@.take(e as int)));
        }
        return true;
    }
    let exp_good = exponent_exec(s, e);
    proof {
        if exp_good {
            assert(mantissa_ok(s@.take(e as int)) && exponent_ok(s@.skip(e as int)));
        } else {
            assert forall|e2: int|
                0 <= e2 <= s@.len() implies !(#[trigger] mantissa_ok(s@.take(e2)) && (e2
                == s@.len() || exponent_ok(s@.skip(e2)))) by {
                if e2 > e {
                    assert(!mantissa_ok(s@.take(e2))) by {
                        assert(s@.take(e2)[e as int] == s@[e as int]);
                        if exists|d: int|
                            0 <= d < s@.take(e2).len() && #[trigger] s@.take(e2)[d] == '.' {
                            let d = choose|d: int|
                                0 <= d < s@.take(e2).len() && #[trigger] s@.take(e2)[d] == '.';
                            assert(!is_digit(s@.take(e2)[e as int]));
                        } else {
                            assert(!is_digit(s@.take(e2)[e as int]));
                        }
                    }
                } else if e2 < e {
                    assert(!exponent_ok(s@.skip(e2))) by {
                        assert(s@.skip(e2)[0] == s@[e2]);
                    }
                }
            }
        }
    }
    exp_good
}

/// Whether `s` up to `e` is a valid mantissa.
fn mantissa_exec(s: &Vec<char>, e: usize) -> (r: bool)
    requires
        e <= s@.len(),
    ensures
        r == mantissa_ok(s@.take(e as int)),
{
    let ghost m = s@.take(e as int);
    let mut dot: usize = 0;
    while dot < e && s[dot] != '.'
        invariant
            0 <= dot <= e <= s@.len(),
            forall|q: int| 0 <= q < dot ==> #[trigger] s@[q] != '.',
        decreases e - dot,
    {
        dot = dot + 1;
    }
    proof {
        assert(forall|q: int| 0 <= q < m.len() ==> m[q] == #[trigger] s@[q]);
    }
    if dot == e {
        proof {
            assert(!exists|d: int| 0 <= d < m.len() && #[trigger] m[d] == '.');
        }
        let all = digits_exec(s, 0, e);
        proof {
            assert(digits_in(m, 0, m.len() as int) == digits_in(s@, 0, e as int));
            if e > 0 && all {
                assert(mantissa_ok(m));
            } else {
                assert(!mantissa_ok(m)) by {
                    if mantissa_ok(m) {
                        if m.len() > 1 && exists|d: int|
                            0 <= d < m.len() && #[trigger] m[d] == '.' && digits_in(m, 0, d)
                                && digits_in(m, d + 1, m.len() as int) {
                            let d = choose|d: int|
                                0 <= d < m.len() && #[trigger] m[d] == '.' && digits_in(m, 0, d)
                                    && digits_in(m, d + 1, m.len() as int);
                            assert(s@[d] != '.');
                        }
                    }
                }
            }
        }
        return e > 0 && all;
    }
    let left = digits_exec(s, 0, dot);
    let right = digits_exec(s, dot + 1, e);
    let good = left && right && e > 1;
    proof {
        assert(m[dot as int] == '.');
        assert(digits_in(m, 0, dot as int) == digits_in(s@, 0, dot as int));
        assert(digits_in(m, dot + 1, m.len() as int) == digits_in(s@, dot + 1, e as int));
        if good {
            assert(mantissa_ok(m)) by {
                assert(0 <= dot < m.len() && m[dot as int] == '.' && digits_in(m, 0, dot as int)
                    && digits_in(m, dot + 1, m.len() as int));
            }
        } else {
            assert(!mantissa_ok(m)) by {
                if mantissa_ok(m) {
                    if m.len() > 0 && digits_in(m, 0, m.len() as int) {
                        assert(is_digit(m[dot as int]));
                        assert(false);
                    }
                    let d = choose|d: int|
                        0 <= d < m.len() && #[trigger] m[d] == '.' && digits_in(m, 0, d)
                            && digits_in(m, d + 1, m.len() as int);
                    assert(d >= dot) by {
                        if d < dot {
                            assert(s@[d] != '.');
                        }
                    }
                    assert(d == dot) by {
                        if d > dot {
                            assert(is_digit(m[dot as int]));
                        }
                    }
                    assert(m.len() > 1);
                    assert(false);
                }
            }
        }
    }
    good
}

/// Whether `s` from `e` on is a valid exponent.
fn exponent_exec(s: &Vec<char>, e: usize) -> (r: bool)
    requires
        e < s@.len(),
    ensures
        r == exponent_ok(s@.skip(e as int)),
{
    let ghost x = s@.skip(e as int);
    let n = s.len();
    proof {
        assert(forall|q: int| 0 <= q < x.len() ==> x[q] == #[trigger] s@[e + q]);
    }
    if s[e] != 'e' && s[e] != 'E' {
        return false;
    }
    if e + 1 >= n {
        proof {
            assert(x.len() < 2);
        }
        return false;
    }
    let start: usize = if s[e + 1] == '+' || s[e + 1] == '-' {
        e + 2
    } else {
        e + 1
    };
    if start >= n {
        proof {
            if s@[e + 1] == '+' || s@[e + 1] == '-' {
                assert(x.skip(2) =~= s@.skip(e + 2));
                assert(x.skip(2).len() == 0);
            }
        }
        return false;
    }
    let digits = digits_exec(s, start, n);
    proof {
        if s@[e + 1] == '+' || s@[e + 1] == '-' {
            assert(x.skip(2) =~= s@.skip(e + 2));
            assert(forall|q: int|
                0 <= q < x.skip(2).len() ==> #[trigger] x.skip(2)[q] == s@[e + 2 + q]);
            assert(digits_in(x.skip(2), 0, x.skip(2).len() as int) == digits_in(
                s@,
                e + 2,
                s@.len() as int,
            )) by {
                if digits_in(x.skip(2), 0, x.skip(2).len() as int) {
                    assert forall|q: int| e + 2 <= q < s@.len() implies is_digit(
                        #[trigger] s@[q],
                    ) by {
                        assert(x.skip(2)[q - e - 2] == s@[q]);
                        assert(is_digit(x.skip(2)[q - e - 2]));
                    }
                }
                if digits_in(s@, e + 2, s@.len() as int) {
                    assert forall|q: int| 0 <= q < x.skip(2).len() implies is_digit(
                        #[trigger] x.skip(2)[q],
                    ) by {
                        assert(x.skip(2)[q] == s@[e + 2 + q]);
                    }
                }
            }
        } else {
            assert(x.skip(1) =~= s@.skip(e + 1));
            assert(forall|q: int|
                0 <= q < x.skip(1).len() ==> #[trigger] x.skip(1)[q] == s@[e + 1 + q]);
            assert(digits_in(x.skip(1), 0, x.skip(1).len() as int) == digits_in(
                s@,
                e + 1,
                s@.len() as int,
            )) by {
                if digits_in(x.skip(1), 0, x.skip(1).len() as int) {
                    assert forall|q: int| e + 1 <= q < s@.len() implies is_digit(
                        #[trigger] s@[q],
                    ) by {
                        assert(x.skip(1)[q - e - 1] == s@[q]);
                        assert(is_digit(x.skip(1)[q - e - 1]));
                    }
                }
                if digits_in(s@, e + 1, s@.len() as int) {
                    assert forall|q: int| 0 <= q < x.skip(1).len() implies is_digit(
                        #[trigger] x.skip(1)[q],
                    ) by {
                        assert(x.skip(1)[q] == s@[e + 1 + q]);
                    }
                }
            }
        }
    }
    digits
}

/// Decide whether a raw value fits the declared type; the message of a
/// refusal names the expected type.
pub fn check_type(t: &ArgType, raw: &str) -> (r: Result<(), String>)
    ensures
        r is Ok <==> type_ok(*t, raw@),
{
    match t {
        ArgType::String => Result::Ok(()),
        ArgType::Number => {
            let chars = crate::text::str_chars(raw);
            let signed = chars.len() > 0 && (chars[0] == '+' || chars[0] == '-');
            let ok: bool;
            if signed {
                let rest = crate::text::tail_of(&chars, 1);
                ok = unsigned_number_exec(&rest);
                proof {
                    assert(rest@ =~= raw@.skip(1));
                }
            } else {
                ok = unsigned_number_exec(&chars);
            }
            if ok {
                Result::Ok(())
            } else {
                let mut m = String::new();
                m.append("not a valid number");
                Result::Err(m)
            }
        },
        ArgType::Boolean => {
            let parsed = parse_bool(raw);
            match parsed {
                Result::Ok(_) => Result::Ok(()),
                Result::Err(_) => {
                    let mut m = String::new();
                    m.append("not a valid boolean");
                    Result::Err(m)
                },
            }
        },
    }
}

/// The first stored value under the name, if any.
fn find_arg_exec(pairs: &Vec<(String, String)>, name: &String) -> (r: Option<String>)
    ensures
        match r {
            Option::Some(v) => find_arg(pairs_view(pairs@), name@) == Option::Some(v@),
            Option::None => find_arg(pairs_view(pairs@), name@) is None,
        },
{
    let ghost pv = pairs_view(pairs@);
    proof {
        assert(pv.skip(0) =~= pv);
    }
    let mut k: usize = 0;
    while k < pairs.len()
        invariant
            0 <= k <= pairs@.len(),
            pv == pairs_view(pairs@),
            find_arg(pv, name@) == find_arg(pv.skip(k as int), name@),
        decreases pairs@.len() - k,
    {
        proof {
            assert(pv[k as int] == (pairs@[k as int].0@, pairs@[k as int].1@));
            assert(pv.skip(k as int)[0] == pv[k as int]);
            assert(pv.skip(k as int).skip(1) =~= pv.skip(k + 1));
        }
        if pairs[k].0.eq(name) {
            return Option::Some(pairs[k].1.clone());
        }
        k = k + 1;
    }
    proof {
        assert(pv.skip(pv.len() as int) =~= Seq::<(Seq<char>, Seq<char>)>::empty());
    }
    Option::None
}

/// Validate arguments against an action's declarations: every required
/// argument must be present and fit its declared type; optional
/// arguments are never faulted. The collected problems name each
/// argument and whether it was missing or ill-typed, in declaration
/// order.
pub fn validate_args(action: &Action, incoming: &Vec<(String, String)>) -> (r: Result<
    (),
    ValidationFailure,
>)
    ensures
        match r {
            Result::Ok(_) => expected_errors(
                action.deep_view().args,
                pairs_view(incoming@),
            ).len() == 0,
            Result::Err(f) => {
                &&& expected_errors(action.deep_view().args, pairs_view(incoming@)).len() > 0
                &&& (f matches ValidationFailure::Invalid(es) ==> errors_view(es@)
                    == expected_errors(action.deep_view().args, pairs_view(incoming@)))
            },
        },
{
    let ghost defs = action.deep_view().args;
    let ghost pv = pairs_view(incoming@);
    let mut errors: Vec<ArgError> = Vec::new();
    let mut k: usize = 0;
    proof {
        assert(errors_view(errors@) =~= Seq::<(Seq<char>, ArgErrorKind)>::empty());
        assert(expected_errors(defs.take(0), pv) =~= Seq::<(Seq<char>, ArgErrorKind)>::empty());
    }
    while k < action.args.len()
        invariant
            0 <= k <= action.args@.len(),
            defs == action.deep_view().args,
            defs.len() == action.args@.len(),
            pv == pairs_view(incoming@),
            errors_view(errors@) == expected_errors(defs.take(k as int), pv),
        decreases action.args@.len() - k,
    {
        let def = &action.args[k];
        proof {
            assert(defs[k as int] == action.args@[k as int].deep_view());
        }
        let found = find_arg_exec(incoming, &def.name);
        let ghost pre = errors_view(errors@);
        let mut pushed_kind: Option<ArgErrorKind> = Option::None;
        match &found {
            Option::None => {
                if def.required {
                    let mut m = String::new();
                    m.append("required");
                    errors.push(
                        ArgError {
                            name: def.name.clone(),
                            kind: ArgErrorKind::Missing,
                            message: m,
                        },
                    );
                    pushed_kind = Option::Some(ArgErrorKind::Missing);
                }
            },
            Option::Some(v) => {
                if def.required {
                    let checked = check_type(&def.arg_type, v.as_str());
                    match checked {
                        Result::Ok(_) => {},
                        Result::Err(msg) => {
                            errors.push(
                                ArgError {
                                    name: def.name.clone(),
                                    kind: ArgErrorKind::TypeMismatch,
                                    message: msg,
                                },
                            );
                            pushed_kind = Option::Some(ArgErrorKind::TypeMismatch);
                        },
                    }
                }
            },
        }
        proof {
            assert(defs.take(k + 1) =~= defs.take(k as int) + seq![defs[k as int]]);
            lemma_expected_errors_concat(defs.take(k as int), seq![defs[k as int]], pv);
            assert(seq![defs[k as int]].skip(1) =~= Seq::<crate::descriptor::ArgModel>::empty());
            assert(expected_errors(Seq::<crate::descriptor::ArgModel>::empty(), pv) =~= Seq::<
                (Seq<char>, ArgErrorKind),
            >::empty());
            assert(expected_errors(seq![defs[k as int]], pv) == (match arg_error_kind_of(
                defs[k as int],
                pv,
            ) {
                Option::Some(kk) => seq![(defs[k as int].name, kk)],
                Option::None => Seq::<(Seq<char>, ArgErrorKind)>::empty(),
            }) + expected_errors(Seq::<crate::descriptor::ArgModel>::empty(), pv));
            match pushed_kind {
                Option::Some(kk) => {
                    assert(arg_error_kind_of(defs[k as int], pv) == Option::Some(kk));
                    assert(errors_view(errors@) =~= pre.push((defs[k as int].name, kk)));
                    assert(errors_view(errors@) =~= expected_errors(
                        defs.take(k + 1),
                        pv,
                    ));
                },
                Option::None => {
                    assert(arg_error_kind_of(defs[k as int], pv) is None);
                    assert(errors_view(errors@) =~= expected_errors(
                        defs.take(k + 1),
                        pv,
                    ));
                },
            }
        }
        k = k + 1;
    }
    proof {
        assert(defs.take(defs.len() as int) =~= defs);
    }
    if errors.len() == 0 {
        proof {
            assert(errors_view(errors@).len() == errors@.len());
        }
        Result::Ok(())
    } else {
        Result::Err(ValidationFailure::Invalid(errors))
    }
}

proof fn lemma_expected_errors_concat(
    a: Seq<crate::descriptor::ArgModel>,
    b: Seq<crate::descriptor::ArgModel>,
    pv: Seq<(Seq<char>, Seq<char>)>,
)
    ensures
        expected_errors(a + b, pv) == expected_errors(a, pv) + expected_errors(b, pv),
    decreases a.len(),
{
    if a.len() == 0 {
        assert(a + b =~= b);
        assert(expected_errors(a, pv) + expected_errors(b, pv) =~= expected_errors(b, pv));
    } else {
        assert((a + b).skip(1) =~= a.skip(1) + b);
        lemma_expected_errors_concat(a.skip(1), b, pv);
        assert(expected_errors(a + b, pv) =~= expected_errors(a, pv) + expected_errors(b, pv));
    }
}

/// Run a callable and report how long it took, in milliseconds.
pub fn time_exec<F, R>(f: F) -> (r: (R, u128)) where F: FnOnce() -> R
    requires
        f.requires(()),
    ensures
        f.ensures((), r.0),
{
    let start = crate::util::now_ms();
    let result = f();
    let end = crate::util::now_ms();
    let dur: u128 = if end >= start {
        (end - start) as u128
    } else {
        0
    };
    (result, dur)
}

/// The current time in milliseconds since the Unix epoch, widened.
pub fn now_ms() -> u128 {
    crate::util::now_ms() as u128
}

} // verus!
