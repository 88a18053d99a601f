//! Application descriptors and their validation: identifier and scheme
//! patterns, a supported major version, and uniqueness of action and
//! argument names. Parsing the on-disk form is the host's concern; the
//! rules over the parsed fields live here.

use vstd::prelude::*;

verus! {

/// A declared argument of an action.
#[derive(Debug, PartialEq)]
pub struct ActionArg {
    pub name: String,
    pub arg_type: ArgType,
    pub required: bool,
}

/// The type an argument's raw text must fit.
#[derive(Debug, PartialEq, Clone, Copy)]
pub enum ArgType {
    String,
    Number,
    Boolean,
}

/// A declared action of an application.
#[derive(Debug, PartialEq)]
pub struct Action {
    pub name: String,
    pub title: Option<String>,
    pub args: Vec<ActionArg>,
}

/// An application descriptor.
#[derive(Debug, PartialEq)]
pub struct AppDescriptor {
    pub id: String,
    pub name: String,
    pub description: String,
    pub version: String,
    pub scheme: Option<String>,
    pub icon: Option<String>,
    pub actions: Vec<Action>,
}

/// The mathematical shape of an [`ActionArg`].
pub ghost struct ArgModel {
    pub name: Seq<char>,
    pub arg_type: ArgType,
    pub required: bool,
}

impl DeepView for ActionArg {
    type V = ArgModel;

    open spec fn deep_view(&self) -> ArgModel {
        ArgModel { name: self.name@, arg_type: self.arg_type, required: self.required }
    }
}

/// The mathematical shape of an [`Action`].
pub ghost struct ActionModel {
    pub name: Seq<char>,
    pub title: Option<Seq<char>>,
    pub args: Seq<ArgModel>,
}

impl DeepView for Action {
    type V = ActionModel;

    open spec fn deep_view(&self) -> ActionModel {
        ActionModel {
            name: self.name@,
            title: self.title.deep_view(),
            args: self.args.deep_view(),
        }
    }
}

/// The mathematical shape of an [`AppDescriptor`].
pub ghost struct DescriptorModel {
    pub id: Seq<char>,
    pub name: Seq<char>,
    pub description: Seq<char>,
    pub version: Seq<char>,
    pub scheme: Option<Seq<char>>,
    pub icon: Option<Seq<char>>,
    pub actions: Seq<ActionModel>,
}

impl DeepView for AppDescriptor {
    type V = DescriptorModel;

    open spec fn deep_view(&self) -> DescriptorModel {
        DescriptorModel {
            id: self.id@,
            name: self.name@,
            description: self.description@,
            version: self.version@,
            scheme: self.scheme.deep_view(),
            icon: self.icon.deep_view(),
            actions: self.actions.deep_view(),
        }
    }
}

/// What descriptor validation can refuse.
#[derive(Debug, PartialEq)]
pub enum DescriptorError {
    UnsupportedMajor(u64),
    InvalidField { field: String, msg: String },
    DuplicateAction(String),
    DuplicateArg { action: String, arg: String },
}

/// An identifier character: lower-case letter, digit, hyphen or
/// underscore.
pub open spec fn is_id_char(c: char) -> bool {
    (97 <= c as u32 && c as u32 <= 122) || (48 <= c as u32 && c as u32 <= 57) || c == '-' || c
        == '_'
}

/// A valid application id: one to thirty-two identifier characters.
pub open spec fn valid_id(s: Seq<char>) -> bool {
    1 <= s.len() <= 32 && forall|i: int| 0 <= i < s.len() ==> is_id_char(#[trigger] s[i])
}

/// A scheme character after the first: lower-case letter, digit, plus,
/// point or hyphen.
pub open spec fn is_scheme_char(c: char) -> bool {
    (97 <= c as u32 && c as u32 <= 122) || (48 <= c as u32 && c as u32 <= 57) || c == '+' || c
        == '.' || c == '-'
}

/// A valid scheme: a lower-case letter, then scheme characters.
pub open spec fn valid_scheme(s: Seq<char>) -> bool {
    s.len() >= 1 && (97 <= s[0] as u32 && s[0] as u32 <= 122) && forall|i: int|
        1 <= i < s.len() ==> is_scheme_char(#[trigger] s[i])
}

/// A valid action name: one or more identifier characters.
pub open spec fn valid_action_name(s: Seq<char>) -> bool {
    s.len() >= 1 && forall|i: int| 0 <= i < s.len() ==> is_id_char(#[trigger] s[i])
}

/// An argument-name character: letter of either case, digit or
/// underscore.
pub open spec fn valid_arg_name(s: Seq<char>) -> bool {
    s.len() >= 1 && forall|i: int|
        0 <= i < s.len() ==> crate::text::is_word_char(#[trigger] s[i])
}

/// The major version that `semver::Version::parse` reads from a version
/// text, when the text is valid semantic versioning. The grammar takes
/// pages to state, so it is only named here.
pub uninterp spec fn semver_major_of(s: Seq<char>) -> Option<u64>;

/// Relies on `semver::Version::parse`: the major component of a valid
/// semantic version, nothing for an invalid one. The result depends on
/// the characters alone.
#[verifier::external_body]
fn parse_semver_major(s: &str) -> (r: Option<u64>)
    ensures
        r == semver_major_of(s@),
{
    match semver::Version::parse(s) {
        Ok(v) => Some(v.major),
        Err(_) => None,
    }
}

/// One action is well formed: a valid name and valid, pairwise distinct
/// argument names.
pub open spec fn action_ok(a: ActionModel) -> bool {
    &&& valid_action_name(a.name)
    &&& forall|i: int| 0 <= i < a.args.len() ==> valid_arg_name((#[trigger] a.args[i]).name)
    &&& forall|i: int, j: int|
        0 <= i < j < a.args.len() ==> (#[trigger] a.args[i]).name != (#[trigger] a.args[j]).name
}

/// A descriptor is well formed: a valid id, non-empty name and
/// description, a supported major version, a valid scheme when one is
/// given, and well-formed actions with pairwise distinct names.
pub open spec fn descriptor_ok(d: DescriptorModel) -> bool {
    &&& valid_id(d.id)
    &&& d.name.len() > 0
    &&& d.description.len() > 0
    &&& semver_major_of(d.version) == Option::Some(1u64)
    &&& (match d.scheme {
        Option::Some(s) => valid_scheme(s),
        Option::None => true,
    })
    &&& forall|i: int| 0 <= i < d.actions.len() ==> action_ok(#[trigger] d.actions[i])
    &&& forall|i: int, j: int|
        0 <= i < j < d.actions.len() ==> (#[trigger] d.actions[i]).name != (
        #[trigger] d.actions[j]).name
}

/// Whether every character of `s` satisfies the identifier class.
fn all_id_chars(s: &Vec<char>) -> (r: bool)
    ensures
        r == forall|i: int| 0 <= i < s@.len() ==> is_id_char(#[trigger] s@[i]),
{
    let mut k: usize = 0;
    while k < s.len()
        invariant
            0 <= k <= s@.len(),
            forall|q: int| 0 <= q < k ==> is_id_char(#[trigger] s@[q]),
        decreases s@.len() - k,
    {
        let n = s[k] as u32;
        if !((97 <= n && n <= 122) || (48 <= n && n <= 57) || s[k] == '-' || s[k] == '_') {
            return false;
        }
        k = k + 1;
    }
    true
}

/// Whether every character of `s` from `from` on fits the scheme class.
fn all_scheme_chars(s: &Vec<char>, from: usize) -> (r: bool)
    requires
        from <= s@.len(),
    ensures
        r == forall|i: int| from <= i < s@.len() ==> is_scheme_char(#[trigger] s@[i]),
{
    let mut k: usize = from;
    while k < s.len()
        invariant
            from <= k <= s@.len(),
            forall|q: int| from <= q < k ==> is_scheme_char(#[trigger] s@[q]),
        decreases s@.len() - k,
    {
        let n = s[k] as u32;
        if !((97 <= n && n <= 122) || (48 <= n && n <= 57) || s[k] == '+' || s[k] == '.' || s[k]
            == '-') {
            return false;
        }
        k = k + 1;
    }
    true
}

/// Whether every character of `s` is a word character.
fn all_word_chars(s: &Vec<char>) -> (r: bool)
    ensures
        r == forall|i: int|
            0 <= i < s@.len() ==> crate::text::is_word_char(#[trigger] s@[i]),
{
    let mut k: usize = 0;
    while k < s.len()
        invariant
            0 <= k <= s@.len(),
            forall|q: int| 0 <= q < k ==> crate::text::is_word_char(#[trigger] s@[q]),
        decreases s@.len() - k,
    {
        if !crate::text::word_char(s[k]) {
            return false;
        }
        k = k + 1;
    }
    true
}

/// Which rule an action-level refusal names: each error variant stands
/// for the violated rule, with its witnesses.
pub open spec fn action_error_witnessed(a: ActionModel, e: DescriptorError) -> bool {
    match e {
        DescriptorError::InvalidField { field, msg } => (field@ == "action name"@
            && !valid_action_name(a.name)) || (field@ == "argument name"@ && exists|i: int|
            0 <= i < a.args.len() && !valid_arg_name((#[trigger] a.args[i]).name)),
        DescriptorError::DuplicateArg { action, arg } => action@ == a.name && exists|i: int, j: int|
            0 <= i < j < a.args.len() && (#[trigger] a.args[i]).name == (#[trigger] a.args[j]).name
                && a.args[j].name == arg@,
        _ => false,
    }
}

/// Which rule a descriptor-level refusal names: each error variant stands
/// for the violated rule, with its witnesses.
pub open spec fn descriptor_error_witnessed(d: DescriptorModel, e: DescriptorError) -> bool {
    match e {
        DescriptorError::UnsupportedMajor(m) => semver_major_of(d.version) == Option::Some(m) && m
            != 1,
        DescriptorError::InvalidField { field, msg } => {
            ||| (field@ == "id"@ && !valid_id(d.id))
            ||| (field@ == "name"@ && d.name.len() == 0)
            ||| (field@ == "description"@ && d.description.len() == 0)
            ||| (field@ == "version"@ && semver_major_of(d.version) is None)
            ||| (field@ == "scheme"@ && d.scheme is Some && !valid_scheme(d.scheme->0))
            ||| (field@ == "action name"@ && exists|k: int|
                0 <= k < d.actions.len() && !valid_action_name((#[trigger] d.actions[k]).name))
            ||| (field@ == "argument name"@ && exists|k: int, i: int|
                0 <= k < d.actions.len() && 0 <= i < d.actions[k].args.len() && !valid_arg_name(
                    (#[trigger] d.actions[k].args[i]).name,
                ))
        },
        DescriptorError::DuplicateAction(n) => exists|i: int, j: int|
            0 <= i < j < d.actions.len() && (#[trigger] d.actions[i]).name == (
            #[trigger] d.actions[j]).name && d.actions[j].name == n@,
        DescriptorError::DuplicateArg { action, arg } => exists|k: int|
            0 <= k < d.actions.len() && (#[trigger] d.actions[k]).name == action@ && exists|
                i: int,
                j: int,
            |
                0 <= i < j < d.actions[k].args.len() && (#[trigger] d.actions[k].args[i]).name == (
                #[trigger] d.actions[k].args[j]).name && d.actions[k].args[j].name == arg@,
    }
}

/// An action-level refusal explains a descriptor-level one, for the
/// action at position `k`.
proof fn lemma_lift_action_error(d: DescriptorModel, k: int, e: &DescriptorError)
    requires
        0 <= k < d.actions.len(),
        action_error_witnessed(d.actions[k], *e),
    ensures
        descriptor_error_witnessed(d, *e),
{
    match e {
        DescriptorError::InvalidField { field, msg } => {
            if field@ == "action name"@ && !valid_action_name(d.actions[k].name) {
                assert(!valid_action_name((d.actions[k]).name));
            } else {
                let i = choose|i: int|
                    0 <= i < d.actions[k].args.len() && !valid_arg_name(
                        (#[trigger] d.actions[k].args[i]).name,
                    );
                assert(0 <= k < d.actions.len() && 0 <= i < (d.actions[k]).args.len()
                    && !valid_arg_name(d.actions[k].args[i].name));
            }
        },
        DescriptorError::DuplicateArg { action, arg } => {
            assert((d.actions[k]).name == action@);
        },
        _ => {
            assert(false);
        },
    }
}

fn invalid_field(field: &str, msg: &str) -> (r: DescriptorError)
    ensures
        r matches DescriptorError::InvalidField { field: f, msg: m } && f@ == field@ && m@
            == msg@,
{
    DescriptorError::InvalidField { field: field.to_owned(), msg: msg.to_owned() }
}

/// Validate one action: its name must be a non-empty run of identifier
/// characters and its argument names valid and pairwise distinct.
pub fn validate_action(action: &Action) -> (r: Result<(), DescriptorError>)
    ensures
        r is Ok <==> action_ok(action.deep_view()),
        r matches Result::Err(e) ==> action_error_witnessed(action.deep_view(), e),
{
    let name_chars = crate::text::str_chars(action.name.as_str());
    if name_chars.len() == 0 {
        return Result::Err(invalid_field("action name", "cannot be empty"));
    }
    if !all_id_chars(&name_chars) {
        return Result::Err(invalid_field("action name", "invalid pattern"));
    }
    let ghost am = action.deep_view();
    let mut k: usize = 0;
    while k < action.args.len()
        invariant
            0 <= k <= action.args@.len(),
            am == action.deep_view(),
            am.args.len() == action.args@.len(),
            valid_action_name(am.name),
            forall|q: int| 0 <= q < k ==> valid_arg_name((#[trigger] am.args[q]).name),
            forall|i: int, j: int|
                0 <= i < j < k ==> (#[trigger] am.args[i]).name != (#[trigger] am.args[j]).name,
        decreases action.args@.len() - k,
    {
        proof {
            assert(am.args[k as int] == action.args@[k as int].deep_view());
        }
        let arg_chars = crate::text::str_chars(action.args[k].name.as_str());
        if arg_chars.len() == 0 {
            proof {
                assert(!valid_arg_name(am.args[k as int].name));
            }
            return Result::Err(invalid_field("argument name", "cannot be empty"));
        }
        if !all_word_chars(&arg_chars) {
            proof {
                assert(!valid_arg_name(am.args[k as int].name));
            }
            return Result::Err(invalid_field("argument name", "invalid pattern"));
        }
        let mut j: usize = 0;
        while j < k
            invariant
                0 <= j <= k < action.args@.len(),
                am == action.deep_view(),
                am.args.len() == action.args@.len(),
                forall|q: int|
                    0 <= q < j ==> (#[trigger] am.args[q]).name != am.args[k as int].name,
            decreases k - j,
        {
            proof {
                assert(am.args[j as int] == action.args@[j as int].deep_view());
                assert(am.args[k as int] == action.args@[k as int].deep_view());
            }
            if action.args[j].name.eq(&action.args[k].name) {
                let da = DescriptorError::DuplicateArg {
                    action: action.name.clone(),
                    arg: action.args[k].name.clone(),
                };
                proof {
                    assert(am.args[j as int].name == am.args[k as int].name);
                    assert(!action_ok(am));
                    assert(action_error_witnessed(am, da));
                }
                return Result::Err(da);
            }
            j = j + 1;
        }
        k = k + 1;
    }
    Result::Ok(())
}

/// Validate a parsed descriptor against all its rules.
pub fn validate(desc: &AppDescriptor) -> (r: Result<(), DescriptorError>)
    ensures
        r is Ok <==> descriptor_ok(desc.deep_view()),
        r matches Result::Err(e) ==> descriptor_error_witnessed(desc.deep_view(), e),
{
    let ghost dm = desc.deep_view();
    let id_chars = crate::text::str_chars(desc.id.as_str());
    if id_chars.len() == 0 || id_chars.len() > 32 || !all_id_chars(&id_chars) {
        return Result::Err(invalid_field("id", "must be 1 to 32 id characters"));
    }
    if desc.name.as_str().unicode_len() == 0 {
        return Result::Err(invalid_field("name", "cannot be empty"));
    }
    if desc.description.as_str().unicode_len() == 0 {
        return Result::Err(invalid_field("description", "cannot be empty"));
    }
    let major = parse_semver_major(desc.version.as_str());
    match major {
        Option::None => {
            return Result::Err(invalid_field("version", "not valid semver"));
        },
        Option::Some(m) => {
            if m != 1 {
                return Result::Err(DescriptorError::UnsupportedMajor(m));
            }
        },
    }
    match &desc.scheme {
        Option::Some(scheme) => {
            let sc = crate::text::str_chars(scheme.as_str());
            let mut head_ok = false;
            if sc.len() >= 1 {
                let n = sc[0] as u32;
                head_ok = 97 <= n && n <= 122;
            }
            if !head_ok {
                return Result::Err(invalid_field("scheme", "invalid scheme pattern"));
            }
            let rest_ok = all_scheme_chars(&sc, 1);
            if !rest_ok {
                return Result::Err(invalid_field("scheme", "invalid scheme pattern"));
            }
        },
        Option::None => {},
    }
    let mut k: usize = 0;
    while k < desc.actions.len()
        invariant
            0 <= k <= desc.actions@.len(),
            dm == desc.deep_view(),
            dm.actions.len() == desc.actions@.len(),
            forall|q: int| 0 <= q < k ==> action_ok(#[trigger] dm.actions[q]),
            forall|i: int, j: int|
                0 <= i < j < k ==> (#[trigger] dm.actions[i]).name != (
                #[trigger] dm.actions[j]).name,
        decreases desc.actions@.len() - k,
    {
        proof {
            assert(dm.actions[k as int] == desc.actions@[k as int].deep_view());
        }
        let mut j: usize = 0;
        while j < k
            invariant
                0 <= j <= k < desc.actions@.len(),
                dm == desc.deep_view(),
                dm.actions.len() == desc.actions@.len(),
                forall|q: int|
                    0 <= q < j ==> (#[trigger] dm.actions[q]).name != dm.actions[k as int].name,
            decreases k - j,
        {
            proof {
                assert(dm.actions[j as int] == desc.actions@[j as int].deep_view());
                assert(dm.actions[k as int] == desc.actions@[k as int].deep_view());
            }
            if desc.actions[j].name.eq(&desc.actions[k].name) {
                let dup = DescriptorError::DuplicateAction(desc.actions[k].name.clone());
                proof {
                    assert(dm.actions[j as int].name == dm.actions[k as int].name);
                    assert(descriptor_error_witnessed(dm, dup));
                }
                return Result::Err(dup);
            }
            j = j + 1;
        }
        let checked = validate_action(&desc.actions[k]);
        match checked {
            Result::Ok(_) => {},
            Result::Err(e) => {
                proof {
                    lemma_lift_action_error(dm, k as int, &e);
                }
                return Result::Err(e);
            },
        }
        k = k + 1;
    }
    Result::Ok(())
}

} // verus!
