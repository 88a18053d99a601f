//! The descriptor registry: an index of application records by id, with
//! the problems met while collecting them. The host walks directories and
//! parses files; building the index from the loaded results — first
//! record per id wins, later duplicates are logged — is done here.

use vstd::prelude::*;
use crate::descriptor::{AppDescriptor, DescriptorError, DescriptorModel};

verus! {

/// One indexed application: its descriptor and where it came from.
#[derive(Debug, PartialEq)]
pub struct AppRecord {
    pub descriptor: AppDescriptor,
    pub origin_path: String,
}

/// The mathematical shape of an [`AppRecord`].
pub ghost struct AppRecordModel {
    pub descriptor: DescriptorModel,
    pub origin_path: Seq<char>,
}

impl DeepView for AppRecord {
    type V = AppRecordModel;

    open spec fn deep_view(&self) -> AppRecordModel {
        AppRecordModel {
            descriptor: self.descriptor.deep_view(),
            origin_path: self.origin_path@,
        }
    }
}

/// A problem met while scanning.
#[derive(Debug, PartialEq)]
pub struct ScanIssue {
    pub code: IssueCode,
    pub path: String,
    pub detail: String,
}

/// The mathematical shape of a [`ScanIssue`].
pub ghost struct ScanIssueModel {
    pub code: IssueCode,
    pub path: Seq<char>,
    pub detail: Seq<char>,
}

impl DeepView for ScanIssue {
    type V = ScanIssueModel;

    open spec fn deep_view(&self) -> ScanIssueModel {
        ScanIssueModel { code: self.code, path: self.path@, detail: self.detail@ }
    }
}

/// The kinds of scan problem.
#[derive(Debug, PartialEq, Clone, Copy)]
pub enum IssueCode {
    ParseError,
    IoError,
    UnsupportedDescriptorVersion,
    InvalidField,
    DuplicateAppId,
    DuplicateAction,
    DuplicateArg,
    NotFound,
}

/// A scan that cannot start.
#[derive(Debug, PartialEq)]
pub enum ScanError {
    EmptyInput,
}

/// The registry: application records with pairwise distinct ids, and the
/// problems collected on the way.
#[derive(Debug, PartialEq)]
pub struct Registry {
    pub apps: Vec<AppRecord>,
    pub issues: Vec<ScanIssue>,
}

/// Pairwise distinct descriptor ids.
pub open spec fn unique_app_ids(apps: Seq<AppRecordModel>) -> bool {
    forall|i: int, j: int|
        0 <= i < j < apps.len() ==> (#[trigger] apps[i]).descriptor.id != (
        #[trigger] apps[j]).descriptor.id
}

impl Registry {
    /// The first record stored under the id, if any.
    pub fn get(&self, id: &str) -> (r: Option<&AppRecord>)
        ensures
            match r {
                Option::Some(rec) => exists|k: int|
                    0 <= k < self.apps.deep_view().len() && #[trigger] self.apps.deep_view()[k]
                        == rec.deep_view() && rec.deep_view().descriptor.id == id@,
                Option::None => forall|k: int|
                    0 <= k < self.apps.deep_view().len() ==> (#[trigger] self.apps.deep_view()[
                        k
                    ]).descriptor.id != id@,
            },
    {
        let mut k: usize = 0;
        while k < self.apps.len()
            invariant
                0 <= k <= self.apps@.len(),
                forall|q: int|
                    0 <= q < k ==> (#[trigger] self.apps.deep_view()[q]).descriptor.id != id@,
            decreases self.apps@.len() - k,
        {
            proof {
                assert(self.apps.deep_view()[k as int] == self.apps@[k as int].deep_view());
            }
            if crate::text::str_eq(self.apps[k].descriptor.id.as_str(), id) {
                proof {
                    assert(self.apps.deep_view()[k as int].descriptor.id == id@);
                }
                return Option::Some(&self.apps[k]);
            }
            k = k + 1;
        }
        Option::None
    }

    /// A registry over the given records, without issues; for building
    /// fixtures directly.
    pub fn from_map_for_test(apps: Vec<AppRecord>) -> (r: Self)
        ensures
            r.apps.deep_view() == apps.deep_view(),
            r.issues@.len() == 0,
    {
        Registry { apps, issues: Vec::new() }
    }
}

/// What loading one candidate directory produced: a parsed descriptor,
/// or the problem met.
#[derive(Debug, PartialEq)]
pub enum LoadedDescriptor {
    Parsed { path: String, descriptor: AppDescriptor },
    Failed { path: String, code: IssueCode, detail: String },
}

/// The mathematical shape of a [`LoadedDescriptor`].
pub ghost enum LoadedModel {
    Parsed { path: Seq<char>, descriptor: DescriptorModel },
    Failed { path: Seq<char>, code: IssueCode, detail: Seq<char> },
}

impl DeepView for LoadedDescriptor {
    type V = LoadedModel;

    open spec fn deep_view(&self) -> LoadedModel {
        match *self {
            LoadedDescriptor::Parsed { ref path, ref descriptor } => LoadedModel::Parsed {
                path: path@,
                descriptor: descriptor.deep_view(),
            },
            LoadedDescriptor::Failed { ref path, code, ref detail } => LoadedModel::Failed {
                path: path@,
                code,
                detail: detail@,
            },
        }
    }
}

/// Whether some record already carries the id.
pub open spec fn has_app(apps: Seq<AppRecordModel>, id: Seq<char>) -> bool {
    exists|w: int| 0 <= w < apps.len() && (#[trigger] apps[w]).descriptor.id == id
}

/// The registry built from the first `n` loaded results: the first record
/// per id is kept, a later duplicate only logs an issue, a failure is
/// kept as its issue.
pub open spec fn registry_upto(ls: Seq<LoadedModel>, n: int) -> (
    Seq<AppRecordModel>,
    Seq<ScanIssueModel>,
)
    decreases n,
{
    if n <= 0 {
        (Seq::empty(), Seq::empty())
    } else {
        let prev = registry_upto(ls, n - 1);
        match ls[n - 1] {
            LoadedModel::Parsed { path, descriptor } => if has_app(prev.0, descriptor.id) {
                (
                    prev.0,
                    prev.1 + seq![
                        ScanIssueModel {
                            code: IssueCode::DuplicateAppId,
                            path,
                            detail: "duplicate app id: "@ + descriptor.id,
                        },
                    ],
                )
            } else {
                (prev.0 + seq![AppRecordModel { descriptor, origin_path: path }], prev.1)
            },
            LoadedModel::Failed { path, code, detail } => (
                prev.0,
                prev.1 + seq![ScanIssueModel { code, path, detail }],
            ),
        }
    }
}

/// Build the registry from loaded results: the first record per id wins,
/// a later duplicate only logs an issue, and every failure is kept as an
/// issue.
pub fn build_registry(loaded: Vec<LoadedDescriptor>) -> (r: Registry)
    ensures
        r.apps.deep_view() == registry_upto(loaded.deep_view(), loaded.deep_view().len() as int).0,
        r.issues.deep_view() == registry_upto(
            loaded.deep_view(),
            loaded.deep_view().len() as int,
        ).1,
        unique_app_ids(r.apps.deep_view()),
{
    let ghost ldv = loaded.deep_view();
    let mut apps: Vec<AppRecord> = Vec::new();
    let mut issues: Vec<ScanIssue> = Vec::new();
    let mut i: usize = 0;
    proof {
        assert(apps.deep_view() =~= registry_upto(ldv, 0).0);
        assert(issues.deep_view() =~= registry_upto(ldv, 0).1);
    }
    while i < loaded.len()
        invariant
            0 <= i <= loaded@.len(),
            ldv == loaded.deep_view(),
            ldv.len() == loaded@.len(),
            apps.deep_view() == registry_upto(ldv, i as int).0,
            issues.deep_view() == registry_upto(ldv, i as int).1,
            unique_app_ids(apps.deep_view()),
        decreases loaded@.len() - i,
    {
        let ghost pre_apps = apps.deep_view();
        let ghost pre_issues = issues.deep_view();
        proof {
            assert(ldv[i as int] == loaded@[i as int].deep_view());
        }
        match &loaded[i] {
            LoadedDescriptor::Parsed { path, descriptor } => {
                let mut seen = false;
                let mut q: usize = 0;
                while q < apps.len()
                    invariant
                        0 <= q <= apps@.len(),
                        seen == exists|w: int|
                            0 <= w < q && (#[trigger] apps.deep_view()[w]).descriptor.id
                                == descriptor.deep_view().id,
                    decreases apps@.len() - q,
                {
                    proof {
                        assert(apps.deep_view()[q as int] == apps@[q as int].deep_view());
                    }
                    if apps[q].descriptor.id.eq(&descriptor.id) {
                        seen = true;
                        proof {
                            assert(apps.deep_view()[q as int].descriptor.id
                                == descriptor.deep_view().id);
                        }
                    }
                    q = q + 1;
                }
                proof {
                    assert(seen == has_app(pre_apps, descriptor.deep_view().id));
                }
                if seen {
                    let mut detail = String::new();
                    detail.append("duplicate app id: ");
                    detail.append(descriptor.id.as_str());
                    issues.push(
                        ScanIssue { code: IssueCode::DuplicateAppId, path: path.clone(), detail },
                    );
                    proof {
                        assert(issues.deep_view().len() == pre_issues.len() + 1);
                        assert(forall|w: int|
                            0 <= w < pre_issues.len() ==> issues.deep_view()[w] == pre_issues[w]);
                        assert(issues.deep_view()[pre_issues.len() as int] == ScanIssueModel {
                            code: IssueCode::DuplicateAppId,
                            path: path@,
                            detail: "duplicate app id: "@ + descriptor.deep_view().id,
                        });
                        assert(apps.deep_view() =~= registry_upto(ldv, i + 1).0);
                        assert(issues.deep_view() =~= registry_upto(ldv, i + 1).1);
                    }
                } else {
                    let rec = AppRecord {
                        descriptor: clone_descriptor(descriptor),
                        origin_path: path.clone(),
                    };
                    apps.push(rec);
                    proof {
                        assert(apps.deep_view().len() == pre_apps.len() + 1);
                        assert(forall|w: int|
                            0 <= w < pre_apps.len() ==> apps.deep_view()[w] == pre_apps[w]);
                        assert(apps.deep_view()[pre_apps.len() as int] == AppRecordModel {
                            descriptor: descriptor.deep_view(),
                            origin_path: path@,
                        });
                        assert(apps.deep_view() =~= registry_upto(ldv, i + 1).0);
                        assert(issues.deep_view() =~= registry_upto(ldv, i + 1).1);
                        assert forall|a: int, b: int|
                            0 <= a < b < apps.deep_view().len() implies (
                        #[trigger] apps.deep_view()[a]).descriptor.id != (
                        #[trigger] apps.deep_view()[b]).descriptor.id by {
                            if b < pre_apps.len() {
                                assert(apps.deep_view()[a] == pre_apps[a]);
                                assert(apps.deep_view()[b] == pre_apps[b]);
                            } else {
                                assert(apps.deep_view()[a] == pre_apps[a]);
                            }
                        }
                    }
                }
            },
            LoadedDescriptor::Failed { path, code, detail } => {
                issues.push(
                    ScanIssue { code: *code, path: path.clone(), detail: detail.clone() },
                );
                proof {
                    assert(issues.deep_view().len() == pre_issues.len() + 1);
                    assert(forall|w: int|
                        0 <= w < pre_issues.len() ==> issues.deep_view()[w] == pre_issues[w]);
                    assert(issues.deep_view()[pre_issues.len() as int] == ScanIssueModel {
                        code: *code,
                        path: path@,
                        detail: detail@,
                    });
                    assert(apps.deep_view() =~= registry_upto(ldv, i + 1).0);
                    assert(issues.deep_view() =~= registry_upto(ldv, i + 1).1);
                }
            },
        }
        i = i + 1;
    }
    Registry { apps, issues }
}

/// A copy of a descriptor with the same model.
pub fn clone_descriptor(d: &AppDescriptor) -> (r: AppDescriptor)
    ensures
        r.deep_view() == d.deep_view(),
{
    let mut actions: Vec<crate::descriptor::Action> = Vec::new();
    let mut k: usize = 0;
    while k < d.actions.len()
        invariant
            0 <= k <= d.actions@.len(),
            actions.deep_view() == d.actions.deep_view().subrange(0, k as int),
        decreases d.actions@.len() - k,
    {
        let src = &d.actions[k];
        let mut args: Vec<crate::descriptor::ActionArg> = Vec::new();
        let mut j: usize = 0;
        while j < src.args.len()
            invariant
                0 <= j <= src.args@.len(),
                args.deep_view() == src.args.deep_view().subrange(0, j as int),
            decreases src.args@.len() - j,
        {
            let a = &src.args[j];
            let ghost pre_a = args.deep_view();
            args.push(
                crate::descriptor::ActionArg {
                    name: a.name.clone(),
                    arg_type: a.arg_type,
                    required: a.required,
                },
            );
            proof {
                assert(args.deep_view().len() == pre_a.len() + 1);
                assert(args.deep_view()[pre_a.len() as int] == src.args.deep_view()[j as int]);
                assert(forall|w: int| 0 <= w < pre_a.len() ==> args.deep_view()[w] == pre_a[w]);
                assert(args.deep_view() =~= src.args.deep_view().subrange(0, j + 1));
            }
            j = j + 1;
        }
        proof {
            assert(src.args.deep_view().subrange(0, src.args@.len() as int)
                =~= src.args.deep_view());
        }
        let copy = crate::descriptor::Action {
            name: src.name.clone(),
            title: crate::model::clone_opt_string(&src.title),
            args,
        };
        let ghost pre = actions.deep_view();
        actions.push(copy);
        proof {
            assert(actions.deep_view().len() == pre.len() + 1);
            assert(actions.deep_view()[pre.len() as int] == d.actions.deep_view()[k as int]);
            assert(forall|w: int| 0 <= w < pre.len() ==> actions.deep_view()[w] == pre[w]);
            assert(actions.deep_view() =~= d.actions.deep_view().subrange(0, k + 1));
        }
        k = k + 1;
    }
    proof {
        assert(d.actions.deep_view().subrange(0, d.actions@.len() as int)
            =~= d.actions.deep_view());
    }
    AppDescriptor {
        id: d.id.clone(),
        name: d.name.clone(),
        description: d.description.clone(),
        version: d.version.clone(),
        scheme: crate::model::clone_opt_string(&d.scheme),
        icon: crate::model::clone_opt_string(&d.icon),
        actions,
    }
}

/// The candidate descriptor paths inside one application directory, in
/// lookup order.
pub fn descriptor_candidates(dir: &str) -> (r: Vec<String>)
    ensures
        r.deep_view().len() == 4,
        r.deep_view()[0] == dir@ + "/tlfsuite.json"@,
        r.deep_view()[1] == dir@ + "/Contents/Resources/tlfsuite.json"@,
        r.deep_view()[2] == dir@ + "/resources/tlfsuite.json"@,
        r.deep_view()[3] == dir@ + "/share/tlfsuite/tlfsuite.json"@,
{
    let mut out: Vec<String> = Vec::new();
    let mut a = dir.to_owned();
    a.append("/tlfsuite.json");
    let mut b = dir.to_owned();
    b.append("/Contents/Resources/tlfsuite.json");
    let mut c = dir.to_owned();
    c.append("/resources/tlfsuite.json");
    let mut d = dir.to_owned();
    d.append("/share/tlfsuite/tlfsuite.json");
    out.push(a);
    out.push(b);
    out.push(c);
    out.push(d);
    out
}

/// The scan issue a descriptor error maps to.
pub fn map_descriptor_error(e: &DescriptorError) -> (r: (IssueCode, String))
    ensures
        match e {
            DescriptorError::UnsupportedMajor(_) => r.0 == IssueCode::UnsupportedDescriptorVersion,
            DescriptorError::InvalidField { .. } => r.0 == IssueCode::InvalidField,
            DescriptorError::DuplicateAction(_) => r.0 == IssueCode::DuplicateAction,
            DescriptorError::DuplicateArg { .. } => r.0 == IssueCode::DuplicateArg,
        },
{
    match e {
        DescriptorError::UnsupportedMajor(m) => {
            let mut detail = String::new();
            detail.append("unsupported major version ");
            let digits = crate::text::u64_dec(*m);
            let text = crate::text::chars_string(&digits);
            detail.append(text.as_str());
            (IssueCode::UnsupportedDescriptorVersion, detail)
        },
        DescriptorError::InvalidField { field, msg } => {
            let mut detail = field.clone();
            detail.append(": ");
            detail.append(msg.as_str());
            (IssueCode::InvalidField, detail)
        },
        DescriptorError::DuplicateAction(name) => (IssueCode::DuplicateAction, name.clone()),
        DescriptorError::DuplicateArg { action, arg } => {
            let mut detail = action.clone();
            detail.append(":");
            detail.append(arg.as_str());
            (IssueCode::DuplicateArg, detail)
        },
    }
}

} // verus!
