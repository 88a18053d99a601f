//! Discovered application descriptors: the compact records a directory
//! scan produces, and the checks over one file's parsed fields — a
//! required application id, and action names present and noted when they
//! repeat. Walking directories and parsing files is the host's concern.

use vstd::prelude::*;
use crate::model::{DescriptorLoadIssue, LoadIssueModel};

verus! {

/// One discovered action.
#[derive(Debug, PartialEq)]
pub struct ActionDescriptor {
    pub name: String,
    pub description: Option<String>,
    pub requires_elevation: bool,
}

/// The mathematical shape of an [`ActionDescriptor`].
pub ghost struct ActionDescModel {
    pub name: Seq<char>,
    pub description: Option<Seq<char>>,
    pub requires_elevation: bool,
}

impl DeepView for ActionDescriptor {
    type V = ActionDescModel;

    open spec fn deep_view(&self) -> ActionDescModel {
        ActionDescModel {
            name: self.name@,
            description: self.description.deep_view(),
            requires_elevation: self.requires_elevation,
        }
    }
}

/// One discovered application.
#[derive(Debug, PartialEq)]
pub struct ApplicationDescriptor {
    pub app_id: String,
    pub actions: Vec<ActionDescriptor>,
}

/// What a scan produced: the descriptors found and the problems met.
#[derive(Debug, PartialEq)]
pub struct ScanResult {
    pub descriptors: Vec<ApplicationDescriptor>,
    pub issues: Vec<DescriptorLoadIssue>,
}

/// One action as read from a file: its name, when one was given, and its
/// elevation flag.
#[derive(Debug, PartialEq)]
pub struct RawAction {
    pub name: Option<String>,
    pub requires_elevation: bool,
}

/// The mathematical shape of a [`RawAction`].
pub ghost struct RawActionModel {
    pub name: Option<Seq<char>>,
    pub requires_elevation: bool,
}

impl DeepView for RawAction {
    type V = RawActionModel;

    open spec fn deep_view(&self) -> RawActionModel {
        RawActionModel {
            name: self.name.deep_view(),
            requires_elevation: self.requires_elevation,
        }
    }
}

/// The issue reported for a file without a usable application id.
pub open spec fn missing_id_issue(path: Seq<char>) -> LoadIssueModel {
    LoadIssueModel {
        app_id: Option::None,
        level: "SCHEMA_ERROR"@,
        message: "missing app_id"@,
        path,
    }
}

/// The actions kept from the first `n` raw entries: each named action, in
/// order, named ones with repeated names included.
pub open spec fn kept_upto(raws: Seq<RawActionModel>, n: int) -> Seq<ActionDescModel>
    decreases n,
{
    if n <= 0 {
        Seq::empty()
    } else {
        kept_upto(raws, n - 1) + (match raws[n - 1].name {
            Option::Some(nm) => seq![
                ActionDescModel {
                    name: nm,
                    description: Option::None,
                    requires_elevation: raws[n - 1].requires_elevation,
                },
            ],
            Option::None => Seq::empty(),
        })
    }
}

/// Whether a name occurs among the first `n` raw entries.
pub open spec fn seen_name(raws: Seq<RawActionModel>, n: int, nm: Seq<char>) -> bool {
    exists|j: int| 0 <= j < n && (#[trigger] raws[j]).name == Option::Some(nm)
}

/// The issues reported over the first `n` raw entries: a schema issue per
/// unnamed action, a semantic issue per repeated name.
pub open spec fn discovery_issues_upto(
    raws: Seq<RawActionModel>,
    n: int,
    id: Seq<char>,
    path: Seq<char>,
) -> Seq<LoadIssueModel>
    decreases n,
{
    if n <= 0 {
        Seq::empty()
    } else {
        discovery_issues_upto(raws, n - 1, id, path) + (match raws[n - 1].name {
            Option::None => seq![
                LoadIssueModel {
                    app_id: Option::Some(id),
                    level: "SCHEMA_ERROR"@,
                    message: "action missing name"@,
                    path,
                },
            ],
            Option::Some(nm) => if seen_name(raws, n - 1, nm) {
                seq![
                    LoadIssueModel {
                        app_id: Option::Some(id),
                        level: "SEMANTIC_ERROR"@,
                        message: "duplicate action name: "@ + nm,
                        path,
                    },
                ]
            } else {
                Seq::empty()
            },
        })
    }
}

/// Check one file's parsed fields: without an application id nothing is
/// kept and a schema issue is reported; an action without a name is
/// dropped with a schema issue; a repeated action name is kept but noted
/// as a semantic issue.
pub fn check_discovered(
    app_id: &Option<String>,
    actions: &Vec<RawAction>,
    path: &String,
) -> (r: (Option<ApplicationDescriptor>, Vec<DescriptorLoadIssue>))
    ensures
        match app_id {
            Option::None => r.0 is None && r.1.deep_view() == seq![missing_id_issue(path@)],
            Option::Some(id) => {
                &&& (id@.len() == 0 ==> r.0 is None && r.1.deep_view() == seq![
                    missing_id_issue(path@),
                ])
                &&& (id@.len() > 0 ==> (match r.0 {
                    Option::Some(d) => {
                        &&& d.app_id@ == id@
                        &&& d.actions.deep_view() == kept_upto(
                            actions.deep_view(),
                            actions.deep_view().len() as int,
                        )
                        &&& r.1.deep_view() == discovery_issues_upto(
                            actions.deep_view(),
                            actions.deep_view().len() as int,
                            id@,
                            path@,
                        )
                    },
                    Option::None => false,
                }))
            },
        },
{
    let id = match app_id {
        Option::Some(id) => {
            if id.as_str().unicode_len() == 0 {
                let mut issues: Vec<DescriptorLoadIssue> = Vec::new();
                issues.push(
                    DescriptorLoadIssue {
                        app_id: Option::None,
                        level: schema_level(),
                        message: "missing app_id".to_owned(),
                        path: path.clone(),
                    },
                );
                proof {
                    assert(issues.deep_view() =~= seq![missing_id_issue(path@)]);
                }
                return (Option::None, issues);
            }
            id.clone()
        },
        Option::None => {
            let mut issues: Vec<DescriptorLoadIssue> = Vec::new();
            issues.push(
                DescriptorLoadIssue {
                    app_id: Option::None,
                    level: schema_level(),
                    message: "missing app_id".to_owned(),
                    path: path.clone(),
                },
            );
            proof {
                assert(issues.deep_view() =~= seq![missing_id_issue(path@)]);
            }
            return (Option::None, issues);
        },
    };
    let ghost rdv = actions.deep_view();
    let mut issues: Vec<DescriptorLoadIssue> = Vec::new();
    let mut kept: Vec<ActionDescriptor> = Vec::new();
    let mut i: usize = 0;
    proof {
        assert(kept.deep_view() =~= kept_upto(rdv, 0));
        assert(issues.deep_view() =~= discovery_issues_upto(rdv, 0, id@, path@));
    }
    while i < actions.len()
        invariant
            0 <= i <= actions@.len(),
            rdv == actions.deep_view(),
            rdv.len() == actions@.len(),
            id@.len() > 0,
            kept.deep_view() == kept_upto(rdv, i as int),
            issues.deep_view() == discovery_issues_upto(rdv, i as int, id@, path@),
            forall|nm: Seq<char>|
                #[trigger] seen_name(rdv, i as int, nm) <==> exists|q: int|
                    0 <= q < kept.deep_view().len() && (#[trigger] kept.deep_view()[q]).name
                        == nm,
        decreases actions@.len() - i,
    {
        let ghost pre_kept = kept.deep_view();
        let ghost pre_issues = issues.deep_view();
        proof {
            assert(rdv[i as int] == actions@[i as int].deep_view());
        }
        match &actions[i].name {
            Option::Some(name) => {
                let mut dup = false;
                let mut q: usize = 0;
                while q < kept.len()
                    invariant
                        0 <= q <= kept@.len(),
                        dup == exists|w: int|
                            0 <= w < q && (#[trigger] kept.deep_view()[w]).name == name@,
                    decreases kept@.len() - q,
                {
                    proof {
                        assert(kept.deep_view()[q as int] == kept@[q as int].deep_view());
                    }
                    if kept[q].name.eq(name) {
                        dup = true;
                        proof {
                            assert(kept.deep_view()[q as int].name == name@);
                        }
                    }
                    q = q + 1;
                }
                proof {
                    assert(dup == seen_name(rdv, i as int, name@));
                }
                if dup {
                    let mut msg = String::new();
                    msg.append("duplicate action name: ");
                    msg.append(name.as_str());
                    issues.push(
                        DescriptorLoadIssue {
                            app_id: Option::Some(id.clone()),
                            level: semantic_level(),
                            message: msg,
                            path: path.clone(),
                        },
                    );
                    proof {
                        assert(issues.deep_view().len() == pre_issues.len() + 1);
                        assert(forall|w: int|
                            0 <= w < pre_issues.len() ==> issues.deep_view()[w] == pre_issues[w]);
                        assert(issues.deep_view()[pre_issues.len() as int] == LoadIssueModel {
                            app_id: Option::Some(id@),
                            level: "SEMANTIC_ERROR"@,
                            message: "duplicate action name: "@ + name@,
                            path: path@,
                        });
                    }
                }
                kept.push(
                    ActionDescriptor {
                        name: name.clone(),
                        description: Option::None,
                        requires_elevation: actions[i].requires_elevation,
                    },
                );
                proof {
                    assert(kept.deep_view().len() == pre_kept.len() + 1);
                    assert(forall|w: int|
                        0 <= w < pre_kept.len() ==> kept.deep_view()[w] == pre_kept[w]);
                    assert(kept.deep_view()[pre_kept.len() as int] == ActionDescModel {
                        name: name@,
                        description: Option::None,
                        requires_elevation: rdv[i as int].requires_elevation,
                    });
                    assert(kept.deep_view() =~= kept_upto(rdv, i + 1));
                    if !dup {
                        assert(issues.deep_view() =~= discovery_issues_upto(
                            rdv,
                            i + 1,
                            id@,
                            path@,
                        ));
                    } else {
                        assert(issues.deep_view() =~= discovery_issues_upto(
                            rdv,
                            i + 1,
                            id@,
                            path@,
                        ));
                    }
                    assert forall|nm: Seq<char>|
                        #[trigger] seen_name(rdv, i + 1, nm) <==> exists|w: int|
                            0 <= w < kept.deep_view().len() && (#[trigger] kept.deep_view()[
                                w
                            ]).name == nm by {
                        if seen_name(rdv, i + 1, nm) {
                            let j = choose|j: int|
                                0 <= j < i + 1 && (#[trigger] rdv[j]).name == Option::Some(nm);
                            if j < i {
                                assert(seen_name(rdv, i as int, nm));
                                let w = choose|w: int|
                                    0 <= w < pre_kept.len() && (#[trigger] pre_kept[w]).name
                                        == nm;
                                assert(kept.deep_view()[w].name == nm);
                            } else {
                                assert(kept.deep_view()[pre_kept.len() as int].name == nm);
                            }
                        }
                        if exists|w: int|
                            0 <= w < kept.deep_view().len() && (#[trigger] kept.deep_view()[
                                w
                            ]).name == nm {
                            let w = choose|w: int|
                                0 <= w < kept.deep_view().len() && (#[trigger] kept.deep_view()[
                                    w
                                ]).name == nm;
                            if w < pre_kept.len() {
                                assert(pre_kept[w].name == nm);
                                assert(seen_name(rdv, i as int, nm));
                                let j = choose|j: int|
                                    0 <= j < i && (#[trigger] rdv[j]).name == Option::Some(nm);
                                assert(seen_name(rdv, i + 1, nm));
                            } else {
                                assert(rdv[i as int].name == Option::Some(nm));
                                assert(seen_name(rdv, i + 1, nm));
                            }
                        }
                    }
                }
            },
            Option::None => {
                issues.push(
                    DescriptorLoadIssue {
                        app_id: Option::Some(id.clone()),
                        level: schema_level(),
                        message: "action missing name".to_owned(),
                        path: path.clone(),
                    },
                );
                proof {
                    assert(issues.deep_view().len() == pre_issues.len() + 1);
                    assert(forall|w: int|
                        0 <= w < pre_issues.len() ==> issues.deep_view()[w] == pre_issues[w]);
                    assert(issues.deep_view()[pre_issues.len() as int] == LoadIssueModel {
                        app_id: Option::Some(id@),
                        level: "SCHEMA_ERROR"@,
                        message: "action missing name"@,
                        path: path@,
                    });
                    assert(kept.deep_view() =~= kept_upto(rdv, i + 1));
                    assert(issues.deep_view() =~= discovery_issues_upto(rdv, i + 1, id@, path@));
                    assert forall|nm: Seq<char>|
                        #[trigger] seen_name(rdv, i + 1, nm) <==> exists|w: int|
                            0 <= w < kept.deep_view().len() && (#[trigger] kept.deep_view()[
                                w
                            ]).name == nm by {
                        if seen_name(rdv, i + 1, nm) {
                            let j = choose|j: int|
                                0 <= j < i + 1 && (#[trigger] rdv[j]).name == Option::Some(nm);
                            assert(j < i);
                            assert(seen_name(rdv, i as int, nm));
                        }
                        if seen_name(rdv, i as int, nm) {
                            let j = choose|j: int|
                                0 <= j < i && (#[trigger] rdv[j]).name == Option::Some(nm);
                            assert(seen_name(rdv, i + 1, nm));
                        }
                    }
                }
            },
        }
        i = i + 1;
    }
    (Option::Some(ApplicationDescriptor { app_id: id, actions: kept }), issues)
}

/// The schema-problem level text.
fn schema_level() -> (r: String)
    ensures
        r@ == "SCHEMA_ERROR"@,
{
    let mut s = String::new();
    s.append("SCHEMA_ERROR");
    s
}

/// The semantic-problem level text.
fn semantic_level() -> (r: String)
    ensures
        r@ == "SEMANTIC_ERROR"@,
{
    let mut s = String::new();
    s.append("SEMANTIC_ERROR");
    s
}

} // verus!
