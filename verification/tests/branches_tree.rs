use turbogit_ui::branches_tree::{
    build_branch_view, leaf_count, repo_section, BranchNode, RepoStatus, TagLeaf,
};
use turbogit_ui::domain::{Branch, BranchKind, BranchTip, RefState, Root, RootId, RootStatus};

fn local(name: &str, favorite: bool, ahead: usize, behind: usize) -> Branch {
    Branch {
        name: name.to_string(),
        kind: BranchKind::Local,
        tracking: if ahead + behind > 0 {
            Some("origin/main".to_string())
        } else {
            None
        },
        favorite,
        protected: false,
        exists: true,
        ahead,
        behind,
        gone: false,
        last_touched: Some(1000),
        tip: None,
        remote: None,
    }
}

fn remote(name: &str, remote: &str) -> Branch {
    Branch {
        name: name.to_string(),
        kind: BranchKind::Remote,
        tracking: None,
        favorite: false,
        protected: false,
        exists: true,
        ahead: 0,
        behind: 0,
        gone: false,
        last_touched: None,
        tip: None,
        remote: Some(remote.to_string()),
    }
}

fn root_with(id: &str, branches: &[Branch], current: Option<&str>, dirty: bool) -> Root {
    Root {
        id: RootId(id.to_string()),
        remotes: vec!["origin".to_string(), "upstream".to_string()],
        branches: branches.to_vec(),
        current_branch: current.map(|s| s.to_string()),
        head: Some("abc".to_string()),
        status: RootStatus {
            modified: if dirty { 1 } else { 0 },
            unversioned: 0,
            conflicted: 0,
        },
    }
}

type Tags = Vec<(RootId, Vec<(String, RefState)>)>;

fn no_tags() -> Tags {
    Vec::new()
}

fn leaf_labels(nodes: &[BranchNode]) -> Vec<String> {
    let mut out = Vec::new();
    for n in nodes {
        match n {
            BranchNode::Leaf(l) => out.push(l.label.clone()),
            BranchNode::Dir(d) => {
                out.push(format!("{}/", d.label));
                out.extend(leaf_labels(&d.children));
            }
        }
    }
    out
}

fn count_leaves_pub(nodes: &[BranchNode]) -> usize {
    nodes
        .iter()
        .map(|n| match n {
            BranchNode::Leaf(_) => 1,
            BranchNode::Dir(d) => count_leaves_pub(&d.children),
        })
        .sum()
}

#[test]
fn remotes_hidden_by_default_collapse_into_rollup() {
    let repo = root_with(
        "/alpha",
        &[
            local("main", false, 0, 0),
            local("feature-a", false, 0, 0),
            remote("origin/main", "origin"),
            remote("origin/remote-only", "origin"),
        ],
        Some("main"),
        false,
    );
    let view = build_branch_view(&[repo], &no_tags(), &|_| false);

    let section = &view.repos[0];
    assert!(section.remote_groups.is_empty(), "remotes stay collapsed");
    assert_eq!(section.remote_count, 2, "both remotes counted");
    assert_eq!(section.remote_branch_count, 2, "both remote branches counted");
    assert_eq!(
        section.remote_rollup().as_deref(),
        Some("2 remotes · 2 branches"),
        "rollup reads the derived counts"
    );
}

#[test]
fn remotes_on_yields_per_remote_groups() {
    let repo = root_with(
        "/alpha",
        &[
            local("main", false, 0, 0),
            remote("origin/main", "origin"),
            remote("origin/feature-x", "origin"),
            remote("upstream/main", "upstream"),
        ],
        Some("main"),
        false,
    );
    let view = build_branch_view(&[repo], &no_tags(), &|_| true);

    let section = &view.repos[0];
    assert_eq!(section.remote_groups.len(), 2);
    assert_eq!(section.remote_groups[0].remote, "origin");
    assert_eq!(section.remote_groups[0].count, 2);
    assert_eq!(section.remote_groups[1].remote, "upstream");
    assert_eq!(section.remote_groups[1].count, 1);
}

#[test]
fn local_directory_grouping_splits_on_slashes() {
    let repo = root_with(
        "/alpha",
        &[
            local("main", false, 0, 0),
            local("feature/a", false, 0, 0),
            local("feature/b", false, 0, 0),
        ],
        Some("main"),
        false,
    );
    let view = build_branch_view(&[repo], &no_tags(), &|_| false);
    let section = &view.repos[0];

    assert_eq!(section.locals.len(), 2);
    let dir = section
        .locals
        .iter()
        .find_map(|n| match n {
            BranchNode::Dir(d) if d.label == "feature" => Some(d),
            _ => None,
        })
        .expect("feature/ directory node");
    assert_eq!(dir.count, 2);
    assert_eq!(count_leaves_pub(&section.locals), 3);
}

#[test]
fn remote_directory_grouping_under_each_remote() {
    let repo = root_with(
        "/alpha",
        &[
            local("main", false, 0, 0),
            remote("origin/feature/x", "origin"),
            remote("origin/feature/y", "origin"),
            remote("origin/hotfix", "origin"),
        ],
        Some("main"),
        false,
    );
    let view = build_branch_view(&[repo], &no_tags(), &|_| true);
    let section = &view.repos[0];
    let origin = &section.remote_groups[0];

    let dir = origin
        .children
        .iter()
        .find_map(|n| match n {
            BranchNode::Dir(d) if d.label == "feature" => Some(d),
            _ => None,
        })
        .expect("origin/feature/ directory node");
    assert_eq!(dir.count, 2);
    assert_eq!(origin.count, 3);
}

fn check_counts(nodes: &[BranchNode]) {
    for n in nodes {
        if let BranchNode::Dir(d) = n {
            assert_eq!(
                d.count,
                count_leaves_pub(&d.children),
                "dir {} count must equal its leaves",
                d.label
            );
            check_counts(&d.children);
        }
    }
}

#[test]
fn count_invariant_holds_across_nested_dirs() {
    let repo = root_with(
        "/alpha",
        &[
            local("a/b/c", false, 0, 0),
            local("a/b/d", false, 0, 0),
            local("a/e", false, 0, 0),
            local("top", false, 0, 0),
        ],
        Some("top"),
        false,
    );
    let view = build_branch_view(&[repo], &no_tags(), &|_| false);
    let section = &view.repos[0];
    check_counts(&section.locals);
    assert_eq!(count_leaves_pub(&section.locals), 4);
}

#[test]
fn rollup_branch_count_equals_sum_of_remote_groups() {
    let repo = root_with(
        "/alpha",
        &[
            local("main", false, 0, 0),
            remote("origin/a", "origin"),
            remote("origin/b", "origin"),
            remote("upstream/a", "upstream"),
        ],
        Some("main"),
        false,
    );
    let tags: Tags = vec![(
        RootId("/alpha".to_string()),
        vec![("v1.0".to_string(), RefState::Default)],
    )];
    let view = build_branch_view(&[repo], &tags, &|_| true);
    let section = &view.repos[0];

    let sum: usize = section.remote_groups.iter().map(|g| g.count).sum();
    assert_eq!(sum, section.remote_branch_count, "rollup M == sum of groups");
}

#[test]
fn local_prefix_stripped_in_directory_leaf() {
    let repo = root_with(
        "/alpha",
        &[local("feature/long-name", false, 0, 0)],
        Some("main"),
        false,
    );
    let view = build_branch_view(&[repo], &no_tags(), &|_| false);
    let section = &view.repos[0];
    let labels = leaf_labels(&section.locals);
    assert!(
        labels.contains(&"long-name".to_string()),
        "leaf drops the directory part: {labels:?}"
    );
    assert!(
        !labels.iter().any(|l| l.contains("feature/long-name")),
        "full path must not re-print on the leaf"
    );
}

#[test]
fn remote_prefix_not_reprinted_inside_remote_group() {
    let repo = root_with(
        "/alpha",
        &[
            local("main", false, 0, 0),
            remote("origin/remote-only", "origin"),
            remote("origin/feature/x", "origin"),
        ],
        Some("main"),
        false,
    );
    let view = build_branch_view(&[repo], &no_tags(), &|_| true);
    let section = &view.repos[0];
    let origin = &section.remote_groups[0];
    let labels: Vec<String> = leaf_labels(&origin.children);

    assert!(labels.contains(&"remote-only".to_string()));
    assert!(labels.contains(&"x".to_string()));
    assert!(
        !leaf_labels(&origin.children)
            .iter()
            .any(|l| l.starts_with("origin/")),
        "remote prefix must not re-print inside its group"
    );
}

#[test]
fn checked_out_branch_marked_active() {
    let repo = root_with(
        "/alpha",
        &[local("main", false, 0, 0), local("feature-a", false, 0, 0)],
        Some("main"),
        false,
    );
    let view = build_branch_view(&[repo], &no_tags(), &|_| false);
    let section = &view.repos[0];
    let main = section
        .locals
        .iter()
        .find_map(|n| match n {
            BranchNode::Leaf(l) if l.label == "main" => Some(l),
            _ => None,
        })
        .expect("main leaf");
    assert!(main.active, "current branch is marked active");
    let feat = section
        .locals
        .iter()
        .find_map(|n| match n {
            BranchNode::Leaf(l) if l.label == "feature-a" => Some(l),
            _ => None,
        })
        .expect("feature-a leaf");
    assert!(!feat.active);
}

#[test]
fn favorites_pin_to_top_of_group() {
    let repo = root_with(
        "/alpha",
        &[
            local("main", false, 0, 0),
            local("feature-a", false, 0, 0),
            local("zebra", true, 0, 0),
        ],
        Some("main"),
        false,
    );
    let view = build_branch_view(&[repo], &no_tags(), &|_| false);
    let section = &view.repos[0];
    match &section.locals[0] {
        BranchNode::Leaf(l) => assert_eq!(l.label, "zebra", "favorite pinned to top"),
        BranchNode::Dir(..) => panic!("unexpected dir"),
    }
}

#[test]
fn favorites_pin_within_remote_group_when_shown() {
    let mut fav = remote("origin/starred", "origin");
    fav.favorite = true;
    let repo = root_with(
        "/alpha",
        &[local("main", false, 0, 0), fav, remote("origin/plain", "origin")],
        Some("main"),
        false,
    );
    let view = build_branch_view(&[repo], &no_tags(), &|_| true);
    let section = &view.repos[0];
    let origin = &section.remote_groups[0];
    match &origin.children[0] {
        BranchNode::Leaf(l) => assert_eq!(l.label, "starred", "remote favorite pinned to top"),
        BranchNode::Dir(..) => panic!("unexpected dir"),
    }
}

#[test]
fn repo_status_derived_from_snapshot() {
    let clean = root_with("/c", &[local("main", false, 0, 0)], Some("main"), false);
    let dirty = root_with("/d", &[local("main", false, 0, 0)], Some("main"), true);
    let unpushed = root_with("/u", &[local("main", false, 2, 0)], Some("main"), false);
    let unpulled = root_with("/p", &[local("main", false, 0, 3)], Some("main"), false);

    let view_clean = build_branch_view(&[clean], &no_tags(), &|_| false);
    let view_dirty = build_branch_view(&[dirty], &no_tags(), &|_| false);
    let view_push = build_branch_view(&[unpushed], &no_tags(), &|_| false);
    let view_pull = build_branch_view(&[unpulled], &no_tags(), &|_| false);

    assert_eq!(view_clean.repos[0].status, RepoStatus::Clean);
    assert_eq!(view_dirty.repos[0].status, RepoStatus::Dirty);
    assert_eq!(view_push.repos[0].status, RepoStatus::Unpushed);
    assert_eq!(view_pull.repos[0].status, RepoStatus::Unpulled);
}

#[test]
fn single_repo_emits_invisible_section_and_no_all_repos_count() {
    let repo = root_with("/alpha", &[local("main", false, 0, 0)], Some("main"), false);
    let view = build_branch_view(&[repo], &no_tags(), &|_| false);
    assert!(view.single_repo, "one repo → invisible section");
    assert_eq!(view.all_repos_count, None, "no all-N chip for a single repo");
    assert_eq!(view.repos.len(), 1);
    assert_eq!(view.repos[0].repo_name, "alpha");
}

#[test]
fn multi_repo_exposes_all_n_count_and_per_repo_sections() {
    let a = root_with("/alpha", &[local("main", false, 0, 0)], Some("main"), false);
    let b = root_with("/beta", &[local("main", false, 0, 0)], Some("main"), false);
    let view = build_branch_view(&[a, b], &no_tags(), &|_| false);
    assert!(!view.single_repo);
    assert_eq!(view.all_repos_count, Some(2));
    assert_eq!(view.repos.len(), 2);
    let names: Vec<&str> = view.repos.iter().map(|r| r.repo_name.as_str()).collect();
    assert!(names.contains(&"alpha") && names.contains(&"beta"));
}

#[test]
fn tags_attach_per_repo() {
    let repo = root_with("/alpha", &[local("main", false, 0, 0)], Some("main"), false);
    let tags: Tags = vec![(
        RootId("/alpha".to_string()),
        vec![
            ("v1.0".to_string(), RefState::Pushed),
            ("v2.0".to_string(), RefState::LocalOnly),
        ],
    )];
    let view = build_branch_view(&[repo], &tags, &|_| false);
    assert_eq!(
        view.repos[0].tags,
        vec![
            TagLeaf {
                name: "v1.0".to_string(),
                state: RefState::Pushed
            },
            TagLeaf {
                name: "v2.0".to_string(),
                state: RefState::LocalOnly
            },
        ]
    );
}

#[test]
fn leaf_carries_tip_for_detail_panel() {
    let mut b = local("main", false, 0, 0);
    b.tip = Some(BranchTip {
        short_hash: "deadbeef".to_string(),
        message: "init".to_string(),
        author: "t".to_string(),
        time: 1000,
    });
    let repo = root_with("/alpha", &[b], Some("main"), false);
    let view = build_branch_view(&[repo], &no_tags(), &|_| false);
    let leaf = match &view.repos[0].locals[0] {
        BranchNode::Leaf(l) => l,
        _ => panic!("leaf"),
    };
    assert_eq!(leaf.branch.tip.as_ref().unwrap().short_hash, "deadbeef");
}

// --- further cases -----------------------------------------------------------------

#[test]
fn tree_levels_order_favorites_then_active_then_label() {
    let repo = root_with(
        "/alpha",
        &[
            local("zeta", false, 0, 0),
            local("alpha", false, 0, 0),
            local("main", false, 0, 0),
            local("omega", true, 0, 0),
            local("dir/x", false, 0, 0),
        ],
        Some("main"),
        false,
    );
    let section = repo_section(&repo, &no_tags(), false);
    let labels: Vec<String> = section
        .locals
        .iter()
        .map(|n| match n {
            BranchNode::Leaf(l) => l.label.clone(),
            BranchNode::Dir(d) => format!("{}/", d.label),
        })
        .collect();
    assert_eq!(labels, vec!["omega", "main", "alpha", "dir/", "zeta"]);
    assert_eq!(leaf_count(&section.locals), 5);
}

#[test]
fn remote_groups_sorted_by_name_and_keyed_without_remote_field() {
    let mut a = remote("zed/one", "zed");
    a.remote = None;
    let b = remote("origin/two", "origin");
    let repo = root_with("/alpha", &[a, b], None, false);
    let section = repo_section(&repo, &no_tags(), true);
    assert_eq!(section.remote_groups.len(), 2);
    assert_eq!(section.remote_groups[0].remote, "origin");
    assert_eq!(section.remote_groups[1].remote, "zed");
    assert_eq!(leaf_labels(&section.remote_groups[1].children), vec!["one"]);
    assert_eq!(section.ahead, 0);
    assert_eq!(section.behind, 0);
}

#[test]
fn rollup_singular_words_and_none_without_remotes() {
    let mut repo = root_with("/alpha", &[remote("origin/a", "origin")], None, false);
    repo.remotes = vec!["origin".to_string()];
    let section = repo_section(&repo, &no_tags(), false);
    assert_eq!(section.remote_rollup().as_deref(), Some("1 remote · 1 branch"));
    let mut bare = root_with("/beta", &[], None, false);
    bare.remotes = Vec::new();
    let empty = repo_section(&bare, &no_tags(), false);
    assert_eq!(empty.remote_rollup(), None);
}

#[test]
fn diverged_and_conflicted_states_from_snapshot() {
    let mut both = local("main", false, 1, 1);
    both.tracking = Some("origin/main".to_string());
    let repo = root_with("/d", &[both], Some("main"), false);
    assert_eq!(repo_section(&repo, &no_tags(), false).status, RepoStatus::Diverged);
    let mut conflicted = root_with("/c", &[local("main", false, 0, 0)], Some("main"), true);
    conflicted.status.conflicted = 2;
    assert_eq!(repo_section(&conflicted, &no_tags(), false).status, RepoStatus::Conflict);
}
