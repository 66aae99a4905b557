use disk_visualizer::fsevents_callback::CollectedFseventsChange;
use disk_visualizer::incremental_rescan::{
    normalize_relative, plan_incremental_rescan, FullRescanReason, IncrementalRescanPlan,
    IncrementalRescanTarget,
};
use disk_visualizer::macos_fsevents::FseventsEvent;

fn change(path: &str) -> CollectedFseventsChange {
    CollectedFseventsChange {
        relative_path: path.to_owned(),
        event: FseventsEvent {
            event_id: 11,
            flags: 0,
        },
    }
}

fn target(path: &str, recursive: bool) -> IncrementalRescanTarget {
    IncrementalRescanTarget {
        relative_path: path.into(),
        recursive,
    }
}

#[test]
fn plans_exact_targets_for_normal_changes() {
    let plan = plan_incremental_rescan(&[change("a.txt"), change("dir/b.txt")], false, 8);
    assert_eq!(
        plan,
        IncrementalRescanPlan::Partial {
            targets: vec![target("a.txt", false), target("dir/b.txt", false)],
        }
    );
}

#[test]
fn marks_subtree_targets_as_recursive() {
    let plan = plan_incremental_rescan(&[change("dir")], true, 8);
    assert_eq!(
        plan,
        IncrementalRescanPlan::Partial {
            targets: vec![target("dir", true)],
        }
    );
}

#[test]
fn collapses_duplicates_and_descendants() {
    let plan = plan_incremental_rescan(
        &[change("dir/file"), change("dir"), change("dir/file")],
        true,
        8,
    );
    assert_eq!(
        plan,
        IncrementalRescanPlan::Partial {
            targets: vec![target("dir", true)],
        }
    );
}

#[test]
fn represents_volume_root_as_one_recursive_target() {
    let plan = plan_incremental_rescan(&[change("nested"), change(".")], false, 8);
    assert_eq!(
        plan,
        IncrementalRescanPlan::Partial {
            targets: vec![target(".", true)],
        }
    );
}

#[test]
fn fails_closed_for_unsafe_paths_and_target_overflow() {
    assert_eq!(
        plan_incremental_rescan(&[change("../outside")], false, 8),
        IncrementalRescanPlan::Full {
            reason: FullRescanReason::InvalidChangePath,
        }
    );
    assert_eq!(
        plan_incremental_rescan(&[change("a"), change("b")], false, 1),
        IncrementalRescanPlan::Full {
            reason: FullRescanReason::TooManyTargets,
        }
    );
}

#[test]
fn orders_targets_by_components_and_drops_only_true_descendants() {
    let plan = plan_incremental_rescan(
        &[change("b"), change("a/c"), change("a.txt"), change("a"), change("ab/x"), change("./b/../b")],
        false,
        8,
    );
    assert_eq!(
        plan,
        IncrementalRescanPlan::Full {
            reason: FullRescanReason::InvalidChangePath,
        }
    );
    let plan = plan_incremental_rescan(
        &[change("b"), change("a/c"), change("a.txt"), change("a"), change("ab/x"), change("./b/")],
        false,
        8,
    );
    assert_eq!(
        plan,
        IncrementalRescanPlan::Partial {
            targets: vec![
                target("a", false),
                target("a.txt", false),
                target("ab/x", false),
                target("b", false),
            ],
        }
    );
}

#[test]
fn invalid_path_wins_over_an_earlier_root_only_when_it_comes_first() {
    assert_eq!(
        plan_incremental_rescan(&[change("/abs"), change(".")], false, 8),
        IncrementalRescanPlan::Full {
            reason: FullRescanReason::InvalidChangePath,
        }
    );
    assert_eq!(
        plan_incremental_rescan(&[change("."), change("/abs")], false, 8),
        IncrementalRescanPlan::Partial {
            targets: vec![target(".", true)],
        }
    );
}

#[test]
fn empty_change_list_plans_no_targets() {
    assert_eq!(
        plan_incremental_rescan(&[], true, 0),
        IncrementalRescanPlan::Partial { targets: vec![] }
    );
}

#[test]
fn normalizes_relative_paths() {
    assert_eq!(normalize_relative("a/./b//c/"), Some("a/b/c".to_owned()));
    assert_eq!(normalize_relative("./"), Some(".".to_owned()));
    assert_eq!(normalize_relative(""), None);
    assert_eq!(normalize_relative("/a"), None);
    assert_eq!(normalize_relative("a/../b"), None);
}

#[test]
fn normalizing_twice_changes_nothing() {
    for path in ["a/./b//c/", "./", "x", "dir/sub/", "./a/b"] {
        let once = normalize_relative(path).unwrap();
        assert_eq!(normalize_relative(&once), Some(once.clone()));
    }
}

#[test]
fn plan_targets_are_normalized() {
    let plan = plan_incremental_rescan(&[change("./b//c/"), change("a/./x"), change("b")], false, 8);
    match plan {
        IncrementalRescanPlan::Partial { targets } => {
            assert_eq!(targets, vec![target("a/x", false), target("b", false)]);
            for t in targets {
                assert_eq!(normalize_relative(&t.relative_path), Some(t.relative_path.clone()));
            }
        }
        IncrementalRescanPlan::Full { .. } => panic!("expected a partial plan"),
    }
}

#[test]
fn plans_ignore_order_and_repeated_changes() {
    let forward = plan_incremental_rescan(&[change("a/x"), change("b"), change("a")], false, 8);
    let shuffled = plan_incremental_rescan(
        &[change("b"), change("a"), change("./b"), change("a/x"), change("a")],
        false,
        8,
    );
    assert_eq!(forward, shuffled);
    assert_eq!(
        forward,
        IncrementalRescanPlan::Partial {
            targets: vec![target("a", false), target("b", false)],
        }
    );
}
