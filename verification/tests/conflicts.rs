use gitprism::repo::{
    classify_op_result, conflict_sides, detect_operation, read_conflict_stage, OperationMarkers,
};
use gitprism::status::{conflict_side, conflicted_paths, porcelain_well_formed, status_list};
use gitprism::types::{ChangeKind, ConflictSide, OpOutcome, RepoOperation};

fn markers(merge: bool, rebase: bool) -> OperationMarkers {
    OperationMarkers {
        merge_head: merge,
        cherry_pick_head: false,
        revert_head: false,
        rebase_merge: false,
        rebase_apply: rebase,
    }
}

#[test]
fn merge_conflict_is_an_operation_and_a_conflicted_path() {
    assert_eq!(detect_operation(markers(true, false)), RepoOperation::Merge);
    assert_eq!(detect_operation(markers(false, true)), RepoOperation::Rebase);
    assert_eq!(detect_operation(markers(false, false)), RepoOperation::Idle);
    let out = "UU a.txt\0AA new.txt\0 M other.txt\0R  new name\0old name\0DU gone.txt\0";
    assert!(porcelain_well_formed(out));
    let c = conflicted_paths(Ok(out.to_string()));
    assert_eq!(
        c,
        vec![
            ("a.txt".to_string(), ConflictSide::BothModified),
            ("new.txt".to_string(), ConflictSide::BothAdded),
            ("gone.txt".to_string(), ConflictSide::DeletedByUs),
        ]
    );
    let list = status_list(Vec::new(), Vec::new(), c);
    assert!(list.iter().all(|f| f.kind == ChangeKind::Conflicted));
    assert!(conflicted_paths(Err("not a repo".to_string())).is_empty());
    assert!(!porcelain_well_formed("aé x\0"));
}

#[test]
fn conflict_codes() {
    assert_eq!(conflict_side("DD"), Some(ConflictSide::BothDeleted));
    assert_eq!(conflict_side("AU"), Some(ConflictSide::AddedByUs));
    assert_eq!(conflict_side("UD"), Some(ConflictSide::DeletedByThem));
    assert_eq!(conflict_side("UA"), Some(ConflictSide::AddedByThem));
    assert_eq!(conflict_side(" M"), None);
}

#[test]
fn add_add_conflict_has_no_base_side() {
    let sides = conflict_sides(
        read_conflict_stage(Err("no stage 1".to_string())),
        read_conflict_stage(Ok(b"main version\n".to_vec())),
        read_conflict_stage(Ok(b"feature version\n".to_vec())),
    );
    assert!(sides.base.is_none());
    assert_eq!(sides.ours.as_deref(), Some("main version\n"));
    assert_eq!(sides.theirs.as_deref(), Some("feature version\n"));
    assert!(!sides.is_binary);
    let bin = conflict_sides(
        read_conflict_stage(Ok(vec![0u8, 9])),
        read_conflict_stage(Ok(vec![0xff, 0xfe])),
        read_conflict_stage(Err(String::new())),
    );
    assert!(bin.is_binary);
    assert!(bin.ours.is_none());
}

#[test]
fn history_operation_outcomes() {
    assert_eq!(classify_op_result(Ok(Vec::new()), RepoOperation::Idle), Ok(OpOutcome::Applied));
    assert_eq!(
        classify_op_result(Err("conflict".to_string()), RepoOperation::CherryPick),
        Ok(OpOutcome::Conflict)
    );
    assert_eq!(
        classify_op_result(Err("bad revision".to_string()), RepoOperation::Idle),
        Err("bad revision".to_string())
    );
}
