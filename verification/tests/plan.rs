use tfs::model::{CollisionPolicy, Plan, SymlinkPolicy, TransactionMode};
use tfs::path::FsPath;

#[test]
fn model_test_plan_validation() {
    let plan = Plan {
        root: FsPath::parse("/absolute/path"),
        transaction: TransactionMode::All,
        collision_policy: CollisionPolicy::Fail,
        symlink_policy: SymlinkPolicy::Error,
        allow_overwrite: false,
        operations: vec![],
    };
    assert!(plan.validate().is_ok());
}

#[test]
fn test_plan_relative_root_fails() {
    let plan = Plan {
        root: FsPath::parse("relative/path"),
        transaction: TransactionMode::All,
        collision_policy: CollisionPolicy::Fail,
        symlink_policy: SymlinkPolicy::Error,
        allow_overwrite: false,
        operations: vec![],
    };
    assert!(plan.validate().is_err());
}
