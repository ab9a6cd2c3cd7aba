//! Checks of the dispatcher's and the self-updater's decisions.

use rokit::runner::{
    exit_code_for, forward_args, ChildExit, DispatchError, Runner, SIGNAL_SENTINEL,
};
use rokit::self_update::{
    actions_for, SelfUpdateSubcommand, UpdateAction, UpdateDecision, UpdateError,
};
use rokit::storage::tool_path;
use rokit::tool::{Provider, ToolId, ToolSpec};
use rokit::version::Version;

fn spec(author: &str, name: &str, major: u64, minor: u64, patch: u64) -> ToolSpec {
    ToolSpec {
        id: ToolId {
            provider: Provider::GitHub,
            author: author.as_bytes().to_vec(),
            name: name.as_bytes().to_vec(),
        },
        version: Version { major, minor, patch },
    }
}

#[test]
fn runner_is_not_a_shim_under_its_own_name() {
    let as_itself = Runner::new(b"rokit".to_vec());
    assert!(!as_itself.should_run());
    let as_alias = Runner::new(b"rojo".to_vec());
    assert!(as_alias.should_run());
    assert_eq!(as_alias.alias().unwrap().name, b"rojo".to_vec());
}

#[test]
fn runner_rejects_ill_formed_alias_names() {
    let bad = Runner::new(b"dir/rojo".to_vec());
    assert!(matches!(bad.alias(), Err(DispatchError::InvalidAliasName)));
    let empty = Runner::new(Vec::new());
    assert!(matches!(empty.alias(), Err(DispatchError::InvalidAliasName)));
}

#[test]
fn runner_resolve_maps_lookup_to_path() {
    let r = Runner::new(b"rojo".to_vec());
    let s = spec("rojo-rbx", "rojo", 7, 4, 1);
    let path = r.resolve(Some(s.duplicate())).unwrap();
    assert_eq!(path, tool_path(&s));
    assert_eq!(r.resolve(None), Err(DispatchError::AliasNotInManifests));
}

#[test]
fn dispatcher_passes_child_exit_code_through() {
    // A child that exits 7 makes the dispatcher exit 7.
    assert_eq!(exit_code_for(ChildExit::Exited(7)), 7);
    assert_eq!(exit_code_for(ChildExit::Exited(0)), 0);
    assert_eq!(exit_code_for(ChildExit::Signaled), SIGNAL_SENTINEL);
}

#[test]
fn dispatcher_forwards_argv_unchanged_minus_its_own_name() {
    let argv: Vec<Vec<u8>> =
        vec![b"rojo".to_vec(), b"build".to_vec(), b"--output".to_vec(), b"out.rbxlx".to_vec()];
    let forwarded = forward_args(argv);
    assert_eq!(
        forwarded,
        vec![b"build".to_vec(), b"--output".to_vec(), b"out.rbxlx".to_vec()]
    );
}

#[test]
fn self_update_noop_when_already_latest() {
    let cmd = SelfUpdateSubcommand { force: false };
    let v = Version { major: 1, minor: 2, patch: 3 };
    assert_eq!(cmd.decide(v, v), UpdateDecision::UpToDate);
    // No replacement, no relink.
    assert!(actions_for(UpdateDecision::UpToDate).is_empty());
}

#[test]
fn self_update_runs_when_newer_or_forced() {
    let older = Version { major: 1, minor: 2, patch: 3 };
    let newer = Version { major: 1, minor: 3, patch: 0 };
    let plain = SelfUpdateSubcommand { force: false };
    assert_eq!(plain.decide(older, newer), UpdateDecision::Update);
    assert_eq!(plain.decide(newer, older), UpdateDecision::UpToDate);
    let forced = SelfUpdateSubcommand { force: true };
    assert_eq!(forced.decide(newer, older), UpdateDecision::Update);
    assert_eq!(
        actions_for(UpdateDecision::Update),
        vec![UpdateAction::ReplaceSelf, UpdateAction::RecreateLinks]
    );
}

#[test]
fn self_update_parses_running_version_text() {
    let cmd = SelfUpdateSubcommand { force: false };
    let latest = Version { major: 1, minor: 3, patch: 0 };
    assert_eq!(cmd.decide_from_text("1.2.3", latest), Ok(UpdateDecision::Update));
    assert_eq!(cmd.decide_from_text("1.3.0", latest), Ok(UpdateDecision::UpToDate));
    assert_eq!(cmd.decide_from_text("9.9.9", latest), Ok(UpdateDecision::UpToDate));
    assert_eq!(
        cmd.decide_from_text("not a version", latest),
        Err(UpdateError::InvalidCurrentVersion)
    );
}

#[test]
fn version_order_is_lexicographic() {
    let a = Version { major: 1, minor: 2, patch: 3 };
    let b = Version { major: 1, minor: 2, patch: 4 };
    let c = Version { major: 1, minor: 3, patch: 0 };
    let d = Version { major: 2, minor: 0, patch: 0 };
    assert!(a.is_older_than(&b));
    assert!(b.is_older_than(&c));
    assert!(c.is_older_than(&d));
    assert!(!d.is_older_than(&a));
    assert!(!a.is_older_than(&a));
}
