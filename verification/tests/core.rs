//! End-to-end checks of the verified core on concrete values.

use rokit::artifact::{select_best, Arch, ArchiveFormat, Artifact, Os, System};
use rokit::install::{
    apply_outcomes, commit_install, dedup_aliases, dedup_specs, InstallError, InstallSubcommand,
};
use rokit::ledger::Ledger;
use rokit::storage::{plan_links, tool_path, Store};
use rokit::tool::{parse_tool_id, Provider, ToolAlias, ToolId, ToolSpec};
use rokit::version::Version;

fn id(author: &str, name: &str) -> ToolId {
    ToolId {
        provider: Provider::GitHub,
        author: author.as_bytes().to_vec(),
        name: name.as_bytes().to_vec(),
    }
}

fn spec(author: &str, name: &str, major: u64, minor: u64, patch: u64) -> ToolSpec {
    ToolSpec { id: id(author, name), version: Version { major, minor, patch } }
}

fn alias(name: &str) -> ToolAlias {
    ToolAlias { name: name.as_bytes().to_vec() }
}

#[test]
fn tool_path_same_spec_same_path() {
    let a = spec("rojo-rbx", "rojo", 7, 4, 1);
    let b = spec("rojo-rbx", "rojo", 7, 4, 1);
    assert_eq!(tool_path(&a), tool_path(&b));
}

#[test]
fn tool_path_differs_on_version_and_id() {
    let base = spec("rojo-rbx", "rojo", 7, 4, 1);
    let newer = spec("rojo-rbx", "rojo", 7, 4, 2);
    let other = spec("rojo-rbx", "remodel", 7, 4, 1);
    assert_ne!(tool_path(&base), tool_path(&newer));
    assert_ne!(tool_path(&base), tool_path(&other));
}

#[test]
fn tool_path_segments_are_readable() {
    let s = spec("rojo-rbx", "rojo", 7, 4, 10);
    let segs = tool_path(&s);
    let expect: Vec<Vec<u8>> = vec![
        b"github".to_vec(),
        b"rojo-rbx".to_vec(),
        b"rojo".to_vec(),
        b"7".to_vec(),
        b"4".to_vec(),
        b"10".to_vec(),
        b"rojo".to_vec(),
    ];
    assert_eq!(segs, expect);
}

#[test]
fn parse_tool_id_well_formed() {
    let got = parse_tool_id(Provider::GitHub, &b"rojo-rbx/rokit".to_vec()).unwrap();
    assert_eq!(got.author, b"rojo-rbx".to_vec());
    assert_eq!(got.name, b"rokit".to_vec());
}

#[test]
fn parse_tool_id_rejects_bad_shapes() {
    assert!(parse_tool_id(Provider::GitHub, &b"no-slash".to_vec()).is_none());
    assert!(parse_tool_id(Provider::GitHub, &b"a/b/c".to_vec()).is_none());
    assert!(parse_tool_id(Provider::GitHub, &b"/name".to_vec()).is_none());
    assert!(parse_tool_id(Provider::GitHub, &b"author/".to_vec()).is_none());
    assert!(parse_tool_id(Provider::GitHub, &b"".to_vec()).is_none());
}

#[test]
fn ledger_trust_and_install_stick() {
    let mut l = Ledger::new();
    let a = id("rojo-rbx", "rojo");
    assert!(!l.is_trusted(&a));
    l.add_trust(a.duplicate());
    assert!(l.is_trusted(&a));
    // Recording again changes nothing observable.
    l.add_trust(a.duplicate());
    assert!(l.is_trusted(&a));
    assert_eq!(l.trusted_entries().len(), 1);

    let s = spec("rojo-rbx", "rojo", 7, 4, 1);
    assert!(!l.is_installed(&s));
    l.add_installed(s.duplicate());
    assert!(l.is_installed(&s));
    l.add_installed(s.duplicate());
    assert_eq!(l.installed_entries().len(), 1);
}

#[test]
fn trust_is_per_identity_not_per_version() {
    let mut l = Ledger::new();
    l.add_trust(id("rojo-rbx", "rojo"));
    let cmd = InstallSubcommand { no_trust_check: false, force: false };
    // Two different versions of the trusted identity: neither is prompted.
    let specs = vec![spec("rojo-rbx", "rojo", 1, 0, 0), spec("rojo-rbx", "rojo", 2, 0, 0)];
    let (trusted, untrusted) = cmd.gate(&l, &specs);
    assert_eq!(trusted.len(), 2);
    assert!(untrusted.is_empty());
}

#[test]
fn gate_splits_by_trust() {
    let mut l = Ledger::new();
    l.add_trust(id("rojo-rbx", "rojo"));
    let cmd = InstallSubcommand { no_trust_check: false, force: false };
    let specs = vec![spec("rojo-rbx", "rojo", 7, 4, 1), spec("upliftgames", "wally", 0, 3, 2)];
    let (trusted, untrusted) = cmd.gate(&l, &specs);
    assert_eq!(trusted.len(), 1);
    assert_eq!(untrusted.len(), 1);
    assert!(trusted[0].is_same_spec(&specs[0]));
    assert!(untrusted[0].is_same_spec(&specs[1]));
}

#[test]
fn gate_skip_passes_everything() {
    let l = Ledger::new();
    let cmd = InstallSubcommand { no_trust_check: true, force: false };
    let specs = vec![spec("rojo-rbx", "rojo", 7, 4, 1)];
    let (trusted, untrusted) = cmd.gate(&l, &specs);
    assert_eq!(trusted.len(), 1);
    assert!(untrusted.is_empty());
}

#[test]
fn second_run_plans_no_downloads() {
    let mut l = Ledger::new();
    let s1 = spec("rojo-rbx", "rojo", 7, 4, 1);
    let s2 = spec("upliftgames", "wally", 0, 3, 2);
    l.add_installed(s1.duplicate());
    l.add_installed(s2.duplicate());
    let cmd = InstallSubcommand { no_trust_check: false, force: false };
    let (to_install, skipped) = cmd.plan(&l, &vec![s1, s2]);
    assert!(to_install.is_empty());
    assert_eq!(skipped.len(), 2);
    // Folding in zero outcomes leaves the ledger exactly as it was.
    let before: usize = l.installed_entries().len();
    let r = apply_outcomes(&mut l, &Vec::new());
    assert_eq!(r, Ok(0));
    assert_eq!(l.installed_entries().len(), before);
}

#[test]
fn force_plans_everything() {
    let mut l = Ledger::new();
    let s1 = spec("rojo-rbx", "rojo", 7, 4, 1);
    l.add_installed(s1.duplicate());
    let cmd = InstallSubcommand { no_trust_check: false, force: true };
    let (to_install, skipped) = cmd.plan(&l, &vec![s1]);
    assert_eq!(to_install.len(), 1);
    assert!(skipped.is_empty());
}

#[test]
fn duplicate_declarations_collapse() {
    // The same alias -> spec pair from two manifests: one download target,
    // one link.
    let pairs = vec![
        (alias("rojo"), spec("rojo-rbx", "rojo", 7, 4, 1)),
        (alias("rojo"), spec("rojo-rbx", "rojo", 7, 4, 1)),
    ];
    let aliases = dedup_aliases(&pairs);
    let specs = dedup_specs(&pairs);
    assert_eq!(aliases.len(), 1);
    assert_eq!(specs.len(), 1);
    let links = plan_links(&aliases);
    assert_eq!(links.len(), 1);
    assert_eq!(links[0].alias.name, b"rojo".to_vec());
}

#[test]
fn distinct_declarations_survive_dedup() {
    let pairs = vec![
        (alias("rojo"), spec("rojo-rbx", "rojo", 7, 4, 1)),
        (alias("wally"), spec("upliftgames", "wally", 0, 3, 2)),
        (alias("rojo"), spec("rojo-rbx", "rojo", 7, 4, 1)),
    ];
    assert_eq!(dedup_aliases(&pairs).len(), 2);
    assert_eq!(dedup_specs(&pairs).len(), 2);
}

#[test]
fn fail_fast_keeps_earlier_successes() {
    let mut l = Ledger::new();
    let s1 = spec("rojo-rbx", "rojo", 7, 4, 1);
    let s2 = spec("upliftgames", "wally", 0, 3, 2);
    let s3 = spec("lune-org", "lune", 0, 8, 9);
    let outcomes = vec![
        (s1.duplicate(), None),
        (s2.duplicate(), None),
        (s3.duplicate(), Some(InstallError::NetworkIo)),
    ];
    let r = apply_outcomes(&mut l, &outcomes);
    assert_eq!(r, Err(InstallError::NetworkIo));
    assert!(l.is_installed(&s1));
    assert!(l.is_installed(&s2));
    assert!(!l.is_installed(&s3));
}

#[test]
fn apply_outcomes_reports_first_error() {
    let mut l = Ledger::new();
    let outcomes = vec![
        (spec("a", "b", 1, 0, 0), Some(InstallError::NoCompatibleArtifact)),
        (spec("c", "d", 1, 0, 0), Some(InstallError::NotFound)),
    ];
    assert_eq!(apply_outcomes(&mut l, &outcomes), Err(InstallError::NoCompatibleArtifact));
    assert_eq!(l.installed_entries().len(), 0);
}

#[test]
fn every_failure_kind_aborts_the_run() {
    let kinds = [
        InstallError::NotFound,
        InstallError::AuthRequired,
        InstallError::NoCompatibleArtifact,
        InstallError::NetworkIo,
        InstallError::ExtractMissingExecutable,
        InstallError::ExtractOther,
        InstallError::UserDeclinedTrust,
    ];
    for e in kinds {
        let mut l = Ledger::new();
        let outcomes = vec![(spec("rojo-rbx", "rojo", 7, 4, 1), Some(e))];
        assert_eq!(apply_outcomes(&mut l, &outcomes), Err(e));
        assert_eq!(l.installed_entries().len(), 0);
    }
}

#[test]
fn commit_install_backs_ledger_with_bytes() {
    let mut l = Ledger::new();
    let mut st = Store::new();
    let s = spec("rojo-rbx", "rojo", 7, 4, 1);
    commit_install(&mut l, &mut st, &s, b"binary".to_vec());
    assert!(l.is_installed(&s));
    assert_eq!(st.read_at(&tool_path(&s)), Some(&b"binary".to_vec()));
}

#[test]
fn store_last_writer_wins() {
    let mut st = Store::new();
    let s = spec("rojo-rbx", "rojo", 7, 4, 1);
    st.replace_tool_contents(&s, b"one".to_vec());
    st.replace_tool_contents(&s, b"two".to_vec());
    let p = tool_path(&s);
    assert_eq!(st.read_at(&p), Some(&b"two".to_vec()));
    let other = tool_path(&spec("rojo-rbx", "rojo", 7, 4, 2));
    assert_eq!(st.read_at(&other), None);
}

fn art(os: Option<Os>, arch: Option<Arch>, url: &str) -> Artifact {
    Artifact { os, arch, format: ArchiveFormat::Zip, url: url.as_bytes().to_vec() }
}

#[test]
fn select_best_prefers_exact_arch() {
    let target = System { os: Os::MacOs, arch: Arch::Arm64 };
    let candidates = vec![
        art(Some(Os::MacOs), Some(Arch::X64), "x64"),
        art(Some(Os::MacOs), Some(Arch::Arm64), "arm64"),
        art(Some(Os::Linux), Some(Arch::Arm64), "linux"),
    ];
    assert_eq!(select_best(&candidates, target), Some(1));
}

#[test]
fn select_best_falls_back_to_emulation_then_unspecified() {
    let target = System { os: Os::MacOs, arch: Arch::Arm64 };
    let fallback = vec![
        art(Some(Os::MacOs), None, "any-arch"),
        art(Some(Os::MacOs), Some(Arch::X64), "x64"),
    ];
    // The emulated x64 build outranks the arch-less one.
    assert_eq!(select_best(&fallback, target), Some(1));
    let only_unspecified = vec![art(Some(Os::MacOs), None, "any-arch")];
    assert_eq!(select_best(&only_unspecified, target), Some(0));
}

#[test]
fn select_best_is_deterministic_and_breaks_ties_earliest() {
    let target = System { os: Os::Linux, arch: Arch::X64 };
    let candidates = vec![
        art(Some(Os::Linux), Some(Arch::X64), "first"),
        art(Some(Os::Linux), Some(Arch::X64), "second"),
    ];
    let a = select_best(&candidates, target);
    let b = select_best(&candidates, target);
    assert_eq!(a, Some(0));
    assert_eq!(a, b);
}

#[test]
fn select_best_none_when_nothing_compatible() {
    let target = System { os: Os::Windows, arch: Arch::X64 };
    let candidates = vec![
        art(Some(Os::Linux), Some(Arch::X64), "linux"),
        art(Some(Os::MacOs), Some(Arch::Arm64), "mac"),
    ];
    assert_eq!(select_best(&candidates, target), None);
    assert_eq!(select_best(&Vec::new(), target), None);
}
