//! The invocation dispatcher's decisions: whether the process was invoked
//! as a shim at all, which alias it stands for, where the target binary
//! lives, and which exit code to report for the child.
//!
//! Spawning, signal forwarding and waiting are process plumbing and happen
//! outside; every decision around them is verified here.

use vstd::prelude::*;

use crate::storage::{path_of, tool_path};
use crate::tool::{bytes_eq, clone_bytes, range_wf, wf_name, ToolAlias, ToolSpec};

verus! {

/// Exit code reported when the child was terminated by a signal instead of
/// exiting on its own.
pub const SIGNAL_SENTINEL: i32 = 130;

/// The manager's own canonical executable name.
pub open spec fn manager_name() -> Seq<u8> {
    seq![114u8, 111u8, 107u8, 105u8, 116u8]
}

/// The manager's own canonical executable name, executable form.
pub fn manager_name_bytes() -> (r: Vec<u8>)
    ensures
        r@ == manager_name(),
{
    let mut r: Vec<u8> = Vec::new();
    r.push(114);
    r.push(111);
    r.push(107);
    r.push(105);
    r.push(116);
    proof {
        assert(r@ =~= manager_name());
    }
    r
}

/// A dispatcher failure before the child was spawned; user-facing and
/// actionable.
#[derive(Clone, Copy, Debug, PartialEq, Eq, Structural)]
pub enum DispatchError {
    /// The invoked file name is not a well-formed alias.
    InvalidAliasName,
    /// No manifest in scope binds the alias to a spec.
    AliasNotInManifests,
}

/// How the child ended.
#[derive(Clone, Copy, Debug, PartialEq, Eq, Structural)]
pub enum ChildExit {
    /// The child exited on its own with this code.
    Exited(i32),
    /// The child was terminated by a signal.
    Signaled,
}

/// The dispatcher: derives an alias from the name it was invoked under and
/// resolves it to an installed binary's path.
#[derive(Debug)]
pub struct Runner {
    exe_name: Vec<u8>,
}

impl View for Runner {
    type V = Seq<u8>;

    closed spec fn view(&self) -> Seq<u8> {
        self.exe_name@
    }
}

impl Runner {
    /// A dispatcher invoked under the given executable file name.
    pub fn new(exe_name: Vec<u8>) -> (r: Runner)
        ensures
            r@ == exe_name@,
    {
        Runner { exe_name }
    }

    /// The dispatcher stands in for a tool only when its invoked name
    /// differs from the manager's own canonical name; invoked as itself,
    /// it is not a shim.
    pub fn should_run(&self) -> (r: bool)
        ensures
            r == (self@ != manager_name()),
    {
        let m = manager_name_bytes();
        !bytes_eq(&self.exe_name, &m)
    }

    /// The alias the dispatcher was invoked as: exactly its invoked file
    /// name, accepted only when that name is well formed.
    pub fn alias(&self) -> (r: Result<ToolAlias, DispatchError>)
        ensures
            wf_name(self@) ==> (r matches Ok(a) && a@ == self@),
            !wf_name(self@) ==> r == Err::<ToolAlias, DispatchError>(
                DispatchError::InvalidAliasName,
            ),
    {
        let ok = range_wf(&self.exe_name, 0, self.exe_name.len());
        proof {
            assert(self.exe_name@.subrange(0, self.exe_name@.len() as int) =~= self.exe_name@);
        }
        if ok {
            Ok(ToolAlias { name: clone_bytes(&self.exe_name) })
        } else {
            Err(DispatchError::InvalidAliasName)
        }
    }

    /// Resolves the manifest lookup's answer into the target binary's
    /// path. No manifest entry for the alias is a user-facing error; a
    /// found spec maps to its content-addressed path, with no existence
    /// check — a missing binary surfaces when the spawn fails.
    pub fn resolve(&self, lookup: Option<ToolSpec>) -> (r: Result<Vec<Vec<u8>>, DispatchError>)
        ensures
            lookup is None ==> r == Err::<Vec<Vec<u8>>, DispatchError>(
                DispatchError::AliasNotInManifests,
            ),
            lookup matches Some(spec) ==> r matches Ok(p) && p@.map_values(|seg: Vec<u8>| seg@)
                == path_of(spec@),
    {
        match lookup {
            None => Err(DispatchError::AliasNotInManifests),
            Some(spec) => Ok(tool_path(&spec)),
        }
    }
}

/// The argument vector handed to the child: the dispatcher's own invoked
/// name is dropped, everything after it is forwarded untouched, in order.
pub fn forward_args(args: Vec<Vec<u8>>) -> (r: Vec<Vec<u8>>)
    requires
        args@.len() >= 1,
    ensures
        r@ == args@.drop_first(),
{
    let ghost orig = args@;
    let mut a = args;
    a.remove(0);
    proof {
        assert(a@ =~= orig.drop_first());
    }
    a
}

/// The exit code the dispatcher's process reports: exactly the child's own
/// exit code, or the reserved sentinel when the child died by signal.
pub fn exit_code_for(e: ChildExit) -> (c: i32)
    ensures
        e matches ChildExit::Exited(n) ==> c == n,
        e is Signaled ==> c == SIGNAL_SENTINEL,
{
    match e {
        ChildExit::Exited(n) => n,
        ChildExit::Signaled => SIGNAL_SENTINEL,
    }
}

} // verus!
