use vstd::prelude::*;
use crate::text::{contains, ends_with, has_infix, has_prefix, has_suffix, same_text, starts_with};

verus! {

pub open spec fn runtime_prefix() -> Seq<char> {
    seq!['n', 'o', 'd', 'e', '/']
}

pub open spec fn runtime_infix() -> Seq<char> {
    seq!['/', 'n', 'o', 'd', 'e', '/']
}

pub open spec fn runtime_dir() -> Seq<char> {
    seq!['n', 'o', 'd', 'e']
}

pub open spec fn interpreter_name() -> Seq<char> {
    seq!['n', 'o', 'd', 'e', '.', 'e', 'x', 'e']
}

pub open spec fn interpreter_suffix() -> Seq<char> {
    seq!['/', 'n', 'o', 'd', 'e', '.', 'e', 'x', 'e']
}

pub open spec fn exec_suffix() -> Seq<char> {
    seq!['.', 'e', 'x', 'e']
}

/// An entry belongs to the interpreter payload: one of its directories is the
/// runtime directory, or its file name is that of the interpreter executable.
pub open spec fn is_runtime_entry(name: Seq<char>) -> bool {
    has_prefix(name, runtime_prefix()) || has_infix(name, runtime_infix()) || name
        == interpreter_name() || has_suffix(name, interpreter_suffix())
}

/// An entry whose file gets mode 0755 after it is written.
pub open spec fn wants_exec_mode(name: Seq<char>) -> bool {
    has_suffix(name, exec_suffix()) || has_infix(name, runtime_dir())
}

/// How the archive is laid out over an existing installation.
#[derive(Clone, Copy, Debug, PartialEq, Eq, Structural)]
pub enum Policy {
    /// Interpreter payload that is already on disk is kept; everything else is rewritten.
    UpdateAware,
    /// Nothing that is already on disk is touched.
    FirstRunOnly,
}

/// What happens to one archive entry.
#[derive(Clone, Copy, Debug, PartialEq, Eq, Structural)]
pub enum Decision {
    Write,
    Skip,
}

pub open spec fn decision_of(policy: Policy, name: Seq<char>, present: bool) -> Decision {
    match policy {
        Policy::UpdateAware => if is_runtime_entry(name) && present {
            Decision::Skip
        } else {
            Decision::Write
        },
        Policy::FirstRunOnly => if present {
            Decision::Skip
        } else {
            Decision::Write
        },
    }
}

/// The whole extraction pass is skipped: only under `FirstRunOnly`, and only
/// when the frontend executable, the backend directory and the interpreter
/// are all present.
pub open spec fn pass_skipped(
    policy: Policy,
    frontend: bool,
    backend: bool,
    interpreter: bool,
) -> bool {
    policy == Policy::FirstRunOnly && frontend && backend && interpreter
}

/// Whether an entry name denotes interpreter payload.
pub fn runtime_entry(name: &str) -> (r: bool)
    ensures
        r == is_runtime_entry(name@),
{
    proof {
        reveal_strlit("node/");
        reveal_strlit("/node/");
        reveal_strlit("node.exe");
        reveal_strlit("/node.exe");
    }
    assert("node/"@ == runtime_prefix());
    assert("/node/"@ == runtime_infix());
    assert("node.exe"@ == interpreter_name());
    assert("/node.exe"@ == interpreter_suffix());
    starts_with(name, "node/") || contains(name, "/node/") || same_text(name, "node.exe")
        || ends_with(name, "/node.exe")
}

/// Whether the written entry gets its executable permission bits restored.
pub fn exec_mode_entry(name: &str) -> (r: bool)
    ensures
        r == wants_exec_mode(name@),
{
    proof {
        reveal_strlit(".exe");
        reveal_strlit("node");
    }
    assert(".exe"@ == exec_suffix());
    assert("node"@ == runtime_dir());
    ends_with(name, ".exe") || contains(name, "node")
}

/// Decides one entry from its name and whether its destination exists.
pub fn decide(policy: Policy, name: &str, present: bool) -> (r: Decision)
    ensures
        r == decision_of(policy, name@, present),
{
    match policy {
        Policy::UpdateAware => {
            if present && runtime_entry(name) {
                Decision::Skip
            } else {
                Decision::Write
            }
        },
        Policy::FirstRunOnly => {
            if present {
                Decision::Skip
            } else {
                Decision::Write
            }
        },
    }
}

/// Whether the whole extraction pass is skipped, from the presence of the
/// three marker paths.
pub fn skip_pass(policy: Policy, frontend: bool, backend: bool, interpreter: bool) -> (r: bool)
    ensures
        r == pass_skipped(policy, frontend, backend, interpreter),
{
    match policy {
        Policy::FirstRunOnly => frontend && backend && interpreter,
        Policy::UpdateAware => false,
    }
}

} // verus!
