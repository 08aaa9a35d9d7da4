use vstd::prelude::*;
use crate::tree::{backend_marker, frontend_marker, interpreter_marker};

verus! {

/// Milliseconds the backend is given to come up before the frontend starts.
pub const WARMUP_MILLIS: u64 = 2000;

pub open spec fn backend_script() -> Seq<char> {
    seq!['b', 'a', 'c', 'k', 'e', 'n', 'd', '/', 'd', 'i', 's', 't', '/', 'i', 'n', 'd', 'e', 'x', '.', 'j', 's']
}

pub open spec fn install_root() -> Seq<char> {
    seq!['.']
}

/// The frontend executable, relative to the installation root.
pub fn frontend_path() -> (r: &'static str)
    ensures
        r@ == frontend_marker(),
{
    proof {
        reveal_strlit("MindModel.exe");
    }
    "MindModel.exe"
}

/// The backend root directory.
pub fn backend_dir_path() -> (r: &'static str)
    ensures
        r@ == backend_marker(),
{
    proof {
        reveal_strlit("backend/");
    }
    "backend/"
}

/// The interpreter executable.
pub fn interpreter_path() -> (r: &'static str)
    ensures
        r@ == interpreter_marker(),
{
    proof {
        reveal_strlit("node/node.exe");
    }
    "node/node.exe"
}

/// The backend's entry-point script.
pub fn backend_script_path() -> (r: &'static str)
    ensures
        r@ == backend_script(),
{
    proof {
        reveal_strlit("backend/dist/index.js");
    }
    "backend/dist/index.js"
}

/// How to start a child process; paths are relative to the installation root.
pub struct Launch {
    pub program: String,
    pub args: Vec<String>,
    pub cwd: String,
    /// Standard output and error are discarded and standard input is not attached.
    pub detached: bool,
}

/// The backend: the interpreter runs the entry-point script from the backend
/// directory, with its output discarded.
pub fn backend_launch() -> (r: Launch)
    ensures
        r.program@ == interpreter_marker(),
        r.args@.len() == 1,
        r.args@[0]@ == backend_script(),
        r.cwd@ == backend_marker(),
        r.detached,
{
    let mut args: Vec<String> = Vec::new();
    args.push(backend_script_path().to_string());
    Launch {
        program: interpreter_path().to_string(),
        args,
        cwd: backend_dir_path().to_string(),
        detached: true,
    }
}

/// The frontend: run from the installation root, sharing the console.
pub fn frontend_launch() -> (r: Launch)
    ensures
        r.program@ == frontend_marker(),
        r.args@.len() == 0,
        r.cwd@ == install_root(),
        !r.detached,
{
    proof {
        reveal_strlit(".");
    }
    Launch {
        program: frontend_path().to_string(),
        args: Vec::new(),
        cwd: ".".to_string(),
        detached: false,
    }
}

} // verus!
