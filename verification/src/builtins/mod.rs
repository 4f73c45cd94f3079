//! The builtin commands.  Each one appends what it prints to `sink`
//! (standard output) and `err_sink` (standard error); the caller writes
//! them out, to the terminal or to the redirection targets.

pub mod cd;
pub mod complete;
pub mod declare;
pub mod echo;
pub mod history;
pub mod jobs;
pub mod type_cmd;

pub use complete::run_complete;
pub use declare::run_declare;
pub use echo::run_echo;
pub use history::run_history;
pub use type_cmd::run_type;
pub use jobs::{
    add_job, advance_job_status, allocate_job_id, render_done_jobs, retain_running_jobs, run_jobs, Job,
    JobStatus,
};


use vstd::prelude::*;

use crate::numtext::{parse_i32, spec_parse_i32};
use crate::text::words;

verus! {

/// The names of the builtin commands, in the order `type` and TAB
/// completion use.
pub open spec fn builtin_names() -> Seq<Seq<char>> {
    seq![
        "echo"@,
        "exit"@,
        "type"@,
        "pwd"@,
        "cd"@,
        "complete"@,
        "jobs"@,
        "history"@,
        "declare"@,
    ]
}

/// The builtin command names.
pub fn builtins() -> (v: Vec<String>)
    ensures
        v.deep_view() == builtin_names(),
{
    let v = vec![
        "echo".to_owned(),
        "exit".to_owned(),
        "type".to_owned(),
        "pwd".to_owned(),
        "cd".to_owned(),
        "complete".to_owned(),
        "jobs".to_owned(),
        "history".to_owned(),
        "declare".to_owned(),
    ];
    assert(v.deep_view() =~= builtin_names());
    v
}

/// Whether `name` is a builtin command.
pub fn is_builtin(name: &str) -> (b: bool)
    ensures
        b == builtin_names().contains(name@),
{
    let names = builtins();
    let key = name.to_owned();
    let mut i: usize = 0;
    while i < names.len()
        invariant
            i <= names@.len(),
            names.deep_view() == builtin_names(),
            key@ == name@,
            forall|j: int| 0 <= j < i ==> builtin_names()[j] != name@,
        decreases names@.len() - i,
    {
        assert(names.deep_view()[i as int] == names@[i as int]@);
        if names[i] == key {
            return true;
        }
        i = i + 1;
    }
    false
}

/// The status `exit ARGS` ends the shell with: its first argument read as
/// an `i32`, or 0 when there is none or it is not such a number.
pub open spec fn spec_exit_code(args: Seq<Seq<char>>) -> i32 {
    if args.len() > 0 && spec_parse_i32(args[0]) is Some {
        spec_parse_i32(args[0])->0
    } else {
        0
    }
}

/// The exit status that `exit` asks for.
pub fn exit_code(args: &[String]) -> (c: i32)
    ensures
        c == spec_exit_code(words(args@)),
{
    if args.len() == 0 {
        return 0;
    }
    assert(words(args@)[0] == args@[0]@);
    match parse_i32(args[0].as_str()) {
        Some(v) => v,
        None => 0,
    }
}

} // verus!
