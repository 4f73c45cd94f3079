//! `cd`: where to go, and what to say when it fails.

use vstd::prelude::*;

use crate::text::{push_char, str_eq};

verus! {

/// What `cd` should do.
pub enum CdStep {
    /// Nothing (no argument).
    Stay,
    /// Change to `dir`; if that fails, print `error` on standard error.
    Change { dir: String, error: String },
    /// Print this on standard error.
    Fail(String),
}

/// The error `cd` prints for the argument `target` as written.
pub open spec fn cd_error_line(target: Seq<char>) -> Seq<char> {
    "cd: "@ + target + ": No such file or directory"@ + seq!['\n']
}

/// `cd TARGET` goes to TARGET, or to the home directory for `~` exactly
/// (an error when the home directory is unknown); later arguments are
/// ignored and without one nothing happens.  `home` is the value of
/// `HOME`.
pub fn plan_cd(args: &[String], home: Option<&str>) -> (r: CdStep)
    ensures
        args@.len() == 0 ==> r is Stay,
        args@.len() > 0 && args@[0]@ == "~"@ && home is None ==> (r matches CdStep::Fail(e) && e@
            == cd_error_line(args@[0]@)),
        args@.len() > 0 && args@[0]@ == "~"@ && home is Some ==> (r matches CdStep::Change {
            dir,
            error,
        } && dir@ == home->0@ && error@ == cd_error_line(args@[0]@)),
        args@.len() > 0 && args@[0]@ != "~"@ ==> (r matches CdStep::Change { dir, error } && dir@
            == args@[0]@ && error@ == cd_error_line(args@[0]@)),
{
    if args.len() == 0 {
        return CdStep::Stay;
    }
    let target = &args[0];
    let mut error = "cd: ".to_owned();
    error.append(target.as_str());
    error.append(": No such file or directory");
    push_char(&mut error, '\n');
    if str_eq(target, "~") {
        match home {
            Some(h) => CdStep::Change { dir: h.to_owned(), error },
            None => CdStep::Fail(error),
        }
    } else {
        CdStep::Change { dir: target.clone(), error }
    }
}

} // verus!
