//! `type`: how a command name would be run.

use vstd::prelude::*;

use super::{builtin_names, is_builtin};
use crate::text::{push_char, words};

verus! {

/// What `type NAME` prints, given the executable that a search of the
/// path found for NAME (`found`): standard output and standard error.
pub open spec fn spec_type(args: Seq<Seq<char>>, found: Option<Seq<char>>) -> (Seq<char>, Seq<char>) {
    if args.len() == 0 {
        (seq![], seq![])
    } else if builtin_names().contains(args[0]) {
        (args[0] + " is a shell builtin"@ + seq!['\n'], seq![])
    } else {
        match found {
            Some(p) => (args[0] + " is "@ + p + seq!['\n'], seq![]),
            None => (seq![], args[0] + ": not found"@ + seq!['\n']),
        }
    }
}

/// `type NAME`: says whether NAME is a builtin or which executable on the
/// path runs it (`found` is the result of that search for NAME), or that it
/// is not found.  Later arguments are ignored; without one nothing happens.
pub fn run_type(sink: &mut String, err_sink: &mut String, args: &[String], found: Option<&str>)
    ensures
        ({
            let (out, err) = spec_type(
                words(args@),
                match found {
                    Some(p) => Some(p@),
                    None => None,
                },
            );
            &&& final(sink)@ == old(sink)@ + out
            &&& final(err_sink)@ == old(err_sink)@ + err
        }),
{
    let ghost a = words(args@);
    assert(old(sink)@ + Seq::<char>::empty() =~= old(sink)@);
    assert(old(err_sink)@ + Seq::<char>::empty() =~= old(err_sink)@);
    if args.len() == 0 {
        return ;
    }
    assert(a[0] == args@[0]@);
    let target = args[0].as_str();
    if is_builtin(target) {
        sink.append(target);
        sink.append(" is a shell builtin");
        push_char(sink, '\n');
        assert(final(sink)@ =~= old(sink)@ + (a[0] + " is a shell builtin"@ + seq!['\n']));
    } else {
        match found {
            Some(p) => {
                sink.append(target);
                sink.append(" is ");
                sink.append(p);
                push_char(sink, '\n');
                assert(final(sink)@ =~= old(sink)@ + (a[0] + " is "@ + p@ + seq!['\n']));
            },
            None => {
                err_sink.append(target);
                err_sink.append(": not found");
                push_char(err_sink, '\n');
                assert(final(err_sink)@ =~= old(err_sink)@ + (a[0] + ": not found"@ + seq!['\n']));
            },
        }
    }
}

} // verus!
