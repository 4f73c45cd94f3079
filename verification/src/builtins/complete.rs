//! `complete`: registering, printing and removing completion scripts.

use vstd::prelude::*;

use crate::strmap::StringMap;
use crate::text::{push_char, str_eq, words};

verus! {

/// The line `complete -p` prints for a registered command.
pub open spec fn complete_spec_line(path: Seq<char>, cmd: Seq<char>) -> Seq<char> {
    "complete -C '"@ + path + "' "@ + cmd + seq!['\n']
}

/// The error `complete -p` prints for an unregistered command.
pub open spec fn complete_missing_line(cmd: Seq<char>) -> Seq<char> {
    "complete: "@ + cmd + ": no completion specification"@ + seq!['\n']
}

/// What `complete args` does to a registry `reg`: the text for standard
/// output, the text for standard error and the registry afterwards.
///
/// `-C PATH CMD` registers PATH as the completer of CMD; `-p CMD` prints
/// the registration of CMD, or an error when there is none; `-r CMD`
/// removes it (silently, even when there is none).  Missing operands,
/// extra operands and other forms do nothing.
pub open spec fn spec_complete(args: Seq<Seq<char>>, reg: Map<Seq<char>, Seq<char>>) -> (
    Seq<char>,
    Seq<char>,
    Map<Seq<char>, Seq<char>>,
) {
    if args.len() >= 1 && args[0] == "-C"@ {
        if args.len() >= 3 {
            (seq![], seq![], reg.insert(args[2], args[1]))
        } else {
            (seq![], seq![], reg)
        }
    } else if args.len() >= 1 && args[0] == "-p"@ {
        if args.len() >= 2 {
            if reg.dom().contains(args[1]) {
                (complete_spec_line(reg[args[1]], args[1]), seq![], reg)
            } else {
                (seq![], complete_missing_line(args[1]), reg)
            }
        } else {
            (seq![], seq![], reg)
        }
    } else if args.len() >= 1 && args[0] == "-r"@ {
        if args.len() >= 2 {
            (seq![], seq![], reg.remove(args[1]))
        } else {
            (seq![], seq![], reg)
        }
    } else {
        (seq![], seq![], reg)
    }
}

/// `complete`: `-C PATH CMD` registers a completion script, `-p CMD`
/// prints its registration, `-r CMD` removes it.
pub fn run_complete(
    sink: &mut String,
    err_sink: &mut String,
    args: &[String],
    registry: &mut StringMap,
)
    ensures
        ({
            let (out, err, reg) = spec_complete(words(args@), old(registry)@);
            &&& final(sink)@ == old(sink)@ + out
            &&& final(err_sink)@ == old(err_sink)@ + err
            &&& final(registry)@ == reg
        }),
{
    let ghost a = words(args@);
    assert(args@.len() >= 1 ==> a[0] == args@[0]@);
    assert(args@.len() >= 2 ==> a[1] == args@[1]@);
    assert(args@.len() >= 3 ==> a[2] == args@[2]@);
    if args.len() >= 1 && str_eq(&args[0], "-C") {
        if args.len() >= 3 {
            registry.insert(args[2].clone(), args[1].clone());
        }
    } else if args.len() >= 1 && str_eq(&args[0], "-p") {
        if args.len() >= 2 {
            let cmd = &args[1];
            match registry.get(cmd.as_str()) {
                Some(path) => {
                    sink.append("complete -C '");
                    sink.append(path.as_str());
                    sink.append("' ");
                    sink.append(cmd.as_str());
                    push_char(sink, '\n');
                },
                None => {
                    err_sink.append("complete: ");
                    err_sink.append(cmd.as_str());
                    err_sink.append(": no completion specification");
                    push_char(err_sink, '\n');
                },
            }
        }
    } else if args.len() >= 1 && str_eq(&args[0], "-r") {
        if args.len() >= 2 {
            let _ = registry.remove(args[1].as_str());
        }
    }
    assert(old(sink)@ + Seq::<char>::empty() =~= old(sink)@);
    assert(old(err_sink)@ + Seq::<char>::empty() =~= old(err_sink)@);
    assert(final(sink)@ =~= old(sink)@ + spec_complete(a, old(registry)@).0);
    assert(final(err_sink)@ =~= old(err_sink)@ + spec_complete(a, old(registry)@).1);
}


/// Registering `path` for `cmd` with `-C` prints nothing, and `-p cmd`
/// afterwards prints that registration.
pub proof fn law_complete_register_then_print(
    path: Seq<char>,
    cmd: Seq<char>,
    reg: Map<Seq<char>, Seq<char>>,
)
    ensures
        ({
            let (out1, err1, r1) = spec_complete(seq!["-C"@, path, cmd], reg);
            &&& out1.len() == 0
            &&& err1.len() == 0
            &&& r1 == reg.insert(cmd, path)
            &&& spec_complete(seq!["-p"@, cmd], r1) == (complete_spec_line(path, cmd), Seq::<
                char,
            >::empty(), r1)
        }),
{
    reveal_strlit("-C");
    reveal_strlit("-p");
    assert("-p"@ != "-C"@) by {
        assert("-p"@[1] != "-C"@[1]);
    }
    assert(seq!["-C"@, path, cmd][0] == "-C"@);
    assert(seq!["-p"@, cmd][0] == "-p"@);
}

/// After `-r cmd`, `-p cmd` finds no registration and says so on standard
/// error.
pub proof fn law_complete_remove_then_print(cmd: Seq<char>, reg: Map<Seq<char>, Seq<char>>)
    ensures
        ({
            let (out1, err1, r1) = spec_complete(seq!["-r"@, cmd], reg);
            &&& out1.len() == 0
            &&& err1.len() == 0
            &&& r1 == reg.remove(cmd)
            &&& spec_complete(seq!["-p"@, cmd], r1) == (Seq::<char>::empty(), complete_missing_line(
                cmd,
            ), r1)
        }),
{
    reveal_strlit("-C");
    reveal_strlit("-p");
    reveal_strlit("-r");
    assert("-r"@ != "-C"@) by {
        assert("-r"@[1] != "-C"@[1]);
    }
    assert("-r"@ != "-p"@) by {
        assert("-r"@[1] != "-p"@[1]);
    }
    assert("-p"@ != "-C"@) by {
        assert("-p"@[1] != "-C"@[1]);
    }
    assert(seq!["-r"@, cmd][0] == "-r"@);
    assert(seq!["-p"@, cmd][0] == "-p"@);
}

} // verus!
