//! `echo`.

use vstd::prelude::*;

use crate::numtext::{join, push_joined};
use crate::text::{push_char, words};

verus! {

/// What `echo` prints for `args`: the words separated by single spaces,
/// then a newline.
pub open spec fn echo_text(args: Seq<Seq<char>>) -> Seq<char> {
    join(args, seq![' ']).push('\n')
}

/// `echo`: prints its arguments separated by single spaces.
pub fn run_echo(sink: &mut String, args: &[String])
    ensures
        final(sink)@ == old(sink)@ + echo_text(words(args@)),
{
    proof {
        reveal_strlit(" ");
    }
    assert(" "@ =~= seq![' ']);
    push_joined(sink, args, " ");
    push_char(sink, '\n');
    assert(final(sink)@ =~= old(sink)@ + echo_text(words(args@)));
}

} // verus!
