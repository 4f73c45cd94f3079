//! `history`: listing the commands of the session.

use vstd::prelude::*;

use crate::numtext::{pad_left, parse_usize, push_dec, push_padded_left, spec_dec, spec_parse_usize};
use crate::text::{push_char, words};

verus! {

/// The listing line for entry number `number` (counting from 1): the number
/// right-aligned in four columns, two spaces, the command, a newline.
pub open spec fn history_line(number: nat, entry: Seq<char>) -> Seq<char> {
    pad_left(spec_dec(number), 4) + seq![' ', ' '] + entry + seq!['\n']
}

/// The listing of `entries[start..end]`, numbered by their position in the
/// whole history.
pub open spec fn history_lines(entries: Seq<Seq<char>>, start: int, end: int) -> Seq<char>
    decreases end - start,
{
    if start >= end {
        seq![]
    } else {
        history_lines(entries, start, end - 1) + history_line(end as nat, entries[end - 1])
    }
}

/// The error for a count that is not a non-negative number.
pub open spec fn history_numeric_error(arg: Seq<char>) -> Seq<char> {
    "history: "@ + arg + ": numeric argument required"@ + seq!['\n']
}

/// What `history args` prints for `entries`: standard output and standard
/// error.  Without an argument every entry is listed; `history N` lists the
/// last `N` (all of them when `N` is at least their number); an argument
/// that is not a number is an error.  Later arguments are ignored.
pub open spec fn spec_history(args: Seq<Seq<char>>, entries: Seq<Seq<char>>) -> (Seq<char>, Seq<char>) {
    if args.len() > 0 && spec_parse_usize(args[0]) is None {
        (seq![], history_numeric_error(args[0]))
    } else {
        let n: int = if args.len() > 0 {
            spec_parse_usize(args[0])->0 as int
        } else {
            entries.len() as int
        };
        let start = if n >= entries.len() {
            0
        } else {
            entries.len() - n
        };
        (history_lines(entries, start, entries.len() as int), seq![])
    }
}

/// `history [N]`: lists the session's commands, numbered from 1.
pub fn run_history(sink: &mut String, err_sink: &mut String, args: &[String], entries: &[String])
    ensures
        ({
            let (out, err) = spec_history(words(args@), words(entries@));
            &&& final(sink)@ == old(sink)@ + out
            &&& final(err_sink)@ == old(err_sink)@ + err
        }),
{
    let ghost a = words(args@);
    let ghost es = words(entries@);
    assert(old(sink)@ + Seq::<char>::empty() =~= old(sink)@);
    assert(old(err_sink)@ + Seq::<char>::empty() =~= old(err_sink)@);
    let n = if args.len() > 0 {
        assert(a[0] == args@[0]@);
        match parse_usize(args[0].as_str()) {
            Some(v) => v,
            None => {
                err_sink.append("history: ");
                err_sink.append(args[0].as_str());
                err_sink.append(": numeric argument required");
                push_char(err_sink, '\n');
                assert(final(err_sink)@ =~= old(err_sink)@ + history_numeric_error(a[0]));
                return ;
            },
        }
    } else {
        entries.len()
    };
    let len = entries.len();
    let start = if n >= len {
        0
    } else {
        len - n
    };
    let mut i = start;
    while i < len
        invariant
            start <= i <= len,
            len == entries@.len(),
            es == words(entries@),
            sink@ == old(sink)@ + history_lines(es, start as int, i as int),
        decreases len - i,
    {
        let mut num = String::new();
        push_dec(&mut num, (i + 1) as u64);
        push_padded_left(sink, num.as_str(), 4);
        push_char(sink, ' ');
        push_char(sink, ' ');
        sink.append(entries[i].as_str());
        push_char(sink, '\n');
        assert(es[i as int] == entries@[i as int]@);
        i = i + 1;
        assert(sink@ =~= old(sink)@ + history_lines(es, start as int, i as int));
    }
}


/// The text of a history file holding `entries[start..end]`: each entry on
/// a line of its own, every line ending with a newline.
pub open spec fn history_file_lines(entries: Seq<Seq<char>>, start: int, end: int) -> Seq<char>
    decreases end - start,
{
    if start >= end {
        seq![]
    } else {
        history_file_lines(entries, start, end - 1) + entries[end - 1] + seq!['\n']
    }
}

/// What `history -w` writes (`from` = 0) and what `history -a` appends
/// (`from` = the number of entries already appended): the entries from
/// position `from` on, or none when `from` is past the end, one per line.
pub fn history_file_text(entries: &[String], from: usize) -> (r: String)
    ensures
        r@ == history_file_lines(
            words(entries@),
            if from <= entries@.len() {
                from as int
            } else {
                entries@.len() as int
            },
            entries@.len() as int,
        ),
{
    let ghost es = words(entries@);
    let len = entries.len();
    let start = if from <= len {
        from
    } else {
        len
    };
    let mut out = String::new();
    let mut i = start;
    while i < len
        invariant
            start <= i <= len,
            len == entries@.len(),
            es == words(entries@),
            out@ == history_file_lines(es, start as int, i as int),
        decreases len - i,
    {
        out.append(entries[i].as_str());
        push_char(&mut out, '\n');
        assert(es[i as int] == entries@[i as int]@);
        i = i + 1;
        assert(out@ =~= history_file_lines(es, start as int, i as int));
    }
    out
}


/// Appending the entries up to `mid` and later those from `mid` on writes
/// the same text as writing them all at once: successive `history -a`
/// calls, each starting where the previous one stopped, add up to what
/// `history -w` writes.
pub proof fn law_history_appends_add_up(entries: Seq<Seq<char>>, start: int, mid: int, end: int)
    requires
        start <= mid <= end,
    ensures
        history_file_lines(entries, start, end) == history_file_lines(entries, start, mid)
            + history_file_lines(entries, mid, end),
    decreases end - mid,
{
    if mid == end {
        assert(history_file_lines(entries, start, mid) + history_file_lines(entries, mid, end)
            =~= history_file_lines(entries, start, mid));
    } else {
        law_history_appends_add_up(entries, start, mid, end - 1);
        assert(history_file_lines(entries, start, end) =~= history_file_lines(entries, start, mid)
            + history_file_lines(entries, mid, end));
    }
}


/// The entries a history file adds, given its lines: the empty lines are
/// skipped, so that they take no number.
pub open spec fn history_entries_of(lines: Seq<Seq<char>>) -> Seq<Seq<char>>
    decreases lines.len(),
{
    if lines.len() == 0 {
        seq![]
    } else {
        history_entries_of(lines.drop_last()) + if lines.last().len() == 0 {
            seq![]
        } else {
            seq![lines.last()]
        }
    }
}

/// The entries to load from the lines of a history file (`history -r`, or
/// `$HISTFILE` at start-up): every line that is not empty, in order.
pub fn history_entries_from_lines(lines: &[String]) -> (r: Vec<String>)
    ensures
        r.deep_view() == history_entries_of(words(lines@)),
{
    let ghost ls = words(lines@);
    let mut out: Vec<String> = Vec::new();
    let mut i: usize = 0;
    assert(ls.take(0) =~= Seq::<Seq<char>>::empty());
    while i < lines.len()
        invariant
            i <= lines@.len(),
            ls == words(lines@),
            out.deep_view() == history_entries_of(ls.take(i as int)),
        decreases lines@.len() - i,
    {
        assert(ls.take(i + 1).drop_last() =~= ls.take(i as int));
        assert(ls.take(i + 1).last() == lines@[i as int]@);
        if !lines[i].as_str().is_empty() {
            let ghost before = out.deep_view();
            out.push(lines[i].clone());
            assert(out.deep_view() =~= before.push(lines@[i as int]@));
        }
        i = i + 1;
        assert(out.deep_view() =~= history_entries_of(ls.take(i as int)));
    }
    assert(ls.take(lines@.len() as int) =~= ls);
    out
}

} // verus!
