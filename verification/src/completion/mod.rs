//! TAB completion: command names, file arguments and registered
//! completion scripts.
//!
//! Each TAB press is decided here: which candidates replace which part of
//! the line, and what to print (a bell, or the list of candidates on a
//! second press).  The caller lists directories, stats paths and runs
//! completion scripts, and hands the results back.

pub mod helpers;
pub mod script;

use vstd::prelude::*;

use self::helpers::{
    arg_completion, candidate, dir_end, extract_arg_prefix, format_arg_completion,
    law_lcp_of_sorted_ends, longest_common_prefix, names_with_prefix, spec_extract_arg_prefix,
    spec_lcp, split_dir_and_name, with_prefix, Candidate, CandidateSpec, MatchKind,
};
use self::script::{
    extract_completer_context, has_whitespace, parse_completer_stdout, spec_completer_context,
    spec_parse_completer_stdout, CompleterContext, ContextSpec,
};
use crate::builtins::{builtin_names, builtins};
use crate::numtext::{join, push_joined};
use crate::sort::{lemma_sort_spec, lemma_sort_spec_contains, sort_spec, sort_strings};
use crate::strmap::StringMap;
use crate::text::{
    byte_len, chars_of, is_whitespace, opt_view, push_char, spec_is_whitespace, str_eq, utf8_len,
    words,
};

verus! {

/// What one TAB press does: the candidates that replace the line from byte
/// `start` up to the cursor, and the text to print on the terminal.
pub struct TabOutcome {
    pub start: usize,
    pub candidates: Vec<Candidate>,
    pub print: String,
}

/// The plain view of a TAB outcome.
pub struct OutcomeSpec {
    pub start: int,
    pub candidates: Seq<CandidateSpec>,
    pub print: Seq<char>,
}

impl View for TabOutcome {
    type V = OutcomeSpec;

    open spec fn view(&self) -> OutcomeSpec {
        OutcomeSpec {
            start: self.start as int,
            candidates: self.candidates@.map_values(|c: Candidate| c@),
            print: self.print@,
        }
    }
}

/// Nothing happens; the cursor stays at `pos`.
pub open spec fn no_change(pos: int) -> OutcomeSpec {
    OutcomeSpec { start: pos, candidates: seq![], print: seq![] }
}

/// The terminal bell rings.
pub open spec fn bell(pos: int) -> OutcomeSpec {
    OutcomeSpec { start: pos, candidates: seq![], print: seq!['\x07'] }
}

/// The candidates are listed on a line of their own, two spaces apart,
/// and the prompt is drawn again with `shown` after it.
pub open spec fn listing(pos: int, items: Seq<Seq<char>>, shown: Seq<char>) -> OutcomeSpec {
    OutcomeSpec {
        start: pos,
        candidates: seq![],
        print: seq!['\n'] + join(items, seq![' ', ' ']) + seq!['\n', '$', ' '] + shown,
    }
}

/// The text from `start` to the cursor is replaced by one candidate.
pub open spec fn replace(start: int, display: Seq<char>, replacement: Seq<char>) -> OutcomeSpec {
    OutcomeSpec {
        start: start,
        candidates: seq![candidate(display, replacement)],
        print: seq![],
    }
}

/// The words of `s` without repetitions, each at its first place.
pub open spec fn dedup(s: Seq<Seq<char>>) -> Seq<Seq<char>>
    decreases s.len(),
{
    if s.len() == 0 {
        seq![]
    } else {
        let d = dedup(s.drop_last());
        if d.contains(s.last()) {
            d
        } else {
            d.push(s.last())
        }
    }
}

/// The command names that complete `prefix`: builtins first, then the
/// executables found on the path, each name once.
pub open spec fn command_names(paths: Seq<Seq<char>>, prefix: Seq<char>) -> Seq<Seq<char>> {
    dedup(with_prefix(builtin_names() + paths, prefix))
}

/// Completion of a command name: one match is completed with a trailing
/// space; several matches are completed up to their common prefix when it
/// is longer than what was typed, or else ring the bell on the first press
/// and are listed on the second press for the same prefix.
pub open spec fn spec_command_completion(
    names: Seq<Seq<char>>,
    prefix: Seq<char>,
    pos: int,
    last: Option<Seq<char>>,
) -> (OutcomeSpec, Option<Seq<char>>) {
    if names.len() == 0 {
        (no_change(pos), None)
    } else if names.len() == 1 {
        (replace(0, names[0], names[0].push(' ')), None)
    } else {
        let srt = sort_spec(names);
        let l = spec_lcp(srt[0], srt.last());
        if utf8_len(l) > utf8_len(prefix) {
            (replace(0, l, l), None)
        } else if last == Some(prefix) {
            (listing(pos, srt, prefix), None)
        } else {
            (bell(pos), Some(prefix))
        }
    }
}

/// Where the completion of a file argument starts, the directory part and
/// the name part of the word: none when the word cannot be read or is not
/// literally at the end of the line (quotes or escapes changed it).
pub open spec fn spec_file_query(line: Seq<char>) -> Option<(int, Seq<char>, Seq<char>)> {
    match spec_extract_arg_prefix(line) {
        None => None,
        Some(p) => if p.is_suffix_of(line) {
            Some((utf8_len(line) - utf8_len(p), p.take(dir_end(p)), p.skip(dir_end(p))))
        } else {
            None
        },
    }
}

/// The line can be cut where the word to complete would start: the word
/// is longer than the line, or its byte length leads back to a character
/// boundary of the line.
pub open spec fn arg_prefix_sliceable(line: Seq<char>) -> bool {
    match spec_extract_arg_prefix(line) {
        None => true,
        Some(p) => utf8_len(p) > utf8_len(line) || exists|k: int|
            0 <= k <= line.len() && utf8_len(line.take(k)) == utf8_len(line) - utf8_len(p),
    }
}

/// The kind of the first candidate named `name`.
pub open spec fn kind_of(cands: Seq<Seq<char>>, kinds: Seq<MatchKind>, name: Seq<char>) -> MatchKind {
    kinds[choose|j: int|
        0 <= j < cands.len() && cands[j] == name && forall|m: int| 0 <= m < j ==> cands[m] != name]
}

/// The candidates as listed: directories with a trailing `/`.
pub open spec fn listed_names(srt: Seq<Seq<char>>, cands: Seq<Seq<char>>, kinds: Seq<MatchKind>) -> Seq<
    Seq<char>,
> {
    Seq::new(
        srt.len(),
        |i: int|
            if kind_of(cands, kinds, srt[i]) is Directory {
                srt[i].push('/')
            } else {
                srt[i]
            },
    )
}

/// Completion of a file argument once the matching directory entries
/// (`cands`, with the kind of each path in `kinds`) are known.
pub open spec fn spec_file_completion(
    line: Seq<char>,
    start: int,
    dir: Seq<char>,
    name_prefix: Seq<char>,
    cands: Seq<Seq<char>>,
    kinds: Seq<MatchKind>,
    key: Option<(Seq<char>, Seq<char>)>,
) -> (OutcomeSpec, Option<(Seq<char>, Seq<char>)>) {
    let pos = utf8_len(line) as int;
    if cands.len() == 0 {
        (bell(pos), None)
    } else if cands.len() == 1 {
        (
            OutcomeSpec {
                start: start,
                candidates: seq![arg_completion(dir + cands[0], kinds[0])],
                print: seq![],
            },
            None,
        )
    } else {
        let srt = sort_spec(cands);
        let l = spec_lcp(srt[0], srt.last());
        if utf8_len(l) > utf8_len(name_prefix) {
            (replace(start, dir + l, dir + l), None)
        } else if key == Some((dir, name_prefix)) {
            (listing(pos, listed_names(srt, cands, kinds), line), None)
        } else {
            (bell(pos), Some((dir, name_prefix)))
        }
    }
}

/// Completion through a script once its output is known (`None` when it
/// could not run, failed, or printed something that is not UTF-8).
pub open spec fn spec_script_completion(
    ctx: ContextSpec,
    line: Seq<char>,
    start: int,
    output: Option<Seq<char>>,
    key: Option<(Seq<char>, Seq<char>, Seq<char>)>,
) -> (OutcomeSpec, Option<(Seq<char>, Seq<char>, Seq<char>)>) {
    let pos = utf8_len(line) as int;
    let names = match output {
        Some(o) => spec_parse_completer_stdout(o),
        None => None,
    };
    match names {
        None => (no_change(pos), None),
        Some(ns) => if ns.len() == 1 {
            (replace(start, ns[0], ns[0].push(' ')), None)
        } else {
            let srt = sort_spec(ns);
            let l = spec_lcp(srt[0], srt.last());
            let k = (ctx.cmd, ctx.current_word, ctx.prev_word);
            if utf8_len(l) > utf8_len(ctx.current_word) {
                (replace(start, l, l), None)
            } else if key == Some(k) {
                (listing(pos, srt, line), None)
            } else {
                (bell(pos), Some(k))
            }
        },
    }
}

/// A command-name press that rings the bell leaves its text pending, and
/// the same press again lists the candidates in order and leaves nothing
/// pending.
pub proof fn law_command_bell_then_list(
    names: Seq<Seq<char>>,
    prefix: Seq<char>,
    pos: int,
    last: Option<Seq<char>>,
)
    requires
        spec_command_completion(names, prefix, pos, last).0 == bell(pos),
    ensures
        spec_command_completion(names, prefix, pos, last).1 == Some(prefix),
        spec_command_completion(names, prefix, pos, Some(prefix)) == (
            listing(pos, sort_spec(names), prefix),
            None::<Seq<char>>,
        ),
{
    assert(bell(pos).print.len() == 1);
    assert(bell(pos).candidates.len() == 0);
}

/// A file-argument press that rings the bell over several candidates
/// leaves its directory and name part pending, and the same press again
/// lists the candidates and leaves nothing pending.
pub proof fn law_file_bell_then_list(
    line: Seq<char>,
    start: int,
    dir: Seq<char>,
    name_prefix: Seq<char>,
    cands: Seq<Seq<char>>,
    kinds: Seq<MatchKind>,
    key: Option<(Seq<char>, Seq<char>)>,
)
    requires
        cands.len() >= 2,
        spec_file_completion(line, start, dir, name_prefix, cands, kinds, key).0 == bell(
            utf8_len(line) as int,
        ),
    ensures
        spec_file_completion(line, start, dir, name_prefix, cands, kinds, key).1 == Some(
            (dir, name_prefix),
        ),
        spec_file_completion(line, start, dir, name_prefix, cands, kinds, Some((dir, name_prefix)))
            == (
            listing(utf8_len(line) as int, listed_names(sort_spec(cands), cands, kinds), line),
            None::<(Seq<char>, Seq<char>)>,
        ),
{
    assert(bell(utf8_len(line) as int).print.len() == 1);
    assert(bell(utf8_len(line) as int).candidates.len() == 0);
}

/// A script press that rings the bell leaves its command, word and
/// previous word pending, and the same press again, with the same script
/// output, lists the candidates and leaves nothing pending.
pub proof fn law_script_bell_then_list(
    ctx: ContextSpec,
    line: Seq<char>,
    start: int,
    output: Option<Seq<char>>,
    key: Option<(Seq<char>, Seq<char>, Seq<char>)>,
)
    requires
        spec_script_completion(ctx, line, start, output, key).0 == bell(utf8_len(line) as int),
    ensures
        ({
            let k = (ctx.cmd, ctx.current_word, ctx.prev_word);
            let names = spec_parse_completer_stdout(output->0);
            &&& output is Some && names is Some
            &&& spec_script_completion(ctx, line, start, output, key).1 == Some(k)
            &&& spec_script_completion(ctx, line, start, output, Some(k)) == (
                listing(utf8_len(line) as int, sort_spec(names->0), line),
                None::<(Seq<char>, Seq<char>, Seq<char>)>,
            )
        }),
{
    assert(bell(utf8_len(line) as int).print.len() == 1);
    assert(bell(utf8_len(line) as int).candidates.len() == 0);
    assert(no_change(utf8_len(line) as int).print.len() == 0);
}

/// `dedup(s)` holds each string of `s` exactly once.
proof fn lemma_dedup(s: Seq<Seq<char>>)
    ensures
        dedup(s).no_duplicates(),
        forall|x: Seq<char>| #[trigger] dedup(s).contains(x) <==> s.contains(x),
    decreases s.len(),
{
    if s.len() > 0 {
        let init = s.drop_last();
        lemma_dedup(init);
        let d = dedup(init);
        assert forall|x: Seq<char>| #[trigger] dedup(s).contains(x) <==> s.contains(x) by {
            if s.contains(x) && x != s.last() {
                let i = choose|i: int| 0 <= i < s.len() && s[i] == x;
                assert(init[i] == x);
            }
            if init.contains(x) {
                let i = choose|i: int| 0 <= i < init.len() && init[i] == x;
                assert(s[i] == x);
            }
            if !d.contains(s.last()) {
                assert(d.push(s.last()).last() == s.last());
                if d.contains(x) {
                    let i = choose|i: int| 0 <= i < d.len() && d[i] == x;
                    assert(d.push(s.last())[i] == x);
                }
                if d.push(s.last()).contains(x) && x != s.last() {
                    let i = choose|i: int| 0 <= i < d.len() + 1 && d.push(s.last())[i] == x;
                    assert(d[i] == x);
                }
            }
            assert(s.last() == s[s.len() - 1]);
        }
    }
}

/// The longest common prefix of the first and last of the sorted names
/// starts every name.
proof fn lemma_lcp_starts_all(names: Seq<Seq<char>>)
    requires
        names.len() > 0,
    ensures
        sort_spec(names).len() == names.len(),
        forall|n: Seq<char>|
            names.contains(n) ==> #[trigger] spec_lcp(sort_spec(names)[0], sort_spec(names).last()).is_prefix_of(
                n,
            ),
{
    let srt = sort_spec(names);
    lemma_sort_spec(names);
    names.to_multiset_ensures();
    srt.to_multiset_ensures();
    law_lcp_of_sorted_ends(srt);
    assert forall|n: Seq<char>| names.contains(n) implies #[trigger] spec_lcp(srt[0], srt.last()).is_prefix_of(
        n,
    ) by {
        lemma_sort_spec_contains(names, n);
        let j = choose|j: int| 0 <= j < srt.len() && srt[j] == n;
        assert(spec_lcp(srt[0], srt.last()).is_prefix_of(srt[j]));
    }
}

/// The command names offered for `prefix` hold each name once, and are
/// exactly the builtin and path names that start with `prefix`.
pub proof fn law_command_names_distinct_and_complete(paths: Seq<Seq<char>>, prefix: Seq<char>)
    ensures
        command_names(paths, prefix).no_duplicates(),
        forall|n: Seq<char>|
            #[trigger] command_names(paths, prefix).contains(n) <==> ((builtin_names().contains(n)
                || paths.contains(n)) && prefix.is_prefix_of(n)),
{
    let all = builtin_names() + paths;
    let f = with_prefix(all, prefix);
    lemma_dedup(f);
    assert forall|n: Seq<char>|
        #[trigger] command_names(paths, prefix).contains(n) <==> ((builtin_names().contains(n)
            || paths.contains(n)) && prefix.is_prefix_of(n)) by {
        let pred = |m: Seq<char>| prefix.is_prefix_of(m);
        if f.contains(n) {
            all.lemma_filter_contains_rev(pred, n);
            let i = choose|i: int| 0 <= i < f.len() && f[i] == n;
            all.lemma_filter_pred(pred, i);
            let k = choose|k: int| 0 <= k < all.len() && all[k] == n;
            if k >= builtin_names().len() {
                assert(paths[k - builtin_names().len()] == n);
            } else {
                assert(builtin_names()[k] == n);
            }
        }
        if (builtin_names().contains(n) || paths.contains(n)) && prefix.is_prefix_of(n) {
            if builtin_names().contains(n) {
                let k = choose|k: int| 0 <= k < builtin_names().len() && builtin_names()[k] == n;
                assert(all[k] == n);
                all.lemma_filter_contains(pred, k);
            } else {
                let k = choose|k: int| 0 <= k < paths.len() && paths[k] == n;
                assert(all[builtin_names().len() + k] == n);
                all.lemma_filter_contains(pred, builtin_names().len() + k);
            }
        }
    }
}

/// When exactly one builtin or path name starts with the typed text, a TAB
/// press completes it with a trailing space, from the start of the line.
pub proof fn law_single_command_match(
    paths: Seq<Seq<char>>,
    prefix: Seq<char>,
    name: Seq<char>,
    pos: int,
    last: Option<Seq<char>>,
)
    requires
        builtin_names().contains(name) || paths.contains(name),
        prefix.is_prefix_of(name),
        forall|n: Seq<char>|
            (builtin_names().contains(n) || paths.contains(n)) && prefix.is_prefix_of(n) ==> n == name,
    ensures
        spec_command_completion(command_names(paths, prefix), prefix, pos, last) == (
            replace(0, name, name.push(' ')),
            None::<Seq<char>>,
        ),
{
    law_command_names_distinct_and_complete(paths, prefix);
    let cn = command_names(paths, prefix);
    assert(cn.contains(name));
    let i = choose|i: int| 0 <= i < cn.len() && cn[i] == name;
    assert forall|j: int| 0 <= j < cn.len() implies cn[j] == name by {
        assert(cn.contains(cn[j]));
    }
    if cn.len() > 1 {
        let j = if i == 0 {
            1int
        } else {
            0int
        };
        assert(cn[j] == name);
        assert(false);
    }
}

/// When several command names match and the press completes them, the
/// text put in is a common prefix of all of them, longer than what was
/// typed, with nothing added after it.
pub proof fn law_command_extension_is_common_prefix(
    names: Seq<Seq<char>>,
    prefix: Seq<char>,
    pos: int,
    last: Option<Seq<char>>,
)
    requires
        names.len() >= 2,
        spec_command_completion(names, prefix, pos, last).0.candidates.len() > 0,
    ensures
        ({
            let c = spec_command_completion(names, prefix, pos, last).0.candidates;
            &&& c.len() == 1
            &&& c[0].display == c[0].replacement
            &&& utf8_len(c[0].replacement) > utf8_len(prefix)
            &&& forall|n: Seq<char>| names.contains(n) ==> c[0].replacement.is_prefix_of(n)
        }),
{
    lemma_lcp_starts_all(names);
}

/// A file argument completed from one entry becomes the directory part
/// followed by that entry and `/` (a directory) or a space; completed from
/// several, it becomes the directory part followed by a common prefix of
/// all entries, longer than the typed name part.  Either way the
/// directory part of the word is kept.
pub proof fn law_file_completion_keeps_dir(
    line: Seq<char>,
    start: int,
    dir: Seq<char>,
    name_prefix: Seq<char>,
    cands: Seq<Seq<char>>,
    kinds: Seq<MatchKind>,
    key: Option<(Seq<char>, Seq<char>)>,
)
    requires
        cands.len() == kinds.len(),
    ensures
        ({
            let o = spec_file_completion(line, start, dir, name_prefix, cands, kinds, key).0;
            &&& forall|k: int|
                0 <= k < o.candidates.len() ==> dir.is_prefix_of(#[trigger] o.candidates[k].replacement)
                    && dir.is_prefix_of(o.candidates[k].display)
            &&& cands.len() == 1 ==> o.start == start && o.candidates == seq![
                if kinds[0] is Directory {
                    candidate(dir + cands[0] + seq!['/'], dir + cands[0] + seq!['/'])
                } else {
                    candidate(dir + cands[0], dir + cands[0] + seq![' '])
                },
            ]
            &&& cands.len() >= 2 && o.candidates.len() > 0 ==> {
                let r = o.candidates[0].replacement;
                &&& o.candidates.len() == 1
                &&& o.start == start
                &&& o.candidates[0].display == r
                &&& utf8_len(r.skip(dir.len() as int)) > utf8_len(name_prefix)
                &&& forall|n: Seq<char>| cands.contains(n) ==> r.skip(dir.len() as int).is_prefix_of(n)
            }
        }),
{
    let o = spec_file_completion(line, start, dir, name_prefix, cands, kinds, key).0;
    if cands.len() == 1 {
        assert(dir + cands[0] + seq!['/'] =~= dir + cands[0].push('/'));
        assert(dir + cands[0] + seq![' '] =~= dir + cands[0].push(' '));
    }
    if cands.len() >= 2 {
        lemma_lcp_starts_all(cands);
        let srt = sort_spec(cands);
        let l = spec_lcp(srt[0], srt.last());
        assert((dir + l).skip(dir.len() as int) =~= l);
    }
    assert forall|k: int|
        0 <= k < o.candidates.len() implies dir.is_prefix_of(#[trigger] o.candidates[k].replacement)
        && dir.is_prefix_of(o.candidates[k].display) by {
        let c = o.candidates[k];
        assert(c.replacement.subrange(0, dir.len() as int) =~= dir);
        assert(c.display.subrange(0, dir.len() as int) =~= dir);
    }
}

/// A script press with one candidate puts it in with a trailing space;
/// with several it puts in only a common prefix of all of them, longer
/// than the word being completed, with nothing added after it.
pub proof fn law_script_completion_candidates(
    ctx: ContextSpec,
    line: Seq<char>,
    start: int,
    output: Option<Seq<char>>,
    key: Option<(Seq<char>, Seq<char>, Seq<char>)>,
)
    ensures
        ({
            let o = spec_script_completion(ctx, line, start, output, key).0;
            let names = match output {
                Some(t) => spec_parse_completer_stdout(t),
                None => None,
            };
            &&& names is None ==> o.candidates.len() == 0
            &&& (names matches Some(ns) && ns.len() == 1) ==> o.start == start && o.candidates
                == seq![candidate(names->0[0], names->0[0].push(' '))]
            &&& (names matches Some(ns) && ns.len() >= 2 && o.candidates.len() > 0) ==> {
                let r = o.candidates[0].replacement;
                &&& o.candidates.len() == 1
                &&& o.start == start
                &&& o.candidates[0].display == r
                &&& utf8_len(r) > utf8_len(ctx.current_word)
                &&& forall|n: Seq<char>| names->0.contains(n) ==> r.is_prefix_of(n)
            }
        }),
{
    let names = match output {
        Some(t) => spec_parse_completer_stdout(t),
        None => None,
    };
    if names is Some && names->0.len() >= 1 {
        lemma_lcp_starts_all(names->0);
    }
}

/// What the caller must do next for a file argument.
pub enum FileStep {
    /// The press is decided.
    Done(TabOutcome),
    /// List the directory `dir_part` (the current directory when empty),
    /// keep the entries that start with `name_prefix`, tell for each whether
    /// `dir_part + entry` is a directory, and call `finish_filename`.
    Scan { start: usize, dir_part: String, name_prefix: String },
}

/// Which completion a TAB press asks for.
pub enum CompletionRoute {
    /// A command name; the press is decided.
    Done(TabOutcome),
    /// A file argument: call `begin_filename`.
    Filename,
    /// A registered script at `path`: call `begin_script`.
    Script { path: String, context: CompleterContext },
}

/// Which completion the text left of the cursor asks for: a command name
/// while no whitespace was typed; else a registered script when the
/// command has one; else a file argument.
pub open spec fn spec_route(line: Seq<char>, reg: Map<Seq<char>, Seq<char>>) -> int {
    if !has_whitespace(line) {
        0
    } else {
        match spec_completer_context(line) {
            Some(c) => if reg.dom().contains(c.cmd) {
                2
            } else {
                1
            },
            None => 1,
        }
    }
}

/// The character views of an optional pair of strings.
pub open spec fn key2_view(o: Option<(String, String)>) -> Option<(Seq<char>, Seq<char>)> {
    match o {
        Some((a, b)) => Some((a@, b@)),
        None => None,
    }
}

/// The character views of an optional triple of strings.
pub open spec fn key3_view(o: Option<(String, String, String)>) -> Option<
    (Seq<char>, Seq<char>, Seq<char>),
> {
    match o {
        Some((a, b, c)) => Some((a@, b@, c@)),
        None => None,
    }
}

/// The state of TAB completion between presses: the executables found on
/// the path when the shell started, and for each kind of completion what
/// the previous unresolved press asked for (a second press with the same
/// question lists the candidates).
pub struct ShellHelper {
    pub path_executables: Vec<String>,
    pub last_tab_prefix: Option<String>,
    pub last_tab_arg_key: Option<(String, String)>,
    pub last_tab_script_key: Option<(String, String, String)>,
}

/// The words of `v` without repetitions, each at its first place.
fn dedup_strings(v: &Vec<String>) -> (r: Vec<String>)
    ensures
        r.deep_view() == dedup(v.deep_view()),
{
    let ghost all = v.deep_view();
    let mut out: Vec<String> = Vec::new();
    let mut i: usize = 0;
    assert(all.take(0) =~= Seq::<Seq<char>>::empty());
    assert(out.deep_view() =~= dedup(all.take(0)));
    while i < v.len()
        invariant
            i <= v@.len(),
            all == v.deep_view(),
            out.deep_view() == dedup(all.take(i as int)),
        decreases v@.len() - i,
    {
        let mut found = false;
        let mut j: usize = 0;
        while j < out.len()
            invariant
                i < v@.len(),
                j <= out@.len(),
                found == exists|m: int| 0 <= m < j && out.deep_view()[m] == v@[i as int]@,
            decreases out@.len() - j,
        {
            assert(out.deep_view()[j as int] == out@[j as int]@);
            if out[j] == v[i] {
                found = true;
            }
            j = j + 1;
        }
        assert(all.take(i + 1).drop_last() =~= all.take(i as int));
        assert(all.take(i + 1).last() == v@[i as int]@);
        if !found {
            let ghost before = out.deep_view();
            out.push(v[i].clone());
            assert(out.deep_view() =~= before.push(v@[i as int]@));
        }
        i = i + 1;
    }
    assert(all.take(v@.len() as int) =~= all);
    out
}

/// The outcome that changes nothing.
fn keep_line(pos: usize) -> (r: TabOutcome)
    ensures
        r@ == no_change(pos as int),
{
    let r = TabOutcome { start: pos, candidates: Vec::new(), print: String::new() };
    assert(r@.candidates =~= Seq::<CandidateSpec>::empty());
    r
}

/// The outcome that rings the bell.
fn ring(pos: usize) -> (r: TabOutcome)
    ensures
        r@ == bell(pos as int),
{
    let mut p = String::new();
    push_char(&mut p, '\x07');
    let r = TabOutcome { start: pos, candidates: Vec::new(), print: p };
    assert(r@.candidates =~= Seq::<CandidateSpec>::empty());
    assert(r@.print =~= seq!['\x07']);
    r
}

/// The outcome that lists `items` and draws the prompt again with `shown`.
fn list_items(pos: usize, items: &Vec<String>, shown: &str) -> (r: TabOutcome)
    ensures
        r@ == listing(pos as int, items.deep_view(), shown@),
{
    let mut p = String::new();
    push_char(&mut p, '\n');
    proof {
        reveal_strlit("  ");
    }
    assert("  "@ =~= seq![' ', ' ']);
    assert(words(items@) =~= items.deep_view());
    push_joined(&mut p, items.as_slice(), "  ");
    push_char(&mut p, '\n');
    push_char(&mut p, '$');
    push_char(&mut p, ' ');
    p.append(shown);
    let r = TabOutcome { start: pos, candidates: Vec::new(), print: p };
    assert(r@.candidates =~= Seq::<CandidateSpec>::empty());
    assert(r@.print =~= listing(pos as int, items.deep_view(), shown@).print);
    r
}

/// The outcome that replaces the text from `start` with one candidate.
fn replace_with(start: usize, display: String, replacement: String) -> (r: TabOutcome)
    ensures
        r@ == replace(start as int, display@, replacement@),
{
    let r = TabOutcome {
        start,
        candidates: vec![Candidate { display, replacement }],
        print: String::new(),
    };
    assert(r@.candidates =~= seq![candidate(r.candidates@[0].display@, r.candidates@[0].replacement@)]);
    r
}

/// `s` followed by a space.
fn with_space(s: &String) -> (r: String)
    ensures
        r@ == s@.push(' '),
{
    let mut r = s.clone();
    push_char(&mut r, ' ');
    r
}

proof fn lemma_utf8_len_concat(a: Seq<char>, b: Seq<char>)
    ensures
        utf8_len(a + b) == utf8_len(a) + utf8_len(b),
    decreases b.len(),
{
    if b.len() == 0 {
        assert(a + b =~= a);
    } else {
        lemma_utf8_len_concat(a, b.drop_last());
        assert((a + b).drop_last() =~= a + b.drop_last());
        assert((a + b).last() == b.last());
    }
}

impl ShellHelper {
    /// At most one kind of completion has a press pending: a press of one
    /// kind forgets those of the other two.  Every step that can end a
    /// press (`route` when it decides, `begin_filename`, `finish_filename`,
    /// `begin_script`, `finish_script`) ensures this whatever the state
    /// before it.
    pub open spec fn at_most_one_pending(&self) -> bool {
        &&& !(self.last_tab_prefix is Some && self.last_tab_arg_key is Some)
        &&& !(self.last_tab_prefix is Some && self.last_tab_script_key is Some)
        &&& !(self.last_tab_arg_key is Some && self.last_tab_script_key is Some)
    }

    /// A helper with no pending press, completing commands from the
    /// builtins and from `path_executables`.
    pub fn new(path_executables: Vec<String>) -> (h: Self)
        ensures
            h.path_executables == path_executables,
            h.last_tab_prefix is None,
            h.last_tab_arg_key is None,
            h.last_tab_script_key is None,
            h.at_most_one_pending(),
    {
        ShellHelper {
            path_executables,
            last_tab_prefix: None,
            last_tab_arg_key: None,
            last_tab_script_key: None,
        }
    }

    /// Completes a command name: `prefix` is the whole line left of the
    /// cursor, `pos` its byte length.
    pub fn complete_command(&mut self, prefix: &str, pos: usize) -> (r: TabOutcome)
        ensures
            (r@, opt_view(final(self).last_tab_prefix)) == spec_command_completion(
                command_names(old(self).path_executables.deep_view(), prefix@),
                prefix@,
                pos as int,
                opt_view(old(self).last_tab_prefix),
            ),
            final(self).path_executables == old(self).path_executables,
            final(self).last_tab_arg_key == old(self).last_tab_arg_key,
            final(self).last_tab_script_key == old(self).last_tab_script_key,
    {
        let mut all = builtins();
        let ghost b = all.deep_view();
        let mut i: usize = 0;
        while i < self.path_executables.len()
            invariant
                i <= self.path_executables@.len(),
                all.deep_view() == b + self.path_executables.deep_view().take(i as int),
            decreases self.path_executables@.len() - i,
        {
            let ghost before = all.deep_view();
            all.push(self.path_executables[i].clone());
            assert(all.deep_view() =~= before.push(self.path_executables@[i as int]@));
            assert(self.path_executables.deep_view().take(i + 1) =~= self.path_executables.deep_view().take(
                i as int,
            ).push(self.path_executables@[i as int]@));
            i = i + 1;
        }
        assert(self.path_executables.deep_view().take(i as int) =~= self.path_executables.deep_view());
        let matching = names_with_prefix(all.as_slice(), prefix);
        let mut names = dedup_strings(&matching);
        let ghost ns = names.deep_view();
        let ghost last = opt_view(self.last_tab_prefix);
        if names.len() == 0 {
            self.last_tab_prefix = None;
            return keep_line(pos);
        }
        if names.len() == 1 {
            self.last_tab_prefix = None;
            assert(ns[0] == names@[0]@);
            let d = names[0].clone();
            let rp = with_space(&names[0]);
            return replace_with(0, d, rp);
        }
        sort_strings(&mut names);
        let n = names.len();
        assert(names.deep_view()[0] == names@[0]@);
        assert(names.deep_view()[n - 1] == names@[n - 1]@);
        let l = longest_common_prefix(names[0].as_str(), names[n - 1].as_str());
        if byte_len(l) > byte_len(prefix) {
            self.last_tab_prefix = None;
            return replace_with(0, l.to_owned(), l.to_owned());
        }
        let same = match &self.last_tab_prefix {
            Some(p) => str_eq(p, prefix),
            None => false,
        };
        if same {
            self.last_tab_prefix = None;
            list_items(pos, &names, prefix)
        } else {
            self.last_tab_prefix = Some(prefix.to_owned());
            ring(pos)
        }
    }

    /// Decides which completion a TAB press asks for; `line_to_pos` is the
    /// line left of the cursor.  A command name is completed at once, after
    /// forgetting pending file and script presses.
    pub fn route(&mut self, line_to_pos: &str, registry: &StringMap) -> (r: CompletionRoute)
        ensures
            final(self).path_executables == old(self).path_executables,
            spec_route(line_to_pos@, registry@) == 0 ==> (r matches CompletionRoute::Done(o) && (
            o@,
            opt_view(final(self).last_tab_prefix),
            ) == spec_command_completion(
                command_names(old(self).path_executables.deep_view(), line_to_pos@),
                line_to_pos@,
                utf8_len(line_to_pos@) as int,
                opt_view(old(self).last_tab_prefix),
            ) && final(self).last_tab_arg_key is None && final(self).last_tab_script_key is None
                && final(self).at_most_one_pending()),
            spec_route(line_to_pos@, registry@) == 1 ==> r is Filename && *final(self) == *old(self),
            spec_route(line_to_pos@, registry@) == 2 ==> (r matches CompletionRoute::Script {
                path,
                context,
            } && *final(self) == *old(self) && spec_completer_context(line_to_pos@) == Some(context@)
                && registry@[context.cmd@] == path@),
    {
        let cs = chars_of(line_to_pos);
        let mut any_ws = false;
        let mut i: usize = 0;
        while i < cs.len()
            invariant
                i <= cs@.len(),
                cs@ == line_to_pos@,
                any_ws == exists|j: int| 0 <= j < i && spec_is_whitespace(line_to_pos@[j]),
            decreases cs@.len() - i,
        {
            if is_whitespace(cs[i]) {
                any_ws = true;
            }
            i = i + 1;
        }
        if !any_ws {
            self.last_tab_arg_key = None;
            self.last_tab_script_key = None;
            let pos = byte_len(line_to_pos);
            return CompletionRoute::Done(self.complete_command(line_to_pos, pos));
        }
        match extract_completer_context(line_to_pos) {
            Some(ctx) => match registry.get(ctx.cmd.as_str()) {
                Some(path) => CompletionRoute::Script { path: path.clone(), context: ctx },
                None => CompletionRoute::Filename,
            },
            None => CompletionRoute::Filename,
        }
    }

    /// Starts completing through a script: forgets pending command-name and
    /// file presses and gives the byte where candidates will start, or
    /// nothing when the word under the cursor does not fit in the line.
    pub fn begin_script(&mut self, context: &CompleterContext, line_to_pos: &str) -> (r: Option<
        usize,
    >)
        ensures
            final(self).path_executables == old(self).path_executables,
            final(self).last_tab_prefix is None,
            final(self).last_tab_arg_key is None,
            final(self).last_tab_script_key == old(self).last_tab_script_key,
            final(self).at_most_one_pending(),
            utf8_len(line_to_pos@) <= usize::MAX,
            context.literal_len <= utf8_len(line_to_pos@) ==> r == Some(
                (utf8_len(line_to_pos@) - context.literal_len) as usize,
            ),
            context.literal_len > utf8_len(line_to_pos@) ==> r is None,
    {
        self.last_tab_prefix = None;
        self.last_tab_arg_key = None;
        let pos = byte_len(line_to_pos);
        if context.literal_len > pos {
            None
        } else {
            Some(pos - context.literal_len)
        }
    }

    /// Finishes a script completion: `output` is what the script printed,
    /// or nothing when it could not run, failed, or printed something that
    /// is not UTF-8.  Pending command-name and file presses are forgotten.
    pub fn finish_script(
        &mut self,
        context: &CompleterContext,
        line_to_pos: &str,
        start: usize,
        output: Option<String>,
    ) -> (r: TabOutcome)
        ensures
            (r@, key3_view(final(self).last_tab_script_key)) == spec_script_completion(
                context@,
                line_to_pos@,
                start as int,
                opt_view(output),
                key3_view(old(self).last_tab_script_key),
            ),
            final(self).path_executables == old(self).path_executables,
            final(self).last_tab_prefix is None,
            final(self).last_tab_arg_key is None,
            final(self).at_most_one_pending(),
    {
        self.last_tab_prefix = None;
        self.last_tab_arg_key = None;
        let pos = byte_len(line_to_pos);
        let parsed = match &output {
            Some(o) => parse_completer_stdout(o.as_str()),
            None => None,
        };
        let mut names = match parsed {
            Some(ns) => ns,
            None => {
                self.last_tab_script_key = None;
                return keep_line(pos);
            },
        };
        let ghost ns = names.deep_view();
        if names.len() == 1 {
            self.last_tab_script_key = None;
            assert(ns[0] == names@[0]@);
            let d = names[0].clone();
            let rp = with_space(&names[0]);
            return replace_with(start, d, rp);
        }
        sort_strings(&mut names);
        let n = names.len();
        assert(names.deep_view()[0] == names@[0]@);
        assert(names.deep_view()[n - 1] == names@[n - 1]@);
        let l = longest_common_prefix(names[0].as_str(), names[n - 1].as_str());
        if byte_len(l) > byte_len(context.current_word.as_str()) {
            self.last_tab_script_key = None;
            return replace_with(start, l.to_owned(), l.to_owned());
        }
        let same = match &self.last_tab_script_key {
            Some((c, w, p)) => str_eq(c, context.cmd.as_str()) && str_eq(
                w,
                context.current_word.as_str(),
            ) && str_eq(p, context.prev_word.as_str()),
            None => false,
        };
        if same {
            self.last_tab_script_key = None;
            list_items(pos, &names, line_to_pos)
        } else {
            self.last_tab_script_key = Some(
                (context.cmd.clone(), context.current_word.clone(), context.prev_word.clone()),
            );
            ring(pos)
        }
    }

    /// Starts completing a file argument; `line_to_pos` is the line left of
    /// the cursor.  A pending script press is forgotten.
    pub fn begin_filename(&mut self, line_to_pos: &str) -> (r: FileStep)
        requires
            arg_prefix_sliceable(line_to_pos@),
        ensures
            final(self).path_executables == old(self).path_executables,
            final(self).last_tab_script_key is None,
            final(self).last_tab_prefix is None,
            final(self).at_most_one_pending(),
            match spec_file_query(line_to_pos@) {
                None => r matches FileStep::Done(o) && o@ == no_change(utf8_len(line_to_pos@) as int)
                    && final(self).last_tab_arg_key is None,
                Some((st, d, n)) => r matches FileStep::Scan { start, dir_part, name_prefix }
                    && start == st && dir_part@ == d && name_prefix@ == n
                    && final(self).last_tab_arg_key == old(self).last_tab_arg_key,
            },
    {
        self.last_tab_script_key = None;
        let pos = byte_len(line_to_pos);
        let prefix = match extract_arg_prefix(line_to_pos) {
            Some(p) => p,
            None => {
                self.last_tab_arg_key = None;
                self.last_tab_prefix = None;
                return FileStep::Done(keep_line(pos));
            },
        };
        let lc = chars_of(line_to_pos);
        let pc = chars_of(prefix.as_str());
        let mut suffix = pc.len() <= lc.len();
        if suffix {
            let off = lc.len() - pc.len();
            let mut i: usize = 0;
            while i < pc.len()
                invariant
                    i <= pc@.len(),
                    off + pc@.len() == lc@.len(),
                    lc@.len() <= usize::MAX,
                    lc@ == line_to_pos@,
                    pc@ == prefix@,
                    suffix == forall|k: int| 0 <= k < i ==> lc@[off + k] == pc@[k],
                decreases pc@.len() - i,
            {
                if lc[off + i] != pc[i] {
                    suffix = false;
                }
                i = i + 1;
            }
            proof {
                if suffix {
                    assert(prefix@ =~= line_to_pos@.subrange(off as int, lc@.len() as int));
                }
                if prefix@.is_suffix_of(line_to_pos@) {
                    assert forall|k: int| 0 <= k < pc@.len() implies lc@[off + k] == pc@[k] by {
                        assert(line_to_pos@.subrange(off as int, lc@.len() as int)[k] == lc@[off + k]);
                    }
                }
            }
        }
        if !suffix {
            self.last_tab_arg_key = None;
            self.last_tab_prefix = None;
            return FileStep::Done(keep_line(pos));
        }
        let plen = byte_len(prefix.as_str());
        proof {
            let off = line_to_pos@.len() - prefix@.len();
            assert(line_to_pos@ =~= line_to_pos@.take(off) + prefix@);
            lemma_utf8_len_concat(line_to_pos@.take(off), prefix@);
        }
        let start = pos - plen;
        let (d, n) = split_dir_and_name(prefix.as_str());
        self.last_tab_prefix = None;
        FileStep::Scan { start, dir_part: d.to_owned(), name_prefix: n.to_owned() }
    }

    /// Finishes a file argument: `candidates` are the entries of the
    /// directory that start with the name part, `kinds` tells for each
    /// whether `dir_part + entry` is a directory.  Pending command-name and
    /// script presses are forgotten.
    pub fn finish_filename(
        &mut self,
        line_to_pos: &str,
        start: usize,
        dir_part: &str,
        name_prefix: &str,
        candidates: Vec<String>,
        kinds: Vec<MatchKind>,
    ) -> (r: TabOutcome)
        requires
            candidates@.len() == kinds@.len(),
        ensures
            (r@, key2_view(final(self).last_tab_arg_key)) == spec_file_completion(
                line_to_pos@,
                start as int,
                dir_part@,
                name_prefix@,
                candidates.deep_view(),
                kinds@,
                key2_view(old(self).last_tab_arg_key),
            ),
            final(self).path_executables == old(self).path_executables,
            final(self).last_tab_prefix is None,
            final(self).last_tab_script_key is None,
            final(self).at_most_one_pending(),
    {
        self.last_tab_prefix = None;
        self.last_tab_script_key = None;
        let pos = byte_len(line_to_pos);
        let ghost cands = candidates.deep_view();
        if candidates.len() == 0 {
            self.last_tab_arg_key = None;
            return ring(pos);
        }
        if candidates.len() == 1 {
            self.last_tab_arg_key = None;
            assert(cands[0] == candidates@[0]@);
            let mut full = dir_part.to_owned();
            full.append(candidates[0].as_str());
            let pair = format_arg_completion(full.as_str(), kinds[0]);
            let r = TabOutcome { start, candidates: vec![pair], print: String::new() };
            assert(r@.candidates =~= seq![arg_completion(dir_part@ + cands[0], kinds@[0])]);
            return r;
        }
        let mut names = candidates.clone();
        assert(names.deep_view() =~= cands);
        sort_strings(&mut names);
        let n = names.len();
        assert(names.deep_view()[0] == names@[0]@);
        assert(names.deep_view()[n - 1] == names@[n - 1]@);
        let l = longest_common_prefix(names[0].as_str(), names[n - 1].as_str());
        if byte_len(l) > byte_len(name_prefix) {
            self.last_tab_arg_key = None;
            let mut rep = dir_part.to_owned();
            rep.append(l);
            let rep2 = rep.clone();
            return replace_with(start, rep, rep2);
        }
        let same = match &self.last_tab_arg_key {
            Some((d, p)) => str_eq(d, dir_part) && str_eq(p, name_prefix),
            None => false,
        };
        if same {
            self.last_tab_arg_key = None;
            let mut listed: Vec<String> = Vec::new();
            let ghost srt = names.deep_view();
            let mut i: usize = 0;
            while i < names.len()
                invariant
                    i <= names@.len(),
                    srt == names.deep_view(),
                    candidates@.len() == kinds@.len(),
                    cands == candidates.deep_view(),
                    srt.to_multiset() == cands.to_multiset(),
                    listed.deep_view() == listed_names(srt, cands, kinds@).take(i as int),
                decreases names@.len() - i,
            {
                let mut j: usize = 0;
                while j < candidates.len() && candidates[j] != names[i]
                    invariant
                        i < names@.len(),
                        j <= candidates@.len(),
                        forall|m: int| 0 <= m < j ==> cands[m] != names@[i as int]@,
                        cands == candidates.deep_view(),
                    decreases candidates@.len() - j,
                {
                    assert(cands[j as int] == candidates@[j as int]@);
                    j = j + 1;
                }
                proof {
                    assert(srt[i as int] == names@[i as int]@);
                    assert(srt.to_multiset().count(srt[i as int]) > 0) by {
                        vstd::seq_lib::to_multiset_contains(srt, srt[i as int]);
                    }
                    vstd::seq_lib::to_multiset_contains(cands, srt[i as int]);
                    if j == candidates@.len() {
                        let w = choose|w: int| 0 <= w < cands.len() && cands[w] == srt[i as int];
                        assert(cands[w] != names@[i as int]@);
                    }
                    assert(cands[j as int] == candidates@[j as int]@);
                    let kk = choose|jj: int|
                        0 <= jj < cands.len() && cands[jj] == srt[i as int] && forall|m: int|
                            0 <= m < jj ==> cands[m] != srt[i as int];
                    assert(kk == j as int) by {
                        if kk < j {
                        } else if kk > j {
                        }
                    }
                }
                let mut item = names[i].clone();
                match kinds[j] {
                    MatchKind::Directory => push_char(&mut item, '/'),
                    MatchKind::File => {},
                }
                let ghost before = listed.deep_view();
                listed.push(item);
                assert(listed.deep_view() =~= listed_names(srt, cands, kinds@).take(i + 1)) by {
                    assert(listed.deep_view() =~= before.push(item@));
                }
                i = i + 1;
            }
            assert(listed_names(srt, cands, kinds@).take(i as int) =~= listed_names(srt, cands, kinds@));
            list_items(pos, &listed, line_to_pos)
        } else {
            self.last_tab_arg_key = Some((dir_part.to_owned(), name_prefix.to_owned()));
            ring(pos)
        }
    }
}

} // verus!
