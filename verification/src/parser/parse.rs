//! The parser: pipeline stages and redirections from the token sequence.

use vstd::prelude::*;

use super::tokenize::{spec_tokenize, tokenize};
use super::ParseError;
use crate::strmap::StringMap;
use crate::text::{opt_view, string_from_chars};

verus! {

/// One command of a pipeline, as plain values.
pub struct CommandSpec {
    pub argv: Seq<Seq<char>>,
    pub stdout_redirect: Option<Seq<char>>,
    pub stdout_append: bool,
    pub stderr_redirect: Option<Seq<char>>,
    pub stderr_append: bool,
    pub background: bool,
}

/// A command with no words and no redirection.
pub open spec fn empty_command() -> CommandSpec {
    CommandSpec {
        argv: seq![],
        stdout_redirect: None,
        stdout_append: false,
        stderr_redirect: None,
        stderr_append: false,
        background: false,
    }
}

/// Scans `toks` from `i` on: `>` / `1>` and `>>` / `1>>` set the stdout
/// target, `2>` and `2>>` the stderr target (the last one of each kind
/// wins, append flag included); the word after such an operator is its
/// target; every other token is a word of the command.
pub open spec fn collect(toks: Seq<Seq<char>>, i: int, acc: CommandSpec) -> Result<CommandSpec, ParseError>
    decreases toks.len() - i,
{
    if i < 0 || i >= toks.len() {
        Ok(acc)
    } else {
        let t = toks[i];
        if t == seq!['>'] || t == seq!['1', '>'] || t == seq!['>', '>'] || t == seq!['1', '>', '>'] {
            if i + 1 < toks.len() {
                collect(
                    toks,
                    i + 2,
                    CommandSpec {
                        stdout_redirect: Some(toks[i + 1]),
                        stdout_append: t == seq!['>', '>'] || t == seq!['1', '>', '>'],
                        ..acc
                    },
                )
            } else {
                Err(ParseError::MissingRedirectTarget)
            }
        } else if t == seq!['2', '>'] || t == seq!['2', '>', '>'] {
            if i + 1 < toks.len() {
                collect(
                    toks,
                    i + 2,
                    CommandSpec {
                        stderr_redirect: Some(toks[i + 1]),
                        stderr_append: t == seq!['2', '>', '>'],
                        ..acc
                    },
                )
            } else {
                Err(ParseError::MissingRedirectTarget)
            }
        } else {
            collect(toks, i + 1, CommandSpec { argv: acc.argv.push(t), ..acc })
        }
    }
}

/// The command that the tokens of one stage describe.
pub open spec fn spec_collect_redirects(toks: Seq<Seq<char>>) -> Result<CommandSpec, ParseError> {
    collect(toks, 0, empty_command())
}

/// Scanning `toks + more` reads `toks` first: when `toks` alone scans
/// without error, the scan of the whole goes on from that result.
proof fn lemma_collect_append(
    toks: Seq<Seq<char>>,
    more: Seq<Seq<char>>,
    i: int,
    acc: CommandSpec,
)
    requires
        0 <= i <= toks.len(),
        collect(toks, i, acc) is Ok,
    ensures
        collect(toks + more, i, acc) == collect(toks + more, toks.len() as int, collect(toks, i, acc)->Ok_0),
    decreases toks.len() - i,
{
    let all = toks + more;
    if i < toks.len() {
        let t = toks[i];
        assert(all[i] == t);
        if t == seq!['>'] || t == seq!['1', '>'] || t == seq!['>', '>'] || t == seq!['1', '>', '>']
            || t == seq!['2', '>'] || t == seq!['2', '>', '>'] {
            assert(i + 1 < toks.len());
            assert(all[i + 1] == toks[i + 1]);
            let next = collect(toks, i, acc);
            if t == seq!['2', '>'] || t == seq!['2', '>', '>'] {
                let a2 = CommandSpec {
                    stderr_redirect: Some(toks[i + 1]),
                    stderr_append: t == seq!['2', '>', '>'],
                    ..acc
                };
                lemma_collect_append(toks, more, i + 2, a2);
            } else {
                let a2 = CommandSpec {
                    stdout_redirect: Some(toks[i + 1]),
                    stdout_append: t == seq!['>', '>'] || t == seq!['1', '>', '>'],
                    ..acc
                };
                lemma_collect_append(toks, more, i + 2, a2);
            }
        } else {
            lemma_collect_append(toks, more, i + 1, CommandSpec { argv: acc.argv.push(t), ..acc });
        }
    }
}

/// A redirection added at the end of a command that parses wins over the
/// earlier ones of its stream and leaves the words and the other stream as
/// they were: stdout and stderr are redirected independently.
pub proof fn law_last_redirect_wins(toks: Seq<Seq<char>>, op: Seq<char>, target: Seq<char>)
    requires
        spec_collect_redirects(toks) is Ok,
        op == seq!['>'] || op == seq!['1', '>'] || op == seq!['>', '>'] || op == seq!['1', '>', '>']
            || op == seq!['2', '>'] || op == seq!['2', '>', '>'],
    ensures
        ({
            let c = spec_collect_redirects(toks)->Ok_0;
            let stderr_op = op == seq!['2', '>'] || op == seq!['2', '>', '>'];
            let append = op == seq!['>', '>'] || op == seq!['1', '>', '>'] || op == seq!['2', '>', '>'];
            spec_collect_redirects(toks + seq![op, target]) == Ok::<CommandSpec, ParseError>(
                if stderr_op {
                    CommandSpec { stderr_redirect: Some(target), stderr_append: append, ..c }
                } else {
                    CommandSpec { stdout_redirect: Some(target), stdout_append: append, ..c }
                },
            )
        }),
{
    let more = seq![op, target];
    let all = toks + more;
    lemma_collect_append(toks, more, 0, empty_command());
    let c = spec_collect_redirects(toks)->Ok_0;
    let n = toks.len() as int;
    assert(all[n] == op);
    assert(all[n + 1] == target);
    let append = op == seq!['>', '>'] || op == seq!['1', '>', '>'] || op == seq!['2', '>', '>'];
    let to_err = CommandSpec { stderr_redirect: Some(target), stderr_append: append, ..c };
    let to_out = CommandSpec { stdout_redirect: Some(target), stdout_append: append, ..c };
    assert(collect(all, n + 2, to_err) == Ok::<CommandSpec, ParseError>(to_err));
    assert(collect(all, n + 2, to_out) == Ok::<CommandSpec, ParseError>(to_out));
}

/// A command with no tokens has no words and no redirection.
pub proof fn law_no_tokens_empty_command()
    ensures
        spec_collect_redirects(seq![]) == Ok::<CommandSpec, ParseError>(empty_command()),
{
}

/// A token that is not a redirection operator, added at the end of a
/// command that parses, becomes its last word, wherever the redirections
/// before it stand; nothing else changes.
pub proof fn law_word_appended_is_kept(toks: Seq<Seq<char>>, word: Seq<char>)
    requires
        spec_collect_redirects(toks) is Ok,
        word != seq!['>'] && word != seq!['1', '>'] && word != seq!['>', '>'] && word != seq![
            '1',
            '>',
            '>',
        ] && word != seq!['2', '>'] && word != seq!['2', '>', '>'],
    ensures
        ({
            let c = spec_collect_redirects(toks)->Ok_0;
            spec_collect_redirects(toks + seq![word]) == Ok::<CommandSpec, ParseError>(
                CommandSpec { argv: c.argv.push(word), ..c },
            )
        }),
{
    let more = seq![word];
    let all = toks + more;
    lemma_collect_append(toks, more, 0, empty_command());
    let c = spec_collect_redirects(toks)->Ok_0;
    let n = toks.len() as int;
    assert(all[n] == word);
    let next = CommandSpec { argv: c.argv.push(word), ..c };
    assert(collect(all, n + 1, next) == Ok::<CommandSpec, ParseError>(next));
}

/// Splits `toks` from `i` on at the `|` tokens; `cur` holds the tokens of
/// the stage being read, `stages` the stages done so far.
pub open spec fn split_stages(
    toks: Seq<Seq<char>>,
    i: int,
    cur: Seq<Seq<char>>,
    stages: Seq<CommandSpec>,
    has_pipe: bool,
) -> Result<Seq<CommandSpec>, ParseError>
    decreases toks.len() - i,
{
    if i < 0 || i >= toks.len() {
        if has_pipe && cur.len() == 0 {
            Err(ParseError::EmptyPipelineSegment)
        } else {
            match spec_collect_redirects(cur) {
                Ok(c) => Ok(stages.push(c)),
                Err(e) => Err(e),
            }
        }
    } else if toks[i] == seq!['|'] {
        if cur.len() == 0 {
            Err(ParseError::EmptyPipelineSegment)
        } else {
            match spec_collect_redirects(cur) {
                Ok(c) => split_stages(toks, i + 1, seq![], stages.push(c), true),
                Err(e) => Err(e),
            }
        }
    } else {
        split_stages(toks, i + 1, cur.push(toks[i]), stages, has_pipe)
    }
}

/// Whether the token sequence ends with a lone `&`.
pub open spec fn ends_with_amp(toks: Seq<Seq<char>>) -> bool {
    toks.len() > 0 && toks.last() == seq!['&']
}

/// The stages and the background flag of a whole line.
pub open spec fn spec_parse_pipeline(s: Seq<char>, vars: Map<Seq<char>, Seq<char>>) -> Result<
    (Seq<CommandSpec>, bool),
    ParseError,
> {
    match spec_tokenize(s, vars) {
        Err(e) => Err(e),
        Ok(toks) => {
            let bg = ends_with_amp(toks);
            let rest = if bg {
                toks.drop_last()
            } else {
                toks
            };
            match split_stages(rest, 0, seq![], seq![], false) {
                Ok(stages) => Ok((stages, bg)),
                Err(e) => Err(e),
            }
        },
    }
}

/// A single command line: a one-stage pipeline, its background flag copied
/// into the command; more stages are an error.
pub open spec fn spec_parse(s: Seq<char>, vars: Map<Seq<char>, Seq<char>>) -> Result<CommandSpec, ParseError> {
    match spec_parse_pipeline(s, vars) {
        Err(e) => Err(e),
        Ok((stages, bg)) => if stages.len() == 1 {
            Ok(CommandSpec { background: bg, ..stages[0] })
        } else {
            Err(ParseError::EmptyPipelineSegment)
        },
    }
}

/// One command with its redirections taken out.
///
/// `argv` holds the words; `stdout_redirect` is the target of `>` / `1>`
/// (truncate) or `>>` / `1>>` (append, `stdout_append`), `stderr_redirect`
/// that of `2>` / `2>>`.  Both streams are independent.  `background` is the
/// trailing `&` of a single command.
#[derive(Debug, PartialEq, Eq)]
pub struct ParsedCommand {
    pub argv: Vec<String>,
    pub stdout_redirect: Option<String>,
    pub stdout_append: bool,
    pub stderr_redirect: Option<String>,
    pub stderr_append: bool,
    pub background: bool,
}

impl View for ParsedCommand {
    type V = CommandSpec;

    open spec fn view(&self) -> CommandSpec {
        CommandSpec {
            argv: self.argv.deep_view(),
            stdout_redirect: opt_view(self.stdout_redirect),
            stdout_append: self.stdout_append,
            stderr_redirect: opt_view(self.stderr_redirect),
            stderr_append: self.stderr_append,
            background: self.background,
        }
    }
}

/// The stages of a line joined by `|`, and whether the whole line runs in
/// the background (trailing `&`).  There is always at least one stage.
#[derive(Debug, PartialEq, Eq)]
pub struct Pipeline {
    pub stages: Vec<ParsedCommand>,
    pub background: bool,
}

/// The plain view of a sequence of commands.
pub open spec fn commands_view(v: Seq<ParsedCommand>) -> Seq<CommandSpec> {
    v.map_values(|c: ParsedCommand| c@)
}

/// Whether string `t` consists of exactly the characters `op`.
fn token_is(t: &String, op: &Vec<char>) -> (b: bool)
    ensures
        b == (t@ == op@),
{
    let o = string_from_chars(op);
    *t == o
}

/// Turns the tokens of one stage into a command: finds the six redirection
/// operators and takes the token after each as its target.
pub fn collect_redirects(tokens: Vec<String>) -> (r: Result<ParsedCommand, ParseError>)
    ensures
        match spec_collect_redirects(tokens.deep_view()) {
            Ok(c) => r matches Ok(p) && p@ == c,
            Err(e) => r matches Err(e2) && e2 == e,
        },
{
    let ghost toks = tokens.deep_view();
    let gt = vec!['>'];
    let one_gt = vec!['1', '>'];
    let gtgt = vec!['>', '>'];
    let one_gtgt = vec!['1', '>', '>'];
    let two_gt = vec!['2', '>'];
    let two_gtgt = vec!['2', '>', '>'];
    let mut argv: Vec<String> = Vec::new();
    let mut stdout_redirect: Option<String> = None;
    let mut stdout_append = false;
    let mut stderr_redirect: Option<String> = None;
    let mut stderr_append = false;
    let mut i: usize = 0;
    assert(argv.deep_view() =~= Seq::<Seq<char>>::empty());
    while i < tokens.len()
        invariant
            toks == tokens.deep_view(),
            gt@ == seq!['>'],
            one_gt@ == seq!['1', '>'],
            gtgt@ == seq!['>', '>'],
            one_gtgt@ == seq!['1', '>', '>'],
            two_gt@ == seq!['2', '>'],
            two_gtgt@ == seq!['2', '>', '>'],
            i <= tokens.len() + 1,
            spec_collect_redirects(toks) == collect(
                toks,
                i as int,
                CommandSpec {
                    argv: argv.deep_view(),
                    stdout_redirect: opt_view(stdout_redirect),
                    stdout_append,
                    stderr_redirect: opt_view(stderr_redirect),
                    stderr_append,
                    background: false,
                },
            ),
        decreases tokens.len() + 1 - i,
    {
        let t = &tokens[i];
        assert(toks[i as int] == t@);
        let is_gt = token_is(t, &gt);
        let is_one_gt = token_is(t, &one_gt);
        let is_gtgt = token_is(t, &gtgt);
        let is_one_gtgt = token_is(t, &one_gtgt);
        let is_two_gt = token_is(t, &two_gt);
        let is_two_gtgt = token_is(t, &two_gtgt);
        if is_gt || is_one_gt || is_gtgt || is_one_gtgt {
            if i + 1 < tokens.len() {
                assert(toks[i + 1] == tokens[i + 1]@);
                stdout_redirect = Some(tokens[i + 1].clone());
                stdout_append = is_gtgt || is_one_gtgt;
                i = i + 2;
            } else {
                return Err(ParseError::MissingRedirectTarget);
            }
        } else if is_two_gt || is_two_gtgt {
            if i + 1 < tokens.len() {
                assert(toks[i + 1] == tokens[i + 1]@);
                stderr_redirect = Some(tokens[i + 1].clone());
                stderr_append = is_two_gtgt;
                i = i + 2;
            } else {
                return Err(ParseError::MissingRedirectTarget);
            }
        } else {
            let ghost before = argv.deep_view();
            argv.push(t.clone());
            assert(argv.deep_view() =~= before.push(toks[i as int]));
            i = i + 1;
        }
    }
    Ok(
        ParsedCommand {
            argv,
            stdout_redirect,
            stdout_append,
            stderr_redirect,
            stderr_append,
            background: false,
        },
    )
}

/// Parses a line into a pipeline: the stages between `|` tokens, each with
/// its own redirections, and the background flag of a trailing `&`.
///
/// An empty stage (a leading, trailing or doubled `|`) is an error.  A line
/// with no word at all gives one empty stage.
pub fn parse_pipeline(input: &str, vars: &StringMap) -> (r: Result<Pipeline, ParseError>)
    ensures
        match spec_parse_pipeline(input@, vars@) {
            Ok((stages, bg)) => r matches Ok(p) && commands_view(p.stages@) == stages
                && p.background == bg,
            Err(e) => r matches Err(e2) && e2 == e,
        },
{
    let mut tokens = match tokenize(input, vars) {
        Ok(t) => t,
        Err(e) => return Err(e),
    };
    let ghost all = tokens.deep_view();
    let amp = vec!['&'];
    let bar = vec!['|'];
    let n = tokens.len();
    assert(all.len() == n);
    assert(amp@ == seq!['&']);
    assert(n > 0 ==> all[n - 1] == tokens@[n - 1]@);
    let background = n > 0 && token_is(&tokens[n - 1], &amp);
    assert(background == ends_with_amp(all));
    if background {
        let ghost before = tokens.deep_view();
        tokens.pop();
        assert(tokens.deep_view() =~= before.drop_last());
    }
    let ghost rest = tokens.deep_view();
    assert(rest == if ends_with_amp(all) { all.drop_last() } else { all });
    let mut stages: Vec<ParsedCommand> = Vec::new();
    let mut cur: Vec<String> = Vec::new();
    let mut has_pipe = false;
    let mut i: usize = 0;
    assert(cur.deep_view() =~= Seq::<Seq<char>>::empty());
    assert(commands_view(stages@) =~= Seq::<CommandSpec>::empty());
    while i < tokens.len()
        invariant
            rest == tokens.deep_view(),
            spec_tokenize(input@, vars@) == Ok::<Seq<Seq<char>>, ParseError>(all),
            background == ends_with_amp(all),
            rest == if ends_with_amp(all) { all.drop_last() } else { all },
            bar@ == seq!['|'],
            i <= tokens.len(),
            split_stages(rest, 0, seq![], seq![], false) == split_stages(
                rest,
                i as int,
                cur.deep_view(),
                commands_view(stages@),
                has_pipe,
            ),
        decreases tokens.len() - i,
    {
        let t = &tokens[i];
        assert(rest[i as int] == t@);
        if token_is(t, &bar) {
            has_pipe = true;
            if cur.len() == 0 {
                return Err(ParseError::EmptyPipelineSegment);
            }
            let mut taken: Vec<String> = Vec::new();
            std::mem::swap(&mut taken, &mut cur);
            assert(cur.deep_view() =~= Seq::<Seq<char>>::empty());
            match collect_redirects(taken) {
                Ok(c) => {
                    let ghost before = commands_view(stages@);
                    stages.push(c);
                    assert(commands_view(stages@) =~= before.push(c@));
                },
                Err(e) => return Err(e),
            }
        } else {
            let ghost before = cur.deep_view();
            cur.push(t.clone());
            assert(cur.deep_view() =~= before.push(rest[i as int]));
        }
        i = i + 1;
    }
    if has_pipe && cur.len() == 0 {
        return Err(ParseError::EmptyPipelineSegment);
    }
    match collect_redirects(cur) {
        Ok(c) => {
            let ghost before = commands_view(stages@);
            stages.push(c);
            assert(commands_view(stages@) =~= before.push(c@));
        },
        Err(e) => return Err(e),
    }
    Ok(Pipeline { stages, background })
}

/// Parses a line that holds a single command; its background flag is that
/// of the line.  A line with several stages is refused with
/// `EmptyPipelineSegment`.
pub fn parse(input: &str, vars: &StringMap) -> (r: Result<ParsedCommand, ParseError>)
    ensures
        match spec_parse(input@, vars@) {
            Ok(c) => r matches Ok(p) && p@ == c,
            Err(e) => r matches Err(e2) && e2 == e,
        },
{
    let mut pipeline = match parse_pipeline(input, vars) {
        Ok(p) => p,
        Err(e) => return Err(e),
    };
    if pipeline.stages.len() == 1 {
        let ghost stages = pipeline.stages@;
        let mut cmd = pipeline.stages.pop().unwrap();
        assert(cmd == stages[0]);
        cmd.background = pipeline.background;
        Ok(cmd)
    } else {
        Err(ParseError::EmptyPipelineSegment)
    }
}

} // verus!
