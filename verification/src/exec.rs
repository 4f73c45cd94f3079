//! How commands and pipelines are wired: which stages run as builtins,
//! where each stage reads and writes, and the texts of background jobs.

use vstd::prelude::*;

use crate::numtext::{join, push_dec, push_joined, spec_dec};
use crate::parser::parse::{CommandSpec, ParsedCommand};
use crate::text::{push_char, str_eq, words};

verus! {

/// The builtins that may run as a pipeline stage: they only print and do
/// not touch the shell's state.
pub open spec fn spec_is_pipeline_builtin(name: Seq<char>) -> bool {
    name == "echo"@ || name == "pwd"@ || name == "type"@
}

/// Whether `name` runs as a builtin inside a pipeline (`echo`, `pwd`,
/// `type`); every other name is looked up on the path.
pub fn is_pipeline_builtin(name: &String) -> (b: bool)
    ensures
        b == spec_is_pipeline_builtin(name@),
{
    str_eq(name, "echo") || str_eq(name, "pwd") || str_eq(name, "type")
}

/// Where a stage's standard input comes from.
#[derive(Debug, Clone, Copy, PartialEq, Eq)]
pub enum StageInput {
    /// The shell's own standard input.
    Inherit,
    /// The buffered output of the builtin before it.
    Buffer,
    /// A pipe from the process before it.
    Pipe,
}

/// Where a stage's standard output goes.
#[derive(Debug, Clone, Copy, PartialEq, Eq)]
pub enum StageOutput {
    /// Its redirection target.
    File,
    /// The shell's own standard output.
    Terminal,
    /// A buffer handed to the next stage (builtins).
    Buffer,
    /// A pipe to the next stage (processes).
    Pipe,
}

/// How one stage runs.
#[derive(Debug, Clone, Copy, PartialEq, Eq)]
pub struct StagePlan {
    pub builtin: bool,
    pub input: StageInput,
    pub output: StageOutput,
}

/// The output of stage `i` of `n`: its redirection wins; otherwise the
/// last stage writes to the terminal, a builtin to a buffer and a process
/// to a pipe.
pub open spec fn stage_output(builtin: bool, i: int, n: int, redirected: bool) -> StageOutput {
    if redirected {
        StageOutput::File
    } else if i == n - 1 {
        StageOutput::Terminal
    } else if builtin {
        StageOutput::Buffer
    } else {
        StageOutput::Pipe
    }
}

/// What the next stage reads after a stage that wrote to `out`.
pub open spec fn next_input(out: StageOutput) -> StageInput {
    match out {
        StageOutput::Buffer => StageInput::Buffer,
        StageOutput::Pipe => StageInput::Pipe,
        _ => StageInput::Inherit,
    }
}

/// The plans of the stages of `st`, the first `st.len()` of `n` stages;
/// stage 0 reads the terminal.
pub open spec fn spec_plans(st: Seq<CommandSpec>, n: int) -> Seq<StagePlan>
    decreases st.len(),
{
    if st.len() == 0 {
        seq![]
    } else {
        let before = spec_plans(st.drop_last(), n);
        let i = st.len() - 1;
        let input = if i == 0 {
            StageInput::Inherit
        } else {
            next_input(before.last().output)
        };
        let b = st.last().argv.len() > 0 && spec_is_pipeline_builtin(st.last().argv[0]);
        before.push(
            StagePlan {
                builtin: b,
                input,
                output: stage_output(b, i, n, st.last().stdout_redirect is Some),
            },
        )
    }
}

/// How to run the stages of a pipeline; `None` when a stage has no
/// command word.
pub open spec fn spec_plan_pipeline(st: Seq<CommandSpec>) -> Option<Seq<StagePlan>> {
    if exists|i: int| 0 <= i < st.len() && st[i].argv.len() == 0 {
        None
    } else {
        Some(spec_plans(st, st.len() as int))
    }
}

/// The views of a sequence of commands.
pub open spec fn stage_views(v: Seq<ParsedCommand>) -> Seq<CommandSpec> {
    v.map_values(|c: ParsedCommand| c@)
}

/// Decides how each stage of a pipeline runs: builtins (`echo`, `pwd`,
/// `type`) in the shell, the rest as processes; each stage writes to its
/// redirection, else the last one to the terminal and the others to the
/// next stage; a stage after one whose output went elsewhere reads the
/// terminal.  A stage with no command word makes the whole pipeline
/// invalid.
pub fn plan_pipeline(stages: &Vec<ParsedCommand>) -> (r: Option<Vec<StagePlan>>)
    ensures
        match spec_plan_pipeline(stage_views(stages@)) {
            Some(p) => r matches Some(v) && v@ == p,
            None => r is None,
        },
{
    let ghost sv = stage_views(stages@);
    let n = stages.len();
    let mut k: usize = 0;
    while k < n
        invariant
            k <= n,
            n == stages@.len(),
            sv == stage_views(stages@),
            forall|i: int| 0 <= i < k ==> sv[i].argv.len() > 0,
        decreases n - k,
    {
        if stages[k].argv.len() == 0 {
            assert(sv[k as int].argv.len() == 0);
            return None;
        }
        k = k + 1;
    }
    let mut plans: Vec<StagePlan> = Vec::new();
    let mut i: usize = 0;
    assert(sv.take(0) =~= Seq::<CommandSpec>::empty());
    while i < n
        invariant
            i <= n,
            n == stages@.len(),
            sv == stage_views(stages@),
            forall|j: int| 0 <= j < n ==> sv[j].argv.len() > 0,
            plans@ == spec_plans(sv.take(i as int), n as int),
            plans@.len() == i,
        decreases n - i,
    {
        let st = &stages[i];
        assert(sv[i as int] == st@);
        assert(sv.take(i + 1).drop_last() =~= sv.take(i as int));
        assert(sv.take(i + 1).last() == st@);
        assert(st.argv.deep_view()[0] == st.argv@[0]@);
        let input = if i == 0 {
            StageInput::Inherit
        } else {
            match plans[i - 1].output {
                StageOutput::Buffer => StageInput::Buffer,
                StageOutput::Pipe => StageInput::Pipe,
                _ => StageInput::Inherit,
            }
        };
        let builtin = is_pipeline_builtin(&st.argv[0]);
        let output = if st.stdout_redirect.is_some() {
            StageOutput::File
        } else if i == n - 1 {
            StageOutput::Terminal
        } else if builtin {
            StageOutput::Buffer
        } else {
            StageOutput::Pipe
        };
        plans.push(StagePlan { builtin, input, output });
        i = i + 1;
    }
    assert(sv.take(n as int) =~= sv);
    Some(plans)
}

/// The text of a background job: each stage's words joined by spaces, the
/// stages joined by ` | `.
pub open spec fn job_command_text(st: Seq<CommandSpec>) -> Seq<char> {
    join(Seq::new(st.len(), |i: int| join(st[i].argv, seq![' '])), seq![' ', '|', ' '])
}

/// The command text shown by `jobs` for a (possibly one-stage) pipeline.
pub fn job_command(stages: &Vec<ParsedCommand>) -> (r: String)
    ensures
        r@ == job_command_text(stage_views(stages@)),
{
    let ghost sv = stage_views(stages@);
    let ghost items = Seq::new(sv.len(), |i: int| join(sv[i].argv, seq![' ']));
    let mut parts: Vec<String> = Vec::new();
    let mut i: usize = 0;
    proof {
        reveal_strlit(" ");
        reveal_strlit(" | ");
    }
    assert(" "@ =~= seq![' ']);
    assert(" | "@ =~= seq![' ', '|', ' ']);
    while i < stages.len()
        invariant
            i <= stages@.len(),
            sv == stage_views(stages@),
            items == Seq::new(sv.len(), |i: int| join(sv[i].argv, seq![' '])),
            " "@ == seq![' '],
            words(parts@) == items.take(i as int),
        decreases stages@.len() - i,
    {
        let mut t = String::new();
        push_joined(&mut t, stages[i].argv.as_slice(), " ");
        assert(words(stages@[i as int].argv@) =~= sv[i as int].argv);
        assert(t@ == items[i as int]);
        let ghost before = parts@;
        parts.push(t);
        assert(words(parts@) =~= words(before).push(t@));
        assert(items.take(i + 1) =~= items.take(i as int).push(items[i as int]));
        i = i + 1;
        assert(words(parts@) =~= items.take(i as int));
    }
    assert(items.take(stages@.len() as int) =~= items);
    let mut r = String::new();
    push_joined(&mut r, parts.as_slice(), " | ");
    r
}

/// The line announcing a background job: `[ID] PID`.
pub open spec fn job_started_line(id: u32, pid: u32) -> Seq<char> {
    seq!['['] + spec_dec(id as nat) + seq![']', ' '] + spec_dec(pid as nat) + seq!['\n']
}

/// The line that announces a background job.
pub fn job_started(id: u32, pid: u32) -> (r: String)
    ensures
        r@ == job_started_line(id, pid),
{
    let mut r = String::new();
    push_char(&mut r, '[');
    push_dec(&mut r, id as u64);
    push_char(&mut r, ']');
    push_char(&mut r, ' ');
    push_dec(&mut r, pid as u64);
    push_char(&mut r, '\n');
    assert(r@ =~= job_started_line(id, pid));
    r
}

} // verus!
