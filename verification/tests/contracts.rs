use codecrafters_shell::builtins::cd::{plan_cd, CdStep};
use codecrafters_shell::builtins::declare::escape_for_double_quote;
use codecrafters_shell::builtins::history::{history_entries_from_lines, history_file_text};
use codecrafters_shell::builtins::{
    add_job, advance_job_status, allocate_job_id, builtins, exit_code, is_builtin, render_done_jobs,
    retain_running_jobs, run_complete, run_declare, run_echo, run_jobs, run_type, Job, JobStatus,
};
use codecrafters_shell::completion::helpers::{longest_common_prefix, MatchKind};
use codecrafters_shell::completion::{CompletionRoute, FileStep, ShellHelper};
use codecrafters_shell::exec::{
    is_pipeline_builtin, job_command, job_started, plan_pipeline, StageInput, StageOutput,
};
use codecrafters_shell::numtext::{parse_i32, parse_usize, push_dec, push_padded_left, push_padded_right};
use codecrafters_shell::parser::{collect_redirects, parse, parse_pipeline, tokenize, ParseError};
use codecrafters_shell::sort::sort_strings;
use codecrafters_shell::strmap::StringMap;

fn owned(v: &[&str]) -> Vec<String> {
    v.iter().map(|s| s.to_string()).collect()
}

fn vars_with(pairs: &[(&str, &str)]) -> StringMap {
    let mut m = StringMap::new();
    for (k, v) in pairs {
        m.insert(k.to_string(), v.to_string());
    }
    m
}

// ---- ${NAME} ----

#[test]
fn braced_variable_expands_and_joins_following_text() {
    let vars = vars_with(&[("X", "hi")]);
    assert_eq!(tokenize("echo ${X}end", &vars).unwrap(), vec!["echo", "hiend"]);
    assert_eq!(tokenize("echo \"${X} y\"", &vars).unwrap(), vec!["echo", "hi y"]);
}

#[test]
fn braced_unset_variable_is_empty_token() {
    assert_eq!(tokenize("echo ${NOPE}", &StringMap::new()).unwrap(), vec!["echo", ""]);
}

#[test]
fn braced_variable_escaped_or_single_quoted_stays_literal() {
    let vars = vars_with(&[("X", "hi")]);
    assert_eq!(tokenize("echo \\${X}", &vars).unwrap(), vec!["echo", "${X}"]);
    assert_eq!(tokenize("echo \"\\${X}\"", &vars).unwrap(), vec!["echo", "${X}"]);
    assert_eq!(tokenize("echo '${X}'", &vars).unwrap(), vec!["echo", "${X}"]);
}

#[test]
fn braced_variable_bad_name_is_bad_substitution() {
    let vars = StringMap::new();
    assert_eq!(tokenize("echo ${}", &vars), Err(ParseError::BadSubstitution));
    assert_eq!(tokenize("echo ${1abc}", &vars), Err(ParseError::BadSubstitution));
    assert_eq!(tokenize("echo ${X-Y}", &vars), Err(ParseError::BadSubstitution));
    assert_eq!(tokenize("echo \"${X Y}\"", &vars), Err(ParseError::BadSubstitution));
}

#[test]
fn braced_variable_without_close_is_unterminated() {
    let vars = StringMap::new();
    assert_eq!(tokenize("echo ${X", &vars), Err(ParseError::UnterminatedBraceExpansion));
    assert_eq!(tokenize("echo ${", &vars), Err(ParseError::UnterminatedBraceExpansion));
    assert_eq!(tokenize("echo \"${X\"", &vars), Err(ParseError::UnterminatedBraceExpansion));
}

#[test]
fn parse_error_messages() {
    assert_eq!(ParseError::BadSubstitution.message(), "syntax error: bad substitution");
    assert_eq!(
        ParseError::UnterminatedBraceExpansion.message(),
        "syntax error: unterminated brace expansion"
    );
    assert_eq!(ParseError::TrailingBackslash.message(), "syntax error: trailing backslash");
    assert_eq!(
        ParseError::UnterminatedSingleQuote.message(),
        "syntax error: unterminated single quote"
    );
    assert_eq!(
        ParseError::UnterminatedDoubleQuote.message(),
        "syntax error: unterminated double quote"
    );
    assert_eq!(
        ParseError::MissingRedirectTarget.message(),
        "syntax error: missing redirect target"
    );
    assert_eq!(
        ParseError::EmptyPipelineSegment.message(),
        "syntax error: empty pipeline segment"
    );
}

// ---- laws on concrete values ----

#[test]
fn single_quoted_text_is_literal() {
    let vars = vars_with(&[("b", "X")]);
    assert_eq!(
        tokenize("'a $b \\ \" >|& ${b}'", &vars).unwrap(),
        vec!["a $b \\ \" >|& ${b}"]
    );
    assert_eq!(tokenize("''", &vars).unwrap(), vec![""]);
}

#[test]
fn escaped_text_reads_back_between_double_quotes() {
    let vars = vars_with(&[("c", "SHOULD_NOT_APPEAR")]);
    let text = "a\"b$c`d\\e f";
    let escaped = escape_for_double_quote(text);
    assert_eq!(escaped, "a\\\"b\\$c\\`d\\\\e f");
    let line = format!("\"{}\"", escaped);
    assert_eq!(tokenize(&line, &vars).unwrap(), vec![text]);
}

#[test]
fn declare_print_output_reads_back() {
    let mut vars = StringMap::new();
    let mut out = String::new();
    let mut err = String::new();
    run_declare(&mut out, &mut err, &owned(&["X=va\"l $ue\\"]), &mut vars);
    assert!(out.is_empty() && err.is_empty());
    run_declare(&mut out, &mut err, &owned(&["-p", "X"]), &mut vars);
    assert_eq!(out, "declare -- X=\"va\\\"l \\$ue\\\\\"\n");
    assert!(err.is_empty());
    assert_eq!(
        tokenize(&out, &vars).unwrap(),
        vec!["declare", "--", "X=va\"l $ue\\"]
    );
}

#[test]
fn complete_register_print_remove_print() {
    let mut reg = StringMap::new();
    let (mut out, mut err) = (String::new(), String::new());
    run_complete(&mut out, &mut err, &owned(&["-C", "/bin/c.sh", "git"]), &mut reg);
    assert!(out.is_empty() && err.is_empty());
    run_complete(&mut out, &mut err, &owned(&["-p", "git"]), &mut reg);
    assert_eq!(out, "complete -C '/bin/c.sh' git\n");
    out.clear();
    run_complete(&mut out, &mut err, &owned(&["-r", "git"]), &mut reg);
    run_complete(&mut out, &mut err, &owned(&["-p", "git"]), &mut reg);
    assert!(out.is_empty());
    assert_eq!(err, "complete: git: no completion specification\n");
}

#[test]
fn lcp_of_sorted_ends_is_common_to_all() {
    let mut names = owned(&["applet", "apply", "apple", "applesauce"]);
    sort_strings(&mut names);
    assert_eq!(names, vec!["apple", "applesauce", "applet", "apply"]);
    let l = longest_common_prefix(&names[0], &names[names.len() - 1]).to_string();
    assert_eq!(l, "appl");
    for n in &names {
        assert!(n.starts_with(&l));
    }
}

#[test]
fn plain_words_and_whitespace_runs() {
    let vars = StringMap::new();
    assert_eq!(tokenize("ab  cd\tef \n", &vars).unwrap(), vec!["ab", "cd", "ef"]);
    assert_eq!(tokenize("   ", &vars).unwrap(), Vec::<String>::new());
}

#[test]
fn last_redirect_wins_streams_independent() {
    let c = collect_redirects(owned(&["echo", "a", ">", "f1", "2>", "e", "1>>", "f2"])).unwrap();
    assert_eq!(c.argv, vec!["echo", "a"]);
    assert_eq!(c.stdout_redirect.as_deref(), Some("f2"));
    assert!(c.stdout_append);
    assert_eq!(c.stderr_redirect.as_deref(), Some("e"));
    assert!(!c.stderr_append);
    assert!(!c.background);
}

#[test]
fn trailing_ampersand_sets_background_only_at_end() {
    let vars = StringMap::new();
    let c = parse("sleep 30&", &vars).unwrap();
    assert_eq!(c.argv, vec!["sleep", "30"]);
    assert!(c.background);
    let c = parse("echo & x", &vars).unwrap();
    assert_eq!(c.argv, vec!["echo", "&", "x"]);
    assert!(!c.background);
    let p = parse_pipeline("cat f | wc -l &", &vars).unwrap();
    assert_eq!(p.stages.len(), 2);
    assert!(p.background);
}

#[test]
fn redirect_without_target_and_empty_stage_errors() {
    let vars = StringMap::new();
    assert_eq!(parse("echo >", &vars), Err(ParseError::MissingRedirectTarget));
    assert_eq!(
        parse_pipeline("echo a | | wc", &vars).map(|p| p.stages.len()),
        Err(ParseError::EmptyPipelineSegment)
    );
    assert_eq!(
        parse_pipeline("echo a |", &vars).map(|p| p.stages.len()),
        Err(ParseError::EmptyPipelineSegment)
    );
}

// ---- history files ----

#[test]
fn history_file_text_and_appends_add_up() {
    let es = owned(&["echo a", "ls", "pwd"]);
    assert_eq!(history_file_text(&es, 0), "echo a\nls\npwd\n");
    assert_eq!(history_file_text(&es, 2), "pwd\n");
    assert_eq!(history_file_text(&es, 9), "");
    let first = history_file_text(&es[..2], 0);
    let rest = history_file_text(&es, 2);
    assert_eq!(format!("{}{}", first, rest), history_file_text(&es, 0));
}

#[test]
fn history_file_lines_skip_empty() {
    let lines = owned(&["a", "", "b", ""]);
    assert_eq!(history_entries_from_lines(&lines), vec!["a", "b"]);
}

// ---- jobs ----

fn job(id: u32, cmd: &str, status: JobStatus, children: Vec<bool>) -> Job<bool> {
    Job { id, pid: 100 + id, command: cmd.to_string(), status, children }
}

#[test]
fn job_with_a_live_process_stays_running() {
    let mut jobs = vec![
        job(1, "a | b", JobStatus::Running, vec![true, false]),
        job(2, "c | d", JobStatus::Running, vec![true, true]),
        job(3, "e", JobStatus::Running, vec![]),
    ];
    let exits: Vec<Vec<bool>> = jobs.iter().map(|j| j.children.clone()).collect();
    advance_job_status(&mut jobs, &exits);
    assert_eq!(jobs[0].status, JobStatus::Running);
    assert_eq!(jobs[1].status, JobStatus::Done);
    assert_eq!(jobs[2].status, JobStatus::Done);
}

#[test]
fn reaping_reports_done_once_and_keeps_running() {
    let mut jobs = vec![
        job(1, "sleep 5", JobStatus::Done, vec![true]),
        job(2, "sleep 100", JobStatus::Running, vec![false]),
    ];
    let mut out = String::new();
    render_done_jobs(&mut out, &jobs);
    assert_eq!(out, "[1]-  Done                    sleep 5\n");
    retain_running_jobs(&mut jobs);
    assert_eq!(jobs.len(), 1);
    assert_eq!(jobs[0].id, 2);
    let mut again = String::new();
    render_done_jobs(&mut again, &jobs);
    assert!(again.is_empty());
}

#[test]
fn jobs_lists_and_marks_three_jobs() {
    let mut jobs = vec![
        job(1, "a", JobStatus::Running, vec![false]),
        job(2, "b", JobStatus::Running, vec![true]),
        job(3, "c", JobStatus::Running, vec![false]),
    ];
    let exits: Vec<Vec<bool>> = jobs.iter().map(|j| j.children.clone()).collect();
    let (mut out, mut err) = (String::new(), String::new());
    run_jobs(&mut out, &mut err, &[], &mut jobs, &exits);
    assert_eq!(
        out,
        "[1]   Running                 a &\n[2]-  Done                    b\n[3]+  Running                 c &\n"
    );
    assert!(err.is_empty());
    assert_eq!(jobs.iter().map(|j| j.id).collect::<Vec<_>>(), vec![1, 3]);
    assert_eq!(allocate_job_id(&jobs), 2);
}

// ---- small builtins ----

#[test]
fn echo_joins_with_single_spaces() {
    let mut out = String::new();
    run_echo(&mut out, &owned(&["a", "", "b c"]));
    assert_eq!(out, "a  b c\n");
    let mut out = String::new();
    run_echo(&mut out, &[]);
    assert_eq!(out, "\n");
}

#[test]
fn type_reports_builtin_path_or_missing() {
    let (mut out, mut err) = (String::new(), String::new());
    run_type(&mut out, &mut err, &owned(&["echo"]), Some("/bin/echo"));
    assert_eq!(out, "echo is a shell builtin\n");
    out.clear();
    run_type(&mut out, &mut err, &owned(&["ls"]), Some("/bin/ls"));
    assert_eq!(out, "ls is /bin/ls\n");
    run_type(&mut out, &mut err, &owned(&["nope"]), None);
    assert_eq!(err, "nope: not found\n");
}

#[test]
fn builtin_names_and_lookup() {
    let b = builtins();
    assert_eq!(
        b,
        vec!["echo", "exit", "type", "pwd", "cd", "complete", "jobs", "history", "declare"]
    );
    assert!(is_builtin("history"));
    assert!(!is_builtin("ls"));
}

#[test]
fn exit_code_parses_first_argument() {
    assert_eq!(exit_code(&[]), 0);
    assert_eq!(exit_code(&owned(&["3"])), 3);
    assert_eq!(exit_code(&owned(&["-2"])), -2);
    assert_eq!(exit_code(&owned(&["+7"])), 7);
    assert_eq!(exit_code(&owned(&["x"])), 0);
    assert_eq!(exit_code(&owned(&["99999999999"])), 0);
}

#[test]
fn cd_plans() {
    assert!(matches!(plan_cd(&[], Some("/home/u")), CdStep::Stay));
    match plan_cd(&owned(&["~"]), Some("/home/u")) {
        CdStep::Change { dir, error } => {
            assert_eq!(dir, "/home/u");
            assert_eq!(error, "cd: ~: No such file or directory\n");
        }
        _ => panic!("expected a change of directory"),
    }
    match plan_cd(&owned(&["~"]), None) {
        CdStep::Fail(e) => assert_eq!(e, "cd: ~: No such file or directory\n"),
        _ => panic!("expected a failure"),
    }
    match plan_cd(&owned(&["/tmp", "x"]), None) {
        CdStep::Change { dir, .. } => assert_eq!(dir, "/tmp"),
        _ => panic!("expected a change of directory"),
    }
}

// ---- numbers and text ----

#[test]
fn numbers_print_and_parse() {
    let mut s = String::new();
    push_dec(&mut s, 0);
    push_dec(&mut s, 4070);
    assert_eq!(s, "04070");
    assert_eq!(parse_usize("42"), Some(42));
    assert_eq!(parse_usize("+42"), Some(42));
    assert_eq!(parse_usize("-1"), None);
    assert_eq!(parse_usize(""), None);
    assert_eq!(parse_usize("4x"), None);
    assert_eq!(parse_i32("-2147483648"), Some(i32::MIN));
    assert_eq!(parse_i32("2147483648"), None);
    let mut p = String::new();
    push_padded_left(&mut p, "7", 4);
    push_padded_right(&mut p, "ab", 4);
    push_padded_right(&mut p, "abcdef", 4);
    assert_eq!(p, "   7ab  abcdef");
}

#[test]
fn string_map_reads_back_writes() {
    let mut m = StringMap::new();
    assert!(m.is_empty());
    m.insert("a".to_string(), "1".to_string());
    m.insert("b".to_string(), "2".to_string());
    m.insert("a".to_string(), "3".to_string());
    assert_eq!(m.len(), 2);
    assert_eq!(m.get("a").map(String::as_str), Some("3"));
    assert_eq!(m.remove("a"), Some("3".to_string()));
    assert_eq!(m.get("a"), None);
    assert_eq!(m.remove("zz"), None);
    assert_eq!(m.len(), 1);
}

// ---- pipelines ----

#[test]
fn pipeline_plan_wires_builtins_and_processes() {
    let vars = StringMap::new();
    let p = parse_pipeline("echo hi | cat | type ls > out | wc -l", &vars).unwrap();
    let plans = plan_pipeline(&p.stages).unwrap();
    assert_eq!(plans.len(), 4);
    assert!(plans[0].builtin && plans[0].input == StageInput::Inherit);
    assert_eq!(plans[0].output, StageOutput::Buffer);
    assert!(!plans[1].builtin && plans[1].input == StageInput::Buffer);
    assert_eq!(plans[1].output, StageOutput::Pipe);
    assert!(plans[2].builtin && plans[2].input == StageInput::Pipe);
    assert_eq!(plans[2].output, StageOutput::File);
    assert_eq!(plans[3].input, StageInput::Inherit);
    assert_eq!(plans[3].output, StageOutput::Terminal);
    assert_eq!(job_command(&p.stages), "echo hi | cat | type ls | wc -l");
    assert!(is_pipeline_builtin(&"pwd".to_string()));
    assert!(!is_pipeline_builtin(&"cd".to_string()));
}

#[test]
fn pipeline_with_empty_stage_command_has_no_plan() {
    let vars = StringMap::new();
    let p = parse_pipeline("> f | wc", &vars).unwrap();
    assert!(plan_pipeline(&p.stages).is_none());
}

#[test]
fn background_job_announcement() {
    assert_eq!(job_started(3, 4242), "[3] 4242\n");
}

// ---- TAB completion ----

#[test]
fn command_completion_single_match_adds_space() {
    let mut h = ShellHelper::new(owned(&["xyz_tool"]));
    let reg = StringMap::new();
    match h.route("xyz_t", &reg) {
        CompletionRoute::Done(o) => {
            assert_eq!(o.start, 0);
            assert_eq!(o.candidates.len(), 1);
            assert_eq!(o.candidates[0].replacement, "xyz_tool ");
            assert!(o.print.is_empty());
        }
        _ => panic!("expected a command completion"),
    }
}

#[test]
fn command_completion_bell_then_list() {
    let mut h = ShellHelper::new(owned(&["xyz_foo", "xyz_bar", "xyz_foo"]));
    let reg = StringMap::new();
    let first = match h.route("xyz_", &reg) {
        CompletionRoute::Done(o) => o,
        _ => panic!("expected a command completion"),
    };
    assert_eq!(first.print, "\x07");
    assert!(first.candidates.is_empty());
    assert_eq!(h.last_tab_prefix.as_deref(), Some("xyz_"));
    let second = match h.route("xyz_", &reg) {
        CompletionRoute::Done(o) => o,
        _ => panic!("expected a command completion"),
    };
    assert_eq!(second.print, "\nxyz_bar  xyz_foo\n$ xyz_");
    assert!(h.last_tab_prefix.is_none());
}

#[test]
fn command_completion_extends_to_common_prefix() {
    let mut h = ShellHelper::new(owned(&["xyz_foo_bar", "xyz_foo_baz"]));
    let reg = StringMap::new();
    match h.route("xyz_", &reg) {
        CompletionRoute::Done(o) => {
            assert_eq!(o.candidates.len(), 1);
            assert_eq!(o.candidates[0].replacement, "xyz_foo_ba");
        }
        _ => panic!("expected a command completion"),
    }
}

#[test]
fn file_press_forgets_pending_command_press() {
    let mut h = ShellHelper::new(owned(&["xyz_foo", "xyz_bar"]));
    let reg = StringMap::new();
    let _ = h.route("xyz_", &reg);
    assert!(h.last_tab_prefix.is_some());
    assert!(matches!(h.route("cat sr", &reg), CompletionRoute::Filename));
    match h.begin_filename("cat src/ma") {
        FileStep::Scan { start, dir_part, name_prefix } => {
            assert_eq!(start, 4);
            assert_eq!(dir_part, "src/");
            assert_eq!(name_prefix, "ma");
        }
        _ => panic!("expected a directory scan"),
    }
    assert!(h.last_tab_prefix.is_none());
    let o = h.finish_filename(
        "cat src/ma",
        4,
        "src/",
        "ma",
        owned(&["main.rs", "macros"]),
        vec![MatchKind::File, MatchKind::Directory],
    );
    assert_eq!(o.print, "\x07");
    assert_eq!(h.last_tab_arg_key, Some(("src/".to_string(), "ma".to_string())));
    let o = h.finish_filename(
        "cat src/ma",
        4,
        "src/",
        "ma",
        owned(&["main.rs", "macros"]),
        vec![MatchKind::File, MatchKind::Directory],
    );
    assert_eq!(o.print, "\nmacros/  main.rs\n$ cat src/ma");
    assert!(h.last_tab_prefix.is_none() && h.last_tab_script_key.is_none());
}

#[test]
fn file_completion_single_directory_gets_slash() {
    let mut h = ShellHelper::new(Vec::new());
    let o = h.finish_filename("ls pr", 3, "", "pr", owned(&["project"]), vec![MatchKind::Directory]);
    assert_eq!(o.start, 3);
    assert_eq!(o.candidates[0].display, "project/");
    assert_eq!(o.candidates[0].replacement, "project/");
    let o = h.finish_filename("ls zz", 3, "", "zz", Vec::new(), Vec::new());
    assert_eq!(o.print, "\x07");
}

#[test]
fn script_route_and_outcomes() {
    let mut h = ShellHelper::new(Vec::new());
    let mut reg = StringMap::new();
    reg.insert("git".to_string(), "/bin/gc".to_string());
    let (path, ctx) = match h.route("git pu", &reg) {
        CompletionRoute::Script { path, context } => (path, context),
        _ => panic!("expected a script completion"),
    };
    assert_eq!(path, "/bin/gc");
    assert_eq!(ctx.cmd, "git");
    assert_eq!(ctx.current_word, "pu");
    assert_eq!(ctx.prev_word, "git");
    let start = h.begin_script(&ctx, "git pu").unwrap();
    assert_eq!(start, 4);
    let o = h.finish_script(&ctx, "git pu", start, Some("push\n".to_string()));
    assert_eq!(o.candidates[0].replacement, "push ");
    let o = h.finish_script(&ctx, "git pu", start, Some("pull\npush\n".to_string()));
    assert_eq!(o.print, "\x07");
    assert!(h.last_tab_script_key.is_some());
    let o = h.finish_script(&ctx, "git pu", start, Some("pull\npush\n".to_string()));
    assert_eq!(o.print, "\npull  push\n$ git pu");
    let o = h.finish_script(&ctx, "git pu", start, None);
    assert!(o.candidates.is_empty() && o.print.is_empty());
}

#[test]
fn declared_variable_expands_both_forms() {
    let mut vars = StringMap::new();
    let (mut out, mut err) = (String::new(), String::new());
    run_declare(&mut out, &mut err, &owned(&["Greeting=hello world"]), &mut vars);
    assert!(out.is_empty() && err.is_empty());
    assert_eq!(tokenize("$Greeting", &vars).unwrap(), vec!["hello world"]);
    assert_eq!(tokenize("${Greeting}", &vars).unwrap(), vec!["hello world"]);
    assert_eq!(tokenize("$Missing", &vars).unwrap(), vec![""]);
    run_declare(&mut out, &mut err, &owned(&["1bad=x"]), &mut vars);
    assert_eq!(err, "declare: `1bad=x': not a valid identifier\n");
}

#[test]
fn only_a_bare_digit_joins_the_redirection() {
    let vars = vars_with(&[("N", "1")]);
    assert_eq!(tokenize("echo 1>out", &vars).unwrap(), vec!["echo", "1>", "out"]);
    assert_eq!(tokenize("echo 2>>err", &vars).unwrap(), vec!["echo", "2>>", "err"]);
    assert_eq!(tokenize("echo '1'>out", &vars).unwrap(), vec!["echo", "1", ">", "out"]);
    assert_eq!(tokenize("echo 1''>out", &vars).unwrap(), vec!["echo", "1", ">", "out"]);
    assert_eq!(tokenize("echo \"2\">>out", &vars).unwrap(), vec!["echo", "2", ">>", "out"]);
    assert_eq!(tokenize("echo \\1>out", &vars).unwrap(), vec!["echo", "1", ">", "out"]);
    assert_eq!(tokenize("echo $N>out", &vars).unwrap(), vec!["echo", "1", ">", "out"]);
    assert_eq!(tokenize("echo 1>a 2>b", &vars).unwrap(), vec!["echo", "1>", "a", "2>", "b"]);
}

#[test]
fn add_job_takes_smallest_free_number_and_announces_it() {
    let mut jobs = vec![
        job(1, "a", JobStatus::Running, vec![false]),
        job(3, "c", JobStatus::Running, vec![false]),
    ];
    let notice = add_job(&mut jobs, 77, "sleep 9".to_string(), vec![false, false]);
    assert_eq!(notice, "[2] 77\n");
    assert_eq!(jobs.len(), 3);
    assert_eq!(jobs[2].id, 2);
    assert_eq!(jobs[2].pid, 77);
    assert_eq!(jobs[2].command, "sleep 9");
    assert_eq!(jobs[2].status, JobStatus::Running);
    assert_eq!(jobs[2].children, vec![false, false]);
    let notice = add_job(&mut Vec::<Job<bool>>::new(), 5, "x".to_string(), vec![]);
    assert_eq!(notice, "[1] 5\n");
}
