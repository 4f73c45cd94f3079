use codecrafters_shell::builtins::run_history;

fn invoke_history(entries: &[&str]) -> (String, String) {
    let mut sink = String::new();
    let mut err = String::new();
    let owned: Vec<String> = entries.iter().map(|s| s.to_string()).collect();
    run_history(&mut sink, &mut err, &[], &owned);
    (sink, err)
}

fn invoke_history_with_args(entries: &[&str], args: &[&str]) -> (String, String) {
    let mut sink = String::new();
    let mut err = String::new();
    let owned_entries: Vec<String> = entries.iter().map(|s| s.to_string()).collect();
    let owned_args: Vec<String> = args.iter().map(|s| s.to_string()).collect();
    run_history(&mut sink, &mut err, &owned_args, &owned_entries);
    (sink, err)
}

#[test]
fn history_empty_entries_no_output() {
    let (out, err) = invoke_history(&[]);
    assert!(out.is_empty(), "空 entries 不写 stdout");
    assert!(err.is_empty(), "空 entries 不写 stderr");
}

#[test]
fn history_single_entry_starts_at_one() {
    let (out, err) = invoke_history(&["echo foo"]);
    assert_eq!(out, "   1  echo foo\n");
    assert!(err.is_empty());
}

#[test]
fn history_multiple_entries_increment_from_one() {
    let (out, err) = invoke_history(&["echo foo", "pwd", "history"]);
    let expected = "   1  echo foo\n   2  pwd\n   3  history\n";
    assert_eq!(out, expected);
    assert!(err.is_empty());
}

#[test]
fn history_width_alignment_at_two_digit_boundary() {
    let entries: Vec<&str> = (1..=12).map(|_| "x").collect();
    let (out, _) = invoke_history(&entries);
    let lines: Vec<&str> = out.lines().collect();
    assert_eq!(lines.len(), 12);
    assert_eq!(lines[0], "   1  x");
    assert_eq!(lines[8], "   9  x");
    assert_eq!(lines[9], "  10  x");
    assert_eq!(lines[11], "  12  x");
    for line in &lines {
        assert_eq!(&line[4..6], "  ", "编号后必须紧跟 2 空格分隔");
        assert_eq!(&line[6..], "x", "命令字段从第 7 字符开始");
    }
}

#[test]
fn history_with_n_smaller_than_len_uses_global_numbering() {
    let (out, err) = invoke_history_with_args(&["a", "b", "c", "d"], &["2"]);
    assert_eq!(out, "   3  c\n   4  d\n");
    assert!(err.is_empty());
}

#[test]
fn history_with_n_zero_no_output() {
    let (out, err) = invoke_history_with_args(&["a", "b"], &["0"]);
    assert!(out.is_empty(), "n=0 不写 stdout");
    assert!(err.is_empty());
}

#[test]
fn history_with_n_greater_than_len_full_list() {
    let (out, err) = invoke_history_with_args(&["a", "b"], &["99"]);
    assert_eq!(out, "   1  a\n   2  b\n");
    assert!(err.is_empty());
}

#[test]
fn history_with_n_equal_to_len_full_list() {
    let (out, err) = invoke_history_with_args(&["a", "b", "c"], &["3"]);
    assert_eq!(out, "   1  a\n   2  b\n   3  c\n");
    assert!(err.is_empty());
}

#[test]
fn history_non_numeric_arg_writes_stderr() {
    let (out, err) = invoke_history_with_args(&["a"], &["abc"]);
    assert!(out.is_empty(), "非法参数不写 stdout");
    assert_eq!(err, "history: abc: numeric argument required\n");
}

#[test]
fn history_negative_arg_writes_stderr() {
    let (out, err) = invoke_history_with_args(&["a"], &["-5"]);
    assert!(out.is_empty());
    assert_eq!(err, "history: -5: numeric argument required\n");
}

#[test]
fn history_extra_args_uses_first_only() {
    let (out, err) =
        invoke_history_with_args(&["a", "b", "c"], &["2", "ignored", "junk"]);
    assert_eq!(out, "   2  b\n   3  c\n");
    assert!(err.is_empty());
}
