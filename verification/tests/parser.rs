use codecrafters_shell::parser::{parse, parse_pipeline, tokenize, ParseError};
use codecrafters_shell::strmap::StringMap;

fn empty_vars() -> StringMap {
    StringMap::new()
}

fn vars_with(pairs: &[(&str, &str)]) -> StringMap {
    let mut m = StringMap::new();
    for (k, v) in pairs {
        m.insert(k.to_string(), v.to_string());
    }
    m
}


#[test]
fn tests_empty_input_yields_empty_vec() {
    assert!(tokenize("", &empty_vars()).unwrap().is_empty());
    assert!(tokenize("   \t  ", &empty_vars()).unwrap().is_empty());
}

#[test]
fn tests_plain_whitespace_split() {
    assert_eq!(tokenize("echo a b", &empty_vars()).unwrap(), vec!["echo", "a", "b"]);
    assert_eq!(tokenize("echo   a    b", &empty_vars()).unwrap(), vec!["echo", "a", "b"]);
}

#[test]
fn tests_single_quote_preserves_spaces() {
    assert_eq!(
        tokenize("echo 'hello    world'", &empty_vars()).unwrap(),
        vec!["echo", "hello    world"]
    );
}

#[test]
fn tests_adjacent_quoted_concatenation() {
    assert_eq!(tokenize("'hello''world'", &empty_vars()).unwrap(), vec!["helloworld"]);
    assert_eq!(
        tokenize("echo 'hello''world'", &empty_vars()).unwrap(),
        vec!["echo", "helloworld"]
    );
}

#[test]
fn tests_empty_quotes_concatenate_with_bare() {
    assert_eq!(tokenize("hello''world", &empty_vars()).unwrap(), vec!["helloworld"]);
    assert_eq!(tokenize("''abc", &empty_vars()).unwrap(), vec!["abc"]);
    assert_eq!(tokenize("''", &empty_vars()).unwrap(), vec![""]);
}

#[test]
fn tests_special_chars_inside_quotes_are_literal() {
    assert_eq!(
        tokenize("echo '$HOME *.rs ~user'", &empty_vars()).unwrap(),
        vec!["echo", "$HOME *.rs ~user"]
    );
}

#[test]
fn tests_multiple_quoted_paths() {
    assert_eq!(
        tokenize("cat '/tmp/file name' '/tmp/file name with spaces'", &empty_vars()).unwrap(),
        vec![
            "cat",
            "/tmp/file name",
            "/tmp/file name with spaces"
        ]
    );
}

#[test]
fn tests_unterminated_single_quote_errors() {
    assert_eq!(
        tokenize("echo 'abc", &empty_vars()),
        Err(ParseError::UnterminatedSingleQuote)
    );
}

#[test]
fn tests_double_quote_preserves_spaces() {
    assert_eq!(
        tokenize(r#"echo "hello    world""#, &empty_vars()).unwrap(),
        vec!["echo", "hello    world"]
    );
}

#[test]
fn tests_double_quote_adjacent_concatenation() {
    assert_eq!(
        tokenize(r#"echo "hello""world""#, &empty_vars()).unwrap(),
        vec!["echo", "helloworld"]
    );
    assert_eq!(
        tokenize(r#"echo "hello"world"#, &empty_vars()).unwrap(),
        vec!["echo", "helloworld"]
    );
    assert_eq!(
        tokenize(r#"echo hello"world""#, &empty_vars()).unwrap(),
        vec!["echo", "helloworld"]
    );
}

#[test]
fn tests_double_and_single_quote_concatenation() {
    assert_eq!(tokenize(r#""a"'b'"#, &empty_vars()).unwrap(), vec!["ab"]);
    assert_eq!(tokenize(r#"'a'"b""#, &empty_vars()).unwrap(), vec!["ab"]);
    assert_eq!(tokenize(r#""a"'b'c"#, &empty_vars()).unwrap(), vec!["abc"]);
}

#[test]
fn tests_single_quote_inside_double_is_literal() {
    assert_eq!(
        tokenize(r#"echo "shell's test""#, &empty_vars()).unwrap(),
        vec!["echo", "shell's test"]
    );
}

#[test]
fn tests_double_quote_separate_args() {
    assert_eq!(
        tokenize(r#"echo "quz  hello"  "bar""#, &empty_vars()).unwrap(),
        vec!["echo", "quz  hello", "bar"]
    );
    assert_eq!(
        tokenize(r#"echo "bar"  "shell's"  "foo""#, &empty_vars()).unwrap(),
        vec!["echo", "bar", "shell's", "foo"]
    );
}

#[test]
fn tests_double_quote_paths_for_cat() {
    assert_eq!(
        tokenize(r#"cat "/tmp/file name" "/tmp/'file name' with spaces""#, &empty_vars()).unwrap(),
        vec![
            "cat",
            "/tmp/file name",
            "/tmp/'file name' with spaces"
        ]
    );
}

#[test]
fn tests_unterminated_double_quote_errors() {
    assert_eq!(
        tokenize(r#"echo "abc"#, &empty_vars()),
        Err(ParseError::UnterminatedDoubleQuote)
    );
}

#[test]
fn tests_escaped_space_keeps_token() {
    assert_eq!(
        tokenize(r"echo three\ \ \ spaces", &empty_vars()).unwrap(),
        vec!["echo", "three   spaces"]
    );
    assert_eq!(
        tokenize(r"echo multiple\ \ \ \ spaces", &empty_vars()).unwrap(),
        vec!["echo", "multiple    spaces"]
    );
}

#[test]
fn tests_escaped_then_unescaped_space_splits() {
    assert_eq!(
        tokenize(r"echo before\     after", &empty_vars()).unwrap(),
        vec!["echo", "before ", "after"]
    );
}

#[test]
fn tests_escaped_letter_drops_backslash() {
    assert_eq!(
        tokenize(r"echo test\nexample", &empty_vars()).unwrap(),
        vec!["echo", "testnexample"]
    );
    assert_eq!(
        tokenize(r"echo ignore\_backslash", &empty_vars()).unwrap(),
        vec!["echo", "ignore_backslash"]
    );
}

#[test]
fn tests_escaped_backslash_yields_single_backslash() {
    assert_eq!(
        tokenize(r"echo hello\\world", &empty_vars()).unwrap(),
        vec!["echo", r"hello\world"]
    );
}

#[test]
fn tests_escaped_quotes_are_literal() {
    assert_eq!(
        tokenize(r"echo \'hello\'", &empty_vars()).unwrap(),
        vec!["echo", "'hello'"]
    );
    assert_eq!(
        tokenize(r#"echo \'\"literal quotes\"\'"#, &empty_vars()).unwrap(),
        vec!["echo", r#"'"literal"#, r#"quotes"'"#]
    );
}

#[test]
fn tests_escaped_filenames_for_cat() {
    assert_eq!(
        tokenize(r"cat /tmp/\_ignored_1 /tmp/ignore_\2 /tmp/just_one_\\_3", &empty_vars()).unwrap(),
        vec![
            "cat",
            "/tmp/_ignored_1",
            "/tmp/ignore_2",
            r"/tmp/just_one_\_3",
        ]
    );
}

#[test]
fn tests_backslash_inside_single_quote_is_literal() {
    assert_eq!(tokenize(r"'a\b'", &empty_vars()).unwrap(), vec![r"a\b"]);
}

#[test]
fn tests_trailing_backslash_errors() {
    assert_eq!(tokenize(r"echo abc\", &empty_vars()), Err(ParseError::TrailingBackslash));
}

#[test]
fn tests_double_quote_escapes_backslash() {
    assert_eq!(
        tokenize(r#"echo "A \\ escapes itself""#, &empty_vars()).unwrap(),
        vec!["echo", r"A \ escapes itself"]
    );
}

#[test]
fn tests_double_quote_escapes_double_quote() {
    assert_eq!(
        tokenize(r#"echo "A \" inside double quotes""#, &empty_vars()).unwrap(),
        vec!["echo", r#"A " inside double quotes"#]
    );
}

#[test]
fn tests_double_quote_preserves_backslash_before_letter() {
    assert_eq!(
        tokenize(r#"echo "just'one'\\n'backslash""#, &empty_vars()).unwrap(),
        vec!["echo", r"just'one'\n'backslash"]
    );
}

#[test]
fn tests_double_quote_concatenation_with_escaped_quote() {
    assert_eq!(
        tokenize(r#""inside\"literal_quote."outside\""#, &empty_vars()).unwrap(),
        vec![r#"inside"literal_quote.outside""#]
    );
}

#[test]
fn tests_double_quote_paths_for_cat_with_escapes() {
    assert_eq!(
        tokenize(r#"cat "/tmp/number 1" "/tmp/doublequote \" 2" "/tmp/backslash \\ 3""#, &empty_vars())
            .unwrap(),
        vec![
            "cat",
            "/tmp/number 1",
            r#"/tmp/doublequote " 2"#,
            r"/tmp/backslash \ 3",
        ]
    );
}

#[test]
fn tests_double_quote_escapes_dollar() {
    assert_eq!(
        tokenize(r#"echo "price \$5""#, &empty_vars()).unwrap(),
        vec!["echo", "price $5"]
    );
}

#[test]
fn tests_double_quote_escapes_backtick() {
    assert_eq!(
        tokenize(r#"echo "a \` b""#, &empty_vars()).unwrap(),
        vec!["echo", "a ` b"]
    );
}

#[test]
fn tests_double_quote_backslash_before_other_chars_is_literal() {
    assert_eq!(
        tokenize(r#"echo "\a\b\c""#, &empty_vars()).unwrap(),
        vec!["echo", r"\a\b\c"]
    );
    assert_eq!(
        tokenize(r#"echo "x\ y""#, &empty_vars()).unwrap(),
        vec!["echo", r"x\ y"]
    );
}

#[test]
fn tests_backslash_inside_single_quote_unchanged() {
    assert_eq!(tokenize(r"echo 'a\b\\c'", &empty_vars()).unwrap(), vec!["echo", r"a\b\\c"]);
}

#[test]
fn tests_quoted_executable_single_quoted_with_space() {
    assert_eq!(
        tokenize("'my program' argument1", &empty_vars()).unwrap(),
        vec!["my program", "argument1"]
    );
}

#[test]
fn tests_quoted_executable_double_quoted_with_space() {
    assert_eq!(
        tokenize(r#""exe with spaces" file.txt"#, &empty_vars()).unwrap(),
        vec!["exe with spaces", "file.txt"]
    );
}

#[test]
fn tests_quoted_executable_double_quoted_contains_single_quote() {
    assert_eq!(
        tokenize(r#""exe with 'single quotes'" file"#, &empty_vars()).unwrap(),
        vec!["exe with 'single quotes'", "file"]
    );
}

#[test]
fn tests_quoted_executable_single_quoted_contains_double_quote() {
    assert_eq!(
        tokenize(r#"'exe with "quotes"' file"#, &empty_vars()).unwrap(),
        vec![r#"exe with "quotes""#, "file"]
    );
}

#[test]
fn tests_redirect_gt_is_standalone_token_when_spaced() {
    assert_eq!(
        tokenize("echo hello > out", &empty_vars()).unwrap(),
        vec!["echo", "hello", ">", "out"]
    );
}

#[test]
fn tests_redirect_gt_splits_adjacent_token() {
    assert_eq!(
        tokenize("echo hello>out", &empty_vars()).unwrap(),
        vec!["echo", "hello", ">", "out"]
    );
}

#[test]
fn tests_redirect_1gt_merges_only_when_adjacent() {
    assert_eq!(
        tokenize("echo hi 1>out", &empty_vars()).unwrap(),
        vec!["echo", "hi", "1>", "out"]
    );
    assert_eq!(
        tokenize("echo hi 1> out", &empty_vars()).unwrap(),
        vec!["echo", "hi", "1>", "out"]
    );
    assert_eq!(
        tokenize("echo 1 > out", &empty_vars()).unwrap(),
        vec!["echo", "1", ">", "out"]
    );
    assert_eq!(
        tokenize("echo a1>out", &empty_vars()).unwrap(),
        vec!["echo", "a1", ">", "out"]
    );
}

#[test]
fn tests_redirect_gt_inside_quotes_is_literal() {
    assert_eq!(
        tokenize("echo '> not redirect'", &empty_vars()).unwrap(),
        vec!["echo", "> not redirect"]
    );
    assert_eq!(
        tokenize(r#"echo "a > b" "1> c""#, &empty_vars()).unwrap(),
        vec!["echo", "a > b", "1> c"]
    );
    assert_eq!(
        tokenize(r"echo a\>b", &empty_vars()).unwrap(),
        vec!["echo", "a>b"]
    );
}

#[test]
fn tests_parse_without_redirect_returns_argv_only() {
    let p = parse("echo hello world", &empty_vars()).unwrap();
    assert_eq!(p.argv, vec!["echo", "hello", "world"]);
    assert_eq!(p.stdout_redirect, None);
}

#[test]
fn tests_parse_gt_extracts_redirect_target() {
    let p = parse("echo hello > out.txt", &empty_vars()).unwrap();
    assert_eq!(p.argv, vec!["echo", "hello"]);
    assert_eq!(p.stdout_redirect, Some("out.txt".to_string()));
    let p = parse("echo hello>out.txt", &empty_vars()).unwrap();
    assert_eq!(p.argv, vec!["echo", "hello"]);
    assert_eq!(p.stdout_redirect, Some("out.txt".to_string()));
}

#[test]
fn tests_parse_1gt_is_equivalent_to_gt() {
    let p = parse("echo Hello James 1> /tmp/foo/foo.md", &empty_vars()).unwrap();
    assert_eq!(p.argv, vec!["echo", "Hello", "James"]);
    assert_eq!(p.stdout_redirect, Some("/tmp/foo/foo.md".to_string()));
    let p = parse("echo a 1>out", &empty_vars()).unwrap();
    assert_eq!(p.argv, vec!["echo", "a"]);
    assert_eq!(p.stdout_redirect, Some("out".to_string()));
}

#[test]
fn tests_parse_missing_redirect_target_errors() {
    assert_eq!(
        parse("echo hello >", &empty_vars()),
        Err(ParseError::MissingRedirectTarget)
    );
    assert_eq!(
        parse("echo hello 1>", &empty_vars()),
        Err(ParseError::MissingRedirectTarget)
    );
}

#[test]
fn tests_parse_redirect_target_preserves_quoting() {
    let p = parse(r#"echo hi > "/tmp/with space.txt""#, &empty_vars()).unwrap();
    assert_eq!(p.argv, vec!["echo", "hi"]);
    assert_eq!(p.stdout_redirect, Some("/tmp/with space.txt".to_string()));
}

#[test]
fn tests_redirect_2gt_merges_only_when_adjacent() {
    assert_eq!(
        tokenize("ls nodir 2>err", &empty_vars()).unwrap(),
        vec!["ls", "nodir", "2>", "err"]
    );
    assert_eq!(
        tokenize("ls nodir 2> err", &empty_vars()).unwrap(),
        vec!["ls", "nodir", "2>", "err"]
    );
    assert_eq!(
        tokenize("echo hi 2 > out", &empty_vars()).unwrap(),
        vec!["echo", "hi", "2", ">", "out"]
    );
    assert_eq!(
        tokenize("echo a2>out", &empty_vars()).unwrap(),
        vec!["echo", "a2", ">", "out"]
    );
}

#[test]
fn tests_redirect_2gt_inside_quotes_is_literal() {
    assert_eq!(
        tokenize("echo '2> not redirect'", &empty_vars()).unwrap(),
        vec!["echo", "2> not redirect"]
    );
    assert_eq!(
        tokenize(r#"echo "x 2> y""#, &empty_vars()).unwrap(),
        vec!["echo", "x 2> y"]
    );
}

#[test]
fn tests_redirect_2gt_escaped_is_literal() {
    assert_eq!(
        tokenize(r"echo 2\>out", &empty_vars()).unwrap(),
        vec!["echo", "2>out"]
    );
}

#[test]
fn tests_parse_2gt_extracts_stderr_target() {
    let p = parse("ls nonexistent 2> /tmp/quz/baz.md", &empty_vars()).unwrap();
    assert_eq!(p.argv, vec!["ls", "nonexistent"]);
    assert_eq!(p.stdout_redirect, None);
    assert_eq!(p.stderr_redirect, Some("/tmp/quz/baz.md".to_string()));
    let p = parse("ls nonexistent 2>err", &empty_vars()).unwrap();
    assert_eq!(p.argv, vec!["ls", "nonexistent"]);
    assert_eq!(p.stderr_redirect, Some("err".to_string()));
}

#[test]
fn tests_parse_stdout_and_stderr_coexist() {
    let p = parse("cmd a b > out.txt 2> err.txt", &empty_vars()).unwrap();
    assert_eq!(p.argv, vec!["cmd", "a", "b"]);
    assert_eq!(p.stdout_redirect, Some("out.txt".to_string()));
    assert_eq!(p.stderr_redirect, Some("err.txt".to_string()));
    let p = parse("cmd a b 2> err.txt > out.txt", &empty_vars()).unwrap();
    assert_eq!(p.argv, vec!["cmd", "a", "b"]);
    assert_eq!(p.stdout_redirect, Some("out.txt".to_string()));
    assert_eq!(p.stderr_redirect, Some("err.txt".to_string()));
}

#[test]
fn tests_parse_2gt_missing_target_errors() {
    assert_eq!(
        parse("ls nonexistent 2>", &empty_vars()),
        Err(ParseError::MissingRedirectTarget)
    );
}

#[test]
fn tests_parse_2gt_target_preserves_quoting() {
    let p = parse(r#"ls nodir 2> "/tmp/err log.md""#, &empty_vars()).unwrap();
    assert_eq!(p.argv, vec!["ls", "nodir"]);
    assert_eq!(p.stderr_redirect, Some("/tmp/err log.md".to_string()));
}

#[test]
fn tests_redirect_append_plain_merges_only_adjacent_gt() {
    assert_eq!(
        tokenize("echo hi >> out", &empty_vars()).unwrap(),
        vec!["echo", "hi", ">>", "out"]
    );
    assert_eq!(
        tokenize("echo hi >>out", &empty_vars()).unwrap(),
        vec!["echo", "hi", ">>", "out"]
    );
    assert_eq!(
        tokenize("echo hi > > out", &empty_vars()).unwrap(),
        vec!["echo", "hi", ">", ">", "out"]
    );
}

#[test]
fn tests_redirect_append_with_digit_prefix_merges() {
    assert_eq!(
        tokenize("echo hi 1>> out", &empty_vars()).unwrap(),
        vec!["echo", "hi", "1>>", "out"]
    );
    assert_eq!(
        tokenize("echo hi 1>>out", &empty_vars()).unwrap(),
        vec!["echo", "hi", "1>>", "out"]
    );
    assert_eq!(
        tokenize("ls nodir 2>> err", &empty_vars()).unwrap(),
        vec!["ls", "nodir", "2>>", "err"]
    );
    assert_eq!(
        tokenize("ls nodir 2>>err", &empty_vars()).unwrap(),
        vec!["ls", "nodir", "2>>", "err"]
    );
    assert_eq!(
        tokenize("echo hi 1 >> out", &empty_vars()).unwrap(),
        vec!["echo", "hi", "1", ">>", "out"]
    );
}

#[test]
fn tests_redirect_append_inside_quotes_is_literal() {
    assert_eq!(
        tokenize("echo '>> not redirect'", &empty_vars()).unwrap(),
        vec!["echo", ">> not redirect"]
    );
    assert_eq!(
        tokenize(r#"echo "x 1>> y""#, &empty_vars()).unwrap(),
        vec!["echo", "x 1>> y"]
    );
}

#[test]
fn tests_redirect_append_escaped_breaks_merge() {
    assert_eq!(
        tokenize(r"echo hi >\>out", &empty_vars()).unwrap(),
        vec!["echo", "hi", ">", ">out"]
    );
}

#[test]
fn tests_parse_append_sets_stdout_append_flag() {
    let p = parse("echo first >> out.txt", &empty_vars()).unwrap();
    assert_eq!(p.argv, vec!["echo", "first"]);
    assert_eq!(p.stdout_redirect, Some("out.txt".to_string()));
    assert!(p.stdout_append);
    assert_eq!(p.stderr_redirect, None);
    assert!(!p.stderr_append);

    let p = parse("echo first 1>> out.txt", &empty_vars()).unwrap();
    assert_eq!(p.stdout_redirect, Some("out.txt".to_string()));
    assert!(p.stdout_append);
}

#[test]
fn tests_parse_append_stderr_sets_flag() {
    let p = parse("ls nodir 2>> err.txt", &empty_vars()).unwrap();
    assert_eq!(p.argv, vec!["ls", "nodir"]);
    assert_eq!(p.stderr_redirect, Some("err.txt".to_string()));
    assert!(p.stderr_append);
    assert_eq!(p.stdout_redirect, None);
    assert!(!p.stdout_append);
}

#[test]
fn tests_parse_truncate_keeps_append_false() {
    let p = parse("echo hi > out.txt", &empty_vars()).unwrap();
    assert_eq!(p.stdout_redirect, Some("out.txt".to_string()));
    assert!(!p.stdout_append);

    let p = parse("ls nodir 2> err.txt", &empty_vars()).unwrap();
    assert_eq!(p.stderr_redirect, Some("err.txt".to_string()));
    assert!(!p.stderr_append);
}

#[test]
fn tests_parse_mixed_truncate_and_append_takes_last() {
    let p = parse("cmd > a >> b", &empty_vars()).unwrap();
    assert_eq!(p.argv, vec!["cmd"]);
    assert_eq!(p.stdout_redirect, Some("b".to_string()));
    assert!(p.stdout_append);

    let p = parse("cmd >> a > b", &empty_vars()).unwrap();
    assert_eq!(p.stdout_redirect, Some("b".to_string()));
    assert!(!p.stdout_append);

    let p = parse("cmd 2> a 2>> b", &empty_vars()).unwrap();
    assert_eq!(p.stderr_redirect, Some("b".to_string()));
    assert!(p.stderr_append);
}

#[test]
fn tests_parse_stdout_append_and_stderr_append_coexist() {
    let p = parse("cmd a b >> out.txt 2>> err.txt", &empty_vars()).unwrap();
    assert_eq!(p.argv, vec!["cmd", "a", "b"]);
    assert_eq!(p.stdout_redirect, Some("out.txt".to_string()));
    assert!(p.stdout_append);
    assert_eq!(p.stderr_redirect, Some("err.txt".to_string()));
    assert!(p.stderr_append);
}

#[test]
fn tests_parse_append_missing_target_errors() {
    assert_eq!(
        parse("echo hi >>", &empty_vars()),
        Err(ParseError::MissingRedirectTarget)
    );
    assert_eq!(
        parse("echo hi 1>>", &empty_vars()),
        Err(ParseError::MissingRedirectTarget)
    );
    assert_eq!(
        parse("ls nodir 2>>", &empty_vars()),
        Err(ParseError::MissingRedirectTarget)
    );
}

#[test]
fn parse_stdout_append_with_stderr_inherit_split_stream() {
    let p = parse("ls nonexistent >> /tmp/foo/baz.md", &empty_vars()).unwrap();
    assert_eq!(p.argv, vec!["ls", "nonexistent"]);
    assert_eq!(p.stdout_redirect, Some("/tmp/foo/baz.md".to_string()));
    assert!(p.stdout_append);
    assert_eq!(p.stderr_redirect, None);
    assert!(!p.stderr_append);

    let p = parse("ls nonexistent 2>> /tmp/foo/qux.md", &empty_vars()).unwrap();
    assert_eq!(p.argv, vec!["ls", "nonexistent"]);
    assert_eq!(p.stdout_redirect, None);
    assert!(!p.stdout_append);
    assert_eq!(p.stderr_redirect, Some("/tmp/foo/qux.md".to_string()));
    assert!(p.stderr_append);
}

#[test]
fn redirect_amp_is_standalone_token_when_spaced() {
    assert_eq!(
        tokenize("sleep 30 &", &empty_vars()).unwrap(),
        vec!["sleep", "30", "&"]
    );
}

#[test]
fn redirect_amp_splits_adjacent_token() {
    assert_eq!(
        tokenize("sleep 30&", &empty_vars()).unwrap(),
        vec!["sleep", "30", "&"]
    );
}

#[test]
fn redirect_amp_inside_quotes_is_literal() {
    assert_eq!(
        tokenize("echo '&'", &empty_vars()).unwrap(),
        vec!["echo", "&"]
    );
    assert_eq!(
        tokenize(r#"echo "& not bg""#, &empty_vars()).unwrap(),
        vec!["echo", "& not bg"]
    );
    assert_eq!(
        tokenize(r"echo a\&b", &empty_vars()).unwrap(),
        vec!["echo", "a&b"]
    );
}

#[test]
fn parse_trailing_amp_sets_background() {
    let p = parse("sleep 30 &", &empty_vars()).unwrap();
    assert_eq!(p.argv, vec!["sleep", "30"]);
    assert!(p.background);
    assert_eq!(p.stdout_redirect, None);
    assert_eq!(p.stderr_redirect, None);
}

#[test]
fn parse_trailing_amp_no_space_sets_background() {
    let p = parse("sleep 30&", &empty_vars()).unwrap();
    assert_eq!(p.argv, vec!["sleep", "30"]);
    assert!(p.background);
}

#[test]
fn parse_no_amp_keeps_background_false() {
    let p = parse("echo hi", &empty_vars()).unwrap();
    assert_eq!(p.argv, vec!["echo", "hi"]);
    assert!(!p.background);
}

#[test]
fn parse_quoted_amp_known_limitation() {
    let p = parse(r#"echo "&""#, &empty_vars()).unwrap();
    assert_eq!(p.argv, vec!["echo"]);
    assert!(p.background);

    let p = parse("echo '&'", &empty_vars()).unwrap();
    assert_eq!(p.argv, vec!["echo"]);
    assert!(p.background);
}

#[test]
fn parse_redirect_and_background_coexist() {
    let p = parse("sleep 30 > /tmp/out.log &", &empty_vars()).unwrap();
    assert_eq!(p.argv, vec!["sleep", "30"]);
    assert_eq!(p.stdout_redirect, Some("/tmp/out.log".to_string()));
    assert!(!p.stdout_append);
    assert!(p.background);
}

#[test]
fn parse_amp_in_middle_is_literal_argv() {
    let p = parse("echo & hi", &empty_vars()).unwrap();
    assert_eq!(p.argv, vec!["echo", "&", "hi"]);
    assert!(!p.background);
}

#[test]
fn tokenize_pipe_unquoted_splits() {
    assert_eq!(
        tokenize("a|b", &empty_vars()).unwrap(),
        vec!["a", "|", "b"]
    );
}

#[test]
fn tokenize_pipe_with_spaces() {
    assert_eq!(
        tokenize("a | b", &empty_vars()).unwrap(),
        vec!["a", "|", "b"]
    );
    assert_eq!(
        tokenize("cat f | head -n 2 | wc -l", &empty_vars()).unwrap(),
        vec!["cat", "f", "|", "head", "-n", "2", "|", "wc", "-l"]
    );
}

#[test]
fn tokenize_pipe_quoted_literal() {
    assert_eq!(
        tokenize("echo '|'", &empty_vars()).unwrap(),
        vec!["echo", "|"]
    );
    assert_eq!(
        tokenize("echo 'a|b'", &empty_vars()).unwrap(),
        vec!["echo", "a|b"]
    );
    assert_eq!(
        tokenize(r#"echo "a|b""#, &empty_vars()).unwrap(),
        vec!["echo", "a|b"]
    );
    assert_eq!(
        tokenize(r"echo a\|b", &empty_vars()).unwrap(),
        vec!["echo", "a|b"]
    );
}

#[test]
fn tokenize_double_pipe_two_independent_tokens() {
    assert_eq!(
        tokenize("a||b", &empty_vars()).unwrap(),
        vec!["a", "|", "|", "b"]
    );
    assert_eq!(
        tokenize("a || b", &empty_vars()).unwrap(),
        vec!["a", "|", "|", "b"]
    );
}

#[test]
fn parse_pipeline_two_stages() {
    let p = parse_pipeline("cat f | wc", &empty_vars()).unwrap();
    assert_eq!(p.stages.len(), 2);
    assert_eq!(p.stages[0].argv, vec!["cat", "f"]);
    assert_eq!(p.stages[1].argv, vec!["wc"]);
    assert!(!p.background);
}

#[test]
fn parse_pipeline_three_stages() {
    let p = parse_pipeline("a | b | c", &empty_vars()).unwrap();
    assert_eq!(p.stages.len(), 3);
    assert_eq!(p.stages[0].argv, vec!["a"]);
    assert_eq!(p.stages[1].argv, vec!["b"]);
    assert_eq!(p.stages[2].argv, vec!["c"]);
    assert!(!p.background);
}

#[test]
fn parse_pipeline_single_stage_no_pipe() {
    let p = parse_pipeline("echo hi", &empty_vars()).unwrap();
    assert_eq!(p.stages.len(), 1);
    assert_eq!(p.stages[0].argv, vec!["echo", "hi"]);
    assert!(!p.background);
}

#[test]
fn parse_pipeline_with_background() {
    let p = parse_pipeline("a | b &", &empty_vars()).unwrap();
    assert_eq!(p.stages.len(), 2);
    assert_eq!(p.stages[0].argv, vec!["a"]);
    assert_eq!(p.stages[1].argv, vec!["b"]);
    assert!(p.background);
    assert!(!p.stages[0].background);
    assert!(!p.stages[1].background);
}

#[test]
fn parse_pipeline_with_redirect_each_stage() {
    let p = parse_pipeline("cat f > out | wc 2> err", &empty_vars()).unwrap();
    assert_eq!(p.stages.len(), 2);
    assert_eq!(p.stages[0].argv, vec!["cat", "f"]);
    assert_eq!(p.stages[0].stdout_redirect, Some("out".to_string()));
    assert_eq!(p.stages[0].stderr_redirect, None);
    assert_eq!(p.stages[1].argv, vec!["wc"]);
    assert_eq!(p.stages[1].stdout_redirect, None);
    assert_eq!(p.stages[1].stderr_redirect, Some("err".to_string()));
}

#[test]
fn parse_pipeline_empty_first_segment_errors() {
    assert_eq!(
        parse_pipeline("| ls", &empty_vars()),
        Err(ParseError::EmptyPipelineSegment)
    );
}

#[test]
fn parse_pipeline_empty_last_segment_errors() {
    assert_eq!(
        parse_pipeline("ls |", &empty_vars()),
        Err(ParseError::EmptyPipelineSegment)
    );
}

#[test]
fn parse_pipeline_empty_middle_segment_errors() {
    assert_eq!(
        parse_pipeline("ls | | cat", &empty_vars()),
        Err(ParseError::EmptyPipelineSegment)
    );
}

#[test]
fn parse_pipeline_double_pipe_errors() {
    assert_eq!(
        parse_pipeline("a || b", &empty_vars()),
        Err(ParseError::EmptyPipelineSegment)
    );
}

#[test]
fn parse_single_command_still_works_via_compat_wrapper() {
    let p = parse("echo hello world", &empty_vars()).unwrap();
    assert_eq!(p.argv, vec!["echo", "hello", "world"]);
    assert!(!p.background);

    let p = parse("sleep 30 &", &empty_vars()).unwrap();
    assert_eq!(p.argv, vec!["sleep", "30"]);
    assert!(p.background);
}

#[test]
fn dollar_expansion_unquoted_hit() {
    let vars = vars_with(&[("Variable_1", "Value_1"), ("Variable_2", "Value2")]);
    assert_eq!(
        tokenize("echo $Variable_1 $Variable_2", &vars).unwrap(),
        vec!["echo", "Value_1", "Value2"]
    );
}

#[test]
fn dollar_expansion_unquoted_miss_is_empty_token() {
    assert_eq!(
        tokenize("echo $UNSET", &empty_vars()).unwrap(),
        vec!["echo", ""]
    );
}

#[test]
fn dollar_expansion_double_quoted_hit() {
    let vars = vars_with(&[("X", "hello")]);
    assert_eq!(
        tokenize(r#"echo "$X""#, &vars).unwrap(),
        vec!["echo", "hello"]
    );
}

#[test]
fn dollar_expansion_double_quoted_concat() {
    let vars = vars_with(&[("Y", "VAL")]);
    assert_eq!(
        tokenize(r#"echo "x$Y z""#, &vars).unwrap(),
        vec!["echo", "xVAL z"]
    );
}

#[test]
fn dollar_expansion_double_quoted_miss_keeps_token() {
    assert_eq!(
        tokenize(r#"echo "$UNSET""#, &empty_vars()).unwrap(),
        vec!["echo", ""]
    );
}

#[test]
fn dollar_expansion_single_quoted_is_literal() {
    let vars = vars_with(&[("X", "hello")]);
    assert_eq!(
        tokenize("echo '$X'", &vars).unwrap(),
        vec!["echo", "$X"]
    );
}

#[test]
fn dollar_expansion_escaped_unquoted_is_literal() {
    let vars = vars_with(&[("X", "hello")]);
    assert_eq!(
        tokenize(r"echo \$X", &vars).unwrap(),
        vec!["echo", "$X"]
    );
}

#[test]
fn dollar_expansion_invalid_first_char_digit() {
    assert_eq!(
        tokenize("echo $1abc", &empty_vars()).unwrap(),
        vec!["echo", "$1abc"]
    );
}

#[test]
fn dollar_expansion_invalid_first_char_dash() {
    assert_eq!(
        tokenize("echo $-", &empty_vars()).unwrap(),
        vec!["echo", "$-"]
    );
}

#[test]
fn dollar_expansion_dollar_then_space_is_literal() {
    assert_eq!(
        tokenize("echo $ x", &empty_vars()).unwrap(),
        vec!["echo", "$", "x"]
    );
}

#[test]
fn dollar_expansion_trailing_dollar_is_literal() {
    assert_eq!(
        tokenize("echo $", &empty_vars()).unwrap(),
        vec!["echo", "$"]
    );
}

#[test]
fn dollar_expansion_adjacent_vars_concat() {
    let vars = vars_with(&[("A", "foo"), ("B", "bar")]);
    assert_eq!(
        tokenize("echo $A$B", &vars).unwrap(),
        vec!["echo", "foobar"]
    );
}

#[test]
fn dollar_expansion_underscore_and_digits_in_name() {
    let vars = vars_with(&[("_underscore_1", "ok")]);
    assert_eq!(
        tokenize("echo $_underscore_1", &vars).unwrap(),
        vec!["echo", "ok"]
    );
}

#[test]
fn dollar_expansion_name_stops_at_punctuation() {
    let vars = vars_with(&[("X", "file")]);
    assert_eq!(
        tokenize("echo $X.txt", &vars).unwrap(),
        vec!["echo", "file.txt"]
    );
}

#[test]
fn dollar_expansion_double_quoted_escaped_dollar_is_literal() {
    let vars = vars_with(&[("X", "hello")]);
    assert_eq!(
        tokenize(r#"echo "\$X""#, &vars).unwrap(),
        vec!["echo", "$X"]
    );
}
