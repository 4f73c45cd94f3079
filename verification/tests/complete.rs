use codecrafters_shell::builtins::run_complete;
use codecrafters_shell::strmap::StringMap;

fn invoke(args: &[&str], registry: &mut StringMap) -> (String, String) {
    let mut sink = String::new();
    let mut err = String::new();
    let owned: Vec<String> = args.iter().map(|s| s.to_string()).collect();
    run_complete(&mut sink, &mut err, &owned, registry);
    (sink, err)
}

#[test]
fn complete_complete_r_removes_existing_entry() {
    let mut reg = StringMap::new();

    let (out, err) = invoke(&["-C", "/tmp/completer.sh", "git"], &mut reg);
    assert!(out.is_empty() && err.is_empty(), "-C 无输出");
    assert_eq!(reg.get("git").map(String::as_str), Some("/tmp/completer.sh"));

    let (out, err) = invoke(&["-r", "git"], &mut reg);
    assert!(out.is_empty() && err.is_empty(), "-r 无输出");
    assert!(!reg.contains_key("git"), "registry 已清空");

    let (out, err) = invoke(&["-p", "git"], &mut reg);
    assert!(out.is_empty(), "-p 未命中不写 stdout");
    assert_eq!(err, "complete: git: no completion specification\n");
}

#[test]
fn complete_complete_r_unregistered_silent_ok() {
    let mut reg = StringMap::new();

    let (out, err) = invoke(&["-r", "git"], &mut reg);
    assert!(out.is_empty(), "未注册 -r 不写 stdout");
    assert!(err.is_empty(), "未注册 -r 不写 stderr");
    assert!(reg.is_empty(), "registry 仍为空");
}

#[test]
fn complete_complete_r_then_recover_via_c() {
    let mut reg = StringMap::new();

    let (_, _) = invoke(&["-C", "/old/path", "git"], &mut reg);
    let (_, _) = invoke(&["-r", "git"], &mut reg);
    let (_, _) = invoke(&["-C", "/new/path", "git"], &mut reg);

    let (out, err) = invoke(&["-p", "git"], &mut reg);
    assert_eq!(out, "complete -C '/new/path' git\n");
    assert!(err.is_empty(), "-p 命中不写 stderr");
}

#[test]
fn builtins_complete_r_removes_existing_entry() {
    let mut reg = StringMap::new();

    let (out, err) = invoke(&["-C", "/tmp/completer.sh", "git"], &mut reg);
    assert!(out.is_empty() && err.is_empty(), "-C 无输出");
    assert_eq!(reg.get("git").map(String::as_str), Some("/tmp/completer.sh"));

    let (out, err) = invoke(&["-r", "git"], &mut reg);
    assert!(out.is_empty() && err.is_empty(), "-r 无输出");
    assert!(!reg.contains_key("git"), "registry 已清空");

    let (out, err) = invoke(&["-p", "git"], &mut reg);
    assert!(out.is_empty(), "-p 未命中不写 stdout");
    assert_eq!(err, "complete: git: no completion specification\n");
}

#[test]
fn builtins_complete_r_unregistered_silent_ok() {
    let mut reg = StringMap::new();

    let (out, err) = invoke(&["-r", "git"], &mut reg);
    assert!(out.is_empty(), "未注册 -r 不写 stdout");
    assert!(err.is_empty(), "未注册 -r 不写 stderr");
    assert!(reg.is_empty(), "registry 仍为空");
}

#[test]
fn builtins_complete_r_then_recover_via_c() {
    let mut reg = StringMap::new();

    let (_, _) = invoke(&["-C", "/old/path", "git"], &mut reg);
    let (_, _) = invoke(&["-r", "git"], &mut reg);
    let (_, _) = invoke(&["-C", "/new/path", "git"], &mut reg);

    let (out, err) = invoke(&["-p", "git"], &mut reg);
    assert_eq!(out, "complete -C '/new/path' git\n");
    assert!(err.is_empty(), "-p 命中不写 stderr");
}
