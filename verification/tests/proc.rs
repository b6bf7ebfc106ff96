use hyprresume::resolver::proc::resolve_from_args;

fn s(val: &str) -> String {
    val.to_string()
}

fn no_which(_: &str) -> bool {
    false
}

fn always_which(_: &str) -> bool {
    true
}

#[test]
fn proc_empty_args() {
    assert_eq!(resolve_from_args(&[], &no_which), None);
}

#[test]
fn simple_binary() {
    let args = vec![s("firefox")];
    assert_eq!(resolve_from_args(&args, &no_which), Some(s("firefox")));
}

#[test]
fn absolute_path_in_path() {
    let args = vec![s("/usr/bin/firefox")];
    assert_eq!(resolve_from_args(&args, &always_which), Some(s("firefox")));
}

#[test]
fn absolute_path_not_in_path() {
    let args = vec![s("/opt/custom/myapp")];
    assert_eq!(
        resolve_from_args(&args, &no_which),
        Some(s("/opt/custom/myapp"))
    );
}

#[test]
fn skip_python_interpreter() {
    let args = vec![s("/usr/bin/python3"), s("-u"), s("my_app.py")];
    assert_eq!(resolve_from_args(&args, &no_which), Some(s("my_app.py")));
}

#[test]
fn skip_node_interpreter() {
    let args = vec![s("/usr/bin/node"), s("/opt/app/server.js")];
    assert_eq!(
        resolve_from_args(&args, &no_which),
        Some(s("/opt/app/server.js"))
    );
}

#[test]
fn skip_env_then_python() {
    let args = vec![s("/usr/bin/env"), s("python3"), s("-u"), s("script.py")];
    assert_eq!(resolve_from_args(&args, &no_which), Some(s("script.py")));
}

#[test]
fn skip_electron() {
    let args = vec![
        s("/usr/lib/electron/electron"),
        s("--some-flag"),
        s("/usr/share/app/resources/app.asar"),
    ];
    // "electron" basename is in interpreter list, so skip it.
    // "--some-flag" starts with '-' and start==i, so skip.
    // Then we get the .asar path.
    assert_eq!(
        resolve_from_args(&args, &no_which),
        Some(s("/usr/share/app/resources/app.asar"))
    );
}

#[test]
fn skip_bash_with_flags() {
    let args = vec![s("/usr/bin/bash"), s("-c"), s("my_script")];
    // bash is interpreter, skip. -c has start==i, skip. Then "my_script".
    assert_eq!(resolve_from_args(&args, &no_which), Some(s("my_script")));
}

#[test]
fn only_interpreter_no_program() {
    let args = vec![s("/usr/bin/python3")];
    assert_eq!(resolve_from_args(&args, &no_which), None);
}

#[test]
fn only_interpreter_and_flags() {
    let args = vec![s("python3"), s("-u")];
    assert_eq!(resolve_from_args(&args, &no_which), None);
}

#[test]
fn binary_with_arguments() {
    let args = vec![s("ghostty"), s("--some-option=value")];
    assert_eq!(resolve_from_args(&args, &no_which), Some(s("ghostty")));
}
