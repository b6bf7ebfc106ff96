use hyprresume::resolver::cwd::{child_pids, resolve_shell_cwd, Parent, Process};

fn process(comm: &str, cwd: &str) -> Process {
    Process {
        comm: Some(comm.to_string()),
        cwd: Some(cwd.to_string()),
    }
}

fn childless(comm: &str, cwd: &str) -> Parent {
    Parent {
        process: process(comm, cwd),
        children: vec![],
    }
}

#[test]
fn negative_pid_returns_none() {
    assert!(resolve_shell_cwd(-1, &vec![]).is_none());
    assert!(resolve_shell_cwd(-1, &vec![childless("bash", "/srv")]).is_none());
}

#[test]
fn zero_pid_returns_none() {
    assert!(resolve_shell_cwd(0, &vec![]).is_none());
    assert!(resolve_shell_cwd(0, &vec![childless("bash", "/srv")]).is_none());
}

#[test]
fn nonexistent_pid_returns_none() {
    assert!(resolve_shell_cwd(999_999_999, &vec![]).is_none());
}

#[test]
fn child_pids_of_init() {
    drop(child_pids("1 2 3"));
}

#[test]
fn known_shells_list_is_nonempty() {
    let shells = [
        "bash", "zsh", "fish", "sh", "dash", "ksh", "tcsh", "csh", "nu", "elvish", "ion", "xonsh",
    ];
    for shell in shells {
        assert_eq!(
            resolve_shell_cwd(7, &vec![childless(shell, "/home/user")]),
            Some("/home/user".to_string())
        );
    }
}

#[test]
fn other_programs_are_not_shells() {
    assert!(resolve_shell_cwd(7, &vec![childless("vim", "/home/user")]).is_none());
    assert!(resolve_shell_cwd(7, &vec![childless("Bash", "/home/user")]).is_none());
}

#[test]
fn the_root_and_an_unknown_directory_do_not_count() {
    assert!(resolve_shell_cwd(7, &vec![childless("bash", "/")]).is_none());
    assert!(resolve_shell_cwd(7, &vec![childless("bash", "")]).is_none());
    let lost = Parent {
        process: Process {
            comm: Some("bash".to_string()),
            cwd: None,
        },
        children: vec![],
    };
    assert!(resolve_shell_cwd(7, &vec![lost]).is_none());
}

#[test]
fn a_shell_below_a_wrapper_is_found() {
    let wrapped = Parent {
        process: process("login", "/"),
        children: vec![process("vim", "/a"), process("zsh\n", "/b")],
    };
    let later = childless("bash", "/c");
    assert_eq!(
        resolve_shell_cwd(7, &vec![wrapped, later]),
        Some("/b".to_string())
    );
}

#[test]
fn child_pids_skip_what_is_no_number() {
    assert_eq!(child_pids("12 x -3 +4 7\n"), vec![12, -3, 4, 7]);
    assert_eq!(child_pids("  \n"), Vec::<i64>::new());
}
