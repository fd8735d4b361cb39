use terminal_studio::title::{
    compose_foreground_title, display_title, effective_title, foreground_process_title,
    shell_escape_arg, shell_escape_arg_windows, shell_fallback_title, try_display_title,
    try_effective_title, ForegroundProcess,
};

fn fg(name: &str, args: &[&str]) -> ForegroundProcess {
    ForegroundProcess {
        name: name.to_string(),
        cmdline: args.iter().map(|a| a.to_string()).collect(),
    }
}

#[test]
fn display_title_plain_text_unchanged() {
    assert_eq!(display_title("  vim  "), "vim");
}

#[test]
fn display_title_unix_path_returns_last_segment() {
    assert_eq!(display_title("/home/user/projects/myapp"), "myapp");
}

#[test]
fn display_title_tilde_path_returns_last_segment() {
    assert_eq!(display_title("~/projects/myapp"), "myapp");
}

#[test]
fn display_title_windows_path_returns_last_segment() {
    assert_eq!(display_title("C:\\Users\\testuser\\proj"), "proj");
}

#[test]
fn effective_title_shell_default_uses_cwd() {
    let cwd = "/home/user/myproject";
    assert_eq!(effective_title("bash", cwd, None, None, None), "myproject");
    assert_eq!(
        effective_title("Session 1", cwd, None, None, None),
        "myproject"
    );
    assert_eq!(
        effective_title("PowerShell.exe", cwd, None, None, None),
        "myproject"
    );
    assert_eq!(effective_title("", cwd, None, None, None), "myproject");
}

#[test]
fn effective_title_real_title_uses_display_title() {
    let cwd = "/home/user/myproject";
    assert_eq!(
        effective_title("vim README.md", cwd, None, None, None),
        "vim README.md"
    );
}

#[test]
fn effective_title_real_title_strips_path() {
    let cwd = "/home/user";
    assert_eq!(
        effective_title("/home/user/projects/src", cwd, None, None, None),
        "src"
    );
}

#[test]
fn effective_title_empty_cwd_falls_back_to_title() {
    let cwd = "";
    let result = effective_title("Session 1", cwd, None, None, None);
    assert_eq!(result, "Session 1");
}

#[test]
fn effective_title_empty_cwd_falls_back_to_shell_name() {
    let cwd = "";
    let result = effective_title("", cwd, None, Some("PowerShell"), None);
    assert_eq!(result, "PowerShell");
}

#[test]
fn effective_title_foreground_process_wins() {
    let cwd = "/home/user/myproject";
    let p = ForegroundProcess {
        name: "vim".to_string(),
        cmdline: vec!["vim".to_string(), "README.md".to_string()],
    };
    assert_eq!(
        effective_title("bash", cwd, Some(&p), None, None),
        "vim README.md"
    );
}

#[test]
fn effective_title_foreground_process_no_args() {
    let cwd = "/home/user";
    let p = ForegroundProcess {
        name: "htop".to_string(),
        cmdline: vec!["htop".to_string()],
    };
    assert_eq!(effective_title("bash", cwd, Some(&p), None, None), "htop");
}

#[test]
fn effective_title_foreground_strips_exe_suffix() {
    let cwd = "/home/user";
    let p = ForegroundProcess {
        name: "node.exe".to_string(),
        cmdline: vec!["node.exe".to_string(), "server.js".to_string()],
    };
    assert_eq!(
        effective_title("bash", cwd, Some(&p), None, None),
        "node server.js"
    );
}

#[test]
fn effective_title_foreground_shortens_path_arg() {
    let cwd = "/home/user";
    let p = ForegroundProcess {
        name: "vim".to_string(),
        cmdline: vec![
            "vim".to_string(),
            "/home/user/projects/README.md".to_string(),
        ],
    };
    assert_eq!(
        effective_title("bash", cwd, Some(&p), None, None),
        "vim README.md"
    );
}

#[test]
fn effective_title_workspace_name_overrides_cwd() {
    let cwd = "/home/user/myproject";
    assert_eq!(
        effective_title("bash", cwd, None, None, Some("My Project")),
        "My Project"
    );
}

#[test]
fn effective_title_workspace_name_ignored_when_real_title() {
    let cwd = "/home/user/myproject";
    assert_eq!(
        effective_title("vim README.md", cwd, None, None, Some("My Project")),
        "vim README.md"
    );
}

#[test]
fn effective_title_workspace_name_ignored_when_foreground() {
    let cwd = "/home/user/myproject";
    let p = ForegroundProcess {
        name: "cargo".to_string(),
        cmdline: vec!["cargo".to_string(), "build".to_string()],
    };
    assert_eq!(
        effective_title("bash", cwd, Some(&p), None, Some("My Project")),
        "cargo build"
    );
}

#[test]
fn effective_title_empty_workspace_name_falls_through_to_cwd() {
    let cwd = "/home/user/myproject";
    assert_eq!(
        effective_title("bash", cwd, None, None, Some("")),
        "myproject"
    );
}

// ---- further cases ----

#[test]
fn display_title_trailing_separators_are_dropped() {
    assert_eq!(display_title("/home/user/projects/"), "projects");
    assert_eq!(display_title("C:\\Users\\me\\\\"), "me");
}

#[test]
fn display_title_root_path_keeps_separator() {
    assert_eq!(display_title("/"), "/");
}

#[test]
fn display_title_text_with_inner_slash_is_not_a_path() {
    assert_eq!(display_title("build a/b"), "build a/b");
}

#[test]
fn display_title_forward_slash_drive_is_not_a_path() {
    assert_eq!(display_title("D:/work/repo"), "D:/work/repo");
}

#[test]
fn try_display_title_refuses_cut_character() {
    // The drive check would slice inside the three-byte character.
    assert_eq!(try_display_title("a€/x"), None);
    assert_eq!(try_display_title("aé/x"), Some("aé/x".to_string()));
    assert_eq!(try_display_title("/tmp/x"), Some("x".to_string()));
}

#[test]
fn try_effective_title_matches_effective_title() {
    assert_eq!(
        try_effective_title("zsh", "/srv/app", None, None, None),
        Some("app".to_string())
    );
    assert_eq!(try_effective_title("a€/x", "/srv/app", None, None, None), None);
    let p = fg("top", &["top"]);
    assert_eq!(
        try_effective_title("a€/x", "/srv/app", Some(&p), None, None),
        Some("top".to_string())
    );
}

#[test]
fn effective_title_shell_names_are_case_insensitive() {
    assert_eq!(effective_title("FISH", "/a/b", None, None, None), "b");
    assert_eq!(effective_title("Windows PowerShell", "/a/b", None, None, None), "b");
    assert_eq!(effective_title("CMD.EXE", "/a/b", None, None, None), "b");
}

#[test]
fn effective_title_shell_default_without_anything_keeps_trimmed_title() {
    assert_eq!(effective_title("  Session 7 ", "", None, None, None), "Session 7");
}

#[test]
fn foreground_title_skips_option_arguments() {
    let p = fg("git", &["git", "-C", "--no-pager", "log"]);
    assert_eq!(foreground_process_title(&p), "git log");
    let q = fg("ls", &["ls", "-la"]);
    assert_eq!(foreground_process_title(&q), "ls");
}

#[test]
fn foreground_title_exe_is_only_stripped_at_the_end() {
    let p = fg("my.exe.tool", &["my.exe.tool"]);
    assert_eq!(foreground_process_title(&p), "my.exe.tool");
}

#[test]
fn compose_foreground_title_uses_given_file_name() {
    let p = fg("vim", &["vim", "/a/b/c.txt"]);
    assert_eq!(compose_foreground_title(&p, Some("c.txt")), "vim c.txt");
    assert_eq!(compose_foreground_title(&p, None), "vim /a/b/c.txt");
}

#[test]
fn foreground_title_without_file_name_keeps_argument() {
    // `Path::file_name` gives nothing for `..`; the argument stays as it is.
    let p = fg("cd", &["cd", ".."]);
    assert_eq!(foreground_process_title(&p), "cd ..");
}

#[test]
fn shell_fallback_title_order() {
    assert_eq!(
        shell_fallback_title("bash", "bash", Some("dir"), Some("Bash"), Some("WS")),
        "WS"
    );
    assert_eq!(
        shell_fallback_title("bash", "bash", Some("dir"), Some("Bash"), None),
        "dir"
    );
    assert_eq!(
        shell_fallback_title("bash", "bash", Some(""), Some("Bash"), None),
        "Bash"
    );
    assert_eq!(shell_fallback_title("bash", "bash", None, None, None), "bash");
    assert_eq!(
        shell_fallback_title("make", "make", Some("dir"), None, Some("WS")),
        "make"
    );
}

#[test]
fn shell_escape_arg_leaves_safe_strings() {
    assert_eq!(shell_escape_arg("abc/def-1.2_x:y@z=w"), "abc/def-1.2_x:y@z=w");
    assert_eq!(shell_escape_arg("a+b"), "'a+b'");
}

#[test]
fn shell_escape_arg_quotes_unsafe_strings() {
    assert_eq!(shell_escape_arg("a b"), "'a b'");
    assert_eq!(shell_escape_arg("it's"), "'it'\\''s'");
    assert_eq!(shell_escape_arg(""), "''");
}

#[test]
fn shell_escape_arg_windows_quotes() {
    assert_eq!(shell_escape_arg_windows("plain"), "plain");
    assert_eq!(shell_escape_arg_windows("a b"), "\"a b\"");
    assert_eq!(shell_escape_arg_windows("say \"hi\""), "\"say \"\"hi\"\"\"");
}
