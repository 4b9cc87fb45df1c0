use agent_workbench::matcher::{
    terminal_analyze_command, terminal_collect_command_path_candidates,
    terminal_command_contains_absolute_path_token, terminal_dedup_paths,
    terminal_has_windows_drive_prefix, terminal_is_posix_style_shell,
    terminal_is_virtual_sink_path, terminal_lex_command, terminal_raw_token_is_absolute_path,
    terminal_resolve_candidate_path, terminal_tokenize, terminal_unquote_token, HostPlatform,
};

#[test]
fn should_ignore_dev_null_in_absolute_path_check_for_git_bash() {
    let cmd = r#"ls -la ./skills/ 2>/dev/null || echo "No skills directory""#;
    assert!(!terminal_command_contains_absolute_path_token(cmd, "git-bash", HostPlatform::Unix));
}

#[test]
fn should_collect_relative_path_but_not_dev_null_for_git_bash() {
    let cwd = "C:\\Users\\tester\\llm-workspace".to_string();
    let cmd = r#"find ./skills -name "mcp-setup*" -o -name "*mcp*setup" 2>/dev/null | head -10"#;
    let paths = terminal_collect_command_path_candidates(&cwd, cmd, "git-bash", HostPlatform::Unix);
    assert!(
        paths.iter().any(|p| p.contains("skills")),
        "expected ./skills to be collected"
    );
    assert!(
        !paths.iter().any(|p| {
            p.to_ascii_lowercase()
                .replace('\\', "/")
                .contains("dev/null")
        }),
        "expected /dev/null to be ignored"
    );
}

#[test]
fn lexer_splits_words_operators_and_redirections() {
    let tokens = terminal_lex_command(r#"ls -la ./skills/ 2>/dev/null || echo "No skills directory""#);
    assert_eq!(
        tokens,
        vec![
            "ls",
            "-la",
            "./skills/",
            "2>",
            "/dev/null",
            "||",
            "echo",
            "\"No skills directory\"",
        ]
    );
    assert_eq!(terminal_tokenize("a|b&&c;d>>e 2>&1"), vec!["a", "|", "b", "&&", "c", ";", "d", ">>", "e", "2>&", "1"]);
    assert_eq!(terminal_tokenize("echo 'a b'\"c d\" x\\ y"), vec!["echo", "'a b'\"c d\"", "x\\ y"]);
    assert!(terminal_tokenize("   ").is_empty());
}

#[test]
fn unquote_strips_one_pair_of_matching_quotes() {
    assert_eq!(terminal_unquote_token("  'a b'  "), "a b");
    assert_eq!(terminal_unquote_token("\"x\""), "x");
    assert_eq!(terminal_unquote_token("''"), "");
    assert_eq!(terminal_unquote_token("'x\""), "'x\"");
    assert_eq!(terminal_unquote_token("\"'x'\""), "'x'");
    assert_eq!(terminal_unquote_token("'"), "'");
}

#[test]
fn drive_prefix_only_on_windows() {
    assert!(terminal_has_windows_drive_prefix("C:", HostPlatform::Windows));
    assert!(terminal_has_windows_drive_prefix("c:\\x", HostPlatform::Windows));
    assert!(terminal_has_windows_drive_prefix("D:/x", HostPlatform::Windows));
    assert!(!terminal_has_windows_drive_prefix("C:x", HostPlatform::Windows));
    assert!(!terminal_has_windows_drive_prefix("1:\\", HostPlatform::Windows));
    assert!(!terminal_has_windows_drive_prefix("C:\\x", HostPlatform::Unix));
}

#[test]
fn shells_and_virtual_sinks() {
    assert!(terminal_is_posix_style_shell("bash"));
    assert!(terminal_is_posix_style_shell("git-bash"));
    assert!(!terminal_is_posix_style_shell("powershell"));
    assert!(!terminal_is_posix_style_shell(" bash"));
    assert!(terminal_is_virtual_sink_path(" /DEV/Null ", "zsh"));
    assert!(!terminal_is_virtual_sink_path("nul", "zsh"));
    assert!(terminal_is_virtual_sink_path("NUL", "powershell"));
    assert!(!terminal_is_virtual_sink_path("/dev/null", "cmd"));
}

#[test]
fn absolute_tokens_are_found() {
    assert!(terminal_command_contains_absolute_path_token("cat /etc/hosts", "bash", HostPlatform::Unix));
    assert!(!terminal_command_contains_absolute_path_token("curl https://example.com/x", "bash", HostPlatform::Unix));
    assert!(terminal_command_contains_absolute_path_token("type C:\\x.txt", "cmd", HostPlatform::Windows));
    assert!(!terminal_command_contains_absolute_path_token("type nul", "cmd", HostPlatform::Windows));
    assert!(terminal_command_contains_absolute_path_token("cat '/tmp/a b'", "bash", HostPlatform::Unix));
}

#[test]
fn candidate_paths_resolve_against_cwd() {
    assert_eq!(terminal_resolve_candidate_path("/home/u", "src", HostPlatform::Unix), Some("/home/u/src".to_string()));
    assert_eq!(terminal_resolve_candidate_path("/home/u/", "'a b'", HostPlatform::Unix), Some("/home/u/a b".to_string()));
    assert_eq!(terminal_resolve_candidate_path("/home/u", "/etc", HostPlatform::Unix), Some("/etc".to_string()));
    assert_eq!(terminal_resolve_candidate_path("/home/u", "-v", HostPlatform::Unix), None);
    assert_eq!(terminal_resolve_candidate_path("/home/u", "*.rs", HostPlatform::Unix), None);
    assert_eq!(terminal_resolve_candidate_path("/home/u", "a?", HostPlatform::Unix), None);
    assert_eq!(terminal_resolve_candidate_path("/home/u", "http://x", HostPlatform::Unix), None);
    assert_eq!(terminal_resolve_candidate_path("/home/u", "&&", HostPlatform::Unix), None);
    assert_eq!(terminal_resolve_candidate_path("/home/u", "  ", HostPlatform::Unix), None);
    assert_eq!(terminal_resolve_candidate_path("C:\\w", "a/b", HostPlatform::Windows), Some("C:\\w\\a\\b".to_string()));
    assert_eq!(terminal_resolve_candidate_path("C:\\w", "D:\\x", HostPlatform::Windows), Some("D:\\x".to_string()));
    assert_eq!(terminal_resolve_candidate_path("C:\\w", "\\x", HostPlatform::Windows), Some("C:\\x".to_string()));
}

#[test]
fn raw_tokens_written_absolute() {
    assert!(terminal_raw_token_is_absolute_path("'/x'", HostPlatform::Unix));
    assert!(!terminal_raw_token_is_absolute_path("x/y", HostPlatform::Unix));
    assert!(!terminal_raw_token_is_absolute_path("''", HostPlatform::Unix));
    assert!(terminal_raw_token_is_absolute_path("C:", HostPlatform::Windows));
    assert!(terminal_raw_token_is_absolute_path("//server/share", HostPlatform::Windows));
}

#[test]
fn dedup_keeps_first_of_each_path() {
    let out = terminal_dedup_paths(vec!["a".to_string(), "b".to_string(), "a".to_string()], HostPlatform::Unix);
    assert_eq!(out, vec!["a", "b"]);
    let out = terminal_dedup_paths(vec!["C:\\A".to_string(), "c:/a".to_string(), "C:\\B".to_string()], HostPlatform::Windows);
    assert_eq!(out, vec!["C:\\A", "C:\\B"]);
    let out = terminal_dedup_paths(vec!["A".to_string(), "a".to_string()], HostPlatform::Unix);
    assert_eq!(out, vec!["A", "a"]);
}

#[test]
fn analysis_skips_command_words_and_marks_absolute_paths() {
    let c = terminal_analyze_command("/w", "cp a /b > out 2>&1; rm -rf c", "bash", HostPlatform::Unix);
    let got: Vec<(String, bool)> = c.into_iter().map(|x| (x.path, x.is_absolute)).collect();
    assert_eq!(
        got,
        vec![
            ("/w/a".to_string(), false),
            ("/b".to_string(), true),
            ("/w/out".to_string(), false),
            ("/w/c".to_string(), false),
        ]
    );
    let paths = terminal_collect_command_path_candidates("/w", "cat a a ./a", "bash", HostPlatform::Unix);
    assert_eq!(paths, vec!["/w/a", "/w/./a"]);
}

#[test]
fn quoted_virtual_devices_are_not_candidates() {
    let c = terminal_analyze_command("/w", "cat '/dev/null' \"/DEV/STDERR\" x", "bash", HostPlatform::Unix);
    let got: Vec<String> = c.into_iter().map(|x| x.path).collect();
    assert_eq!(got, vec!["/w/x"]);
    let c = terminal_analyze_command("C:\\w", "type NUL \"con\" y", "cmd", HostPlatform::Windows);
    let got: Vec<String> = c.into_iter().map(|x| x.path).collect();
    assert_eq!(got, vec!["C:\\w\\y"]);
}

#[test]
fn absolute_candidates_are_written_paths_and_never_devices() {
    let cmd = "tee /dev/null /tmp/log '/var/x' 2>/dev/stderr";
    for c in terminal_analyze_command("/home", cmd, "sh", HostPlatform::Unix) {
        if c.is_absolute {
            assert!(!terminal_is_virtual_sink_path(&c.path, "sh"));
            assert!(terminal_raw_token_is_absolute_path(&c.path, HostPlatform::Unix));
        }
    }
    let got: Vec<(String, bool)> = terminal_analyze_command("/home", cmd, "sh", HostPlatform::Unix)
        .into_iter()
        .map(|x| (x.path, x.is_absolute))
        .collect();
    assert_eq!(got, vec![("/tmp/log".to_string(), true), ("/var/x".to_string(), true)]);
}

#[test]
fn should_ignore_dev_null_in_absolute_path_check_for_git_bash_on_windows() {
    let cmd = r#"ls -la ./skills/ 2>/dev/null || echo "No skills directory""#;
    assert!(!terminal_command_contains_absolute_path_token(cmd, "git-bash", HostPlatform::Windows));
}

#[test]
fn should_collect_relative_path_but_not_dev_null_for_git_bash_on_windows() {
    let cwd = "C:\\Users\\tester\\llm-workspace".to_string();
    let cmd = r#"find ./skills -name "mcp-setup*" -o -name "*mcp*setup" 2>/dev/null | head -10"#;
    let paths = terminal_collect_command_path_candidates(&cwd, cmd, "git-bash", HostPlatform::Windows);
    assert!(paths.iter().any(|p| p.contains("skills")), "expected ./skills to be collected");
    assert!(
        !paths.iter().any(|p| p.to_ascii_lowercase().replace('\\', "/").contains("dev/null")),
        "expected /dev/null to be ignored"
    );
    assert_eq!(paths, vec!["C:\\Users\\tester\\llm-workspace\\.\\skills"]);
}

#[test]
fn windows_absolute_paths_need_a_prefix_and_a_root() {
    assert!(!terminal_raw_token_is_absolute_path("//x", HostPlatform::Windows));
    assert!(!terminal_raw_token_is_absolute_path("\\\\\\x", HostPlatform::Windows));
    assert!(!terminal_raw_token_is_absolute_path("\\x", HostPlatform::Windows));
    assert!(terminal_raw_token_is_absolute_path("\\\\server\\share", HostPlatform::Windows));
    assert!(terminal_raw_token_is_absolute_path("\\\\?\\anything", HostPlatform::Windows));
    assert!(terminal_raw_token_is_absolute_path("//./COM1", HostPlatform::Windows));
    assert!(!terminal_command_contains_absolute_path_token("cat //x", "cmd", HostPlatform::Windows));
    assert!(terminal_command_contains_absolute_path_token("cat //srv/share/f", "cmd", HostPlatform::Windows));
}

#[test]
fn windows_join_keeps_prefixes_as_pathbuf_push_does() {
    let w = HostPlatform::Windows;
    assert_eq!(terminal_resolve_candidate_path("C:\\w", "//x", w), Some("C:\\\\x".to_string()));
    assert_eq!(
        terminal_resolve_candidate_path("\\\\s\\h\\d", "\\x", w),
        Some("\\\\s\\h\\x".to_string())
    );
    assert_eq!(terminal_resolve_candidate_path("C:", "x", w), Some("C:x".to_string()));
    assert_eq!(terminal_resolve_candidate_path("C:\\w\\", "x", w), Some("C:\\w\\x".to_string()));
    assert_eq!(terminal_resolve_candidate_path("C:\\w", "D:y", w), Some("D:y".to_string()));
    assert_eq!(
        terminal_resolve_candidate_path("\\\\?\\C:\\w", "a\\..\\b\\.\\c", w),
        Some("\\\\?\\C:\\w\\b\\c".to_string())
    );
    assert_eq!(
        terminal_resolve_candidate_path("\\\\?\\C:\\w", "\\z", w),
        Some("\\\\?\\C:\\z".to_string())
    );
    assert_eq!(
        terminal_resolve_candidate_path("\\\\?\\pics", "..\\x", w),
        Some("\\\\?\\pics\\x".to_string())
    );
}
