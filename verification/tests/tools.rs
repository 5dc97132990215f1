use thunder::cli::{
    config_usage, fix_output_text, is_short_binary_name, options_preview, pick_command_options,
    search_command_options, shell_from_name, ShellKind,
};
use thunder::config::{
    choose_preview, hex16, join_path_exec, resolve_preview, resolve_theme_color, thunder_dir_in,
    DirError, ThunderConfig,
};
use thunder::control::{
    daemon_status, ensure_daemon_step, file_name, parse_pid, process_looks_like_thunderd,
    status_message, stop_message, StartAction, StartFailure, StartPhase, START_POLLS,
};
use thunder::daemon::ClientResponse;
use thunder::doctor::{doctor_report, DoctorFacts};
use thunder::editor::{argv_from_words, editor_args, editor_argv, resolve_editor, EditorError};
use thunder::git::{parse_git_status, GitState, GitStatusMap};
use thunder::history::{append_history_lines, find_recent_match, history_entry, history_lines};
use thunder::palette::{
    execute_action, history_command, history_matches, palette_menu, path_depth, run_palette,
    split_plugin_line,
    file_item, history_item, plugin_item, recent_item, script_item, PaletteAction, PaletteError,
    PaletteItem, PaletteStep,
};
use thunder::safety::CommandRejection;
use thunder::scripts::{collect_project_scripts, npm_scripts, parse_makefile, scripts_from_entries, ScriptsError};

#[test]
fn parses_make_targets() {
    let scripts = parse_makefile("test:\n\tcargo test\n");
    assert!(scripts.iter().any(|(label, _)| label.contains("make test")));
}

#[test]
fn makefile_parsing_skips_specials_and_patterns() {
    let text = "# comment\n.PHONY: all\nall: build\n  build : deps\n%.o: %.c\nVAR = 1\n:\nlint:\n";
    let scripts = parse_makefile(text);
    let labels: Vec<&str> = scripts.iter().map(|(l, _)| l.as_str()).collect();
    assert_eq!(labels, vec!["make all", "make build", "make lint"]);
    assert_eq!(scripts[1].1, "make build");
}

#[test]
fn makefile_targets_are_capped_at_twenty() {
    let text: String = (0..25).map(|i| format!("t{i}:\n")).collect();
    let scripts = parse_makefile(&text);
    assert_eq!(scripts.len(), 20);
    assert_eq!(scripts[19].0, "make t19");
}

#[test]
fn npm_scripts_come_first() {
    let entries = vec![("build".to_string(), Some("tsc".to_string())), ("odd".to_string(), None)];
    assert_eq!(
        npm_scripts(&entries),
        vec![("npm run build".to_string(), "tsc".to_string()), ("npm run odd".to_string(), String::new())]
    );
    let all = scripts_from_entries(Some(&entries), Some("test:\n"));
    assert_eq!(all.len(), 3);
    assert_eq!(all[2].0, "make test");
    assert!(scripts_from_entries(None, None).is_empty());
}

#[test]
fn package_json_text_gives_npm_scripts() {
    let text = r#"{"name":"x","scripts":{"build":"tsc","n":1}}"#;
    let all = collect_project_scripts(Some(text), Some("test:\n")).unwrap();
    assert_eq!(
        all,
        vec![
            ("npm run build".to_string(), "tsc".to_string()),
            ("npm run n".to_string(), String::new()),
            ("make test".to_string(), "make test".to_string()),
        ]
    );
}

#[test]
fn package_json_without_scripts_gives_none() {
    let all = collect_project_scripts(Some(r#"{"name":"x"}"#), None).unwrap();
    assert!(all.is_empty());
    assert!(collect_project_scripts(None, None).unwrap().is_empty());
}

#[test]
fn invalid_package_json_is_an_error() {
    assert_eq!(
        collect_project_scripts(Some("{ not json"), Some("test:\n")),
        Err(ScriptsError::InvalidPackageJson)
    );
}

#[test]
fn porcelain_status_maps_paths_to_states() {
    let text = "M  staged.rs\n M modified.rs\n?? new.txt\nR  old.rs -> renamed.rs\nAM both.rs\n   x\nab\n M modified.rs\n";
    let map = parse_git_status(text);
    assert_eq!(map.get("staged.rs"), Some(GitState::Staged));
    assert_eq!(map.get("modified.rs"), Some(GitState::Modified));
    assert_eq!(map.get("new.txt"), Some(GitState::Untracked));
    assert_eq!(map.get("old.rs"), Some(GitState::Staged));
    assert_eq!(map.get("both.rs"), Some(GitState::Staged));
    assert_eq!(map.get("x"), None);
    assert_eq!(map.get("/repo/src/new.txt"), Some(GitState::Untracked));
    assert_eq!(map.get("unknown.rs"), None);
}

#[test]
fn later_status_lines_override_earlier_ones() {
    let mut map = GitStatusMap::new();
    map.insert("a".to_string(), GitState::Modified);
    map.insert("a".to_string(), GitState::Staged);
    assert_eq!(map.get("a"), Some(GitState::Staged));
}

#[test]
fn shells_and_short_binary_name() {
    assert_eq!(ShellKind::Zsh.as_str(), "zsh");
    assert_eq!(ShellKind::Bash.as_str(), "bash");
    assert_eq!(ShellKind::Fish.as_str(), "fish");
    assert_eq!(shell_from_name("fish"), Some(ShellKind::Fish));
    assert_eq!(shell_from_name("tcsh"), None);
    assert!(is_short_binary_name(Some("/usr/local/bin/tn")));
    assert!(is_short_binary_name(Some("tn.exe")));
    assert!(!is_short_binary_name(Some("/usr/bin/thunder")));
    assert!(!is_short_binary_name(Some("tn/")));
    assert!(!is_short_binary_name(None));
}

#[test]
fn fix_output_depends_on_mode_and_name() {
    assert_eq!(fix_output_text("git status", true, false), "git status\n");
    assert_eq!(
        fix_output_text("git status", false, true),
        "Suggested fix:\n  git status\n\nRun `tn f -y` to use this correction.\n"
    );
    assert_eq!(
        fix_output_text("git status", false, false),
        "Suggested fix:\n  git status\n\nRun `thunder fix --apply` to use this correction.\n"
    );
    assert_eq!(config_usage(true), "usage: tn c --init");
    assert_eq!(config_usage(false), "usage: thunder config --init");
}

#[test]
fn command_options_follow_the_flags() {
    let config = ThunderConfig::default();
    let o = search_command_options(
        config.clone(),
        "/w".to_string(),
        vec!["src".to_string()],
        true,
        false,
        true,
        true,
        Some("bat {1}".to_string()),
        Some("/bin/rg".to_string()),
        true,
    )
    .unwrap();
    assert_eq!(o.cwd, "/w");
    assert_eq!(o.paths, vec!["src".to_string()]);
    assert!(o.case_insensitive && !o.fixed_strings && o.use_fzf && o.pick.multi && !o.use_daemon);
    assert_eq!(o.preview_cmd.as_deref(), Some("bat {1}"));
    assert_eq!(o.rg_path.as_deref(), Some("/bin/rg"));
    let bad = search_command_options(
        config.clone(), ".".into(), vec![], false, false, false, false, Some("x; y {1}".into()), None, false,
    );
    assert!(bad.is_err());
    let p = pick_command_options(&config, true, Some("q".into()), None, &[false, true]).unwrap();
    assert!(p.multi);
    assert_eq!(p.preview_cmd.as_deref(), Some("bat -n --color=always {1}"));
    assert_eq!(p.query.as_deref(), Some("q"));
    assert!(pick_command_options(&config, false, None, Some("cat".into()), &[true, true]).is_err());
    assert_eq!(options_preview(&config, &[]).as_deref(), Some("sed -n '{2}p' {1}"));
}

#[test]
fn palette_items_carry_labels_and_actions() {
    assert_eq!(history_item("ls").label, "cmd  ls");
    assert_eq!(recent_item("a.rs", "/w/a.rs").label, "rec  a.rs");
    assert_eq!(script_item("make x", "make x").label, "run  make x");
    assert_eq!(plugin_item("deploy", "./deploy.sh").label, "plug deploy");
    match file_item("b.rs", "/w/b.rs").action {
        PaletteAction::OpenFile(p) => assert_eq!(p, "/w/b.rs"),
        _ => panic!("file items open files"),
    }
}

#[test]
fn plugin_lines_split_into_label_score_command() {
    assert_eq!(
        split_plugin_line(" Deploy | 42.5 | ./deploy.sh --fast | tee log "),
        Some(("Deploy".to_string(), "42.5".to_string(), "./deploy.sh --fast | tee log".to_string()))
    );
    assert_eq!(split_plugin_line("no bars"), None);
    assert_eq!(split_plugin_line("one|bar"), None);
    assert_eq!(split_plugin_line(" |1|cmd"), None);
    assert_eq!(split_plugin_line("label|1| "), None);
}

#[test]
fn palette_menu_cuts_and_previews() {
    let mut config = ThunderConfig::default();
    config.history.palette_limit = 2;
    let mut items = vec![history_item("a"), history_item("b"), history_item("c")];
    let (labels, pick) = palette_menu(&config, &mut items, &[false, false]).unwrap();
    assert_eq!(labels, vec!["cmd  a", "cmd  b"]);
    assert_eq!(items.len(), 2);
    assert_eq!(pick.prompt, "thunder> ");
    assert_eq!(pick.preview_cmd.as_deref(), Some("sed -n '{2}p' {1}"));
    let mut none: Vec<PaletteItem> = Vec::new();
    assert!(matches!(palette_menu(&config, &mut none, &[]), Err(PaletteError::Empty)));
    let mut more = vec![history_item("a")];
    config.pick.preview = Some("cat {1} | less".into());
    assert!(matches!(palette_menu(&config, &mut more, &[true, true]), Err(PaletteError::Preview(_))));
}

#[test]
fn palette_selection_leads_to_a_step() {
    let config = ThunderConfig::default();
    let items = vec![file_item("a.rs", "/w/a.rs"), history_item("make"), history_item("rm -rf /")];
    assert!(matches!(run_palette(&config, &items, None, false), Ok(None)));
    assert!(matches!(run_palette(&config, &items, Some("nope"), false), Err(PaletteError::ItemDisappeared)));
    match run_palette(&config, &items, Some("file a.rs"), false) {
        Ok(Some(PaletteStep::OpenFile { path, open_editor })) => {
            assert_eq!(path, "/w/a.rs");
            assert!(!open_editor);
        }
        other => panic!("unexpected {:?}", other),
    }
    match run_palette(&config, &items, Some("cmd  make"), true) {
        Ok(Some(PaletteStep::RunCommand(c))) => assert_eq!(c, "make"),
        other => panic!("unexpected {:?}", other),
    }
    match run_palette(&config, &items, Some("cmd  make"), false) {
        Ok(Some(PaletteStep::PrintCommand(c))) => assert_eq!(c, "make"),
        other => panic!("unexpected {:?}", other),
    }
    assert!(matches!(
        run_palette(&config, &items, Some("cmd  rm -rf /"), true),
        Err(PaletteError::Unsafe(CommandRejection::Blocked))
    ));
    match execute_action(&PaletteAction::OpenFile("/x".into()), &config, true) {
        Ok(PaletteStep::OpenFile { open_editor, .. }) => assert!(open_editor),
        other => panic!("unexpected {:?}", other),
    }
}

#[test]
fn history_picker_lines_and_commands() {
    let lines = vec!["git status".to_string(), "cargo build".to_string(), "git push".to_string()];
    let all = history_matches(&lines, None, 10);
    assert_eq!(all.iter().map(|(l, _)| l.as_str()).collect::<Vec<_>>(), vec!["cmd  git push", "cmd  cargo build", "cmd  git status"]);
    let git = history_matches(&lines, Some("git"), 1);
    assert_eq!(git.len(), 1);
    assert_eq!(git[0].0, "cmd  git push");
    assert_eq!(history_command("cmd  git push"), Ok("git push".to_string()));
    assert_eq!(history_command("cmdcmd ls "), Ok("ls".to_string()));
    assert_eq!(history_command("cmd  echo\nrm"), Err(CommandRejection::Multiline));
}

#[test]
fn history_dedupes() {
    let mut lines: Vec<String> = Vec::new();
    for cmd in ["git status", "cargo build", "git status"] {
        let entry = history_entry(cmd).unwrap();
        lines = append_history_lines(lines, entry, 10);
    }
    let stored: String = lines.iter().map(|l| format!("{l}\n")).collect();
    let lines = history_lines(&stored, 10);
    assert_eq!(lines.len(), 2);
    assert_eq!(lines[0], "cargo build");
    assert_eq!(lines[1], "git status");
}

#[test]
fn history_skips_own_invocations_and_bounds_its_size() {
    assert_eq!(history_entry("  ls -la "), Some("ls -la".to_string()));
    assert_eq!(history_entry("   "), None);
    assert_eq!(history_entry("tn"), None);
    assert_eq!(history_entry("thunder fix"), None);
    assert_eq!(history_entry("tnx"), Some("tnx".to_string()));
    let lines = vec!["a".to_string(), "b".to_string(), "c".to_string()];
    assert_eq!(append_history_lines(lines.clone(), "b".to_string(), 2), vec!["c", "b"]);
    assert_eq!(append_history_lines(lines, "d".to_string(), 0), Vec::<String>::new());
    assert_eq!(history_lines(" a \n\n b\r\nc", 2), vec!["b", "c"]);
}

#[test]
fn recent_files_match_by_suffix() {
    let entries = vec!["/w/src/lib.rs".to_string(), "src/main.rs".to_string()];
    assert_eq!(find_recent_match("src/lib.rs", &entries), Some(0));
    assert_eq!(find_recent_match("/w/src/main.rs", &entries), Some(1));
    assert_eq!(find_recent_match("other.rs", &entries), None);
}

#[test]
fn editor_argv_splits_flags_without_shell() {
    let parts = editor_argv("code --wait").unwrap();
    assert_eq!(parts, vec!["code", "--wait"]);
}

#[test]
fn editor_argv_preserves_quoted_paths() {
    let parts = editor_argv(r#""/Applications/Visual Studio Code.app/Contents/Resources/app/bin/code" --wait"#)
        .unwrap();
    assert_eq!(parts[0], "/Applications/Visual Studio Code.app/Contents/Resources/app/bin/code");
    assert_eq!(parts[1], "--wait");
}

#[test]
fn editor_commands_that_cannot_be_used() {
    assert_eq!(editor_argv("vim 'unterminated"), Err(EditorError::Unparsable));
    assert_eq!(editor_argv("   "), Err(EditorError::Empty));
    assert_eq!(argv_from_words(None), Err(EditorError::Unparsable));
    assert_eq!(argv_from_words(Some(vec![])), Err(EditorError::Empty));
    assert_eq!(argv_from_words(Some(vec!["vi".to_string()])), Ok(vec!["vi".to_string()]));
}

#[test]
fn editor_choice_and_arguments() {
    let mut config = ThunderConfig::default();
    let env = vec![None, Some("  ".to_string()), Some("nano".to_string())];
    assert_eq!(resolve_editor(&config, &env), "nano");
    assert_eq!(resolve_editor(&config, &vec![None, None, None]), "vi");
    config.general.editor = Some("hx".to_string());
    assert_eq!(resolve_editor(&config, &env), "hx");
    let argv = vec!["code".to_string(), "--wait".to_string()];
    assert_eq!(editor_args(&argv, Some(42), "/w/a.rs"), vec!["--wait", "+42", "/w/a.rs"]);
    assert_eq!(editor_args(&argv, None, "/w/a.rs"), vec!["--wait", "/w/a.rs"]);
}

#[test]
fn daemon_start_polls_then_gives_up() {
    let config = ThunderConfig::default();
    assert_eq!(ensure_daemon_step(StartPhase::Probe, true, &config).1, StartAction::Done);
    let (phase, action) = ensure_daemon_step(StartPhase::Probe, false, &config);
    assert_eq!(action, StartAction::Spawn);
    let mut phase = phase;
    let mut waits = 0;
    loop {
        let (next, action) = ensure_daemon_step(phase, false, &config);
        phase = next;
        match action {
            StartAction::Wait => waits += 1,
            StartAction::Fail(f) => {
                assert_eq!(f, StartFailure::NoAnswer);
                break;
            }
            other => panic!("unexpected {:?}", other),
        }
    }
    assert_eq!(waits, START_POLLS - 1);
    let mut manual = ThunderConfig::default();
    manual.daemon.auto_start = false;
    assert_eq!(
        ensure_daemon_step(StartPhase::Probe, false, &manual).1,
        StartAction::Fail(StartFailure::AutoStartDisabled)
    );
}

#[test]
fn pid_files_and_process_identity() {
    assert_eq!(parse_pid("1234\n"), Some(1234));
    assert_eq!(parse_pid(" +7 "), Some(7));
    assert_eq!(parse_pid("4294967295"), Some(u32::MAX));
    assert_eq!(parse_pid("4294967296"), None);
    assert_eq!(parse_pid("-1"), None);
    assert_eq!(parse_pid(""), None);
    assert!(process_looks_like_thunderd(Some("thunderd\n"), None));
    assert!(!process_looks_like_thunderd(Some("cargo\n"), Some("thunderd")));
    assert!(process_looks_like_thunderd(None, Some("/opt/bin/thunderd\0--root\0/w\0")));
    assert!(!process_looks_like_thunderd(None, Some("/opt/bin/thunderd-old\0")));
    assert!(!process_looks_like_thunderd(None, None));
    assert_eq!(file_name("/a/b/").as_deref(), Some("b"));
    assert_eq!(file_name("a/./."), Some("a".to_string()));
    assert_eq!(file_name("a/.."), None);
    assert_eq!(file_name("/"), None);
}

#[test]
fn process_identity_rejects_current_pid() {
    assert!(
        !process_looks_like_thunderd(Some("tools-3f2a\n"), Some("/target/debug/deps/tools-3f2a\0")),
        "test runner must not be treated as thunderd"
    );
}

#[test]
fn daemon_status_from_ping() {
    let down = daemon_status("/w", None);
    assert!(!down.running);
    assert_eq!(down.root.as_deref(), Some("/w"));
    let resp = ClientResponse {
        ok: true,
        matches: None,
        files: None,
        lines_indexed: Some(9),
        root: Some("/w".into()),
        message: Some("pong".into()),
    };
    let up = daemon_status("/w", Some(resp));
    assert!(up.running);
    assert_eq!(up.lines_indexed, Some(9));
}

#[test]
fn doctor_reports_each_check() {
    let facts = DoctorFacts {
        exe: Some("/bin/tn".into()),
        ripgrep: None,
        thunderd: Some("/bin/thunderd".into()),
        thefuck: None,
        config_file: None,
        data_dir: Some("/d".into()),
        daemon: Err("boom".into()),
        socket_reachable: false,
        root: "/w".into(),
        last_cmd_set: true,
        editor_env_set: false,
        editor_configured: true,
    };
    let lines = doctor_report(&facts);
    assert_eq!(lines[0], "Thunder Doctor");
    assert_eq!(lines[3], "[ok] tn / thunder: /bin/tn");
    assert_eq!(lines[4], "[fail] ripgrep: not found");
    assert_eq!(lines[8], "[warn] config missing — run `tn c --init`");
    assert_eq!(lines[9], "[ok] data dir: /d");
    assert_eq!(lines[11], "[warn] daemon check failed: boom");
    assert_eq!(lines[13], "[ok] shell integration: THUNDER_LAST_CMD is set");
    assert_eq!(lines[14], "[ok] editor configured in config");
    assert_eq!(lines.len(), 15);
}

#[test]
fn configuration_defaults_and_paths() {
    let config = ThunderConfig::default();
    assert_eq!(config.pick.height, "60%");
    assert_eq!(config.search.max_file_size_bytes, 2097152);
    assert_eq!(config.history.palette_limit, 200);
    assert!(resolve_theme_color(&config).starts_with("fg:252"));
    let mut bw = ThunderConfig::default();
    bw.theme.preset = "bw".into();
    assert_eq!(resolve_theme_color(&bw), "bw");
    assert_eq!(resolve_preview(&config, &[true, false]), "bat --color=always --line-range={2}:{2} {1}");
    let mut own = ThunderConfig::default();
    own.pick.preview = Some("cat {1}; x".into());
    assert_eq!(resolve_preview(&own, &[true, true]), "cat {1}; x");
    assert_eq!(choose_preview(&[false, true]), "bat -n --color=always {1}");
    assert_eq!(choose_preview(&[false, false]), "sed -n '{2}p' {1}");
    assert_eq!(hex16(255), "00000000000000ff");
    assert_eq!(join_path_exec("/home/u/.config", "thunder"), "/home/u/.config/thunder");
    assert_eq!(join_path_exec("/d/", "x"), "/d/x");
    assert_eq!(join_path_exec("/d", "/abs"), "/abs");
    assert_eq!(thunder_dir_in(None, DirError::NoDataDir), Err(DirError::NoDataDir));
}

#[test]
fn daemon_messages() {
    let up = daemon_status("/w", Some(ClientResponse {
        ok: true,
        matches: None,
        files: None,
        lines_indexed: None,
        root: Some("/w".into()),
        message: None,
    }));
    assert_eq!(status_message(&up, "/w"), ("thunderd: running (0 lines) — /w".to_string(), false));
    let down = daemon_status("/w", None);
    assert_eq!(status_message(&down, "/w"), ("thunderd: not running for /w".to_string(), true));
    assert_eq!(stop_message(true), "thunderd: stopped");
    assert_eq!(stop_message(false), "thunderd: not running");
}

#[test]
fn path_depth_counts_separators() {
    assert_eq!(path_depth("a.rs"), 0);
    assert_eq!(path_depth("src/bin/main.rs"), 2);
}

#[test]
fn adding_a_command_twice_is_adding_it_once() {
    let lines = vec!["a".to_string(), "b".to_string()];
    let once = append_history_lines(lines.clone(), "a".to_string(), 3);
    let twice = append_history_lines(once.clone(), "a".to_string(), 3);
    assert_eq!(once, vec!["b", "a"]);
    assert_eq!(twice, once);
}

#[test]
fn per_project_files_live_in_the_data_directory() {
    if let Ok(dir) = thunder::config::config_dir() {
        assert!(dir.ends_with("/thunder"));
    }
    if let Ok(p) = thunder::config::socket_path_for_root(0x1f) {
        assert!(p.ends_with("/thunder/thunderd-000000000000001f.sock"));
    }
    if let Ok(p) = thunder::config::pid_path_for_root(u64::MAX) {
        assert!(p.ends_with("thunderd-ffffffffffffffff.pid"));
    }
    if let Ok(p) = thunder::config::history_path() {
        assert!(p.ends_with("/thunder/history"));
    }
}

#[test]
fn missing_platform_directories_are_reported() {
    assert_eq!(thunder_dir_in(None, DirError::NoConfigDir), Err(DirError::NoConfigDir));
    assert_eq!(thunder_dir_in(Some("/c".to_string()), DirError::NoConfigDir), Ok("/c/thunder".to_string()));
}

#[test]
fn package_json_scripts_member_that_is_not_an_object_holds_none() {
    assert!(collect_project_scripts(Some(r#"{"scripts": 5}"#), None).unwrap().is_empty());
    assert!(collect_project_scripts(Some("[1, 2]"), None).unwrap().is_empty());
}
