use thunder::config::ThunderConfig;
use thunder::router::{route_query, QueryRoute};
use thunder::safety::{
    is_safe_relative_path, validate_preview_command, validate_safe_command, CommandRejection,
    PreviewRejection, check_within_root, join_target, path_components_exec, PathError,
};

#[test]
fn routes_paths_to_files() {
    assert_eq!(route_query("src/main.rs", false, &ThunderConfig::default()), QueryRoute::Files);
}

#[test]
fn routes_commands_to_history() {
    assert_eq!(
        route_query("git status", false, &ThunderConfig::default()),
        QueryRoute::History
    );
}

#[test]
fn routes_terms_to_search() {
    assert_eq!(route_query("SearchIndex", false, &ThunderConfig::default()), QueryRoute::Search);
}

#[test]
fn routes_blank_query_to_search() {
    assert_eq!(route_query("   ", false, &ThunderConfig::default()), QueryRoute::Search);
}

#[test]
fn routes_existing_path_to_files() {
    assert_eq!(route_query("Makefile", true, &ThunderConfig::default()), QueryRoute::Files);
}

#[test]
fn routes_dotted_names_to_files() {
    assert_eq!(route_query("notes.txt", false, &ThunderConfig::default()), QueryRoute::Files);
    assert_eq!(route_query("  README.md  ", false, &ThunderConfig::default()), QueryRoute::Files);
}

#[test]
fn routes_tool_invocations_to_history() {
    assert_eq!(route_query("cargo build", false, &ThunderConfig::default()), QueryRoute::History);
    assert_eq!(route_query("tn s foo", false, &ThunderConfig::default()), QueryRoute::History);
}

#[test]
fn rejects_unsafe_history() {
    assert!(validate_safe_command("cargo test").is_ok());
    assert!(validate_safe_command("echo\nrm").is_err());
}

#[test]
fn rejects_unsafe_preview() {
    assert!(validate_preview_command("cat {1}; rm -rf /").is_err());
    assert!(validate_preview_command("sed -n '{2}p' {1}").is_ok());
}

#[test]
fn blocks_dangerous_apply() {
    assert!(validate_safe_command("rm -rf /").is_err());
    assert!(validate_safe_command("git status").is_ok());
}

#[test]
fn command_rejections_name_the_reason() {
    assert_eq!(validate_safe_command("   "), Err(CommandRejection::Empty));
    assert_eq!(validate_safe_command("ls\r\npwd"), Err(CommandRejection::Multiline));
    assert_eq!(validate_safe_command("sudo dd if=/dev/zero of=x"), Err(CommandRejection::Blocked));
    assert_eq!(validate_safe_command("  mkfs.ext4 /dev/sdb1 "), Err(CommandRejection::Blocked));
    assert_eq!(validate_safe_command("  ls -la  "), Ok(()));
}

#[test]
fn preview_rejections_name_the_reason() {
    assert!(matches!(validate_preview_command(""), Err(PreviewRejection::Empty)));
    match validate_preview_command("cat {1} | less") {
        Err(PreviewRejection::UnsafeToken(t)) => assert_eq!(t, "|"),
        other => panic!("unexpected {:?}", other),
    }
    match validate_preview_command("echo $(id) {1}") {
        Err(PreviewRejection::UnsafeToken(t)) => assert_eq!(t, "$"),
        other => panic!("unexpected {:?}", other),
    }
    assert!(matches!(
        validate_preview_command("bat --color=always"),
        Err(PreviewRejection::MissingPlaceholder)
    ));
    assert!(validate_preview_command("bat -n --color=always {1}").is_ok());
}

#[test]
fn relative_paths_with_parent_components_are_unsafe() {
    assert!(is_safe_relative_path("src/lib.rs"));
    assert!(is_safe_relative_path("a/b..c/d"));
    assert!(is_safe_relative_path("..hidden"));
    assert!(!is_safe_relative_path("../etc/passwd"));
    assert!(!is_safe_relative_path("a/../b"));
    assert!(!is_safe_relative_path("a/.."));
    assert!(!is_safe_relative_path(".."));
}

#[test]
fn path_components_follow_unix_rules() {
    let c = |p: &str| path_components_exec(p);
    assert_eq!(c("/a//b/./c/"), vec!["/", "a", "b", "c"]);
    assert_eq!(c("./a/b"), vec![".", "a", "b"]);
    assert_eq!(c("a/../b"), vec!["a", "..", "b"]);
    assert_eq!(c(""), Vec::<String>::new());
    assert!(thunder::safety::is_safe_relative_path("a/./b"));
    assert!(!thunder::safety::is_safe_relative_path("a//..//b"));
}

#[test]
fn join_target_keeps_absolute_paths() {
    assert_eq!(join_target("/proj", "src/lib.rs"), "/proj/src/lib.rs");
    assert_eq!(join_target("/proj/", "src"), "/proj/src");
    assert_eq!(join_target("/proj", "/etc/passwd"), "/etc/passwd");
}

#[test]
fn paths_outside_the_root_are_refused() {
    assert_eq!(check_within_root("/proj", "/proj/src/lib.rs"), Ok(()));
    assert_eq!(check_within_root("/proj", "/proj"), Ok(()));
    assert_eq!(check_within_root("/proj/", "/proj/a"), Ok(()));
    assert_eq!(check_within_root("/proj", "/project/a"), Err(PathError::EscapesRoot));
    assert_eq!(check_within_root("/proj", "/etc/passwd"), Err(PathError::EscapesRoot));
    assert_eq!(check_within_root("/proj/a", "/proj"), Err(PathError::EscapesRoot));
    assert_eq!(check_within_root("proj", "/proj/a"), Err(PathError::EscapesRoot));
}

#[test]
fn detected_previews_pass_the_preview_check() {
    for available in [[true, true], [true, false], [false, true], [false, false]] {
        let p = thunder::config::choose_preview(&available);
        assert!(validate_preview_command(&p).is_ok(), "{p}");
    }
}

#[test]
fn data_files_live_in_the_thunder_directory() {
    if let Ok(p) = thunder::config::config_path() {
        assert!(p.ends_with("/thunder/config.toml"), "{p}");
    }
    if let Ok(p) = thunder::config::socket_path_for_root(0xabc) {
        assert!(p.ends_with("/thunder/thunderd-0000000000000abc.sock"), "{p}");
    }
}
