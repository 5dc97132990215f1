use thunder::config::ThunderConfig;
use thunder::fix::{
    fix_step, parse_exit_code, suggest_fix, thefuck_args, thefuck_suggestion, FixError, FixMode,
    FixStep, ThefuckError,
};
use thunder::fix_rules::{builtin_rules, enabled_rules, suggest_with_rules, ShellContext};
use thunder::safety::CommandRejection;

fn ctx(command: &str, exit_code: i32, stderr: &str) -> ShellContext {
    ShellContext {
        command: command.to_string(),
        exit_code,
        stderr: stderr.to_string(),
        cwd: ".".to_string(),
        cwd_dirs: None,
    }
}

#[test]
fn fixes_git_typo() {
    let ctx = ShellContext {
        command: "gti status".into(),
        exit_code: 127,
        stderr: String::new(),
        cwd: ".".into(),
        cwd_dirs: None,
    };
    let correction = suggest_with_rules(&ctx, &ThunderConfig::default()).expect("correction");
    assert_eq!(correction.command, "git status");
}

#[test]
fn suggests_sudo() {
    let ctx = ShellContext {
        command: "apt install vim".into(),
        exit_code: 1,
        stderr: "Permission denied".into(),
        cwd: ".".into(),
        cwd_dirs: None,
    };
    let correction = suggest_fix(&ctx, &ThunderConfig::default()).unwrap().unwrap();
    assert_eq!(correction.command, "sudo apt install vim");
}

#[test]
fn every_builtin_rule_is_enabled_by_default() {
    let all = builtin_rules();
    let enabled = enabled_rules(&ThunderConfig::default());
    assert_eq!(all.len(), 11);
    assert_eq!(enabled, all);
}

#[test]
fn disabled_rules_do_not_fire() {
    let mut config = ThunderConfig::default();
    config.fix.enabled_rules = vec!["npm".to_string()];
    assert!(suggest_with_rules(&ctx("gti status", 127, ""), &config).is_none());
}

#[test]
fn suggest_mode_only_shows_the_correction() {
    match fix_step(FixMode::Suggest, &ThunderConfig::default(), &ctx("gti status", 127, "")) {
        Ok(FixStep::Show(c)) => assert_eq!(c, "git status"),
        other => panic!("unexpected {:?}", other),
    }
}

#[test]
fn apply_mode_runs_a_safe_correction() {
    match fix_step(FixMode::Apply, &ThunderConfig::default(), &ctx("gti status", 127, "")) {
        Ok(FixStep::Run(c)) => assert_eq!(c, "git status"),
        other => panic!("unexpected {:?}", other),
    }
}

#[test]
fn without_a_rule_the_fallback_decides() {
    let unknown = ctx("frobnicate --now", 2, "");
    match fix_step(FixMode::Apply, &ThunderConfig::default(), &unknown) {
        Ok(FixStep::Thefuck(m)) => assert_eq!(m, FixMode::Apply),
        other => panic!("unexpected {:?}", other),
    }
    let mut config = ThunderConfig::default();
    config.fix.use_thefuck_fallback = false;
    match fix_step(FixMode::Suggest, &config, &unknown) {
        Err(FixError::NoCorrection(c)) => assert_eq!(c, "frobnicate --now"),
        other => panic!("unexpected {:?}", other),
    }
}

#[test]
fn apply_mode_refuses_a_dangerous_correction() {
    match fix_step(FixMode::Apply, &ThunderConfig::default(), &ctx("rm -rf /", 1, "Permission denied")) {
        Err(FixError::Unsafe(e)) => assert_eq!(e, CommandRejection::Blocked),
        other => panic!("unexpected {:?}", other),
    }
}

#[test]
fn missing_previous_command_is_reported() {
    let r = ShellContext::from_env(String::new(), None, String::new(), ".".into(), None);
    assert!(matches!(r, Err(FixError::NoPreviousCommand)));
    let r = ShellContext::from_env("ls".into(), Some("oops".into()), String::new(), ".".into(), None)
        .unwrap();
    assert_eq!(r.exit_code, 1);
    let r = ShellContext::from_env("ls".into(), Some("127".into()), String::new(), ".".into(), None)
        .unwrap();
    assert_eq!(r.exit_code, 127);
}

#[test]
fn exit_codes_parse_like_i32() {
    assert_eq!(parse_exit_code("127"), Some(127));
    assert_eq!(parse_exit_code("-1"), Some(-1));
    assert_eq!(parse_exit_code("+5"), Some(5));
    assert_eq!(parse_exit_code("2147483647"), Some(i32::MAX));
    assert_eq!(parse_exit_code("-2147483648"), Some(i32::MIN));
    assert_eq!(parse_exit_code("2147483648"), None);
    assert_eq!(parse_exit_code(""), None);
    assert_eq!(parse_exit_code("-"), None);
    assert_eq!(parse_exit_code(" 1"), None);
    assert_eq!(parse_exit_code("1a"), None);
}

#[test]
fn thefuck_output_becomes_a_correction() {
    assert_eq!(thefuck_suggestion(true, b"  git push\n"), Ok("git push".to_string()));
    assert_eq!(thefuck_suggestion(false, b"git push\n"), Err(ThefuckError::Failed));
    assert_eq!(thefuck_suggestion(true, &[0xff, 0xfe]), Err(ThefuckError::InvalidOutput));
    assert_eq!(thefuck_suggestion(true, b" \n\t"), Err(ThefuckError::Empty));
    assert_eq!(thefuck_args(FixMode::Apply), vec!["--yeah"]);
    assert!(thefuck_args(FixMode::Suggest).is_empty());
}

#[test]
fn cd_typos_go_to_the_closest_directory() {
    let ctx = ShellContext {
        command: "cd Srcc".into(),
        exit_code: 1,
        stderr: "cd: no such file or directory: Srcc".into(),
        cwd: "/w".into(),
        cwd_dirs: Some(vec!["tests".to_string(), "src".to_string(), "docs".to_string()]),
    };
    let correction = suggest_with_rules(&ctx, &ThunderConfig::default()).expect("correction");
    assert_eq!(correction.command, "cd src");
    assert_eq!(correction.rule, "cd");
    let far = ShellContext { cwd_dirs: Some(vec!["elsewhere".to_string()]), ..ctx.clone() };
    assert!(suggest_with_rules(&far, &ThunderConfig::default()).is_none());
}

#[test]
fn fix_without_a_recorded_command_fails_early() {
    let config = thunder::config::ThunderConfig::default();
    for mode in [thunder::fix::FixMode::Suggest, thunder::fix::FixMode::Apply] {
        let r = thunder::fix::fix_command(mode, &config, String::new(), None, String::new(), "/tmp".to_string(), None);
        assert!(matches!(r, Err(thunder::fix::FixError::NoPreviousCommand)));
    }
}
