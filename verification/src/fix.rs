//! Deciding what `thunder fix` does with the last failed command.
use vstd::prelude::*;

use crate::config::ThunderConfig;
use crate::fix_rules::{correction_view, native_correction, suggest_with_rules, Correction, ShellContext};
use crate::safety::{command_verdict, validate_safe_command, CommandRejection};
use crate::corpus::utf8_str;
use crate::text::{chars_of, string_of, trim, trim_exec};
use vstd::utf8::{decode_utf8, valid_utf8};

verus! {

broadcast use vstd::string::group_string_axioms;

/// Whether a correction is only shown or also run.
#[derive(Debug, Clone, Copy, PartialEq, Eq, Structural)]
pub enum FixMode {
    Suggest,
    Apply,
}

/// Why no correction could be produced.
#[derive(Debug, Clone)]
pub enum FixError {
    /// The shell integration recorded no previous command.
    NoPreviousCommand,
    /// The correction is not safe to run.
    Unsafe(CommandRejection),
    /// No rule applies and the `thefuck` fallback is off; holds the command.
    NoCorrection(String),
}

/// What to do next.
#[derive(Debug, Clone)]
pub enum FixStep {
    /// Print this correction.
    Show(String),
    /// Run this correction (already checked safe) through `sh -c`, then print it.
    Run(String),
    /// Ask `thefuck` for a correction, in this mode.
    Thefuck(FixMode),
}

/// The correction suggested by the enabled native rules.
pub fn suggest_fix(ctx: &ShellContext, config: &ThunderConfig) -> (r: Result<Option<Correction>, FixError>)
    ensures
        r matches Ok(c) && correction_view(c) == native_correction(*ctx, *config),
{
    Ok(suggest_with_rules(ctx, config))
}

/// What `fix_step` gives for the failed command in `ctx`: a native
/// correction is shown, or in apply mode run once it passes the safety
/// check; without one, `thefuck` is asked when the fallback is enabled.
pub open spec fn fix_outcome(
    mode: FixMode,
    config: ThunderConfig,
    ctx: ShellContext,
    r: Result<FixStep, FixError>,
) -> bool {
    match native_correction(ctx, config) {
        Some(c) => if mode == FixMode::Apply {
            match command_verdict(c.0) {
                None => r matches Ok(FixStep::Run(cmd)) && cmd@ == c.0,
                Some(e) => r matches Err(FixError::Unsafe(e2)) && e2 == e,
            }
        } else {
            r matches Ok(FixStep::Show(cmd)) && cmd@ == c.0
        },
        None => if config.fix.use_thefuck_fallback {
            r matches Ok(FixStep::Thefuck(m)) && m == mode
        } else {
            r matches Err(FixError::NoCorrection(cmd)) && cmd@ == ctx.command@
        },
    }
}

/// The step `thunder fix` takes for the failed command in `ctx`.
pub fn fix_step(mode: FixMode, config: &ThunderConfig, ctx: &ShellContext) -> (r: Result<FixStep, FixError>)
    ensures
        fix_outcome(mode, *config, *ctx, r),
        r matches Ok(FixStep::Run(cmd)) ==> mode == FixMode::Apply && command_verdict(cmd@) is None,
{
    match suggest_with_rules(ctx, config) {
        Some(correction) => {
            if mode == FixMode::Apply {
                match validate_safe_command(correction.command.as_str()) {
                    Ok(()) => Ok(FixStep::Run(correction.command)),
                    Err(e) => Err(FixError::Unsafe(e)),
                }
            } else {
                Ok(FixStep::Show(correction.command))
            }
        },
        None => {
            if config.fix.use_thefuck_fallback {
                Ok(FixStep::Thefuck(mode))
            } else {
                Err(FixError::NoCorrection(ctx.command.clone()))
            }
        },
    }
}

// ---------------------------------------------------------------------------
// The `thefuck` fallback
// ---------------------------------------------------------------------------

/// Why `thefuck` gave no correction.
#[derive(Debug, Clone, Copy, PartialEq, Eq, Structural)]
pub enum ThefuckError {
    /// It exited unsuccessfully.
    Failed,
    /// Its output is not UTF-8.
    InvalidOutput,
    /// Its output is only white space.
    Empty,
}

/// The arguments `thefuck` is run with: `--yeah` when applying.
pub fn thefuck_args(mode: FixMode) -> (r: Vec<&'static str>)
    ensures
        mode == FixMode::Apply ==> r@.len() == 1 && r@[0]@ == "--yeah"@,
        mode == FixMode::Suggest ==> r@.len() == 0,
{
    let mut v: Vec<&'static str> = Vec::new();
    if mode == FixMode::Apply {
        v.push("--yeah");
    }
    v
}

/// The correction `thefuck` printed: its output trimmed, when it succeeded
/// and printed UTF-8 that is not only white space.
pub open spec fn thefuck_outcome(success: bool, stdout: Seq<u8>) -> Result<Seq<char>, ThefuckError> {
    if !success {
        Err(ThefuckError::Failed)
    } else if !valid_utf8(stdout) {
        Err(ThefuckError::InvalidOutput)
    } else if trim(decode_utf8(stdout)).len() == 0 {
        Err(ThefuckError::Empty)
    } else {
        Ok(trim(decode_utf8(stdout)))
    }
}

/// The correction `thefuck` printed.
pub fn thefuck_suggestion(success: bool, stdout: &[u8]) -> (r: Result<String, ThefuckError>)
    ensures
        match thefuck_outcome(success, stdout@) {
            Ok(s) => r matches Ok(t) && t@ == s,
            Err(e) => r == Err::<String, ThefuckError>(e),
        },
{
    if !success {
        return Err(ThefuckError::Failed);
    }
    let text = match utf8_str(stdout) {
        Some(t) => t,
        None => {
            return Err(ThefuckError::InvalidOutput);
        },
    };
    let t = trim_exec(chars_of(text).as_slice());
    if t.len() == 0 {
        return Err(ThefuckError::Empty);
    }
    Ok(string_of(t.as_slice()))
}

// ---------------------------------------------------------------------------
// Exit status parsing
// ---------------------------------------------------------------------------

/// An ASCII decimal digit.
pub open spec fn is_digit(c: char) -> bool {
    '0' <= c <= '9'
}

/// The value of a string of decimal digits.
pub open spec fn digits_value(s: Seq<char>) -> int
    decreases s.len(),
{
    if s.len() == 0 {
        0
    } else {
        digits_value(s.drop_last()) * 10 + (s.last() as int - '0' as int)
    }
}

/// The length of the optional leading sign.
pub open spec fn sign_len(s: Seq<char>) -> int {
    if s.len() > 0 && (s[0] == '-' || s[0] == '+') {
        1
    } else {
        0
    }
}

/// What follows the optional sign.
pub open spec fn unsigned_part(s: Seq<char>) -> Seq<char> {
    s.subrange(sign_len(s), s.len() as int)
}

/// Every character is a decimal digit.
pub open spec fn all_digits(b: Seq<char>) -> bool {
    forall|i: int| 0 <= i < b.len() ==> is_digit(#[trigger] b[i])
}

/// `str::parse::<i32>`: an optional `+` or `-`, then one or more decimal
/// digits, whose value fits an `i32`.
pub open spec fn parse_i32(s: Seq<char>) -> Option<i32> {
    let body = unsigned_part(s);
    let v = if s.len() > 0 && s[0] == '-' {
        -digits_value(body)
    } else {
        digits_value(body)
    };
    if body.len() == 0 || !all_digits(body) {
        None
    } else if i32::MIN <= v <= i32::MAX {
        Some(v as i32)
    } else {
        None
    }
}

proof fn lemma_digits_nonneg(s: Seq<char>)
    requires
        forall|i: int| 0 <= i < s.len() ==> is_digit(#[trigger] s[i]),
    ensures
        digits_value(s) >= 0,
    decreases s.len(),
{
    if s.len() > 0 {
        lemma_digits_nonneg(s.drop_last());
    }
}

/// Digit strings only grow in value as digits are appended.
proof fn lemma_digits_monotone(s: Seq<char>, k: int)
    requires
        0 <= k <= s.len(),
        forall|i: int| 0 <= i < s.len() ==> is_digit(#[trigger] s[i]),
    ensures
        digits_value(s.take(k)) <= digits_value(s),
    decreases s.len(),
{
    if k < s.len() {
        assert(s.drop_last().take(k) =~= s.take(k));
        lemma_digits_monotone(s.drop_last(), k);
        lemma_digits_nonneg(s.drop_last());
    } else {
        assert(s.take(k) =~= s);
    }
}

/// Parse a decimal `i32` the way `str::parse::<i32>` does.
pub fn parse_exit_code(text: &str) -> (r: Option<i32>)
    ensures
        r == parse_i32(text@),
{
    let s = chars_of(text);
    let n = s.len();
    let neg = n > 0 && s[0] == '-';
    let signed = n > 0 && (s[0] == '-' || s[0] == '+');
    let start: usize = if signed {
        1
    } else {
        0
    };
    let ghost body = unsigned_part(s@);
    if start >= n {
        return None;
    }
    let mut acc: i64 = 0;
    let mut i = start;
    while i < n
        invariant
            s@ == text@,
            n == s@.len(),
            start <= i <= n,
            body == s@.subrange(start as int, n as int),
            body == unsigned_part(s@),
            neg == (s@.len() > 0 && s@[0] == '-'),
            forall|k: int| 0 <= k < i - start ==> is_digit(#[trigger] body[k]),
            acc as int == digits_value(body.take(i - start)),
            0 <= acc <= 2147483648,
        decreases n - i,
    {
        let c = s[i];
        if !('0' <= c && c <= '9') {
            assert(!is_digit(body[i - start]));
            assert(!all_digits(body));
            return None;
        }
        proof {
            let t = body.take(i - start + 1);
            assert(t.drop_last() =~= body.take(i - start));
            assert(t.last() == c);
        }
        let d = (c as u32 - '0' as u32) as i64;
        acc = acc * 10 + d;
        i = i + 1;
        assert(acc as int == digits_value(body.take(i - start)));
        if acc > 2147483648 {
            proof {
                if all_digits(body) {
                    lemma_digits_monotone(body, i - start);
                    assert(digits_value(body) > 2147483648);
                }
            }
            return None;
        }
    }
    assert(body.take(n - start) =~= body);
    if neg {
        Some((0 - acc) as i32)
    } else if acc <= 2147483647 {
        Some(acc as i32)
    } else {
        None
    }
}

/// The exit status recorded by the shell integration: the parsed number, or
/// `1` when it is missing or not a number.
pub open spec fn recorded_exit_code(last_exit: Option<String>) -> i32 {
    match last_exit {
        Some(t) => match parse_i32(t@) {
            Some(v) => v,
            None => 1,
        },
        None => 1,
    }
}

impl ShellContext {
    /// The context of the last command as the shell integration recorded it
    /// in the environment (`THUNDER_LAST_CMD`, `THUNDER_LAST_EXIT`,
    /// `THUNDER_LAST_STDERR`): its text, its exit status (`1` when missing
    /// or not a number), its stderr, and the working directory with its
    /// subdirectories.
    pub fn from_env(
        command: String,
        last_exit: Option<String>,
        stderr: String,
        cwd: String,
        cwd_dirs: Option<Vec<String>>,
    ) -> (r: Result<ShellContext, FixError>)
        ensures
            command@.len() == 0 ==> r matches Err(FixError::NoPreviousCommand),
            command@.len() > 0 ==> (r matches Ok(ctx) && ctx.command@ == command@ && ctx.stderr@
                == stderr@ && ctx.cwd@ == cwd@ && ctx.cwd_dirs == cwd_dirs && ctx.exit_code
                == recorded_exit_code(last_exit)),
    {
        if command.as_str().is_empty() {
            return Err(FixError::NoPreviousCommand);
        }
        let exit_code = match &last_exit {
            Some(t) => match parse_exit_code(t.as_str()) {
                Some(v) => v,
                None => 1,
            },
            None => 1,
        };
        Ok(ShellContext { command, exit_code, stderr, cwd, cwd_dirs })
    }
}

/// `thunder fix` from what the shell integration recorded: without a
/// previous command it fails with `NoPreviousCommand` whatever the mode
/// and the configuration (no rule is consulted and nothing is run);
/// otherwise it is `fix_step` on the recorded context.
pub fn fix_command(
    mode: FixMode,
    config: &ThunderConfig,
    command: String,
    last_exit: Option<String>,
    stderr: String,
    cwd: String,
    cwd_dirs: Option<Vec<String>>,
) -> (r: Result<FixStep, FixError>)
    ensures
        command@.len() == 0 ==> r matches Err(FixError::NoPreviousCommand),
        command@.len() > 0 ==> exists|ctx: ShellContext|
            #![trigger fix_outcome(mode, *config, ctx, r)]
            ctx.command@ == command@ && ctx.stderr@ == stderr@ && ctx.cwd@ == cwd@ && ctx.cwd_dirs
                == cwd_dirs && ctx.exit_code == recorded_exit_code(last_exit) && fix_outcome(
                mode,
                *config,
                ctx,
                r,
            ),
{
    match ShellContext::from_env(command, last_exit, stderr, cwd, cwd_dirs) {
        Ok(ctx) => fix_step(mode, config, &ctx),
        Err(e) => Err(e),
    }
}

} // verus!
