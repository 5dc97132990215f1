//! The native correction rules: each rule recognises one kind of failed
//! shell command and proposes a corrected command.
use vstd::prelude::*;

use crate::config::ThunderConfig;
use crate::text::views;
use crate::text::{
    chars_eq, chars_of, concat, contains, is_prefix, lemma_replace_first_at_start,
    lemma_replace_first_keeps_prefix, lowercase, replace_first, replace_first_exec,
    str_contains, str_eq, str_starts_with, string_of, strip_all_prefix, strip_all_prefix_exec,
    to_lowercase, trim, trim_exec,
};

verus! {

broadcast use vstd::string::group_string_axioms;

/// What is known of the command that just failed.
#[derive(Debug, Clone)]
pub struct ShellContext {
    pub command: String,
    pub exit_code: i32,
    pub stderr: String,
    pub cwd: String,
    /// The names of the directories directly inside `cwd`, in the order the
    /// file system lists them; `None` when they could not all be listed.
    pub cwd_dirs: Option<Vec<String>>,
}

/// A proposed replacement command and the rule that proposed it.
#[derive(Debug, Clone)]
pub struct Correction {
    pub command: String,
    pub rule: String,
}

/// A correction rule.
pub trait FixRule {
    /// The rule's name, as listed in `fix.enabled_rules`.
    fn name(&self) -> &'static str;

    /// Whether the rule applies to the failed command.
    fn matches(&self, ctx: &ShellContext) -> bool;

    /// The rule's correction, if it has one.
    fn suggest(&self, ctx: &ShellContext) -> Option<Correction>;
}

/// The built-in rules.
#[derive(Debug, Clone, Copy, PartialEq, Eq, Structural)]
pub enum BuiltinRule {
    Git,
    Sudo,
    Cd,
    Npm,
    Docker,
    Man,
    Python,
    Cargo,
    Pip,
    Kubectl,
    Brew,
}

// ---------------------------------------------------------------------------
// Specification
// ---------------------------------------------------------------------------

/// The built-in rules in the order they are tried.
pub open spec fn all_rules() -> Seq<BuiltinRule> {
    seq![
        BuiltinRule::Git,
        BuiltinRule::Sudo,
        BuiltinRule::Cd,
        BuiltinRule::Npm,
        BuiltinRule::Docker,
        BuiltinRule::Man,
        BuiltinRule::Python,
        BuiltinRule::Cargo,
        BuiltinRule::Pip,
        BuiltinRule::Kubectl,
        BuiltinRule::Brew,
    ]
}

/// A rule's name.
pub open spec fn rule_name(r: BuiltinRule) -> Seq<char> {
    match r {
        BuiltinRule::Git => "git"@,
        BuiltinRule::Sudo => "sudo"@,
        BuiltinRule::Cd => "cd"@,
        BuiltinRule::Npm => "npm"@,
        BuiltinRule::Docker => "docker"@,
        BuiltinRule::Man => "man"@,
        BuiltinRule::Python => "python"@,
        BuiltinRule::Cargo => "cargo"@,
        BuiltinRule::Pip => "pip"@,
        BuiltinRule::Kubectl => "kubectl"@,
        BuiltinRule::Brew => "brew"@,
    }
}

/// The smallest of three numbers.
pub open spec fn min3(x: nat, y: nat, z: nat) -> nat {
    let m = if x <= y { x } else { y };
    if m <= z { m } else { z }
}

/// The cost of substituting `y` for `x`.
pub open spec fn subst_cost(x: char, y: char) -> nat {
    if x == y {
        0
    } else {
        1
    }
}

/// The Levenshtein distance between two character sequences: the least
/// number of single-character insertions, deletions and substitutions that
/// turn one into the other.
pub open spec fn edit_distance(a: Seq<char>, b: Seq<char>) -> nat
    decreases a.len() + b.len(),
{
    if a.len() == 0 {
        b.len()
    } else if b.len() == 0 {
        a.len()
    } else {
        min3(
            edit_distance(a.drop_last(), b.drop_last()) + subst_cost(a.last(), b.last()),
            edit_distance(a.drop_last(), b) + 1,
            edit_distance(a, b.drop_last()) + 1,
        )
    }
}

/// A length that one more character could still be counted past.
pub open spec fn countable(s: Seq<char>) -> bool {
    s.len() < usize::MAX
}

/// One step of the closest-directory search: `name` replaces the best so far
/// when it is within distance 3 of the (lowercased) typo and strictly closer.
pub open spec fn closer_dir(typo_lower: Seq<char>, best: Option<(nat, Seq<char>)>, name: Seq<char>) -> Option<(nat, Seq<char>)> {
    let name_lower = lowercase(name);
    if countable(typo_lower) && countable(name_lower) {
        let d = edit_distance(typo_lower, name_lower);
        if d <= 3 && match best {
            Some(b) => d < b.0,
            None => true,
        } {
            Some((d, name))
        } else {
            best
        }
    } else {
        best
    }
}

/// The closest directory among `names`, with its distance: the first of the
/// nearest names within distance 3 of the typo, compared case-insensitively.
pub open spec fn closest_dir(typo_lower: Seq<char>, names: Seq<Seq<char>>) -> Option<(nat, Seq<char>)>
    decreases names.len(),
{
    if names.len() == 0 {
        None
    } else {
        closer_dir(typo_lower, closest_dir(typo_lower, names.drop_last()), names.last())
    }
}

/// The directory the `cd` rule proposes for the typo, if any.
pub open spec fn cd_target(ctx: ShellContext) -> Option<Seq<char>> {
    match ctx.cwd_dirs {
        None => None,
        Some(dirs) => {
            let typo = trim(strip_all_prefix(ctx.command@, "cd "@));
            match closest_dir(lowercase(typo), views(dirs@)) {
                Some(best) => Some(best.1),
                None => None,
            }
        },
    }
}

/// Whether a rule applies to the failed command.
pub open spec fn rule_matches(r: BuiltinRule, ctx: ShellContext) -> bool {
    let cmd = ctx.command@;
    let err = ctx.stderr@;
    ctx.exit_code != 0 && match r {
        BuiltinRule::Git => is_prefix("gti "@, cmd) || is_prefix("gt "@, cmd) || contains(
            err,
            "git: command not found"@,
        ),
        BuiltinRule::Sudo => (contains(err, "Permission denied"@) || contains(
            err,
            "Operation not permitted"@,
        )) && !is_prefix("sudo "@, cmd),
        BuiltinRule::Cd => is_prefix("cd "@, cmd) && (contains(err, "no such file or directory"@)
            || contains(err, "No such file or directory"@)),
        BuiltinRule::Npm => is_prefix("pm "@, cmd) || is_prefix("nom "@, cmd),
        BuiltinRule::Docker => is_prefix("doker "@, cmd),
        BuiltinRule::Man => is_prefix("man "@, cmd) && contains(err, "No manual entry"@),
        BuiltinRule::Python => is_prefix("pyhton "@, cmd) || is_prefix("pyton "@, cmd) || contains(
            err,
            "python: command not found"@,
        ),
        BuiltinRule::Cargo => is_prefix("cago "@, cmd) || is_prefix("crgo "@, cmd) || contains(
            err,
            "cargo: command not found"@,
        ),
        BuiltinRule::Pip => is_prefix("pi "@, cmd) || is_prefix("pp "@, cmd),
        BuiltinRule::Kubectl => is_prefix("kubctl "@, cmd) || is_prefix("kubeclt "@, cmd)
            || is_prefix("kbectl "@, cmd),
        BuiltinRule::Brew => is_prefix("bew "@, cmd) || is_prefix("bre "@, cmd),
    }
}

/// `s` with the first `p1` replaced by `t`, then the first `p2` replaced by `t`.
pub open spec fn replace_two(s: Seq<char>, p1: Seq<char>, p2: Seq<char>, t: Seq<char>) -> Seq<char> {
    replace_first(replace_first(s, p1, t), p2, t)
}

/// The command a rule proposes, if any.
pub open spec fn rule_suggestion(r: BuiltinRule, ctx: ShellContext) -> Option<Seq<char>> {
    let cmd = ctx.command@;
    let err = ctx.stderr@;
    match r {
        BuiltinRule::Git => {
            let fixed = replace_two(cmd, "gti "@, "gt "@, "git "@);
            if fixed != cmd {
                Some(fixed)
            } else if contains(err, "git: command not found"@) {
                Some("brew install git"@)
            } else {
                None
            }
        },
        BuiltinRule::Sudo => Some("sudo "@ + cmd),
        BuiltinRule::Cd => match cd_target(ctx) {
            Some(dir) => Some("cd "@ + dir),
            None => None,
        },
        BuiltinRule::Npm => Some(replace_two(cmd, "pm "@, "nom "@, "npm "@)),
        BuiltinRule::Docker => Some(replace_first(cmd, "doker "@, "docker "@)),
        BuiltinRule::Man => Some("help "@ + trim(strip_all_prefix(cmd, "man "@))),
        BuiltinRule::Python => if contains(err, "python: command not found"@) {
            Some(replace_first(cmd, "python"@, "python3"@))
        } else {
            Some(replace_two(cmd, "pyhton "@, "pyton "@, "python3 "@))
        },
        BuiltinRule::Cargo => if contains(err, "cargo: command not found"@) {
            Some("rustup update stable && cargo --version"@)
        } else {
            Some(replace_two(cmd, "cago "@, "crgo "@, "cargo "@))
        },
        BuiltinRule::Pip => Some(replace_two(cmd, "pi "@, "pp "@, "pip3 "@)),
        BuiltinRule::Kubectl => Some(
            replace_first(replace_two(cmd, "kubctl "@, "kubeclt "@, "kubectl "@), "kbectl "@, "kubectl "@),
        ),
        BuiltinRule::Brew => Some(replace_two(cmd, "bew "@, "bre "@, "brew "@)),
    }
}

/// Whether a rule is enabled by the configured rule names (an empty list
/// enables every rule).
pub open spec fn rule_enabled(r: BuiltinRule, names: Seq<Seq<char>>) -> bool {
    names.len() == 0 || names.contains(rule_name(r))
}

/// The rules of `rules` that are enabled, in order.
pub open spec fn enabled_among(rules: Seq<BuiltinRule>, names: Seq<Seq<char>>) -> Seq<BuiltinRule>
    decreases rules.len(),
{
    if rules.len() == 0 {
        Seq::empty()
    } else {
        let kept = enabled_among(rules.drop_last(), names);
        if rule_enabled(rules.last(), names) {
            kept.push(rules.last())
        } else {
            kept
        }
    }
}

/// The first correction offered by `rules` in order: the first rule that
/// matches and has a suggestion; as (command, rule name).
pub open spec fn first_correction(rules: Seq<BuiltinRule>, ctx: ShellContext) -> Option<(Seq<char>, Seq<char>)>
    decreases rules.len(),
{
    if rules.len() == 0 {
        None
    } else if rule_matches(rules[0], ctx) && rule_suggestion(rules[0], ctx) is Some {
        Some((rule_suggestion(rules[0], ctx)->0, rule_name(rules[0])))
    } else {
        first_correction(rules.drop_first(), ctx)
    }
}

/// The correction the native rules give for `ctx` under `config`.
pub open spec fn native_correction(ctx: ShellContext, config: ThunderConfig) -> Option<(Seq<char>, Seq<char>)> {
    first_correction(enabled_among(all_rules(), views(config.fix.enabled_rules@)), ctx)
}

/// The view of an optional correction.
pub open spec fn correction_view(c: Option<Correction>) -> Option<(Seq<char>, Seq<char>)> {
    match c {
        Some(c) => Some((c.command@, c.rule@)),
        None => None,
    }
}

/// A correction found among `rules` comes from one of them that matches.
proof fn lemma_first_correction_source(rules: Seq<BuiltinRule>, ctx: ShellContext)
    ensures
        first_correction(rules, ctx) matches Some((c, n)) ==> exists|i: int|
            0 <= i < rules.len() && #[trigger] rule_name(rules[i]) == n && rule_matches(rules[i], ctx),
    decreases rules.len(),
{
    if rules.len() > 0 {
        lemma_first_correction_source(rules.drop_first(), ctx);
        if !(rule_matches(rules[0], ctx) && rule_suggestion(rules[0], ctx) is Some) {
            if let Some((c, n)) = first_correction(rules, ctx) {
                let i = choose|i: int|
                    0 <= i < rules.drop_first().len() && #[trigger] rule_name(rules.drop_first()[i])
                        == n && rule_matches(rules.drop_first()[i], ctx);
                assert(rules[i + 1] == rules.drop_first()[i]);
                assert(rule_name(rules[i + 1]) == n);
            }
        } else {
            let found = first_correction(rules, ctx)->0;
            assert(rule_name(rules[0]) == found.1);
        }
    }
}

/// The enabled rules are among the given ones and enabled.
proof fn lemma_enabled_among(rules: Seq<BuiltinRule>, names: Seq<Seq<char>>)
    ensures
        forall|i: int|
            0 <= i < enabled_among(rules, names).len() ==> rule_enabled(
                #[trigger] enabled_among(rules, names)[i],
                names,
            ),
    decreases rules.len(),
{
    if rules.len() > 0 {
        lemma_enabled_among(rules.drop_last(), names);
        let kept = enabled_among(rules.drop_last(), names);
        assert forall|i: int| 0 <= i < enabled_among(rules, names).len() implies rule_enabled(
            #[trigger] enabled_among(rules, names)[i],
            names,
        ) by {
            if i < kept.len() {
                assert(enabled_among(rules, names)[i] == kept[i]);
            }
        }
    }
}

/// The native rules only correct a command that failed, and only with a
/// rule that the configuration enables (all of them when it lists none).
pub proof fn lemma_corrections_need_failure_and_enabled_rule(ctx: ShellContext, config: ThunderConfig)
    ensures
        native_correction(ctx, config) is Some ==> ctx.exit_code != 0,
        native_correction(ctx, config) matches Some((c, n)) ==> config.fix.enabled_rules@.len() == 0
            || views(config.fix.enabled_rules@).contains(n),
{
    let names = views(config.fix.enabled_rules@);
    let rules = enabled_among(all_rules(), names);
    lemma_first_correction_source(rules, ctx);
    lemma_enabled_among(all_rules(), names);
    if let Some((c, n)) = native_correction(ctx, config) {
        let i = choose|i: int|
            0 <= i < rules.len() && #[trigger] rule_name(rules[i]) == n && rule_matches(rules[i], ctx);
        assert(rule_enabled(rules[i], names));
    }
}

// ---------------------------------------------------------------------------
// Edit distance
// ---------------------------------------------------------------------------

/// The edit distance is at most the longer length.
proof fn lemma_edit_distance_bound(a: Seq<char>, b: Seq<char>)
    ensures
        edit_distance(a, b) <= if a.len() >= b.len() { a.len() } else { b.len() },
    decreases a.len() + b.len(),
{
    if a.len() > 0 && b.len() > 0 {
        lemma_edit_distance_bound(a.drop_last(), b.drop_last());
    }
}

/// One cell of the distance table: from the row of `a.take(i)` to the row of
/// `a.take(i + 1)`.
proof fn lemma_edit_distance_cell(a: Seq<char>, b: Seq<char>, i: int, j: int)
    requires
        0 <= i < a.len(),
        0 <= j < b.len(),
    ensures
        edit_distance(a.take(i + 1), b.take(j + 1)) == min3(
            edit_distance(a.take(i), b.take(j)) + subst_cost(a[i], b[j]),
            edit_distance(a.take(i), b.take(j + 1)) + 1,
            edit_distance(a.take(i + 1), b.take(j)) + 1,
        ),
{
    let a1 = a.take(i + 1);
    let b1 = b.take(j + 1);
    assert(a1.drop_last() =~= a.take(i));
    assert(b1.drop_last() =~= b.take(j));
    assert(a1.last() == a[i]);
    assert(b1.last() == b[j]);
}

/// The Levenshtein distance, by the two-row table.
fn levenshtein(a: &[char], b: &[char]) -> (d: usize)
    requires
        a@.len() < usize::MAX,
        b@.len() < usize::MAX,
    ensures
        d == edit_distance(a@, b@),
{
    let n = a.len();
    let m = b.len();
    let mut prev: Vec<usize> = Vec::new();
    let mut j: usize = 0;
    while j <= m
        invariant
            m == b@.len(),
            m < usize::MAX,
            j <= m + 1,
            prev@.len() == j,
            forall|k: int| 0 <= k < j ==> prev@[k] == edit_distance(a@.take(0), b@.take(k)),
        decreases m + 1 - j,
    {
        proof {
            assert(a@.take(0).len() == 0);
        }
        prev.push(j);
        j = j + 1;
    }
    let mut i: usize = 0;
    while i < n
        invariant
            n == a@.len(),
            m == b@.len(),
            n < usize::MAX,
            m < usize::MAX,
            i <= n,
            prev@.len() == m + 1,
            forall|k: int| 0 <= k <= m ==> prev@[k] == edit_distance(a@.take(i as int), b@.take(k)),
        decreases n - i,
    {
        let mut cur: Vec<usize> = Vec::new();
        proof {
            assert(b@.take(0).len() == 0);
        }
        cur.push(i + 1);
        let mut jj: usize = 0;
        while jj < m
            invariant
                n == a@.len(),
                m == b@.len(),
                n < usize::MAX,
                m < usize::MAX,
                i < n,
                jj <= m,
                prev@.len() == m + 1,
                forall|k: int|
                    0 <= k <= m ==> prev@[k] == edit_distance(a@.take(i as int), b@.take(k)),
                cur@.len() == jj + 1,
                forall|k: int|
                    0 <= k <= jj ==> cur@[k] == edit_distance(a@.take(i + 1), b@.take(k)),
            decreases m - jj,
        {
            proof {
                lemma_edit_distance_cell(a@, b@, i as int, jj as int);
                lemma_edit_distance_bound(a@.take(i as int), b@.take(jj as int));
                lemma_edit_distance_bound(a@.take(i as int), b@.take(jj + 1));
                lemma_edit_distance_bound(a@.take(i + 1), b@.take(jj as int));
            }
            let cost: usize = if a[i] == b[jj] {
                0
            } else {
                1
            };
            let x = prev[jj] + cost;
            let y = cur[jj] + 1;
            let z = prev[jj + 1] + 1;
            let mut best = if x <= y {
                x
            } else {
                y
            };
            if z < best {
                best = z;
            }
            cur.push(best);
            jj = jj + 1;
        }
        prev = cur;
        i = i + 1;
    }
    proof {
        assert(a@.take(n as int) =~= a@);
        assert(b@.take(m as int) =~= b@);
    }
    prev[m]
}

/// The closest directory to the typo among `names`, compared case-insensitively.
fn find_closest_dir(names: &Vec<String>, typo: &str) -> (r: Option<String>)
    ensures
        r matches Some(s) ==> closest_dir(lowercase(typo@), views(names@)) matches Some(b) && s@
            == b.1,
        r is None ==> closest_dir(lowercase(typo@), views(names@)) is None,
{
    let typo_lower = to_lowercase(typo);
    let tl = chars_of(typo_lower.as_str());
    let mut best: Option<(usize, String)> = None;
    let mut i: usize = 0;
    while i < names.len()
        invariant
            tl@ == lowercase(typo@),
            i <= names@.len(),
            match best {
                Some(b) => closest_dir(tl@, views(names@.take(i as int))) == Some(
                    (b.0 as nat, b.1@),
                ),
                None => closest_dir(tl@, views(names@.take(i as int))) is None,
            },
        decreases names@.len() - i,
    {
        proof {
            assert(views(names@.take(i + 1)).drop_last() =~= views(names@.take(i as int)));
            assert(views(names@.take(i + 1)).last() == names@[i as int]@);
        }
        let name = &names[i];
        let name_lower = to_lowercase(name.as_str());
        let nl = chars_of(name_lower.as_str());
        if tl.len() < usize::MAX && nl.len() < usize::MAX {
            let dist = levenshtein(tl.as_slice(), nl.as_slice());
            if dist <= 3 {
                let closer = match &best {
                    None => true,
                    Some(b) => dist < b.0,
                };
                if closer {
                    best = Some((dist, name.clone()));
                }
            }
        }
        i = i + 1;
    }
    proof {
        assert(names@.take(names@.len() as int) =~= names@);
    }
    match best {
        Some(b) => Some(b.1),
        None => None,
    }
}

// ---------------------------------------------------------------------------
// Rules
// ---------------------------------------------------------------------------

/// `s` with the first `p1` replaced by `t`, then the first `p2` replaced by `t`.
fn replace_two_exec(s: &str, p1: &str, p2: &str, t: &str) -> (r: String)
    ensures
        r@ == replace_two(s@, p1@, p2@, t@),
{
    let sc = chars_of(s);
    let c1 = chars_of(p1);
    let c2 = chars_of(p2);
    let tc = chars_of(t);
    let f1 = replace_first_exec(sc.as_slice(), c1.as_slice(), tc.as_slice());
    let f2 = replace_first_exec(f1.as_slice(), c2.as_slice(), tc.as_slice());
    string_of(f2.as_slice())
}

/// `s` with the first `p` replaced by `t`.
fn replace_one_exec(s: &str, p: &str, t: &str) -> (r: String)
    ensures
        r@ == replace_first(s@, p@, t@),
{
    let sc = chars_of(s);
    let pc = chars_of(p);
    let tc = chars_of(t);
    let f = replace_first_exec(sc.as_slice(), pc.as_slice(), tc.as_slice());
    string_of(f.as_slice())
}

/// `trim(s.trim_start_matches(p))`.
fn strip_and_trim(s: &str, p: &str) -> (r: String)
    ensures
        r@ == trim(strip_all_prefix(s@, p@)),
{
    let sc = chars_of(s);
    let pc = chars_of(p);
    let stripped = strip_all_prefix_exec(sc.as_slice(), pc.as_slice());
    let t = trim_exec(stripped.as_slice());
    string_of(t.as_slice())
}

impl BuiltinRule {
    /// The rule's name.
    pub fn rule_name_str(&self) -> (r: &'static str)
        ensures
            r@ == rule_name(*self),
    {
        match self {
            BuiltinRule::Git => "git",
            BuiltinRule::Sudo => "sudo",
            BuiltinRule::Cd => "cd",
            BuiltinRule::Npm => "npm",
            BuiltinRule::Docker => "docker",
            BuiltinRule::Man => "man",
            BuiltinRule::Python => "python",
            BuiltinRule::Cargo => "cargo",
            BuiltinRule::Pip => "pip",
            BuiltinRule::Kubectl => "kubectl",
            BuiltinRule::Brew => "brew",
        }
    }

    /// Whether the rule applies to the failed command.
    pub fn rule_applies(&self, ctx: &ShellContext) -> (b: bool)
        ensures
            b == rule_matches(*self, *ctx),
    {
        if ctx.exit_code == 0 {
            return false;
        }
        let cmd = ctx.command.as_str();
        let err = ctx.stderr.as_str();
        match self {
            BuiltinRule::Git => str_starts_with(cmd, "gti ") || str_starts_with(cmd, "gt ")
                || str_contains(err, "git: command not found"),
            BuiltinRule::Sudo => (str_contains(err, "Permission denied") || str_contains(
                err,
                "Operation not permitted",
            )) && !str_starts_with(cmd, "sudo "),
            BuiltinRule::Cd => str_starts_with(cmd, "cd ") && (str_contains(
                err,
                "no such file or directory",
            ) || str_contains(err, "No such file or directory")),
            BuiltinRule::Npm => str_starts_with(cmd, "pm ") || str_starts_with(cmd, "nom "),
            BuiltinRule::Docker => str_starts_with(cmd, "doker "),
            BuiltinRule::Man => str_starts_with(cmd, "man ") && str_contains(err, "No manual entry"),
            BuiltinRule::Python => str_starts_with(cmd, "pyhton ") || str_starts_with(cmd, "pyton ")
                || str_contains(err, "python: command not found"),
            BuiltinRule::Cargo => str_starts_with(cmd, "cago ") || str_starts_with(cmd, "crgo ")
                || str_contains(err, "cargo: command not found"),
            BuiltinRule::Pip => str_starts_with(cmd, "pi ") || str_starts_with(cmd, "pp "),
            BuiltinRule::Kubectl => str_starts_with(cmd, "kubctl ") || str_starts_with(
                cmd,
                "kubeclt ",
            ) || str_starts_with(cmd, "kbectl "),
            BuiltinRule::Brew => str_starts_with(cmd, "bew ") || str_starts_with(cmd, "bre "),
        }
    }

    /// The command the rule proposes, if any.
    pub fn suggestion(&self, ctx: &ShellContext) -> (r: Option<String>)
        ensures
            r matches Some(c) ==> rule_suggestion(*self, *ctx) == Some(c@),
            r is None ==> rule_suggestion(*self, *ctx) is None,
    {
        let cmd = ctx.command.as_str();
        let err = ctx.stderr.as_str();
        match self {
            BuiltinRule::Git => {
                let fixed = replace_two_exec(cmd, "gti ", "gt ", "git ");
                if !str_eq(fixed.as_str(), cmd) {
                    Some(fixed)
                } else if str_contains(err, "git: command not found") {
                    Some(String::from_str("brew install git"))
                } else {
                    None
                }
            },
            BuiltinRule::Sudo => Some(concat("sudo ", cmd)),
            BuiltinRule::Cd => match &ctx.cwd_dirs {
                None => None,
                Some(dirs) => {
                    let target = strip_and_trim(cmd, "cd ");
                    match find_closest_dir(dirs, target.as_str()) {
                        Some(best) => Some(concat("cd ", best.as_str())),
                        None => None,
                    }
                },
            },
            BuiltinRule::Npm => Some(replace_two_exec(cmd, "pm ", "nom ", "npm ")),
            BuiltinRule::Docker => Some(replace_one_exec(cmd, "doker ", "docker ")),
            BuiltinRule::Man => {
                let topic = strip_and_trim(cmd, "man ");
                Some(concat("help ", topic.as_str()))
            },
            BuiltinRule::Python => if str_contains(err, "python: command not found") {
                Some(replace_one_exec(cmd, "python", "python3"))
            } else {
                Some(replace_two_exec(cmd, "pyhton ", "pyton ", "python3 "))
            },
            BuiltinRule::Cargo => if str_contains(err, "cargo: command not found") {
                Some(String::from_str("rustup update stable && cargo --version"))
            } else {
                Some(replace_two_exec(cmd, "cago ", "crgo ", "cargo "))
            },
            BuiltinRule::Pip => Some(replace_two_exec(cmd, "pi ", "pp ", "pip3 ")),
            BuiltinRule::Kubectl => {
                let two = replace_two_exec(cmd, "kubctl ", "kubeclt ", "kubectl ");
                Some(replace_one_exec(two.as_str(), "kbectl ", "kubectl "))
            },
            BuiltinRule::Brew => Some(replace_two_exec(cmd, "bew ", "bre ", "brew ")),
        }
    }
}

impl FixRule for BuiltinRule {
    fn name(&self) -> (r: &'static str)
        ensures
            r@ == rule_name(*self),
    {
        self.rule_name_str()
    }

    fn matches(&self, ctx: &ShellContext) -> (b: bool)
        ensures
            b == rule_matches(*self, *ctx),
    {
        self.rule_applies(ctx)
    }

    fn suggest(&self, ctx: &ShellContext) -> (r: Option<Correction>)
        ensures
            correction_view(r) == match rule_suggestion(*self, *ctx) {
                Some(c) => Some((c, rule_name(*self))),
                None => None,
            },
    {
        match self.suggestion(ctx) {
            Some(command) => Some(Correction { command, rule: String::from_str(self.rule_name_str()) }),
            None => None,
        }
    }
}

/// The built-in rules in the order they are tried.
pub fn builtin_rules() -> (r: Vec<BuiltinRule>)
    ensures
        r@ == all_rules(),
{
    let mut v: Vec<BuiltinRule> = Vec::new();
    v.push(BuiltinRule::Git);
    v.push(BuiltinRule::Sudo);
    v.push(BuiltinRule::Cd);
    v.push(BuiltinRule::Npm);
    v.push(BuiltinRule::Docker);
    v.push(BuiltinRule::Man);
    v.push(BuiltinRule::Python);
    v.push(BuiltinRule::Cargo);
    v.push(BuiltinRule::Pip);
    v.push(BuiltinRule::Kubectl);
    v.push(BuiltinRule::Brew);
    assert(v@ =~= all_rules());
    v
}

/// Whether `names` lists `name`.
fn lists_name(names: &Vec<String>, name: &str) -> (b: bool)
    ensures
        b == views(names@).contains(name@),
{
    let mut i: usize = 0;
    while i < names.len()
        invariant
            i <= names@.len(),
            forall|k: int| 0 <= k < i ==> names@[k]@ != name@,
        decreases names@.len() - i,
    {
        if str_eq(names[i].as_str(), name) {
            assert(views(names@)[i as int] == name@);
            return true;
        }
        i = i + 1;
    }
    proof {
        if views(names@).contains(name@) {
            let k = choose|k: int| 0 <= k < views(names@).len() && views(names@)[k] == name@;
            assert(names@[k]@ == name@);
        }
    }
    false
}

/// The rules enabled by the configuration, in the built-in order.
pub fn enabled_rules(config: &ThunderConfig) -> (r: Vec<BuiltinRule>)
    ensures
        r@ == enabled_among(all_rules(), views(config.fix.enabled_rules@)),
{
    let all = builtin_rules();
    let names = &config.fix.enabled_rules;
    let ghost nv = views(names@);
    let mut out: Vec<BuiltinRule> = Vec::new();
    let mut i: usize = 0;
    while i < all.len()
        invariant
            all@ == all_rules(),
            nv == views(names@),
            i <= all@.len(),
            out@ == enabled_among(all@.take(i as int), nv),
        decreases all@.len() - i,
    {
        proof {
            assert(all@.take(i + 1).drop_last() =~= all@.take(i as int));
        }
        let rule = all[i];
        let keep = names.len() == 0 || lists_name(names, rule.rule_name_str());
        if keep {
            out.push(rule);
        }
        i = i + 1;
    }
    proof {
        assert(all@.take(all@.len() as int) =~= all@);
    }
    out
}

/// The first correction from the enabled rules: the first rule, in order,
/// that matches the failed command and has a suggestion.
pub fn suggest_with_rules(ctx: &ShellContext, config: &ThunderConfig) -> (r: Option<Correction>)
    ensures
        correction_view(r) == native_correction(*ctx, *config),
{
    let rules = enabled_rules(config);
    let ghost rs = rules@;
    let mut i: usize = 0;
    assert(rs.skip(0) =~= rs);
    while i < rules.len()
        invariant
            rs == rules@,
            rs == enabled_among(all_rules(), views(config.fix.enabled_rules@)),
            i <= rs.len(),
            first_correction(rs, *ctx) == first_correction(rs.skip(i as int), *ctx),
        decreases rs.len() - i,
    {
        proof {
            assert(rs.skip(i as int).drop_first() =~= rs.skip(i + 1));
            assert(rs.skip(i as int)[0] == rs[i as int]);
        }
        let rule = rules[i];
        if rule.rule_applies(ctx) {
            if let Some(command) = rule.suggestion(ctx) {
                assert(rs.skip(i as int).len() > 0);
                let name = String::from_str(rule.rule_name_str());
                return Some(Correction { command, rule: name });
            }
        }
        i = i + 1;
    }
    None
}


// ---------------------------------------------------------------------------
// Typo corrections
// ---------------------------------------------------------------------------

/// `p` cannot begin inside the text `w`: some character of `w` differs
/// from `p` at the same place, and no later character of `w` starts `p`
/// (looking at `p`'s first two characters).
pub open spec fn cannot_start_in(w: Seq<char>, p: Seq<char>) -> bool {
    &&& exists|k: int| 0 <= k < w.len() && k < p.len() && w[k] != p[k]
    &&& forall|j: int|
        1 <= j < w.len() ==> #[trigger] w[j] != p[0] || (j + 1 < w.len() && p.len() > 1 && w[j + 1] != p[1])
}

/// Replacing a pattern the text starts with leaves it starting with the replacement.
proof fn lemma_starts_with_replacement(s: Seq<char>, p: Seq<char>, t: Seq<char>)
    requires
        is_prefix(p, s),
    ensures
        is_prefix(t, replace_first(s, p, t)),
{
    lemma_replace_first_at_start(s, p, t);
    let r = replace_first(s, p, t);
    assert(r.subrange(0, t.len() as int) =~= t);
}

/// Texts that start with words differing at a common position differ.
proof fn lemma_differs(f: Seq<char>, cmd: Seq<char>, w: Seq<char>, u: Seq<char>, k: int)
    requires
        is_prefix(w, f),
        is_prefix(u, cmd),
        0 <= k < w.len(),
        k < u.len(),
        w[k] != u[k],
    ensures
        f != cmd,
{
    assert(f.subrange(0, w.len() as int)[k] == f[k]);
    assert(cmd.subrange(0, u.len() as int)[k] == cmd[k]);
}

/// Replacing `p1`, then `p2`, by `t` in a text that starts with `p1` or
/// with `p2` leaves it starting with `t`.
proof fn lemma_two_typos(s: Seq<char>, p1: Seq<char>, p2: Seq<char>, t: Seq<char>)
    requires
        p1.len() > 0,
        p2.len() > 0,
        is_prefix(p1, s) || is_prefix(p2, s),
        cannot_start_in(t, p2),
        cannot_start_in(p2, p1),
    ensures
        is_prefix(t, replace_two(s, p1, p2, t)),
{
    let s1 = replace_first(s, p1, t);
    if is_prefix(p1, s) {
        lemma_starts_with_replacement(s, p1, t);
        lemma_replace_first_keeps_prefix(s1, p2, t, t);
    } else {
        lemma_replace_first_keeps_prefix(s, p1, t, p2);
        lemma_starts_with_replacement(s1, p2, t);
    }
}

/// The rule proposes a command that starts with `word` and is not the
/// failed command itself.
pub open spec fn proposes_fix_starting(r: BuiltinRule, ctx: ShellContext, word: Seq<char>) -> bool {
    match rule_suggestion(r, ctx) {
        Some(f) => is_prefix(word, f) && f != ctx.command@,
        None => false,
    }
}

/// A typo of a command word at the start of a failed command is corrected:
/// the rule that recognises it proposes a command that starts with the
/// right word (`gti `/`gt ` → `git `, `pm `/`nom ` → `npm `, `doker ` →
/// `docker `, `pyhton `/`pyton ` → `python3 `, `cago `/`crgo ` → `cargo `,
/// `pi `/`pp ` → `pip3 `, `kubctl `/`kubeclt `/`kbectl ` → `kubectl `,
/// `bew `/`bre ` → `brew `), so never the failed command itself. (`python`
/// and `cargo` propose other fixes when the shell reported them missing.)
pub proof fn lemma_typo_prefix_corrected(ctx: ShellContext)
    ensures
        is_prefix("gti "@, ctx.command@) || is_prefix("gt "@, ctx.command@) ==> proposes_fix_starting(
            BuiltinRule::Git,
            ctx,
            "git "@,
        ),
        is_prefix("pm "@, ctx.command@) || is_prefix("nom "@, ctx.command@) ==> proposes_fix_starting(
            BuiltinRule::Npm,
            ctx,
            "npm "@,
        ),
        is_prefix("doker "@, ctx.command@) ==> proposes_fix_starting(BuiltinRule::Docker, ctx, "docker "@),
        (is_prefix("pyhton "@, ctx.command@) || is_prefix("pyton "@, ctx.command@)) && !contains(
            ctx.stderr@,
            "python: command not found"@,
        ) ==> proposes_fix_starting(BuiltinRule::Python, ctx, "python3 "@),
        (is_prefix("cago "@, ctx.command@) || is_prefix("crgo "@, ctx.command@)) && !contains(
            ctx.stderr@,
            "cargo: command not found"@,
        ) ==> proposes_fix_starting(BuiltinRule::Cargo, ctx, "cargo "@),
        is_prefix("pi "@, ctx.command@) || is_prefix("pp "@, ctx.command@) ==> proposes_fix_starting(
            BuiltinRule::Pip,
            ctx,
            "pip3 "@,
        ),
        is_prefix("kubctl "@, ctx.command@) || is_prefix("kubeclt "@, ctx.command@) || is_prefix(
            "kbectl "@,
            ctx.command@,
        ) ==> proposes_fix_starting(BuiltinRule::Kubectl, ctx, "kubectl "@),
        is_prefix("bew "@, ctx.command@) || is_prefix("bre "@, ctx.command@) ==> proposes_fix_starting(
            BuiltinRule::Brew,
            ctx,
            "brew "@,
        ),
{
    let cmd = ctx.command@;
    reveal_strlit("gti ");
    reveal_strlit("gt ");
    reveal_strlit("git ");
    reveal_strlit("pm ");
    reveal_strlit("nom ");
    reveal_strlit("npm ");
    reveal_strlit("doker ");
    reveal_strlit("docker ");
    reveal_strlit("pyhton ");
    reveal_strlit("pyton ");
    reveal_strlit("python3 ");
    reveal_strlit("cago ");
    reveal_strlit("crgo ");
    reveal_strlit("cargo ");
    reveal_strlit("pi ");
    reveal_strlit("pp ");
    reveal_strlit("pip3 ");
    reveal_strlit("kubctl ");
    reveal_strlit("kubeclt ");
    reveal_strlit("kbectl ");
    reveal_strlit("kubectl ");
    reveal_strlit("bew ");
    reveal_strlit("bre ");
    reveal_strlit("brew ");
    if is_prefix("gti "@, cmd) || is_prefix("gt "@, cmd) {
        assert("git "@[1] != "gt "@[1]);
        assert("gt "@[2] != "gti "@[2]);
        lemma_two_typos(cmd, "gti "@, "gt "@, "git "@);
        let f = replace_two(cmd, "gti "@, "gt "@, "git "@);
        if is_prefix("gti "@, cmd) {
            lemma_differs(f, cmd, "git "@, "gti "@, 1);
        } else {
            lemma_differs(f, cmd, "git "@, "gt "@, 1);
        }
    }
    if is_prefix("pm "@, cmd) || is_prefix("nom "@, cmd) {
        assert("npm "@[1] != "nom "@[1]);
        assert("nom "@[0] != "pm "@[0]);
        lemma_two_typos(cmd, "pm "@, "nom "@, "npm "@);
        let f = replace_two(cmd, "pm "@, "nom "@, "npm "@);
        if is_prefix("pm "@, cmd) {
            lemma_differs(f, cmd, "npm "@, "pm "@, 0);
        } else if is_prefix("nom "@, cmd) {
            lemma_differs(f, cmd, "npm "@, "nom "@, 1);
        }
    }
    if is_prefix("doker "@, cmd) {
        lemma_starts_with_replacement(cmd, "doker "@, "docker "@);
        let f = replace_first(cmd, "doker "@, "docker "@);
        if is_prefix("doker "@, cmd) {
            lemma_differs(f, cmd, "docker "@, "doker "@, 2);
        }
    }
    if is_prefix("pyhton "@, cmd) || is_prefix("pyton "@, cmd) {
        assert("python3 "@[3] != "pyton "@[3]);
        assert("pyton "@[2] != "pyhton "@[2]);
        lemma_two_typos(cmd, "pyhton "@, "pyton "@, "python3 "@);
        let f = replace_two(cmd, "pyhton "@, "pyton "@, "python3 "@);
        if is_prefix("pyhton "@, cmd) {
            lemma_differs(f, cmd, "python3 "@, "pyhton "@, 2);
        } else if is_prefix("pyton "@, cmd) {
            lemma_differs(f, cmd, "python3 "@, "pyton "@, 3);
        }
    }
    if is_prefix("cago "@, cmd) || is_prefix("crgo "@, cmd) {
        assert("cargo "@[1] != "crgo "@[1]);
        assert("crgo "@[1] != "cago "@[1]);
        lemma_two_typos(cmd, "cago "@, "crgo "@, "cargo "@);
        let f = replace_two(cmd, "cago "@, "crgo "@, "cargo "@);
        if is_prefix("cago "@, cmd) {
            lemma_differs(f, cmd, "cargo "@, "cago "@, 2);
        } else if is_prefix("crgo "@, cmd) {
            lemma_differs(f, cmd, "cargo "@, "crgo "@, 1);
        }
    }
    if is_prefix("pi "@, cmd) || is_prefix("pp "@, cmd) {
        assert("pip3 "@[1] != "pp "@[1]);
        assert("pp "@[1] != "pi "@[1]);
        lemma_two_typos(cmd, "pi "@, "pp "@, "pip3 "@);
        let f = replace_two(cmd, "pi "@, "pp "@, "pip3 "@);
        if is_prefix("pi "@, cmd) {
            lemma_differs(f, cmd, "pip3 "@, "pi "@, 2);
        } else if is_prefix("pp "@, cmd) {
            lemma_differs(f, cmd, "pip3 "@, "pp "@, 1);
        }
    }
    if is_prefix("kubctl "@, cmd) || is_prefix("kubeclt "@, cmd) || is_prefix("kbectl "@, cmd) {
        let k = "kubectl "@;
        let s2 = replace_two(cmd, "kubctl "@, "kubeclt "@, k);
        assert(k[1] != "kbectl "@[1]);
        if is_prefix("kubctl "@, cmd) || is_prefix("kubeclt "@, cmd) {
            assert(k[5] != "kubeclt "@[5]);
            assert("kubeclt "@[4] != "kubctl "@[4]);
            lemma_two_typos(cmd, "kubctl "@, "kubeclt "@, k);
            lemma_replace_first_keeps_prefix(s2, "kbectl "@, k, k);
        } else {
            let s1 = replace_first(cmd, "kubctl "@, k);
            assert("kbectl "@[1] != "kubctl "@[1]);
            assert("kbectl "@[1] != "kubeclt "@[1]);
            lemma_replace_first_keeps_prefix(cmd, "kubctl "@, k, "kbectl "@);
            lemma_replace_first_keeps_prefix(s1, "kubeclt "@, k, "kbectl "@);
            lemma_starts_with_replacement(s2, "kbectl "@, k);
        }
        let f = replace_first(s2, "kbectl "@, k);
        if is_prefix("kubctl "@, cmd) {
            lemma_differs(f, cmd, k, "kubctl "@, 3);
        } else if is_prefix("kubeclt "@, cmd) {
            lemma_differs(f, cmd, k, "kubeclt "@, 5);
        } else {
            lemma_differs(f, cmd, k, "kbectl "@, 1);
        }
    }
    if is_prefix("bew "@, cmd) || is_prefix("bre "@, cmd) {
        assert("brew "@[3] != "bre "@[3]);
        assert("bre "@[1] != "bew "@[1]);
        lemma_two_typos(cmd, "bew "@, "bre "@, "brew "@);
        let f = replace_two(cmd, "bew "@, "bre "@, "brew "@);
        if is_prefix("bew "@, cmd) {
            lemma_differs(f, cmd, "brew "@, "bew "@, 1);
        } else if is_prefix("bre "@, cmd) {
            lemma_differs(f, cmd, "brew "@, "bre "@, 3);
        }
    }
}

/// `kbectl ` at the start of a failed command that holds neither `kubctl `
/// nor `kubeclt ` is replaced by `kubectl `, and the rest is kept.
pub proof fn lemma_kbectl_corrected(ctx: ShellContext, rest: Seq<char>)
    requires
        ctx.command@ == "kbectl "@ + rest,
        !contains(ctx.command@, "kubctl "@),
        !contains(ctx.command@, "kubeclt "@),
    ensures
        rule_suggestion(BuiltinRule::Kubectl, ctx) == Some("kubectl "@ + rest),
{
    let cmd = ctx.command@;
    reveal_strlit("kbectl ");
    crate::text::lemma_replace_first_absent(cmd, "kubctl "@, "kubectl "@);
    crate::text::lemma_replace_first_absent(cmd, "kubeclt "@, "kubectl "@);
    assert(cmd.subrange(0, 7) =~= "kbectl "@);
    lemma_replace_first_at_start(cmd, "kbectl "@, "kubectl "@);
    assert(cmd.subrange(7, cmd.len() as int) =~= rest);
}

} // verus!
