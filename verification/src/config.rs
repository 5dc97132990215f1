//! Configuration model, its defaults, the theme and preview resolution, and
//! the locations of Thunder's files.
use std::collections::hash_map::DefaultHasher;
use std::hash::{Hash, Hasher};
use std::path::Path;
use vstd::prelude::*;

use crate::safety::{first_token_in, forbidden_tokens, preview_verdict};
use crate::text::{chars_of, concat, contains, occurs_at, string_of, str_eq, views};

verus! {

broadcast use vstd::string::group_string_axioms;

/// Palette plugin hooks and provider settings.
#[derive(Debug, Clone)]
pub struct PaletteConfig {
    /// Shell commands that emit `label|score|command` lines for the omni palette.
    pub plugin_commands: Vec<String>,
}

/// TUI color scheme.
#[derive(Debug, Clone)]
pub struct ThemeConfig {
    /// Preset name: `bw`, `dark` or `minimal`.
    pub preset: String,
    /// Hide the match-count / spinner info line in the picker.
    pub minimal_chrome: bool,
}

#[derive(Debug, Clone)]
pub struct GeneralConfig {
    pub editor: Option<String>,
    pub open_on_select: bool,
}

#[derive(Debug, Clone)]
pub struct SearchConfig {
    pub use_daemon: bool,
    pub streaming: bool,
    pub multi_select: bool,
    pub fallback: String,
    pub max_file_size_bytes: u64,
    pub max_results: usize,
}

#[derive(Debug, Clone)]
pub struct PickConfig {
    pub height: String,
    pub preview: Option<String>,
    pub use_fzf: bool,
    pub reverse: bool,
    pub prompt: String,
    /// Border between list and preview (`default`, `rounded`, `none`).
    pub layout: String,
}

#[derive(Debug, Clone)]
pub struct FixConfig {
    pub use_thefuck_fallback: bool,
    pub enabled_rules: Vec<String>,
}

#[derive(Debug, Clone)]
pub struct DaemonConfig {
    pub auto_start: bool,
    pub max_results: usize,
}

#[derive(Debug, Clone)]
pub struct HistoryConfig {
    pub max_entries: usize,
    pub palette_limit: usize,
    pub recent_files_limit: usize,
}

/// The whole configuration file.
#[derive(Debug, Clone)]
pub struct ThunderConfig {
    pub general: GeneralConfig,
    pub search: SearchConfig,
    pub pick: PickConfig,
    pub fix: FixConfig,
    pub daemon: DaemonConfig,
    pub history: HistoryConfig,
    pub theme: ThemeConfig,
    pub palette: PaletteConfig,
}

/// The rule names enabled by default, in order.
pub open spec fn default_rule_names() -> Seq<Seq<char>> {
    seq![
        "git"@,
        "sudo"@,
        "cd"@,
        "npm"@,
        "docker"@,
        "man"@,
        "python"@,
        "cargo"@,
        "pip"@,
        "kubectl"@,
        "brew"@,
    ]
}

impl PaletteConfig {
    pub open spec fn is_default(&self) -> bool {
        self.plugin_commands@.len() == 0
    }
}

impl ThemeConfig {
    pub open spec fn is_default(&self) -> bool {
        self.preset@ == "minimal"@ && self.minimal_chrome
    }
}

impl GeneralConfig {
    pub open spec fn is_default(&self) -> bool {
        self.editor is None && !self.open_on_select
    }
}

impl SearchConfig {
    pub open spec fn is_default(&self) -> bool {
        &&& self.use_daemon
        &&& self.streaming
        &&& !self.multi_select
        &&& self.fallback@ == "rg"@
        &&& self.max_file_size_bytes == 2 * 1024 * 1024
        &&& self.max_results == 500
    }
}

impl PickConfig {
    pub open spec fn is_default(&self) -> bool {
        &&& self.height@ == "60%"@
        &&& self.preview is None
        &&& !self.use_fzf
        &&& self.reverse
        &&& self.prompt@ == "> "@
        &&& self.layout@ == "default"@
    }
}

impl FixConfig {
    pub open spec fn is_default(&self) -> bool {
        self.use_thefuck_fallback && views(self.enabled_rules@) == default_rule_names()
    }
}

impl DaemonConfig {
    pub open spec fn is_default(&self) -> bool {
        self.auto_start && self.max_results == 500
    }
}

impl HistoryConfig {
    pub open spec fn is_default(&self) -> bool {
        self.max_entries == 2000 && self.palette_limit == 200 && self.recent_files_limit == 100
    }
}

impl ThunderConfig {
    pub open spec fn is_default(&self) -> bool {
        &&& self.general.is_default()
        &&& self.search.is_default()
        &&& self.pick.is_default()
        &&& self.fix.is_default()
        &&& self.daemon.is_default()
        &&& self.history.is_default()
        &&& self.theme.is_default()
        &&& self.palette.is_default()
    }
}

impl Default for PaletteConfig {
    fn default() -> (r: Self)
        ensures
            r.is_default(),
    {
        PaletteConfig { plugin_commands: Vec::new() }
    }
}

impl Default for ThemeConfig {
    fn default() -> (r: Self)
        ensures
            r.is_default(),
    {
        ThemeConfig { preset: default_theme_preset(), minimal_chrome: true }
    }
}

impl Default for GeneralConfig {
    fn default() -> (r: Self)
        ensures
            r.is_default(),
    {
        GeneralConfig { editor: None, open_on_select: false }
    }
}

impl Default for SearchConfig {
    fn default() -> (r: Self)
        ensures
            r.is_default(),
    {
        SearchConfig {
            use_daemon: true,
            streaming: true,
            multi_select: false,
            fallback: default_rg(),
            max_file_size_bytes: default_max_file_size(),
            max_results: default_max_results(),
        }
    }
}

impl Default for PickConfig {
    fn default() -> (r: Self)
        ensures
            r.is_default(),
    {
        PickConfig {
            height: default_height(),
            preview: None,
            use_fzf: false,
            reverse: true,
            prompt: default_prompt(),
            layout: default_layout(),
        }
    }
}

impl Default for FixConfig {
    fn default() -> (r: Self)
        ensures
            r.is_default(),
    {
        let mut rules: Vec<String> = Vec::new();
        rules.push(String::from_str("git"));
        rules.push(String::from_str("sudo"));
        rules.push(String::from_str("cd"));
        rules.push(String::from_str("npm"));
        rules.push(String::from_str("docker"));
        rules.push(String::from_str("man"));
        rules.push(String::from_str("python"));
        rules.push(String::from_str("cargo"));
        rules.push(String::from_str("pip"));
        rules.push(String::from_str("kubectl"));
        rules.push(String::from_str("brew"));
        let r = FixConfig { use_thefuck_fallback: true, enabled_rules: rules };
        assert(views(r.enabled_rules@) =~= default_rule_names());
        r
    }
}

impl Default for DaemonConfig {
    fn default() -> (r: Self)
        ensures
            r.is_default(),
    {
        DaemonConfig { auto_start: true, max_results: default_index_limit() }
    }
}

impl Default for HistoryConfig {
    fn default() -> (r: Self)
        ensures
            r.is_default(),
    {
        HistoryConfig {
            max_entries: default_history_max(),
            palette_limit: default_palette_limit(),
            recent_files_limit: default_recent_files_limit(),
        }
    }
}

impl Default for ThunderConfig {
    fn default() -> (r: Self)
        ensures
            r.is_default(),
    {
        ThunderConfig {
            general: GeneralConfig::default(),
            search: SearchConfig::default(),
            pick: PickConfig::default(),
            fix: FixConfig::default(),
            daemon: DaemonConfig::default(),
            history: HistoryConfig::default(),
            theme: ThemeConfig::default(),
            palette: PaletteConfig::default(),
        }
    }
}

/// The default theme preset.
pub fn default_theme_preset() -> (r: String)
    ensures
        r@ == "minimal"@,
{
    String::from_str("minimal")
}

/// The default picker layout.
pub fn default_layout() -> (r: String)
    ensures
        r@ == "default"@,
{
    String::from_str("default")
}

/// The default number of recent files kept.
pub fn default_recent_files_limit() -> (r: usize)
    ensures
        r == 100,
{
    100
}

/// The default of every flag that is on unless configured off.
pub fn default_true() -> (r: bool)
    ensures
        r,
{
    true
}

/// The default regex search fallback program.
pub fn default_rg() -> (r: String)
    ensures
        r@ == "rg"@,
{
    String::from_str("rg")
}

/// The default largest file size indexed, in bytes.
pub fn default_max_file_size() -> (r: u64)
    ensures
        r == 2 * 1024 * 1024,
{
    2 * 1024 * 1024
}

/// The default cap on search results.
pub fn default_max_results() -> (r: usize)
    ensures
        r == 500,
{
    500
}

/// The default picker height.
pub fn default_height() -> (r: String)
    ensures
        r@ == "60%"@,
{
    String::from_str("60%")
}

/// The default picker prompt.
pub fn default_prompt() -> (r: String)
    ensures
        r@ == "> "@,
{
    String::from_str("> ")
}

/// The default cap on results served by the index daemon.
pub fn default_index_limit() -> (r: usize)
    ensures
        r == 500,
{
    500
}

/// The default number of history entries kept.
pub fn default_history_max() -> (r: usize)
    ensures
        r == 2000,
{
    2000
}

/// The default number of palette entries shown.
pub fn default_palette_limit() -> (r: usize)
    ensures
        r == 200,
{
    200
}

// ---------------------------------------------------------------------------
// Theme and preview
// ---------------------------------------------------------------------------

/// The monochrome color string of the `minimal` preset.
pub open spec fn minimal_theme_colors() -> Seq<char> {
    "fg:252,bg:235,matched:117,matched_bg:235,current:255,current_bg:238,current_match:117,current_match_bg:238,prompt:252,cursor:255,selected:252,border:240,header:245,info:240,spinner:240"@
}

/// The picker color string for a preset name.
pub open spec fn theme_color_for(preset: Seq<char>) -> Seq<char> {
    if preset == "bw"@ {
        "bw"@
    } else if preset == "dark"@ {
        "dark"@
    } else {
        minimal_theme_colors()
    }
}

/// Resolve the picker `--color` string from the theme preset: `bw` and
/// `dark` name themselves, anything else is the monochrome `minimal` scheme.
pub fn resolve_theme_color(config: &ThunderConfig) -> (r: String)
    ensures
        r@ == theme_color_for(config.theme.preset@),
{
    if str_eq(config.theme.preset.as_str(), "bw") {
        String::from_str("bw")
    } else if str_eq(config.theme.preset.as_str(), "dark") {
        String::from_str("dark")
    } else {
        String::from_str(
            "fg:252,bg:235,matched:117,matched_bg:235,current:255,current_bg:238,current_match:117,current_match_bg:238,prompt:252,cursor:255,selected:252,border:240,header:245,info:240,spinner:240",
        )
    }
}

/// The preview command: the configured one when there is one (as it is),
/// otherwise the one detected on this machine from which candidate
/// programs answered (`available`), which passes the preview check.
pub fn resolve_preview(config: &ThunderConfig, available: &[bool]) -> (r: String)
    ensures
        r@ == match config.pick.preview {
            Some(p) => p@,
            None => detected_preview(available@),
        },
        config.pick.preview is None ==> preview_verdict(r@, Ok(())),
{
    match &config.pick.preview {
        Some(p) => p.clone(),
        None => choose_preview(available),
    }
}

/// The preview candidates tried in order, each run with `--version` to see
/// whether its program is installed.
pub open spec fn preview_candidates() -> Seq<Seq<char>> {
    seq!["bat --color=always --line-range={2}:{2} {1}"@, "bat -n --color=always {1}"@]
}

/// The preview used when no candidate's program is installed.
pub open spec fn fallback_preview() -> Seq<char> {
    "sed -n '{2}p' {1}"@
}

/// The preview candidates, in the order they are tried.
pub fn preview_candidate_list() -> (r: Vec<String>)
    ensures
        views(r@) == preview_candidates(),
{
    let mut v: Vec<String> = Vec::new();
    v.push(String::from_str("bat --color=always --line-range={2}:{2} {1}"));
    v.push(String::from_str("bat -n --color=always {1}"));
    assert(views(v@) =~= preview_candidates());
    v
}

/// A character that begins none of the forbidden preview tokens.
pub open spec fn quiet_char(c: char) -> bool {
    c != ';' && c != '|' && c != '&' && c != '$' && c != '`' && c != '\n' && c != '\r'
}

/// A command none of whose characters begins a forbidden token holds none
/// of the tokens.
proof fn lemma_quiet_command(cmd: Seq<char>)
    requires
        forall|i: int| 0 <= i < cmd.len() ==> quiet_char(#[trigger] cmd[i]),
    ensures
        first_token_in(cmd, forbidden_tokens()) is None,
{
    let ts = forbidden_tokens();
    assert forall|k: int| 0 <= k < ts.len() implies !contains(cmd, #[trigger] ts[k]) by {
        reveal_strlit(";");
        reveal_strlit("|");
        reveal_strlit("&");
        reveal_strlit("$");
        reveal_strlit("`");
        reveal_strlit("$(");
        reveal_strlit("\n");
        reveal_strlit("\r");
        if contains(cmd, ts[k]) {
            let j = choose|j: int| occurs_at(cmd, ts[k], j);
            assert(cmd.subrange(j, j + ts[k].len())[0] == cmd[j]);
            assert(!quiet_char(cmd[j]));
        }
    }
    lemma_first_token_none(cmd, ts);
}

/// `first_token_in` finds nothing when `cmd` holds none of the tokens.
proof fn lemma_first_token_none(cmd: Seq<char>, ts: Seq<Seq<char>>)
    requires
        forall|k: int| 0 <= k < ts.len() ==> !contains(cmd, #[trigger] ts[k]),
    ensures
        first_token_in(cmd, ts) is None,
    decreases ts.len(),
{
    if ts.len() > 0 {
        assert(!contains(cmd, ts[0]));
        assert forall|k: int| 0 <= k < ts.drop_first().len() implies !contains(cmd, #[trigger] ts.drop_first()[k]) by {
            assert(ts.drop_first()[k] == ts[k + 1]);
        }
        lemma_first_token_none(cmd, ts.drop_first());
    }
}

/// Every preview that can be detected passes the preview check: the
/// candidates and the `sed` fallback.
pub proof fn lemma_detected_previews_valid()
    ensures
        forall|i: int| 0 <= i < preview_candidates().len() ==> preview_verdict(#[trigger] preview_candidates()[i], Ok(())),
        preview_verdict(fallback_preview(), Ok(())),
{
    let a = "bat --color=always --line-range={2}:{2} {1}"@;
    let b = "bat -n --color=always {1}"@;
    let c = fallback_preview();
    reveal_strlit("bat --color=always --line-range={2}:{2} {1}");
    reveal_strlit("bat -n --color=always {1}");
    reveal_strlit("sed -n '{2}p' {1}");
    reveal_strlit("{1}");
    assert forall|i: int| 0 <= i < a.len() implies quiet_char(#[trigger] a[i]) by {}
    assert forall|i: int| 0 <= i < b.len() implies quiet_char(#[trigger] b[i]) by {}
    assert forall|i: int| 0 <= i < c.len() implies quiet_char(#[trigger] c[i]) by {}
    lemma_quiet_command(a);
    lemma_quiet_command(b);
    lemma_quiet_command(c);
    assert(a.subrange(a.len() - 3, a.len() as int) =~= "{1}"@);
    assert(occurs_at(a, "{1}"@, a.len() - 3));
    assert(b.subrange(b.len() - 3, b.len() as int) =~= "{1}"@);
    assert(occurs_at(b, "{1}"@, b.len() - 3));
    assert(c.subrange(c.len() - 3, c.len() as int) =~= "{1}"@);
    assert(occurs_at(c, "{1}"@, c.len() - 3));
    assert forall|i: int| 0 <= i < preview_candidates().len() implies preview_verdict(#[trigger] preview_candidates()[i], Ok(())) by {
        if i == 0 {
            assert(preview_candidates()[i] == a);
        } else {
            assert(preview_candidates()[i] == b);
        }
    }
}

/// The detected preview: the first candidate whose program answered
/// (`available[i]` for candidate `i`; a missing entry counts as not
/// answering), or the `sed` fallback.
pub open spec fn detected_preview(available: Seq<bool>) -> Seq<char> {
    if available.len() > 0 && available[0] {
        preview_candidates()[0]
    } else if available.len() > 1 && available[1] {
        preview_candidates()[1]
    } else {
        fallback_preview()
    }
}

/// The detected preview, which always passes the preview check.
pub fn choose_preview(available: &[bool]) -> (r: String)
    ensures
        r@ == detected_preview(available@),
        preview_verdict(r@, Ok(())),
{
    proof {
        lemma_detected_previews_valid();
    }
    let candidates = preview_candidate_list();
    assert(views(candidates@).len() == candidates@.len());
    assert(candidates@.len() == 2);
    assert(candidates@[0]@ == preview_candidates()[0]);
    assert(candidates@[1]@ == preview_candidates()[1]);
    if available.len() > 0 && available[0] {
        candidates[0].clone()
    } else if available.len() > 1 && available[1] {
        candidates[1].clone()
    } else {
        String::from_str("sed -n '{2}p' {1}")
    }
}

// ---------------------------------------------------------------------------
// File locations
// ---------------------------------------------------------------------------

/// Why a Thunder directory could not be located.
#[derive(Debug, Clone, Copy, PartialEq, Eq, Structural)]
pub enum DirError {
    /// The platform configuration directory is unknown (or not valid UTF-8).
    NoConfigDir,
    /// The platform local data directory is unknown (or not valid UTF-8).
    NoDataDir,
}

/// `base` joined with the relative path `rel` (`Path::join` on Unix).
pub open spec fn join_path(base: Seq<char>, rel: Seq<char>) -> Seq<char> {
    if rel.len() > 0 && rel[0] == '/' {
        rel
    } else if base.len() == 0 || base.last() == '/' {
        base + rel
    } else {
        base + seq!['/'] + rel
    }
}

/// `base` joined with `rel`.
pub fn join_path_exec(base: &str, rel: &str) -> (r: String)
    ensures
        r@ == join_path(base@, rel@),
{
    let b = chars_of(base);
    let rl = chars_of(rel);
    if rl.len() > 0 && rl[0] == '/' {
        return string_of(rl.as_slice());
    }
    if b.len() == 0 || b[b.len() - 1] == '/' {
        concat(base, rel)
    } else {
        let mut r = concat(base, "/");
        proof {
            reveal_strlit("/");
        }
        r.append(rel);
        r
    }
}

/// `dirs::config_dir`, as text (`OsString::into_string`): the platform
/// configuration directory, or `None` when it is unknown or its name is
/// not valid UTF-8. It depends on the environment and the platform, so
/// nothing is claimed of it.
#[verifier::external_body]
fn platform_config_dir() -> Option<String> {
    match dirs::config_dir() {
        Some(d) => d.into_os_string().into_string().ok(),
        None => None,
    }
}

/// `dirs::data_local_dir`, as text (`OsString::into_string`): the platform
/// local data directory, or `None` when it is unknown or its name is not
/// valid UTF-8. It depends on the environment and the platform, so nothing
/// is claimed of it.
#[verifier::external_body]
fn platform_data_dir() -> Option<String> {
    match dirs::data_local_dir() {
        Some(d) => d.into_os_string().into_string().ok(),
        None => None,
    }
}

/// Thunder's directory inside a platform directory.
pub fn thunder_dir_in(base: Option<String>, missing: DirError) -> (r: Result<String, DirError>)
    ensures
        match base {
            Some(b) => r matches Ok(d) && d@ == join_path(b@, "thunder"@),
            None => r == Err::<String, DirError>(missing),
        },
{
    match base {
        Some(b) => Ok(join_path_exec(b.as_str(), "thunder")),
        None => Err(missing),
    }
}

/// `~/.config/thunder` or the platform equivalent.
pub fn config_dir() -> (r: Result<String, DirError>)
    ensures
        r matches Err(e) ==> e == DirError::NoConfigDir,
        r matches Ok(d) ==> exists|b: Seq<char>| d@ == join_path(b, "thunder"@),
{
    thunder_dir_in(platform_config_dir(), DirError::NoConfigDir)
}

/// The local data directory of Thunder.
pub fn data_dir() -> (r: Result<String, DirError>)
    ensures
        r matches Err(e) ==> e == DirError::NoDataDir,
        r matches Ok(d) ==> exists|b: Seq<char>| d@ == join_path(b, "thunder"@),
{
    thunder_dir_in(platform_data_dir(), DirError::NoDataDir)
}

/// A file in a directory that is some `thunder` directory is itself in
/// some `thunder` directory.
proof fn lemma_in_thunder_dir(d: Seq<char>, name: Seq<char>)
    requires
        exists|b: Seq<char>| d == join_path(b, "thunder"@),
    ensures
        exists|b: Seq<char>| join_path(d, name) == join_path(join_path(b, "thunder"@), name),
{
    let b = choose|b: Seq<char>| d == join_path(b, "thunder"@);
    assert(join_path(d, name) == join_path(join_path(b, "thunder"@), name));
}

/// A file inside a directory that may be unknown.
pub fn file_in(dir: Result<String, DirError>, name: &str) -> (r: Result<String, DirError>)
    ensures
        match dir {
            Ok(d) => r matches Ok(p) && p@ == join_path(d@, name@),
            Err(e) => r == Err::<String, DirError>(e),
        },
{
    match dir {
        Ok(d) => Ok(join_path_exec(d.as_str(), name)),
        Err(e) => Err(e),
    }
}

/// The configuration file.
pub fn config_path() -> (r: Result<String, DirError>)
    ensures
        r matches Err(e) ==> e == DirError::NoConfigDir,
        r matches Ok(p) ==> exists|b: Seq<char>| p@ == join_path(join_path(b, "thunder"@), "config.toml"@),
{
    let dir = config_dir();
    proof {
        if dir is Ok {
            lemma_in_thunder_dir(dir->Ok_0@, "config.toml"@);
        }
    }
    file_in(dir, "config.toml")
}

/// The command history file.
pub fn history_path() -> (r: Result<String, DirError>)
    ensures
        r matches Err(e) ==> e == DirError::NoDataDir,
        r matches Ok(p) ==> exists|b: Seq<char>| p@ == join_path(join_path(b, "thunder"@), "history"@),
{
    let dir = data_dir();
    proof {
        if dir is Ok {
            lemma_in_thunder_dir(dir->Ok_0@, "history"@);
        }
    }
    file_in(dir, "history")
}

/// The file holding the last command's stderr.
pub fn stderr_cache_path() -> (r: Result<String, DirError>)
    ensures
        r matches Err(e) ==> e == DirError::NoDataDir,
        r matches Ok(p) ==> exists|b: Seq<char>| p@ == join_path(join_path(b, "thunder"@), "last.stderr"@),
{
    let dir = data_dir();
    proof {
        if dir is Ok {
            lemma_in_thunder_dir(dir->Ok_0@, "last.stderr"@);
        }
    }
    file_in(dir, "last.stderr")
}

/// The recent-files (frecency) file.
pub fn recent_files_path() -> (r: Result<String, DirError>)
    ensures
        r matches Err(e) ==> e == DirError::NoDataDir,
        r matches Ok(p) ==> exists|b: Seq<char>| p@ == join_path(join_path(b, "thunder"@), "recent.json"@),
{
    let dir = data_dir();
    proof {
        if dir is Ok {
            lemma_in_thunder_dir(dir->Ok_0@, "recent.json"@);
        }
    }
    file_in(dir, "recent.json")
}

/// The lowercase hexadecimal digit for `d < 16`.
pub open spec fn hex_digit(d: nat) -> char {
    if d < 10 {
        crate::text::digit_char(d)
    } else if d == 10 { 'a' }
    else if d == 11 { 'b' }
    else if d == 12 { 'c' }
    else if d == 13 { 'd' }
    else if d == 14 { 'e' }
    else { 'f' }
}

/// The last `k` hexadecimal digits of `n`, zero-padded (`{:0kx}` for `n < 16^k`).
pub open spec fn hex_digits(n: nat, k: nat) -> Seq<char>
    decreases k,
{
    if k == 0 {
        Seq::empty()
    } else {
        hex_digits(n / 16, (k - 1) as nat).push(hex_digit(n % 16))
    }
}

fn hex_digit_exec(d: u64) -> (c: char)
    requires
        d < 16,
    ensures
        c == hex_digit(d as nat),
{
    if d == 0 { '0' }
    else if d == 1 { '1' }
    else if d == 2 { '2' }
    else if d == 3 { '3' }
    else if d == 4 { '4' }
    else if d == 5 { '5' }
    else if d == 6 { '6' }
    else if d == 7 { '7' }
    else if d == 8 { '8' }
    else if d == 9 { '9' }
    else if d == 10 { 'a' }
    else if d == 11 { 'b' }
    else if d == 12 { 'c' }
    else if d == 13 { 'd' }
    else if d == 14 { 'e' }
    else { 'f' }
}

/// The last `k` hexadecimal digits of `n`.
fn hex_fixed(n: u64, k: u64) -> (r: Vec<char>)
    ensures
        r@ == hex_digits(n as nat, k as nat),
    decreases k,
{
    if k == 0 {
        Vec::new()
    } else {
        let mut r = hex_fixed(n / 16, k - 1);
        r.push(hex_digit_exec(n % 16));
        r
    }
}

/// `n` as sixteen lowercase hexadecimal digits (`format!("{:016x}", n)`).
pub fn hex16(n: u64) -> (r: String)
    ensures
        r@ == hex_digits(n as nat, 16),
{
    let digits = hex_fixed(n, 16);
    string_of(digits.as_slice())
}

/// The name of a per-project daemon file: `thunderd-<hash>.<ext>`, where
/// `<hash>` is the root's hash as sixteen hexadecimal digits.
pub open spec fn daemon_file_name(root_hash: u64, ext: Seq<char>) -> Seq<char> {
    "thunderd-"@ + hex_digits(root_hash as nat, 16) + "."@ + ext
}

/// `DefaultHasher::new`, `Path::hash` and `Hasher::finish` over the path
/// `path`. Nothing is claimed of the result: the algorithm may change
/// between std releases, and `Path` feeds lengths to the hasher in the
/// machine's byte order.
#[verifier::external_body]
fn default_path_hash(path: &str) -> u64 {
    let mut hasher = DefaultHasher::new();
    Path::new(path).hash(&mut hasher);
    hasher.finish()
}

/// The hash that names the daemon files (socket, port, corpus, pid) of the
/// project whose canonical root is `canonical_root`.
pub fn root_hash(canonical_root: &str) -> (h: u64) {
    default_path_hash(canonical_root)
}

/// A per-project daemon file in the data directory.
pub fn daemon_file_path(root_hash: u64, ext: &str) -> (r: Result<String, DirError>)
    ensures
        r matches Err(e) ==> e == DirError::NoDataDir,
        r matches Ok(p) ==> exists|b: Seq<char>|
            p@ == join_path(join_path(b, "thunder"@), daemon_file_name(root_hash, ext@)),
{
    let hex = hex16(root_hash);
    let mut name = concat("thunderd-", hex.as_str());
    name.append(".");
    name.append(ext);
    assert(name@ =~= daemon_file_name(root_hash, ext@));
    match data_dir() {
        Ok(d) => {
            let p = join_path_exec(d.as_str(), name.as_str());
            proof {
                lemma_in_thunder_dir(d@, daemon_file_name(root_hash, ext@));
            }
            Ok(p)
        },
        Err(e) => Err(e),
    }
}

/// The daemon's Unix socket for the project whose root hashes to `root_hash`.
pub fn socket_path_for_root(root_hash: u64) -> (r: Result<String, DirError>)
    ensures
        r matches Err(e) ==> e == DirError::NoDataDir,
        r matches Ok(p) ==> exists|b: Seq<char>|
            p@ == join_path(join_path(b, "thunder"@), daemon_file_name(root_hash, "sock"@)),
{
    daemon_file_path(root_hash, "sock")
}

/// The file holding the daemon's TCP port for the project.
pub fn tcp_port_path_for_root(root_hash: u64) -> (r: Result<String, DirError>)
    ensures
        r matches Err(e) ==> e == DirError::NoDataDir,
        r matches Ok(p) ==> exists|b: Seq<char>|
            p@ == join_path(join_path(b, "thunder"@), daemon_file_name(root_hash, "port"@)),
{
    daemon_file_path(root_hash, "port")
}

/// The on-disk line corpus of the project's index.
pub fn corpus_path_for_root(root_hash: u64) -> (r: Result<String, DirError>)
    ensures
        r matches Err(e) ==> e == DirError::NoDataDir,
        r matches Ok(p) ==> exists|b: Seq<char>|
            p@ == join_path(join_path(b, "thunder"@), daemon_file_name(root_hash, "corpus"@)),
{
    daemon_file_path(root_hash, "corpus")
}

/// The daemon's pid file for the project.
pub fn pid_path_for_root(root_hash: u64) -> (r: Result<String, DirError>)
    ensures
        r matches Err(e) ==> e == DirError::NoDataDir,
        r matches Ok(p) ==> exists|b: Seq<char>|
            p@ == join_path(join_path(b, "thunder"@), daemon_file_name(root_hash, "pid"@)),
{
    daemon_file_path(root_hash, "pid")
}

} // verus!
