//! The omni palette and the history picker: item labels, plugin lines, the
//! menu shown in the picker, and what a selection leads to.
use vstd::prelude::*;

use crate::config::{detected_preview, resolve_preview, ThunderConfig};
use crate::fuzzy::{fuzzy_match, fuzzy_spec, FuzzyMatch};
use crate::pick::PickOptions;
use crate::search::candidate_views;
use crate::safety::{
    command_verdict, preview_verdict, validate_preview_command, validate_safe_command,
    CommandRejection, PreviewRejection,
};
use crate::text::{
    chars_of, concat, occurs_at, find_from, find_from_exec, lemma_find_from, slice_chars, str_eq, string_of,
    strip_all_prefix, strip_all_prefix_exec, trim, trim_exec, views,
};

verus! {

broadcast use vstd::string::group_string_axioms;

/// What a palette entry does when picked.
#[derive(Debug, Clone)]
pub enum PaletteAction {
    /// Open this file.
    OpenFile(String),
    /// Run (or print) this shell command.
    RerunCommand(String),
}

/// A palette entry: the line shown and what it does.
#[derive(Debug, Clone)]
pub struct PaletteItem {
    pub label: String,
    pub action: PaletteAction,
}

/// An entry whose label is `prefix` followed by `text`.
fn item_with(prefix: &str, text: &str, action: PaletteAction) -> (r: PaletteItem)
    ensures
        r.label@ == prefix@ + text@,
        r.action == action,
{
    PaletteItem { label: concat(prefix, text), action }
}

/// The entry for a history command: `cmd  <line>`, rerunning it.
pub fn history_item(line: &str) -> (r: PaletteItem)
    ensures
        r.label@ == "cmd  "@ + line@,
        r.action matches PaletteAction::RerunCommand(c) && c@ == line@,
{
    item_with("cmd  ", line, PaletteAction::RerunCommand(String::from_str(line)))
}

/// The entry for a recently opened file: `rec  <relative path>`, opening `path`.
pub fn recent_item(rel: &str, path: &str) -> (r: PaletteItem)
    ensures
        r.label@ == "rec  "@ + rel@,
        r.action matches PaletteAction::OpenFile(p) && p@ == path@,
{
    item_with("rec  ", rel, PaletteAction::OpenFile(String::from_str(path)))
}

/// The entry for a project script: `run  <label>`, running its command.
pub fn script_item(label: &str, cmd: &str) -> (r: PaletteItem)
    ensures
        r.label@ == "run  "@ + label@,
        r.action matches PaletteAction::RerunCommand(c) && c@ == cmd@,
{
    item_with("run  ", label, PaletteAction::RerunCommand(String::from_str(cmd)))
}

/// The entry for a plugin line: `plug <label>`, running its command.
pub fn plugin_item(label: &str, cmd: &str) -> (r: PaletteItem)
    ensures
        r.label@ == "plug "@ + label@,
        r.action matches PaletteAction::RerunCommand(c) && c@ == cmd@,
{
    item_with("plug ", label, PaletteAction::RerunCommand(String::from_str(cmd)))
}

/// The entry for a project file: `file <relative path>`, opening `path`.
pub fn file_item(rel: &str, path: &str) -> (r: PaletteItem)
    ensures
        r.label@ == "file "@ + rel@,
        r.action matches PaletteAction::OpenFile(p) && p@ == path@,
{
    item_with("file ", rel, PaletteAction::OpenFile(String::from_str(path)))
}

/// A plugin line `label|score|command` split at its first two `|` (the
/// command keeps any further `|`), each part trimmed: none when there are
/// fewer than two `|` or the label or command is empty. The score is
/// still text; a line whose score is not a number is dropped by the
/// caller.
pub open spec fn plugin_parts(line: Seq<char>) -> Option<(Seq<char>, Seq<char>, Seq<char>)> {
    match find_from(line, seq!['|'], 0) {
        None => None,
        Some(i) => match find_from(line, seq!['|'], i + 1) {
            None => None,
            Some(j) => {
                let label = trim(line.take(i));
                let score = trim(line.subrange(i + 1, j));
                let cmd = trim(line.skip(j + 1));
                if label.len() == 0 || cmd.len() == 0 {
                    None
                } else {
                    Some((label, score, cmd))
                }
            },
        },
    }
}

/// The label, score text and command of a plugin line.
pub fn split_plugin_line(line: &str) -> (r: Option<(String, String, String)>)
    ensures
        match plugin_parts(line@) {
            Some((l, s, c)) => r matches Some((a, b, d)) && a@ == l && b@ == s && d@ == c,
            None => r is None,
        },
{
    let cs = chars_of(line);
    let n = cs.len();
    let bar: Vec<char> = vec!['|'];
    proof {
        assert(bar@ =~= seq!['|']);
    }
    let i = match find_from_exec(cs.as_slice(), bar.as_slice(), 0) {
        Some(i) => i,
        None => {
            return None;
        },
    };
    proof {
        lemma_find_from(cs@, bar@, 0);
        assert(occurs_at(cs@, bar@, i as int));
        assert(i + 1 <= n);
    }
    let j = match find_from_exec(cs.as_slice(), bar.as_slice(), i + 1) {
        Some(j) => j,
        None => {
            return None;
        },
    };
    proof {
        lemma_find_from(cs@, bar@, i + 1);
        assert(occurs_at(cs@, bar@, j as int));
        assert(j + 1 <= n);
    }
    let label_part = slice_chars(cs.as_slice(), 0, i);
    let score_part = slice_chars(cs.as_slice(), i + 1, j);
    let cmd_part = slice_chars(cs.as_slice(), j + 1, cs.len());
    proof {
        assert(label_part@ =~= cs@.take(i as int));
        assert(cmd_part@ =~= cs@.skip(j + 1));
    }
    let label = trim_exec(label_part.as_slice());
    let score = trim_exec(score_part.as_slice());
    let cmd = trim_exec(cmd_part.as_slice());
    if label.len() == 0 || cmd.len() == 0 {
        return None;
    }
    Some((string_of(label.as_slice()), string_of(score.as_slice()), string_of(cmd.as_slice())))
}

/// Why the palette or the history picker stopped.
#[derive(Debug, Clone)]
pub enum PaletteError {
    /// There is nothing to show.
    Empty,
    /// The preview command was refused.
    Preview(PreviewRejection),
    /// The picked line matches no entry.
    ItemDisappeared,
    /// The command to run was refused.
    Unsafe(CommandRejection),
}

/// What a picked entry leads to.
#[derive(Debug, Clone)]
pub enum PaletteStep {
    /// Record the file as recently opened, then open it in the editor or
    /// print it.
    OpenFile { path: String, open_editor: bool },
    /// Run the command through the shell.
    RunCommand(String),
    /// Print the command.
    PrintCommand(String),
}

/// The labels of the entries.
pub open spec fn labels_of(items: Seq<PaletteItem>) -> Seq<Seq<char>> {
    items.map_values(|i: PaletteItem| i.label@)
}

/// The palette's menu, from entries already ordered best first: none when
/// there are no entries; otherwise the entries are cut to
/// `history.palette_limit`, their labels are what the picker shows, and
/// the picker uses the configured (or detected) preview, which must pass
/// `validate_preview_command`, under the prompt `thunder> `.
pub fn palette_menu(config: &ThunderConfig, items: &mut Vec<PaletteItem>, available: &[bool]) -> (r: Result<(Vec<String>, PickOptions), PaletteError>)
    ensures
        old(items)@.len() == 0 ==> r matches Err(PaletteError::Empty),
        old(items)@.len() > 0 ==> {
            let preview = match config.pick.preview {
                Some(p) => p@,
                None => detected_preview(available@),
            };
            &&& final(items)@ == if old(items)@.len() > config.history.palette_limit {
                old(items)@.take(config.history.palette_limit as int)
            } else {
                old(items)@
            }
            &&& preview_verdict(
                preview,
                match r {
                    Ok(_) => Ok(()),
                    Err(PaletteError::Preview(e)) => Err(e),
                    Err(_) => Ok(()),
                },
            )
            &&& (r is Err ==> r matches Err(PaletteError::Preview(_)))
            &&& (r matches Ok((labels, pick)) ==> {
                &&& views(labels@) == labels_of(final(items)@)
                &&& pick.prompt@ == "thunder> "@
                &&& pick.preview_cmd matches Some(c) && c@ == preview
                &&& !pick.multi
                &&& pick.height@ == config.pick.height@
                &&& pick.reverse == config.pick.reverse
                &&& pick.query is None
            })
        },
{
    if items.len() == 0 {
        return Err(PaletteError::Empty);
    }
    items.truncate(config.history.palette_limit);
    let mut labels: Vec<String> = Vec::new();
    let mut i: usize = 0;
    while i < items.len()
        invariant
            i <= items@.len(),
            views(labels@) == labels_of(items@.take(i as int)),
        decreases items@.len() - i,
    {
        let ghost before = labels@;
        labels.push(String::from_str(items[i].label.as_str()));
        proof {
            assert(items@.take(i + 1) =~= items@.take(i as int).push(items@[i as int]));
            assert(views(labels@) =~= views(before).push(items@[i as int].label@));
            assert(labels_of(items@.take(i + 1)) =~= labels_of(items@.take(i as int)).push(
                items@[i as int].label@,
            ));
        }
        i = i + 1;
    }
    proof {
        assert(items@.take(items@.len() as int) =~= items@);
    }
    let preview = resolve_preview(config, available);
    match validate_preview_command(preview.as_str()) {
        Err(e) => {
            return Err(PaletteError::Preview(e));
        },
        Ok(()) => {},
    }
    let mut pick = PickOptions::from_config(config);
    pick.prompt = String::from_str("thunder> ");
    pick.preview_cmd = Some(preview);
    Ok((labels, pick))
}

/// What running an entry's action leads to: a file is opened in the editor
/// when asked to or when the configuration opens on select (else printed);
/// a command must pass `validate_safe_command`, then is run when asked to
/// (else printed).
pub open spec fn action_step_ok(action: PaletteAction, config: ThunderConfig, execute: bool, r: Result<PaletteStep, PaletteError>) -> bool {
    match action {
        PaletteAction::OpenFile(p) => r matches Ok(PaletteStep::OpenFile { path, open_editor })
            && path@ == p@ && open_editor == (execute || config.general.open_on_select),
        PaletteAction::RerunCommand(c) => match command_verdict(c@) {
            Some(e) => r matches Err(PaletteError::Unsafe(f)) && f == e,
            None => if execute {
                r matches Ok(PaletteStep::RunCommand(d)) && d@ == c@
            } else {
                r matches Ok(PaletteStep::PrintCommand(d)) && d@ == c@
            },
        },
    }
}

/// What running an entry's action leads to.
pub fn execute_action(action: &PaletteAction, config: &ThunderConfig, execute: bool) -> (r: Result<PaletteStep, PaletteError>)
    ensures
        action_step_ok(*action, *config, execute, r),
        r matches Ok(PaletteStep::RunCommand(c)) ==> execute && command_verdict(c@) is None,
{
    match action {
        PaletteAction::OpenFile(p) => Ok(
            PaletteStep::OpenFile {
                path: String::from_str(p.as_str()),
                open_editor: execute || config.general.open_on_select,
            },
        ),
        PaletteAction::RerunCommand(c) => match validate_safe_command(c.as_str()) {
            Err(e) => Err(PaletteError::Unsafe(e)),
            Ok(()) => if execute {
                Ok(PaletteStep::RunCommand(String::from_str(c.as_str())))
            } else {
                Ok(PaletteStep::PrintCommand(String::from_str(c.as_str())))
            },
        },
    }
}

/// The first entry whose label is `label`.
pub open spec fn first_with_label(items: Seq<PaletteItem>, label: Seq<char>) -> Option<int>
    decreases items.len(),
{
    if items.len() == 0 {
        None
    } else {
        match first_with_label(items.drop_last(), label) {
            Some(i) => Some(i),
            None => if items.last().label@ == label {
                Some(items.len() - 1)
            } else {
                None
            },
        }
    }
}

/// The palette after the picker answered: nothing when nothing was picked;
/// otherwise the first entry with the picked label (an error when there is
/// none) and what its action leads to.
pub fn run_palette(config: &ThunderConfig, items: &Vec<PaletteItem>, selected: Option<&str>, execute: bool) -> (r: Result<Option<PaletteStep>, PaletteError>)
    ensures
        selected is None ==> r matches Ok(None),
        selected matches Some(s) ==> match first_with_label(items@, s@) {
            None => r matches Err(PaletteError::ItemDisappeared),
            Some(i) => action_step_ok(
                items@[i].action,
                *config,
                execute,
                match r {
                    Ok(Some(step)) => Ok(step),
                    Ok(None) => Err(PaletteError::Empty),
                    Err(e) => Err(e),
                },
            ) && !(r matches Ok(None)),
        },
{
    let label = match selected {
        None => {
            return Ok(None);
        },
        Some(s) => s,
    };
    let mut i: usize = 0;
    while i < items.len()
        invariant
            selected == Some(label),
            i <= items@.len(),
            first_with_label(items@.take(i as int), label@) is None,
        decreases items@.len() - i,
    {
        proof {
            assert(items@.take(i + 1).drop_last() =~= items@.take(i as int));
        }
        if str_eq(items[i].label.as_str(), label) {
            proof {
                lemma_first_with_label_prefix(items@, i as int + 1, label@);
            }
            return match execute_action(&items[i].action, config, execute) {
                Ok(step) => Ok(Some(step)),
                Err(e) => Err(e),
            };
        }
        i = i + 1;
    }
    proof {
        assert(items@.take(items@.len() as int) =~= items@);
    }
    Err(PaletteError::ItemDisappeared)
}

/// A match found in a prefix is the match of the whole.
proof fn lemma_first_with_label_prefix(items: Seq<PaletteItem>, n: int, label: Seq<char>)
    requires
        0 < n <= items.len(),
        first_with_label(items.take(n), label) is Some,
    ensures
        first_with_label(items, label) == first_with_label(items.take(n), label),
    decreases items.len() - n,
{
    if n == items.len() {
        assert(items.take(n) =~= items);
    } else {
        assert(items.drop_last().take(n) =~= items.take(n));
        lemma_first_with_label_prefix(items.drop_last(), n, label);
    }
}

/// The entry for a history command in the history picker.
pub fn history_label(line: &str) -> (r: String)
    ensures
        r@ == "cmd  "@ + line@,
{
    concat("cmd  ", line)
}

/// The picker options of the history picker: from the configuration, under
/// the prompt `history> `.
pub fn history_pick_options(config: &ThunderConfig) -> (r: PickOptions)
    ensures
        r.prompt@ == "history> "@,
        !r.multi,
        r.height@ == config.pick.height@,
        r.reverse == config.pick.reverse,
        r.preview_cmd is None,
        r.query is None,
{
    let mut pick = PickOptions::from_config(config);
    pick.prompt = String::from_str("history> ");
    pick
}

/// The command of a picked history line: every leading `cmd` removed, then
/// trimmed.
pub open spec fn history_command_spec(label: Seq<char>) -> Seq<char> {
    trim(strip_all_prefix(label, "cmd"@))
}

/// The command of a picked history line, when it passes
/// `validate_safe_command`.
pub fn history_command(label: &str) -> (r: Result<String, CommandRejection>)
    ensures
        match command_verdict(history_command_spec(label@)) {
            None => r matches Ok(c) && c@ == history_command_spec(label@),
            Some(e) => r == Err::<String, CommandRejection>(e),
        },
        r matches Ok(c) ==> command_verdict(c@) is None,
{
    let cs = chars_of(label);
    let prefix = chars_of("cmd");
    let stripped = strip_all_prefix_exec(cs.as_slice(), prefix.as_slice());
    let cmd = string_of(trim_exec(stripped.as_slice()).as_slice());
    match validate_safe_command(cmd.as_str()) {
        Err(e) => Err(e),
        Ok(()) => Ok(cmd),
    }
}

/// The history picker's lines: history commands newest first, those that
/// match the query (all of them without one), as `cmd  <line>` labels with
/// how they match, the first `limit` of them.
pub open spec fn history_matches_spec(lines: Seq<Seq<char>>, query: Option<Seq<char>>, limit: nat) -> Seq<(Seq<char>, FuzzyMatch)>
    decreases lines.len(),
{
    if lines.len() == 0 || limit == 0 {
        Seq::empty()
    } else {
        let line = lines.last();
        let m = match query {
            Some(q) => fuzzy_spec(line, q),
            None => FuzzyMatch::EmptyNeedle,
        };
        if m.spec_is_match() {
            seq![("cmd  "@ + line, m)] + history_matches_spec(lines.drop_last(), query, (limit - 1) as nat)
        } else {
            history_matches_spec(lines.drop_last(), query, limit)
        }
    }
}

/// The history picker's lines, from the history (oldest first).
pub fn history_matches(lines: &Vec<String>, query: Option<&str>, limit: usize) -> (r: Vec<(String, FuzzyMatch)>)
    ensures
        candidate_views(r@) == history_matches_spec(
            views(lines@),
            match query {
                Some(q) => Some(q@),
                None => None,
            },
            limit as nat,
        ),
{
    let ghost ls = views(lines@);
    let ghost qv = match query {
        Some(q) => Some(q@),
        None => None,
    };
    let mut r: Vec<(String, FuzzyMatch)> = Vec::new();
    let mut i: usize = lines.len();
    proof {
        assert(ls.take(ls.len() as int) =~= ls);
    }
    while i > 0 && r.len() < limit
        invariant
            ls == views(lines@),
            qv == (match query {
                Some(q) => Some(q@),
                None => None::<Seq<char>>,
            }),
            i <= ls.len(),
            r@.len() <= limit,
            candidate_views(r@) + history_matches_spec(ls.take(i as int), qv, (limit - r@.len()) as nat)
                == history_matches_spec(ls, qv, limit as nat),
        decreases i,
    {
        let ghost pre = ls.take(i as int);
        proof {
            assert(pre.drop_last() =~= ls.take(i - 1));
            assert(pre.last() == lines@[i - 1]@);
        }
        let line = lines[i - 1].as_str();
        let m = match query {
            Some(q) => fuzzy_match(line, q),
            None => FuzzyMatch::EmptyNeedle,
        };
        if m.is_match() {
            let label = history_label(line);
            let ghost before = r@;
            r.push((label, m));
            proof {
                assert(candidate_views(r@) =~= candidate_views(before).push(("cmd  "@ + line@, m)));
                assert(candidate_views(before).push(("cmd  "@ + line@, m)) + history_matches_spec(
                    ls.take(i - 1),
                    qv,
                    (limit - r@.len()) as nat,
                ) =~= candidate_views(before) + (seq![("cmd  "@ + line@, m)] + history_matches_spec(
                    ls.take(i - 1),
                    qv,
                    (limit - r@.len()) as nat,
                )));
            }
        }
        i = i - 1;
    }
    proof {
        let rest = history_matches_spec(ls.take(i as int), qv, (limit - r@.len()) as nat);
        if i == 0 {
            assert(ls.take(0).len() == 0);
        }
        assert(rest =~= Seq::<(Seq<char>, FuzzyMatch)>::empty());
        assert(candidate_views(r@) + rest =~= candidate_views(r@));
    }
    r
}

/// How many times `c` occurs in `s`.
pub open spec fn count_char(s: Seq<char>, c: char) -> nat
    decreases s.len(),
{
    if s.len() == 0 {
        0
    } else {
        count_char(s.drop_last(), c) + if s.last() == c {
            1nat
        } else {
            0nat
        }
    }
}

/// The depth of a relative path: its number of `/` (deeper files rank
/// lower in the palette).
pub fn path_depth(rel: &str) -> (r: usize)
    ensures
        r == count_char(rel@, '/'),
{
    let cs = chars_of(rel);
    let mut n: usize = 0;
    let mut i: usize = 0;
    while i < cs.len()
        invariant
            cs@ == rel@,
            i <= cs@.len(),
            n == count_char(cs@.take(i as int), '/'),
            n <= i,
        decreases cs@.len() - i,
    {
        proof {
            assert(cs@.take(i + 1).drop_last() =~= cs@.take(i as int));
        }
        if cs[i] == '/' {
            n = n + 1;
        }
        i = i + 1;
    }
    proof {
        assert(cs@.take(cs@.len() as int) =~= cs@);
    }
    n
}

} // verus!
