//! Code search: search options, how a query is served (warm index or
//! ripgrep), ripgrep's arguments and match events, and mapping picked lines
//! back to matches.
use vstd::prelude::*;

use crate::config::ThunderConfig;
use crate::text::{opt_view, views};
use crate::fuzzy::{fuzzy_match, fuzzy_spec, FuzzyMatch};
use crate::safety::{
    has_parent_component, is_safe_relative_path, preview_verdict, validate_preview_command,
    PreviewRejection,
};
use crate::index::IndexMatch;
use crate::pick::PickOptions;
use crate::text::{
    chars_of, concat, decimal, str_has_char, decimal_string, decimal_usize, has_char, str_eq, str_trim_end,
    trim_end,
};

verus! {

broadcast use vstd::string::group_string_axioms;

/// One search hit.
#[derive(Debug, Clone)]
pub struct SearchMatch {
    pub path: String,
    pub line_number: u64,
    pub column: u64,
    pub line_text: String,
}

/// `path:line:column:text` with trailing white space removed from the text.
pub open spec fn display_spec(m: SearchMatch) -> Seq<char> {
    m.path@ + ":"@ + decimal(m.line_number as nat) + ":"@ + decimal(m.column as nat) + ":"@
        + trim_end(m.line_text@)
}

/// `path:line`.
pub open spec fn path_line_spec(m: SearchMatch) -> Seq<char> {
    m.path@ + ":"@ + decimal(m.line_number as nat)
}

impl SearchMatch {
    /// The picker line of this match: `path:line:column:text`.
    pub fn display_line(&self) -> (r: String)
        ensures
            r@ == display_spec(*self),
    {
        let mut r = concat(self.path.as_str(), ":");
        r.append(decimal_string(self.line_number).as_str());
        r.append(":");
        r.append(decimal_string(self.column).as_str());
        r.append(":");
        r.append(str_trim_end(self.line_text.as_str()).as_str());
        r
    }

    /// `path:line`, for editors.
    pub fn path_line(&self) -> (r: String)
        ensures
            r@ == path_line_spec(*self),
    {
        let mut r = concat(self.path.as_str(), ":");
        r.append(decimal_string(self.line_number).as_str());
        r
    }
}

/// How to search.
#[derive(Debug, Clone)]
pub struct SearchOptions {
    pub cwd: String,
    pub paths: Vec<String>,
    pub case_insensitive: bool,
    pub fixed_strings: bool,
    pub rg_path: Option<String>,
    pub pick: PickOptions,
    pub use_fzf: bool,
    pub preview_cmd: Option<String>,
    pub use_daemon: bool,
    pub config: ThunderConfig,
}

impl SearchOptions {
    /// The defaults, searching from `cwd`.
    pub open spec fn is_default_in(&self, cwd: Seq<char>) -> bool {
        &&& self.cwd@ == cwd
        &&& self.paths@.len() == 0
        &&& !self.case_insensitive
        &&& !self.fixed_strings
        &&& self.rg_path is None
        &&& self.pick.is_default()
        &&& !self.use_fzf
        &&& self.preview_cmd is None
        &&& self.use_daemon
        &&& self.config.is_default()
    }

    /// Default options searching from `cwd`.
    pub fn in_dir(cwd: String) -> (r: SearchOptions)
        ensures
            r.is_default_in(cwd@),
    {
        SearchOptions {
            cwd,
            paths: Vec::new(),
            case_insensitive: false,
            fixed_strings: false,
            rg_path: None,
            pick: PickOptions::default(),
            use_fzf: false,
            preview_cmd: None,
            use_daemon: true,
            config: ThunderConfig::default(),
        }
    }

    /// Options from the configuration, searching from `cwd`: daemon use,
    /// picker backend and height, and preview come from the configuration.
    pub fn from_config(config: ThunderConfig, cwd: String) -> (r: SearchOptions)
        ensures
            r.cwd@ == cwd@,
            r.paths@.len() == 0,
            !r.case_insensitive,
            !r.fixed_strings,
            r.rg_path is None,
            r.use_daemon == config.search.use_daemon,
            r.use_fzf == config.pick.use_fzf,
            r.pick.height@ == config.pick.height@,
            !r.pick.multi && r.pick.reverse && r.pick.preview_cmd is None && r.pick.query is None
                && r.pick.prompt@ == "> "@,
            opt_view(r.preview_cmd) == opt_view(config.pick.preview),
            r.config == config,
    {
        let mut options = SearchOptions::in_dir(cwd);
        options.use_daemon = config.search.use_daemon;
        options.use_fzf = config.pick.use_fzf;
        options.pick.height = String::from_str(config.pick.height.as_str());
        options.preview_cmd = match &config.pick.preview {
            Some(p) => Some(String::from_str(p.as_str())),
            None => None,
        };
        options.config = config;
        options
    }
}

impl Default for SearchOptions {
    fn default() -> (r: Self)
        ensures
            r.is_default_in("."@),
    {
        SearchOptions::in_dir(String::from_str("."))
    }
}

/// Characters that make a query a regular expression.
pub open spec fn regex_chars() -> Seq<char> {
    ".*+?[](){}^$\\|"@
}

/// A query is literal when fixed strings are asked for or it holds no
/// regular-expression character.
pub open spec fn literal_spec(query: Seq<char>, fixed_strings: bool) -> bool {
    fixed_strings || !(exists|i: int| 0 <= i < query.len() && has_char(regex_chars(), query[i]))
}

/// Whether `query` can be served by the literal index.
pub fn is_literal_query(query: &str, options: &SearchOptions) -> (b: bool)
    ensures
        b == literal_spec(query@, options.fixed_strings),
{
    if options.fixed_strings {
        return true;
    }
    let q = chars_of(query);
    let mut i: usize = 0;
    while i < q.len()
        invariant
            q@ == query@,
            !options.fixed_strings,
            i <= q@.len(),
            forall|k: int| 0 <= k < i ==> !has_char(regex_chars(), q@[k]),
        decreases q@.len() - i,
    {
        if str_has_char(".*+?[](){}^$\\|", q[i]) {
            assert(has_char(regex_chars(), query@[i as int]));
            return false;
        }
        i = i + 1;
    }
    true
}

/// Why a search could not run.
#[derive(Debug, Clone, Copy, PartialEq, Eq, Structural)]
pub enum SearchError {
    /// The query is empty.
    EmptyQuery,
    /// Ripgrep reported a match without its data.
    MissingMatchData,
}

/// How a query is served.
#[derive(Debug, Clone, Copy, PartialEq, Eq, Structural)]
pub enum SearchPlan {
    /// Ask the warm index first (starting the daemon if need be), then fall
    /// back to ripgrep when it fails or finds nothing.
    IndexThenRipgrep,
    /// Run ripgrep.
    Ripgrep,
}

/// How `query` is served: literal queries go to the index when both the
/// options and the configuration allow the daemon.
pub fn search_plan(query: &str, options: &SearchOptions) -> (r: Result<SearchPlan, SearchError>)
    ensures
        query@.len() == 0 ==> r == Err::<SearchPlan, SearchError>(SearchError::EmptyQuery),
        query@.len() > 0 ==> r == Ok::<SearchPlan, SearchError>(
            if options.use_daemon && options.config.search.use_daemon && literal_spec(
                query@,
                options.fixed_strings,
            ) {
                SearchPlan::IndexThenRipgrep
            } else {
                SearchPlan::Ripgrep
            },
        ),
{
    if query.is_empty() {
        return Err(SearchError::EmptyQuery);
    }
    if options.use_daemon && options.config.search.use_daemon && is_literal_query(query, options) {
        Ok(SearchPlan::IndexThenRipgrep)
    } else {
        Ok(SearchPlan::Ripgrep)
    }
}

/// The fixed leading ripgrep arguments.
pub open spec fn rg_base_args() -> Seq<Seq<char>> {
    seq!["--json"@, "--line-number"@, "--column"@, "--no-heading"@, "--color=never"@]
}

/// Ripgrep's arguments for `query`: JSON output with line numbers and
/// columns, an optional per-file match cap, `-i`, `-F`, the query, and the
/// paths (or `.`).
pub open spec fn rg_args_spec(query: Seq<char>, options: SearchOptions, max_count: Option<usize>) -> Seq<Seq<char>> {
    rg_base_args() + (match max_count {
        Some(m) => seq!["--max-count"@, decimal(m as nat)],
        None => Seq::empty(),
    }) + (if options.case_insensitive {
        seq!["-i"@]
    } else {
        Seq::empty()
    }) + (if options.fixed_strings {
        seq!["-F"@]
    } else {
        Seq::empty()
    }) + seq![query] + (if options.paths@.len() == 0 {
        seq!["."@]
    } else {
        views(options.paths@)
    })
}

/// Ripgrep's arguments for `query`.
pub fn ripgrep_args(query: &str, options: &SearchOptions, max_count: Option<usize>) -> (r: Vec<String>)
    ensures
        views(r@) == rg_args_spec(query@, *options, max_count),
{
    let mut r: Vec<String> = Vec::new();
    r.push(String::from_str("--json"));
    r.push(String::from_str("--line-number"));
    r.push(String::from_str("--column"));
    r.push(String::from_str("--no-heading"));
    r.push(String::from_str("--color=never"));
    let ghost mut expected: Seq<Seq<char>> = rg_base_args();
    assert(views(r@) =~= expected);
    if let Some(m) = max_count {
        r.push(String::from_str("--max-count"));
        r.push(decimal_usize(m));
    }
    proof {
        expected = expected + (match max_count {
            Some(m) => seq!["--max-count"@, decimal(m as nat)],
            None => Seq::empty(),
        });
    }
    assert(views(r@) =~= expected);
    if options.case_insensitive {
        r.push(String::from_str("-i"));
    }
    proof {
        expected = expected + (if options.case_insensitive {
            seq!["-i"@]
        } else {
            Seq::empty()
        });
    }
    assert(views(r@) =~= expected);
    if options.fixed_strings {
        r.push(String::from_str("-F"));
    }
    proof {
        expected = expected + (if options.fixed_strings {
            seq!["-F"@]
        } else {
            Seq::empty()
        });
    }
    assert(views(r@) =~= expected);
    r.push(String::from_str(query));
    proof {
        expected = expected + seq![query@];
    }
    assert(views(r@) =~= expected);
    if options.paths.len() == 0 {
        r.push(String::from_str("."));
        proof {
            expected = expected + seq!["."@];
        }
        assert(views(r@) =~= expected);
    } else {
        let ghost start = r@;
        let mut i: usize = 0;
        while i < options.paths.len()
            invariant
                i <= options.paths@.len(),
                views(r@) == views(start) + views(options.paths@).take(i as int),
            decreases options.paths@.len() - i,
        {
            let ghost before = r@;
            let st = String::from_str(options.paths[i].as_str());
            r.push(st);
            proof {
                assert(views(r@) =~= views(before).push(options.paths@[i as int]@));
                assert(views(options.paths@).take(i + 1) =~= views(options.paths@).take(i as int).push(
                    options.paths@[i as int]@,
                ));
            }
            i = i + 1;
        }
        proof {
            assert(views(options.paths@).take(i as int) =~= views(options.paths@));
            expected = expected + views(options.paths@);
        }
        assert(views(r@) =~= expected);
    }
    r
}

/// The column of a ripgrep match: the first submatch's byte offset plus
/// one (wrapping to zero past `u64::MAX`), or 1 when there is none.
pub open spec fn rg_column(first_start: Option<u64>) -> u64 {
    match first_start {
        Some(s) => if s < u64::MAX {
            (s + 1) as u64
        } else {
            0
        },
        None => 1,
    }
}

/// What one ripgrep JSON event yields: a match for `match` events (an
/// error when it lacks its data), nothing for other events. `data` holds
/// the path, line number, line text and the first submatch's start.
pub fn match_from_event(kind: &str, data: Option<(String, u64, String, Option<u64>)>) -> (r: Result<
    Option<SearchMatch>,
    SearchError,
>)
    ensures
        kind@ != "match"@ ==> r matches Ok(None),
        kind@ == "match"@ ==> match data {
            None => r == Err::<Option<SearchMatch>, SearchError>(SearchError::MissingMatchData),
            Some(d) => r matches Ok(Some(m)) && m.path@ == d.0@ && m.line_number == d.1
                && m.line_text@ == d.2@ && m.column == rg_column(d.3),
        },
{
    if !str_eq(kind, "match") {
        return Ok(None);
    }
    match data {
        None => Err(SearchError::MissingMatchData),
        Some((path, line_number, line_text, first_start)) => {
            let column = match first_start {
                Some(s) => if s < u64::MAX {
                    s + 1
                } else {
                    0
                },
                None => 1,
            };
            Ok(Some(SearchMatch { path, line_number, column, line_text }))
        },
    }
}

/// Index hits as search matches, field for field.
pub fn matches_from_hits(hits: Vec<IndexMatch>) -> (r: Vec<SearchMatch>)
    ensures
        r@.len() == hits@.len(),
        forall|i: int|
            0 <= i < r@.len() ==> (#[trigger] r@[i]).path@ == hits@[i].path@ && r@[i].line_number
                == hits@[i].line_number && r@[i].column == hits@[i].column && r@[i].line_text@
                == hits@[i].line_text@,
{
    let mut r: Vec<SearchMatch> = Vec::new();
    let mut i: usize = 0;
    while i < hits.len()
        invariant
            i <= hits@.len(),
            r@.len() == i,
            forall|k: int|
                0 <= k < i ==> (#[trigger] r@[k]).path@ == hits@[k].path@ && r@[k].line_number
                    == hits@[k].line_number && r@[k].column == hits@[k].column && r@[k].line_text@
                    == hits@[k].line_text@,
        decreases hits@.len() - i,
    {
        let h = &hits[i];
        r.push(
            SearchMatch {
                path: String::from_str(h.path.as_str()),
                line_number: h.line_number,
                column: h.column,
                line_text: String::from_str(h.line_text.as_str()),
            },
        );
        i = i + 1;
    }
    r
}

/// The preview used when none is configured.
pub open spec fn default_preview() -> Seq<char> {
    "sed -n '{2}p' {1}"@
}

/// The preview used when none is configured.
pub fn default_preview_command() -> (r: Option<String>)
    ensures
        r matches Some(p) && p@ == default_preview(),
{
    Some(String::from_str("sed -n '{2}p' {1}"))
}

/// The preview the picker gets: its own, else the search options', else
/// the default.
pub open spec fn picker_preview_spec(options: SearchOptions) -> Seq<char> {
    match options.pick.preview_cmd {
        Some(p) => p@,
        None => match options.preview_cmd {
            Some(p) => p@,
            None => default_preview(),
        },
    }
}

/// The picker options for showing search results: those of `options.pick`
/// with the preview of `picker_preview_spec`, or the reason that preview
/// is refused.
pub fn picker_options(options: &SearchOptions) -> (r: Result<PickOptions, PreviewRejection>)
    ensures
        preview_verdict(
            picker_preview_spec(*options),
            match r {
                Ok(_) => Ok(()),
                Err(e) => Err(e),
            },
        ),
        r matches Ok(p) ==> {
            &&& p.preview_cmd matches Some(c) && c@ == picker_preview_spec(*options)
            &&& p.multi == options.pick.multi
            &&& p.height@ == options.pick.height@
            &&& p.reverse == options.pick.reverse
            &&& opt_view(p.query) == opt_view(options.pick.query)
            &&& p.prompt@ == options.pick.prompt@
        },
{
    let preview = match &options.pick.preview_cmd {
        Some(p) => String::from_str(p.as_str()),
        None => match &options.preview_cmd {
            Some(p) => String::from_str(p.as_str()),
            None => String::from_str("sed -n '{2}p' {1}"),
        },
    };
    match validate_preview_command(preview.as_str()) {
        Err(e) => Err(e),
        Ok(()) => {
            let query = match &options.pick.query {
                Some(q) => Some(String::from_str(q.as_str())),
                None => None,
            };
            Ok(
                PickOptions {
                    multi: options.pick.multi,
                    height: String::from_str(options.pick.height.as_str()),
                    reverse: options.pick.reverse,
                    preview_cmd: Some(preview),
                    query,
                    prompt: String::from_str(options.pick.prompt.as_str()),
                },
            )
        },
    }
}

/// The matches whose picker line was selected, in their original order.
pub open spec fn selected_spec(all: Seq<SearchMatch>, selected: Seq<Seq<char>>) -> Seq<SearchMatch>
    decreases all.len(),
{
    if selected.len() == 0 || all.len() == 0 {
        Seq::empty()
    } else {
        let before = selected_spec(all.drop_last(), selected);
        if selected.contains(display_spec(all.last())) {
            before.push(all.last())
        } else {
            before
        }
    }
}

/// Whether `lines` holds `s`.
fn holds_line(lines: &Vec<String>, s: &str) -> (b: bool)
    ensures
        b == views(lines@).contains(s@),
{
    let mut i: usize = 0;
    while i < lines.len()
        invariant
            i <= lines@.len(),
            forall|k: int| 0 <= k < i ==> lines@[k]@ != s@,
        decreases lines@.len() - i,
    {
        if str_eq(lines[i].as_str(), s) {
            assert(views(lines@)[i as int] == s@);
            return true;
        }
        i = i + 1;
    }
    proof {
        if views(lines@).contains(s@) {
            let k = choose|k: int| 0 <= k < views(lines@).len() && views(lines@)[k] == s@;
            assert(lines@[k]@ == s@);
        }
    }
    false
}

/// A copy of a match.
pub fn copy_search_match(m: &SearchMatch) -> (r: SearchMatch)
    ensures
        r.path@ == m.path@,
        r.line_number == m.line_number,
        r.column == m.column,
        r.line_text@ == m.line_text@,
{
    SearchMatch {
        path: String::from_str(m.path.as_str()),
        line_number: m.line_number,
        column: m.column,
        line_text: String::from_str(m.line_text.as_str()),
    }
}

/// The matches whose picker line is among `selected`, in their order.
pub fn map_selected_matches(all: &Vec<SearchMatch>, selected: &Vec<String>) -> (r: Vec<SearchMatch>)
    ensures
        r@.len() == selected_spec(all@, views(selected@)).len(),
        forall|i: int|
            0 <= i < r@.len() ==> display_spec(#[trigger] r@[i]) == display_spec(
                selected_spec(all@, views(selected@))[i],
            ) && r@[i].path@ == selected_spec(all@, views(selected@))[i].path@ && r@[i].line_number
                == selected_spec(all@, views(selected@))[i].line_number && r@[i].column
                == selected_spec(all@, views(selected@))[i].column && r@[i].line_text@
                == selected_spec(all@, views(selected@))[i].line_text@,
{
    let mut r: Vec<SearchMatch> = Vec::new();
    if selected.len() == 0 {
        return r;
    }
    let ghost sel = views(selected@);
    let mut i: usize = 0;
    while i < all.len()
        invariant
            sel == views(selected@),
            sel.len() > 0,
            i <= all@.len(),
            r@.len() == selected_spec(all@.take(i as int), sel).len(),
            forall|k: int|
                0 <= k < r@.len() ==> display_spec(#[trigger] r@[k]) == display_spec(
                    selected_spec(all@.take(i as int), sel)[k],
                ) && r@[k].path@ == selected_spec(all@.take(i as int), sel)[k].path@
                    && r@[k].line_number == selected_spec(all@.take(i as int), sel)[k].line_number
                    && r@[k].column == selected_spec(all@.take(i as int), sel)[k].column
                    && r@[k].line_text@ == selected_spec(all@.take(i as int), sel)[k].line_text@,
        decreases all@.len() - i,
    {
        proof {
            assert(all@.take(i + 1).drop_last() =~= all@.take(i as int));
            assert(all@.take(i + 1).last() == all@[i as int]);
        }
        let line = all[i].display_line();
        if holds_line(selected, line.as_str()) {
            let m = copy_search_match(&all[i]);
            r.push(m);
        }
        i = i + 1;
    }
    proof {
        assert(all@.take(all@.len() as int) =~= all@);
    }
    r
}

/// Whether ripgrep's exit is a success: exit code 1 only means that
/// nothing matched.
pub fn rg_exit_ok(success: bool, code: Option<i32>) -> (b: bool)
    ensures
        b == (success || code == Some(1i32)),
{
    success || match code {
        Some(c) => c == 1,
        None => false,
    }
}

/// The last match among `all` whose picker line is `line`.
pub open spec fn last_with_display(all: Seq<SearchMatch>, line: Seq<char>) -> Option<int>
    decreases all.len(),
{
    if all.len() == 0 {
        None
    } else if display_spec(all.last()) == line {
        Some(all.len() - 1)
    } else {
        last_with_display(all.drop_last(), line)
    }
}

/// The matches of a streamed search that were picked, in the order picked:
/// for each picked line, the last streamed match shown as that line (lines
/// that match none are skipped).
pub open spec fn streamed_selection_spec(all: Seq<SearchMatch>, selected: Seq<Seq<char>>) -> Seq<SearchMatch>
    decreases selected.len(),
{
    if selected.len() == 0 {
        Seq::empty()
    } else {
        let before = streamed_selection_spec(all, selected.drop_last());
        match last_with_display(all, selected.last()) {
            Some(i) => before.push(all[i]),
            None => before,
        }
    }
}

proof fn lemma_last_with_display(all: Seq<SearchMatch>, line: Seq<char>)
    ensures
        match last_with_display(all, line) {
            Some(i) => 0 <= i < all.len() && display_spec(all[i]) == line,
            None => true,
        },
    decreases all.len(),
{
    if all.len() > 0 {
        lemma_last_with_display(all.drop_last(), line);
    }
}

/// The matches of a streamed search that were picked.
pub fn streamed_selection(all: &Vec<SearchMatch>, selected: &Vec<String>) -> (r: Vec<SearchMatch>)
    ensures
        r@.len() == streamed_selection_spec(all@, views(selected@)).len(),
        forall|i: int|
            0 <= i < r@.len() ==> (#[trigger] r@[i]).path@ == streamed_selection_spec(
                all@,
                views(selected@),
            )[i].path@ && r@[i].line_number == streamed_selection_spec(all@, views(selected@))[i].line_number
                && r@[i].column == streamed_selection_spec(all@, views(selected@))[i].column
                && r@[i].line_text@ == streamed_selection_spec(all@, views(selected@))[i].line_text@,
{
    let ghost sel = views(selected@);
    let mut r: Vec<SearchMatch> = Vec::new();
    let mut k: usize = 0;
    while k < selected.len()
        invariant
            sel == views(selected@),
            k <= sel.len(),
            r@.len() == streamed_selection_spec(all@, sel.take(k as int)).len(),
            forall|i: int|
                0 <= i < r@.len() ==> (#[trigger] r@[i]).path@ == streamed_selection_spec(
                    all@,
                    sel.take(k as int),
                )[i].path@ && r@[i].line_number == streamed_selection_spec(
                    all@,
                    sel.take(k as int),
                )[i].line_number && r@[i].column == streamed_selection_spec(
                    all@,
                    sel.take(k as int),
                )[i].column && r@[i].line_text@ == streamed_selection_spec(
                    all@,
                    sel.take(k as int),
                )[i].line_text@,
        decreases sel.len() - k,
    {
        proof {
            assert(sel.take(k + 1).drop_last() =~= sel.take(k as int));
            assert(sel.take(k + 1).last() == selected@[k as int]@);
        }
        let ghost line = selected@[k as int]@;
        let mut j: usize = all.len();
        let mut found: Option<usize> = None;
        proof {
            assert(all@.take(all@.len() as int) =~= all@);
        }
        while j > 0
            invariant_except_break
                found is None,
            invariant
                j <= all@.len(),
                k < selected@.len(),
                line == selected@[k as int]@,
                last_with_display(all@, line) == last_with_display(all@.take(j as int), line),
            ensures
                found matches Some(f) ==> last_with_display(all@, line) == Some(f as int),
                found is None ==> last_with_display(all@, line) is None,
            decreases j,
        {
            proof {
                assert(all@.take(j as int).drop_last() =~= all@.take(j - 1));
                assert(all@.take(j as int).last() == all@[j - 1]);
            }
            let d = all[j - 1].display_line();
            if str_eq(d.as_str(), selected[k].as_str()) {
                found = Some(j - 1);
                break;
            }
            j = j - 1;
        }
        proof {
            if found is None {
                assert(all@.take(0) =~= Seq::<SearchMatch>::empty());
            }
        }
        match found {
            Some(f) => {
                proof {
                    lemma_last_with_display(all@, line);
                }
                let m = copy_search_match(&all[f]);
                r.push(m);
            },
            None => {},
        }
        k = k + 1;
    }
    proof {
        assert(sel.take(sel.len() as int) =~= sel);
    }
    r
}

// ---------------------------------------------------------------------------
// Files
// ---------------------------------------------------------------------------

/// How a path matches the file query: an absent query matches everything
/// as an empty needle does.
pub open spec fn file_match_spec(path: Seq<char>, query: Option<Seq<char>>) -> FuzzyMatch {
    match query {
        Some(q) => fuzzy_spec(path, q),
        None => FuzzyMatch::EmptyNeedle,
    }
}

/// The candidate files among `paths`, in order: those that stay below the
/// root and match the query, each with how it matches (which ranks it).
pub open spec fn file_candidates_spec(paths: Seq<Seq<char>>, query: Option<Seq<char>>) -> Seq<(Seq<char>, FuzzyMatch)>
    decreases paths.len(),
{
    if paths.len() == 0 {
        Seq::empty()
    } else {
        let before = file_candidates_spec(paths.drop_last(), query);
        let p = paths.last();
        if !has_parent_component(p) && file_match_spec(p, query).spec_is_match() {
            before.push((p, file_match_spec(p, query)))
        } else {
            before
        }
    }
}

/// The views of ranked candidates.
pub open spec fn candidate_views(v: Seq<(String, FuzzyMatch)>) -> Seq<(Seq<char>, FuzzyMatch)> {
    v.map_values(|c: (String, FuzzyMatch)| (c.0@, c.1))
}

/// The candidate files among `paths`.
pub fn file_candidates(paths: &Vec<String>, query: Option<&str>) -> (r: Vec<(String, FuzzyMatch)>)
    ensures
        candidate_views(r@) == file_candidates_spec(
            views(paths@),
            match query {
                Some(q) => Some(q@),
                None => None,
            },
        ),
{
    let ghost ps = views(paths@);
    let ghost qv = match query {
        Some(q) => Some(q@),
        None => None,
    };
    let mut r: Vec<(String, FuzzyMatch)> = Vec::new();
    let mut i: usize = 0;
    while i < paths.len()
        invariant
            ps == views(paths@),
            qv == (match query {
                Some(q) => Some(q@),
                None => None::<Seq<char>>,
            }),
            i <= ps.len(),
            candidate_views(r@) == file_candidates_spec(ps.take(i as int), qv),
        decreases ps.len() - i,
    {
        proof {
            assert(ps.take(i + 1).drop_last() =~= ps.take(i as int));
            assert(ps.take(i + 1).last() == paths@[i as int]@);
        }
        let p = paths[i].as_str();
        let m = match query {
            Some(q) => fuzzy_match(p, q),
            None => FuzzyMatch::EmptyNeedle,
        };
        if is_safe_relative_path(p) && m.is_match() {
            let ghost before = r@;
            r.push((String::from_str(p), m));
            proof {
                assert(candidate_views(r@) =~= candidate_views(before).push((p@, m)));
            }
        }
        i = i + 1;
    }
    proof {
        assert(ps.take(ps.len() as int) =~= ps);
    }
    r
}

/// Whether warming the file index should make sure the daemon runs: only
/// when search uses it.
pub fn warm_file_index(config: &ThunderConfig) -> (r: bool)
    ensures
        r == config.search.use_daemon,
{
    config.search.use_daemon
}

} // verus!
