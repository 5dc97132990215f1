use std::sync::mpsc;

use thunder::config::ThunderConfig;
use thunder::fuzzy::{fuzzy_match, FuzzyMatch};
use thunder::index::IndexMatch;
use thunder::pick::{fzf_args, fzf_selection, join_lines, ChannelReader, FzfError, PickOptions};
use thunder::safety::PreviewRejection;
use thunder::search::{
    default_preview_command, file_candidates, is_literal_query, map_selected_matches,
    match_from_event, matches_from_hits, picker_options, rg_exit_ok, ripgrep_args, search_plan,
    streamed_selection, warm_file_index, SearchError, SearchMatch, SearchOptions, SearchPlan,
};

fn m(path: &str, line: u64, column: u64, text: &str) -> SearchMatch {
    SearchMatch { path: path.to_string(), line_number: line, column, line_text: text.to_string() }
}

#[test]
fn parses_ripgrep_match_json() {
    let line = r#"{"type":"match","data":{"path":{"text":"src/main.rs"},"lines":{"text":"fn main() {}"},"line_number":10,"absolute_offset":120,"submatches":[{"match":{"text":"main"},"start":3,"end":7}]}}"#;
    let event: serde_json::Value = serde_json::from_str(line).unwrap();
    let data = &event["data"];
    let fields = (
        data["path"]["text"].as_str().unwrap().to_string(),
        data["line_number"].as_u64().unwrap(),
        data["lines"]["text"].as_str().unwrap().to_string(),
        data["submatches"][0]["start"].as_u64(),
    );
    let parsed = match_from_event(event["type"].as_str().unwrap(), Some(fields)).unwrap().unwrap();
    assert_eq!(parsed.path, "src/main.rs");
    assert_eq!(parsed.line_number, 10);
    assert_eq!(parsed.column, 4);
    assert_eq!(parsed.line_text, "fn main() {}");
}

#[test]
fn ripgrep_events_other_than_matches_yield_nothing() {
    assert!(matches!(match_from_event("begin", None), Ok(None)));
    assert!(matches!(match_from_event("match", None), Err(SearchError::MissingMatchData)));
    let no_sub = match_from_event("match", Some(("a".into(), 2, "x".into(), None))).unwrap().unwrap();
    assert_eq!(no_sub.column, 1);
}

#[test]
fn literal_query_detection() {
    let options = SearchOptions::default();
    assert!(is_literal_query("hello", &options));
    assert!(!is_literal_query("he.llo", &options));
}

#[test]
fn fixed_strings_make_every_query_literal() {
    let mut options = SearchOptions::default();
    options.fixed_strings = true;
    assert!(is_literal_query("a.*b", &options));
    options.fixed_strings = false;
    assert!(!is_literal_query("a|b", &options));
    assert!(!is_literal_query("x\\d", &options));
}

#[test]
fn literal_queries_try_the_index_first() {
    let options = SearchOptions::default();
    assert_eq!(search_plan("", &options), Err(SearchError::EmptyQuery));
    assert_eq!(search_plan("auth", &options), Ok(SearchPlan::IndexThenRipgrep));
    assert_eq!(search_plan("auth.*", &options), Ok(SearchPlan::Ripgrep));
    let mut no_daemon = SearchOptions::default();
    no_daemon.use_daemon = false;
    assert_eq!(search_plan("auth", &no_daemon), Ok(SearchPlan::Ripgrep));
}

#[test]
fn ripgrep_arguments_follow_the_options() {
    let mut options = SearchOptions::default();
    assert_eq!(
        ripgrep_args("foo", &options, None),
        vec!["--json", "--line-number", "--column", "--no-heading", "--color=never", "foo", "."]
    );
    options.case_insensitive = true;
    options.fixed_strings = true;
    options.paths = vec!["src".to_string(), "tests".to_string()];
    assert_eq!(
        ripgrep_args("a.b", &options, Some(500)),
        vec![
            "--json", "--line-number", "--column", "--no-heading", "--color=never", "--max-count",
            "500", "-i", "-F", "a.b", "src", "tests"
        ]
    );
}

#[test]
fn match_lines_for_the_picker_and_editor() {
    let hit = m("src/lib.rs", 12, 5, "let x = 1;   \t");
    assert_eq!(hit.display_line(), "src/lib.rs:12:5:let x = 1;");
    assert_eq!(hit.path_line(), "src/lib.rs:12");
}

#[test]
fn picked_lines_map_back_to_matches() {
    let all = vec![m("a", 1, 1, "x"), m("b", 2, 3, "y"), m("c", 4, 1, "z")];
    let selected = vec!["c:4:1:z".to_string(), "a:1:1:x".to_string(), "missing".to_string()];
    let picked = map_selected_matches(&all, &selected);
    assert_eq!(picked.iter().map(|p| p.path.as_str()).collect::<Vec<_>>(), vec!["a", "c"]);
    assert!(map_selected_matches(&all, &Vec::new()).is_empty());
    let streamed = streamed_selection(&all, &selected);
    assert_eq!(streamed.iter().map(|p| p.path.as_str()).collect::<Vec<_>>(), vec!["c", "a"]);
}

#[test]
fn streamed_duplicates_resolve_to_the_last_match() {
    let all = vec![m("a", 1, 1, "x"), m("a", 1, 1, "x  ")];
    let picked = streamed_selection(&all, &vec!["a:1:1:x".to_string()]);
    assert_eq!(picked.len(), 1);
    assert_eq!(picked[0].line_text, "x  ");
}

#[test]
fn index_hits_become_matches() {
    let hits = vec![IndexMatch { path: "p.rs".into(), line_number: 3, column: 9, line_text: "t".into() }];
    let ms = matches_from_hits(hits);
    assert_eq!(ms.len(), 1);
    assert_eq!((ms[0].path.as_str(), ms[0].line_number, ms[0].column), ("p.rs", 3, 9));
}

#[test]
fn picker_preview_falls_back_to_sed() {
    assert_eq!(default_preview_command().as_deref(), Some("sed -n '{2}p' {1}"));
    let options = SearchOptions::default();
    let pick = picker_options(&options).unwrap();
    assert_eq!(pick.preview_cmd.as_deref(), Some("sed -n '{2}p' {1}"));
    let mut custom = SearchOptions::default();
    custom.preview_cmd = Some("bat {1}".to_string());
    assert_eq!(picker_options(&custom).unwrap().preview_cmd.as_deref(), Some("bat {1}"));
    custom.pick.preview_cmd = Some("cat {1} && rm x".to_string());
    assert!(matches!(picker_options(&custom), Err(PreviewRejection::UnsafeToken(_))));
}

#[test]
fn ripgrep_exit_code_one_means_no_match() {
    assert!(rg_exit_ok(true, Some(0)));
    assert!(rg_exit_ok(false, Some(1)));
    assert!(!rg_exit_ok(false, Some(2)));
    assert!(!rg_exit_ok(false, None));
}

#[test]
fn file_candidates_keep_safe_matching_paths() {
    let paths = vec!["src/lib.rs".to_string(), "../secret".to_string(), "docs/guide.md".to_string()];
    let all = file_candidates(&paths, None);
    assert_eq!(all.len(), 2);
    assert_eq!(all[0], ("src/lib.rs".to_string(), FuzzyMatch::EmptyNeedle));
    let some = file_candidates(&paths, Some("lib"));
    assert_eq!(some.len(), 1);
    assert_eq!(some[0].0, "src/lib.rs");
    assert!(warm_file_index(&ThunderConfig::default()));
}

#[test]
fn fuzzy_matches_by_kind() {
    assert_eq!(fuzzy_match("anything", ""), FuzzyMatch::EmptyNeedle);
    assert_eq!(fuzzy_match("Auth.rs", "auth.RS"), FuzzyMatch::Exact);
    assert_eq!(
        fuzzy_match("src/lib.rs", "LIB"),
        FuzzyMatch::Substring { needle_len: 3, haystack_len: 10 }
    );
    assert_eq!(
        fuzzy_match("src/main.rs", "smr"),
        FuzzyMatch::Subsequence { needle_len: 3, haystack_len: 11, longest_run: 1 }
    );
    assert_eq!(
        fuzzy_match("abcxyzab", "abz"),
        FuzzyMatch::Subsequence { needle_len: 3, haystack_len: 8, longest_run: 2 }
    );
    assert_eq!(fuzzy_match("foo", "bar"), FuzzyMatch::NoMatch);
    assert!(!FuzzyMatch::NoMatch.is_match());
    assert!(FuzzyMatch::Exact.is_match());
}

#[test]
fn default_options_are_valid() {
    let options = PickOptions::default();
    assert_eq!(options.height, "60%");
    assert!(!options.multi);
}

#[test]
fn fzf_gets_the_picker_options() {
    let mut options = PickOptions::default();
    assert_eq!(fzf_args(&options), vec!["--height", "60%", "--reverse", "--prompt", "> "]);
    options.multi = true;
    options.reverse = false;
    options.query = Some("q".to_string());
    options.preview_cmd = Some("bat {1}".to_string());
    options.prompt = "files>  \t".to_string();
    assert_eq!(
        fzf_args(&options),
        vec!["--height", "60%", "--multi", "--query", "q", "--preview", "bat {1}", "--prompt", "files> "]
    );
}

#[test]
fn fzf_selection_reads_its_output() {
    assert_eq!(fzf_selection(true, Some(0), b"a\n\nb\n").unwrap(), vec!["a", "b"]);
    assert_eq!(fzf_selection(false, Some(130), b"").unwrap(), Vec::<String>::new());
    assert_eq!(fzf_selection(false, Some(2), b"a\n"), Err(FzfError::Failed));
    assert_eq!(fzf_selection(true, Some(0), &[0xc3]), Err(FzfError::InvalidOutput));
    assert_eq!(join_lines(&vec!["a".to_string(), "b".to_string()]), "a\nb");
    assert_eq!(join_lines(&Vec::new()), "");
}

#[test]
fn channel_reader_hands_out_lines_with_newlines() {
    let (tx, rx) = mpsc::channel::<String>();
    tx.send("alpha".to_string()).unwrap();
    tx.send("be".to_string()).unwrap();
    drop(tx);
    let mut reader = ChannelReader::new(rx);
    assert_eq!(reader.read(3), b"alp".to_vec());
    assert_eq!(reader.read(10), b"ha\n".to_vec());
    assert_eq!(reader.fill_buf(), b"be\n");
    reader.consume(2);
    assert_eq!(reader.fill_buf(), b"\n");
    reader.consume(1);
    assert_eq!(reader.fill_buf(), b"");
    assert_eq!(reader.read(4), Vec::<u8>::new());
}

#[test]
fn channel_reader_reads_a_whole_feed() {
    let (tx, rx) = mpsc::channel::<String>();
    for line in ["one", "", "three 3"] {
        tx.send(line.to_string()).unwrap();
    }
    drop(tx);
    let mut reader = ChannelReader::new(rx);
    let mut all = Vec::new();
    loop {
        let chunk = reader.read(2);
        assert!(chunk.len() <= 2);
        if chunk.is_empty() {
            break;
        }
        all.extend(chunk);
    }
    assert_eq!(all, b"one\n\nthree 3\n".to_vec());
    assert_eq!(reader.read(2), Vec::<u8>::new());
}
