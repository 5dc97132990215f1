use thunder::corpus::{trigrams, LineCorpus};
use thunder::daemon::{ClientRequest, DaemonReply, DaemonState, keep_safe_hits, reindex_response, search_response};
use thunder::config::ThunderConfig;
use thunder::index::{parse_file, IndexMatch, ParsedFile, SearchIndex};

fn file(rel: &str, contents: &str) -> ParsedFile {
    parse_file(rel, contents.as_bytes(), 1024 * 1024).expect("indexable file")
}

#[test]
fn indexes_and_searches_workspace() {
    let mut index = SearchIndex::new("/tmp/ws".to_string(), 1024 * 1024);
    index.build(&vec![file("hello.txt", "hello thunder\n")]);
    let hits = index.search("thunder", 10, true);
    assert_eq!(hits.len(), 1);
    assert_eq!(hits[0].line_number, 1);
}

#[test]
fn case_sensitive_search_finds_uppercase_needle() {
    let mut index = SearchIndex::new("/tmp/ws".to_string(), 1024 * 1024);
    index.build(&vec![file("brand.txt", "Hello Thunder rocks\n")]);

    let hits = index.search("Thunder", 10, false);
    assert_eq!(hits.len(), 1, "case-sensitive uppercase query must hit");
    assert_eq!(hits[0].column, 7);

    let misses = index.search("THUNDER", 10, false);
    assert!(misses.is_empty(), "case-sensitive search must not match different case");

    let ignore = index.search("THUNDER", 10, true);
    assert_eq!(ignore.len(), 1);
}

#[test]
fn trigram_search_finds_needle() {
    let mut index = SearchIndex::new("/tmp/ws".to_string(), 1024 * 1024);
    index.build(&vec![file("code.rs", "fn thunder_search() {}\n")]);
    let hits = index.search("thunder_search", 10, true);
    assert_eq!(hits.len(), 1);
}

#[test]
fn incremental_update_replaces_file() {
    let mut index = SearchIndex::new("/tmp/ws".to_string(), 1024 * 1024);
    index.build(&vec![file("a.txt", "alpha\n")]);
    assert_eq!(index.search("alpha", 10, true).len(), 1);

    let count = index.update_paths(&vec!["a.txt".to_string()], &vec![file("a.txt", "beta\n")]);
    assert_eq!(count, 1);
    assert_eq!(index.search("alpha", 10, true).len(), 0);
    assert_eq!(index.search("beta", 10, true).len(), 1);
}

#[test]
fn update_without_changes_keeps_the_index() {
    let mut index = SearchIndex::new("/tmp/ws".to_string(), 1024 * 1024);
    index.build(&vec![file("a.txt", "alpha\nbeta\n")]);
    let count = index.update_paths(&Vec::new(), &vec![file("a.txt", "gamma\n")]);
    assert_eq!(count, 2);
    assert_eq!(index.search("alpha", 10, true).len(), 1);
}

#[test]
fn list_files_returns_indexed_paths() {
    let mut index = SearchIndex::new("/tmp/ws".to_string(), 1024 * 1024);
    index.build(&vec![file("one.txt", "x"), file("two.txt", "y")]);
    let files = index.list_files();
    assert_eq!(files.len(), 2);
    assert!(files.contains(&"one.txt".to_string()));
}

#[test]
fn listed_files_are_sorted_and_skip_empty_files() {
    let mut index = SearchIndex::new("/tmp/ws".to_string(), 1024 * 1024);
    index.build(&vec![file("b.rs", "b\n"), file("empty.rs", ""), file("a.rs", "a\n")]);
    assert_eq!(index.list_files(), vec!["a.rs".to_string(), "b.rs".to_string()]);
    assert_eq!(index.line_count(), 2);
    assert_eq!(index.root(), "/tmp/ws");
}

#[test]
fn search_reports_every_hit_in_order_up_to_the_limit() {
    let mut index = SearchIndex::new("/tmp/ws".to_string(), 1024 * 1024);
    index.build(&vec![file("a.txt", "x needle\nzz\nsecond needle\n"), file("b.txt", "- needle\n")]);
    let hits = index.search("needle", 10, false);
    let found: Vec<(String, u64, u64)> = hits.iter().map(|h| (h.path.clone(), h.line_number, h.column)).collect();
    assert_eq!(
        found,
        vec![("a.txt".to_string(), 1, 3), ("a.txt".to_string(), 3, 8), ("b.txt".to_string(), 1, 3)]
    );
    assert_eq!(hits[1].line_text, "second needle");
    assert_eq!(index.search("needle", 2, false).len(), 2);
    assert_eq!(index.search("needle", 0, false).len(), 1);
    assert!(index.search("", 10, false).is_empty());
}

#[test]
fn trigram_filter_requires_every_present_key() {
    let mut index = SearchIndex::new("/tmp/ws".to_string(), 1024 * 1024);
    index.build(&vec![file("a.txt", "needle first\nthen needle\n")]);
    let hits = index.search("needle", 10, false);
    assert_eq!(hits.len(), 1);
    assert_eq!(hits[0].line_number, 1);
}

#[test]
fn short_queries_skip_trigram_filtering() {
    let mut index = SearchIndex::new("/tmp/ws".to_string(), 1024 * 1024);
    index.build(&vec![file("a.txt", "xy\nabxyz\n")]);
    assert_eq!(index.search("xy", 10, false).len(), 2);
    assert_eq!(index.search("XY", 10, true).len(), 2);
}

#[test]
fn files_that_cannot_be_indexed_are_skipped() {
    assert!(parse_file("../outside.txt", b"text\n", 100).is_none());
    assert!(parse_file("big.txt", b"0123456789", 9).is_none());
    assert!(parse_file("bin.dat", b"ab\0cd", 100).is_none());
    let f = parse_file("ok.txt", b"one\r\ntwo\n\nlast", 100).unwrap();
    assert_eq!(f.0, "ok.txt");
    assert_eq!(
        f.1,
        vec![(1, "one".to_string()), (2, "two".to_string()), (3, String::new()), (4, "last".to_string())]
    );
    let lossy = parse_file("l.txt", &[b'a', 0xff, b'b'], 100).unwrap();
    assert_eq!(lossy.1, vec![(1, "a\u{fffd}b".to_string())]);
}

#[test]
fn roundtrip_line_text() {
    let mut writer = Vec::new();
    let mut lower = Vec::new();
    let line = LineCorpus::append_line(&mut writer, &mut lower, "a.rs", 1, "Hello Thunder");
    let corpus = LineCorpus::finalize(writer, &lower);
    assert_eq!(corpus.text_at(&line), "Hello Thunder");
    assert_eq!(corpus.lower_at(&line), "hello thunder");
}

#[test]
fn corpus_reads_back_every_line() {
    let mut writer = Vec::new();
    let mut lower = Vec::new();
    let a = LineCorpus::append_line(&mut writer, &mut lower, "a.rs", 1, "First LINE");
    let b = LineCorpus::append_line(&mut writer, &mut lower, "a.rs", 2, "");
    let c = LineCorpus::append_line(&mut writer, &mut lower, "b.rs", 7, "Third");
    assert_eq!((a.text_off, a.text_len, a.lower_off), (0, 10, 0));
    assert_eq!((c.text_off, c.text_len, c.lower_off, c.line_number), (10, 5, 10, 7));
    let corpus = LineCorpus::finalize(writer, &lower);
    assert_eq!(corpus.text_at(&a), "First LINE");
    assert_eq!(corpus.text_at(&b), "");
    assert_eq!(corpus.text_at(&c), "Third");
    assert_eq!(corpus.lower_at(&a), "first line");
    assert_eq!(corpus.lower_at(&c), "third");
}

#[test]
fn trigram_keys_cover_padded_windows() {
    let keys = trigrams("ab");
    assert_eq!(keys.len(), 3);
    assert!(trigrams("").len() == 1);
    assert_eq!(trigrams("abcd").len(), 5);
}

fn state_with(files: Vec<ParsedFile>) -> DaemonState {
    DaemonState::new("/tmp/ws".to_string(), ThunderConfig::default(), &files)
}

fn request(op: &str) -> ClientRequest {
    ClientRequest { op: op.to_string(), root: None, query: None, limit: None, ignore_case: None, prefix: None }
}

#[test]
fn daemon_answers_ping_and_lists_files() {
    let state = state_with(vec![file("src/Main.rs", "fn main() {}\n"), file("README.md", "# x\n")]);
    match state.handle_request(request("ping")) {
        DaemonReply::Respond(r) => {
            assert!(r.ok);
            assert_eq!(r.lines_indexed, Some(2));
            assert_eq!(r.message.as_deref(), Some("pong"));
            assert_eq!(r.root.as_deref(), Some("/tmp/ws"));
        }
        _ => panic!("ping must be answered"),
    }
    let mut list = request("list_files");
    list.prefix = Some("MAIN".to_string());
    match state.handle_request(list) {
        DaemonReply::Respond(r) => assert_eq!(r.files, Some(vec!["src/Main.rs".to_string()])),
        _ => panic!("list_files must be answered"),
    }
    let mut list = request("list_files");
    list.limit = Some(1);
    match state.handle_request(list) {
        DaemonReply::Respond(r) => assert_eq!(r.files, Some(vec!["README.md".to_string()])),
        _ => panic!("list_files must be answered"),
    }
}

#[test]
fn daemon_refuses_foreign_roots_and_unknown_ops() {
    let state = state_with(vec![file("a.txt", "x\n")]);
    let mut req = request("ping");
    req.root = Some("/elsewhere".to_string());
    match state.handle_request(req) {
        DaemonReply::Respond(r) => {
            assert!(!r.ok);
            assert_eq!(r.message.as_deref(), Some("daemon root mismatch: expected /tmp/ws"));
        }
        _ => panic!("mismatch must be answered"),
    }
    match state.handle_request(request("explode")) {
        DaemonReply::Respond(r) => {
            assert!(!r.ok);
            assert_eq!(r.message.as_deref(), Some("unknown op: explode"));
        }
        _ => panic!("unknown op must be answered"),
    }
    assert!(matches!(state.handle_request(request("reindex")), DaemonReply::Reindex));
}

#[test]
fn daemon_search_uses_request_defaults() {
    let state = state_with(vec![file("a.txt", "Alpha\nalpha\n")]);
    let mut req = request("search");
    req.query = Some("alpha".to_string());
    match state.handle_request(req) {
        DaemonReply::Search(hits) => {
            assert_eq!(hits.len(), 1);
            assert_eq!(hits[0].line_number, 2);
        }
        _ => panic!("search must give hits"),
    }
    let mut req = request("search");
    req.query = Some("alpha".to_string());
    req.ignore_case = Some(true);
    match state.handle_request(req) {
        DaemonReply::Search(hits) => assert_eq!(hits.len(), 2),
        _ => panic!("search must give hits"),
    }
}

#[test]
fn daemon_keeps_only_hits_inside_the_root() {
    let hit = |p: &str| IndexMatch { path: p.to_string(), line_number: 1, column: 1, line_text: "x".to_string() };
    let kept = keep_safe_hits(vec![hit("a.txt"), hit("../b.txt"), hit("c/../../d")]);
    assert_eq!(kept.len(), 1);
    assert_eq!(kept[0].path, "a.txt");
    let r = search_response("/tmp/ws", kept);
    assert!(r.ok);
    assert_eq!(r.matches.map(|m| m.len()), Some(1));
    let ok = reindex_response("/tmp/ws", Ok(12));
    assert!(ok.ok);
    assert_eq!(ok.lines_indexed, Some(12));
    assert_eq!(ok.message.as_deref(), Some("reindexed"));
    let failed = reindex_response("/tmp/ws", Err("disk full".to_string()));
    assert!(!failed.ok);
    assert_eq!(failed.message.as_deref(), Some("disk full"));
}

#[test]
fn every_hit_holds_the_query() {
    let mut index = SearchIndex::new("/tmp/ws".to_string(), 1024 * 1024);
    index.build(&vec![file("a.txt", "Thunder road\nquiet\nthunderstorm\n")]);
    for hit in index.search("thunder", 10, true) {
        assert!(hit.line_text.to_lowercase().contains("thunder"));
        let at = (hit.column - 1) as usize;
        assert_eq!(&hit.line_text.to_lowercase()[at..at + 7], "thunder");
    }
    for hit in index.search("thunder", 10, false) {
        assert!(hit.line_text.contains("thunder"));
    }
}

#[test]
fn saved_corpus_reopens_with_its_text_region() {
    let mut writer = Vec::new();
    let mut lower = Vec::new();
    let line = LineCorpus::append_line(&mut writer, &mut lower, "a.rs", 1, "Mixed Case");
    let mut saved = writer.clone();
    saved.push(0);
    saved.extend_from_slice(&lower);
    let reopened = LineCorpus::open(Some(saved));
    assert_eq!(reopened.text_at(&line), "Mixed Case");
    assert_eq!(reopened.lower_at(&line), "mixed case");
    let mut fresh = LineCorpus::open(None);
    assert_eq!(fresh.text_at(&line), "");
    let w = fresh.reset();
    assert!(w.is_empty());
}

#[test]
fn trigram_keys_pack_each_window() {
    assert_eq!(trigrams("a"), vec![431008627294241, 145135740387361]);
}
