//! The index daemon's request handling: one request in, one response out.
use vstd::prelude::*;

use crate::config::ThunderConfig;
use crate::corpus::utf8;
use crate::index::{
    all_entries, files_with_lines, hit_views, placed, HitView, IndexMatch, ParsedFile, SearchIndex,
};
use crate::order::strictly_sorted;
use crate::safety::{has_parent_component, is_safe_relative_path};
use crate::text::{
    chars_of, concat, contains, contains_exec, lowercase, opt_view, str_eq, to_lowercase, views,
};

verus! {

broadcast use vstd::string::group_string_axioms;

/// A request to the daemon.
#[derive(Debug, Clone)]
pub struct ClientRequest {
    pub op: String,
    pub root: Option<String>,
    pub query: Option<String>,
    pub limit: Option<usize>,
    pub ignore_case: Option<bool>,
    pub prefix: Option<String>,
}

/// The daemon's answer.
#[derive(Debug, Clone)]
pub struct ClientResponse {
    pub ok: bool,
    pub matches: Option<Vec<IndexMatch>>,
    pub files: Option<Vec<String>>,
    pub lines_indexed: Option<usize>,
    pub root: Option<String>,
    pub message: Option<String>,
}

/// The daemon's state: the index of one root.
pub struct DaemonState {
    pub index: SearchIndex,
    pub config: ThunderConfig,
    pub root: String,
}

/// What handling a request leads to.
pub enum DaemonReply {
    /// Answer with this response.
    Respond(ClientResponse),
    /// These hits are to be answered, each kept only if its path resolves
    /// inside the root on disk (see `search_response`).
    Search(Vec<IndexMatch>),
    /// The index is to be rebuilt from disk, then answered (see `reindex_response`).
    Reindex,
}


/// The files of the index whose lowercase path holds the lowercase prefix,
/// in order.
pub open spec fn files_matching(fs: Seq<Seq<char>>, p: Seq<char>) -> Seq<Seq<char>>
    decreases fs.len(),
{
    if fs.len() == 0 {
        Seq::empty()
    } else {
        let before = files_matching(fs.drop_last(), p);
        if contains(lowercase(fs.last()), lowercase(p)) {
            before.push(fs.last())
        } else {
            before
        }
    }
}

/// The first `limit` items, or all of them.
pub open spec fn truncated<A>(s: Seq<A>, limit: Option<usize>) -> Seq<A> {
    match limit {
        Some(l) => if s.len() <= l {
            s
        } else {
            s.take(l as int)
        },
        None => s,
    }
}

/// A response with nothing but `ok`, the root and a message.
pub open spec fn plain_response(r: ClientResponse, ok: bool, root: Seq<char>, message: Seq<char>) -> bool {
    &&& r.ok == ok
    &&& r.matches is None
    &&& r.files is None
    &&& r.lines_indexed is None
    &&& opt_view(r.root) == Some(root)
    &&& opt_view(r.message) == Some(message)
}

impl DaemonState {
    /// The daemon's state for `root`: an index of the given files (the
    /// project's files read from disk), built with the configured size cap.
    pub fn new(root: String, config: ThunderConfig, parsed: &Vec<ParsedFile>) -> (r: DaemonState)
        ensures
            r.root@ == root@,
            r.config == config,
            r.index.spec_root() == root@,
            r.index.spec_max_file_size() == config.search.max_file_size_bytes,
            r.index.spec_lines().len() == all_entries(parsed@).len(),
            r.index.spec_files() == files_with_lines(parsed@),
            forall|k: int|
                0 <= k < all_entries(parsed@).len() ==> #[trigger] r.index.text_of(k) == utf8(
                    all_entries(parsed@)[k].2,
                ),
            forall|k: int|
                0 <= k < all_entries(parsed@).len() ==> placed(
                    #[trigger] r.index.spec_lines()[k],
                    all_entries(parsed@),
                    k,
                ),
    {
        let mut index = SearchIndex::new(String::from_str(root.as_str()), config.search.max_file_size_bytes);
        index.build(parsed);
        DaemonState { index, config, root }
    }
}

impl DaemonState {
    /// The answer to `list_files`: the indexed files in sorted order, kept
    /// when they hold the prefix (ignoring case), cut to the limit.
    pub open spec fn list_reply_ok(&self, req: ClientRequest, r: ClientResponse) -> bool {
        &&& r.ok
        &&& r.matches is None
        &&& r.lines_indexed is None
        &&& opt_view(r.root) == Some(self.root@)
        &&& r.message is None
        &&& match r.files {
            Some(fs) => exists|all: Seq<Seq<char>>|
                strictly_sorted(all) && all.to_set() == self.index.spec_files() && views(fs@)
                    == truncated(
                    match req.prefix {
                        Some(p) => files_matching(all, p@),
                        None => all,
                    },
                    req.limit,
                ),
            None => false,
        }
    }

    /// The result of handling `req`.
    pub open spec fn reply_spec(&self, req: ClientRequest, reply: DaemonReply) -> bool {
        let root = self.root@;
        if req.root is Some && req.root->0@ != root {
            reply matches DaemonReply::Respond(r) && plain_response(
                r,
                false,
                root,
                "daemon root mismatch: expected "@ + root,
            )
        } else if req.op@ == "ping"@ {
            reply matches DaemonReply::Respond(r) && r.ok && r.matches is None && r.files is None
                && r.lines_indexed == Some(self.index.spec_lines().len() as usize) && opt_view(
                r.root,
            ) == Some(root) && opt_view(r.message) == Some("pong"@)
        } else if req.op@ == "search"@ {
            let query = match req.query {
                Some(q) => q@,
                None => Seq::empty(),
            };
            let limit = match req.limit {
                Some(l) => l,
                None => self.config.daemon.max_results,
            };
            let ignore_case = match req.ignore_case {
                Some(b) => b,
                None => false,
            };
            reply matches DaemonReply::Search(hits) && hit_views(hits@) == self.index.search_spec(
                query,
                limit,
                ignore_case,
            )
        } else if req.op@ == "list_files"@ {
            match reply {
                DaemonReply::Respond(r) => self.list_reply_ok(req, r),
                _ => false,
            }
        } else if req.op@ == "reindex"@ {
            reply is Reindex
        } else {
            reply matches DaemonReply::Respond(r) && plain_response(
                r,
                false,
                root,
                "unknown op: "@ + req.op@,
            )
        }
    }

    /// Handle one request: a root other than the daemon's is refused;
    /// `ping` reports the line count; `search` searches the index (hits go
    /// back for the on-disk path check); `list_files` lists the indexed
    /// files, filtered by a case-insensitive substring and cut to a limit;
    /// `reindex` asks for a rebuild; any other op is refused.
    pub fn handle_request(&self, request: ClientRequest) -> (r: DaemonReply)
        ensures
            self.reply_spec(request, r),
    {
        let expected = self.root.clone();
        if let Some(root) = &request.root {
            if !str_eq(root.as_str(), expected.as_str()) {
                return DaemonReply::Respond(
                    ClientResponse {
                        ok: false,
                        matches: None,
                        files: None,
                        lines_indexed: None,
                        root: Some(expected.clone()),
                        message: Some(concat("daemon root mismatch: expected ", expected.as_str())),
                    },
                );
            }
        }
        let op = request.op.as_str();
        if str_eq(op, "ping") {
            DaemonReply::Respond(
                ClientResponse {
                    ok: true,
                    matches: None,
                    files: None,
                    lines_indexed: Some(self.index.line_count()),
                    root: Some(expected),
                    message: Some(String::from_str("pong")),
                },
            )
        } else if str_eq(op, "search") {
            let query = match &request.query {
                Some(q) => q.clone(),
                None => String::new(),
            };
            let limit = match request.limit {
                Some(l) => l,
                None => self.config.daemon.max_results,
            };
            let ignore_case = match request.ignore_case {
                Some(b) => b,
                None => false,
            };
            DaemonReply::Search(self.index.search(query.as_str(), limit, ignore_case))
        } else if str_eq(op, "list_files") {
            let all = self.index.list_files();
            let ghost all_v = views(all@);
            let mut files = match &request.prefix {
                Some(p) => filter_files(&all, p.as_str()),
                None => all,
            };
            if let Some(limit) = request.limit {
                files.truncate(limit);
            }
            proof {
                let kept = match request.prefix {
                    Some(p) => files_matching(all_v, p@),
                    None => all_v,
                };
                assert(views(files@) =~= truncated(kept, request.limit));
                assert(strictly_sorted(all_v) && all_v.to_set() == self.index.spec_files());
            }
            DaemonReply::Respond(
                ClientResponse {
                    ok: true,
                    matches: None,
                    files: Some(files),
                    lines_indexed: None,
                    root: Some(expected),
                    message: None,
                },
            )
        } else if str_eq(op, "reindex") {
            DaemonReply::Reindex
        } else {
            DaemonReply::Respond(
                ClientResponse {
                    ok: false,
                    matches: None,
                    files: None,
                    lines_indexed: None,
                    root: Some(expected),
                    message: Some(concat("unknown op: ", op)),
                },
            )
        }
    }
}

/// The files whose lowercase path holds the lowercase `prefix`, in order.
fn filter_files(files: &Vec<String>, prefix: &str) -> (r: Vec<String>)
    ensures
        views(r@) == files_matching(views(files@), prefix@),
{
    let p = to_lowercase(prefix);
    let pc = chars_of(p.as_str());
    let mut r: Vec<String> = Vec::new();
    let mut i: usize = 0;
    while i < files.len()
        invariant
            pc@ == lowercase(prefix@),
            i <= files@.len(),
            views(r@) == files_matching(views(files@).take(i as int), prefix@),
        decreases files@.len() - i,
    {
        proof {
            assert(views(files@).take(i + 1).drop_last() =~= views(files@).take(i as int));
        }
        let f = to_lowercase(files[i].as_str());
        let fc = chars_of(f.as_str());
        if contains_exec(fc.as_slice(), pc.as_slice()) {
            let ghost before = r@;
            let st = String::from_str(files[i].as_str());
            r.push(st);
            proof {
                assert(views(r@) =~= views(before).push(files@[i as int]@));
            }
        }
        i = i + 1;
    }
    proof {
        assert(views(files@).take(files@.len() as int) =~= views(files@));
    }
    r
}

/// The hit paths that stay below the root: those with no `..` component.
pub open spec fn safe_hit_paths(hits: Seq<HitView>) -> Seq<HitView>
    decreases hits.len(),
{
    if hits.len() == 0 {
        Seq::empty()
    } else {
        let before = safe_hit_paths(hits.drop_last());
        if has_parent_component(hits.last().0) {
            before
        } else {
            before.push(hits.last())
        }
    }
}

/// No hit that is kept names a path with a `..` component: index paths
/// cannot escape the project root.
pub proof fn lemma_kept_hits_stay_inside(hits: Seq<HitView>)
    ensures
        forall|k: int|
            0 <= k < safe_hit_paths(hits).len() ==> !has_parent_component(
                (#[trigger] safe_hit_paths(hits)[k]).0,
            ),
    decreases hits.len(),
{
    if hits.len() > 0 {
        lemma_kept_hits_stay_inside(hits.drop_last());
        let before = safe_hit_paths(hits.drop_last());
        assert forall|k: int| 0 <= k < safe_hit_paths(hits).len() implies !has_parent_component(
            (#[trigger] safe_hit_paths(hits)[k]).0,
        ) by {
            if k < before.len() {
                assert(safe_hit_paths(hits)[k] == before[k]);
            }
        }
    }
}

/// The hits whose relative path has no `..` component, in order (the part
/// of the match-path check that needs no disk).
pub fn keep_safe_hits(hits: Vec<IndexMatch>) -> (r: Vec<IndexMatch>)
    ensures
        hit_views(r@) == safe_hit_paths(hit_views(hits@)),
{
    let mut r: Vec<IndexMatch> = Vec::new();
    let mut i: usize = 0;
    while i < hits.len()
        invariant
            i <= hits@.len(),
            hit_views(r@) == safe_hit_paths(hit_views(hits@).take(i as int)),
        decreases hits@.len() - i,
    {
        proof {
            assert(hit_views(hits@).take(i + 1).drop_last() =~= hit_views(hits@).take(i as int));
        }
        if is_safe_relative_path(hits[i].path.as_str()) {
            let ghost before = r@;
            let m = copy_match(&hits[i]);
            r.push(m);
            proof {
                assert(hit_views(r@) =~= hit_views(before).push(hits@[i as int].hit_view()));
            }
        }
        i = i + 1;
    }
    proof {
        assert(hit_views(hits@).take(hits@.len() as int) =~= hit_views(hits@));
    }
    r
}

/// A copy of a hit.
pub fn copy_match(m: &IndexMatch) -> (r: IndexMatch)
    ensures
        r.hit_view() == m.hit_view(),
{
    IndexMatch {
        path: String::from_str(m.path.as_str()),
        line_number: m.line_number,
        column: m.column,
        line_text: String::from_str(m.line_text.as_str()),
    }
}

/// The answer to a search once the hits are checked: `ok`, the kept hits, the root.
pub fn search_response(root: &str, kept: Vec<IndexMatch>) -> (r: ClientResponse)
    ensures
        r.ok,
        r.matches == Some(kept),
        r.files is None,
        r.lines_indexed is None,
        opt_view(r.root) == Some(root@),
        r.message is None,
{
    ClientResponse {
        ok: true,
        matches: Some(kept),
        files: None,
        lines_indexed: None,
        root: Some(String::from_str(root)),
        message: None,
    }
}

/// The answer to a rebuild: the new line count with `reindexed`, or the
/// failure's message.
pub fn reindex_response(root: &str, outcome: Result<usize, String>) -> (r: ClientResponse)
    ensures
        r.matches is None,
        r.files is None,
        opt_view(r.root) == Some(root@),
        match outcome {
            Ok(count) => r.ok && r.lines_indexed == Some(count) && opt_view(r.message) == Some(
                "reindexed"@,
            ),
            Err(e) => !r.ok && r.lines_indexed is None && opt_view(r.message) == Some(e@),
        },
{
    match outcome {
        Ok(count) => ClientResponse {
            ok: true,
            matches: None,
            files: None,
            lines_indexed: Some(count),
            root: Some(String::from_str(root)),
            message: Some(String::from_str("reindexed")),
        },
        Err(e) => ClientResponse {
            ok: false,
            matches: None,
            files: None,
            lines_indexed: None,
            root: Some(String::from_str(root)),
            message: Some(e),
        },
    }
}

} // verus!
