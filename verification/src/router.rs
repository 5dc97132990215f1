//! Routing a bare `tn <query>` to code search, file finding or history.
use vstd::prelude::*;

use crate::config::ThunderConfig;
use crate::fuzzy::{fuzzy_match, fuzzy_spec, lemma_fuzzy_self};
use crate::text::{has_char, is_prefix, is_suffix, str_ends_with, str_has_char, str_starts_with, str_trim, trim};

verus! {

broadcast use vstd::string::group_string_axioms;

/// Where a bare query goes.
#[derive(Debug, Clone, Copy, PartialEq, Eq, Structural)]
pub enum QueryRoute {
    Search,
    Files,
    History,
}

/// File extensions that mark a query as a path.
pub open spec fn path_suffixes() -> Seq<Seq<char>> {
    seq![".rs"@, ".ts"@, ".tsx"@, ".js"@, ".py"@, ".go"@, ".md"@, ".toml"@, ".json"@]
}

/// Command words that mark a query as a shell command.
pub open spec fn command_prefixes() -> Seq<Seq<char>> {
    seq![
        "git "@,
        "cargo "@,
        "npm "@,
        "yarn "@,
        "pnpm "@,
        "docker "@,
        "kubectl "@,
        "make "@,
        "python "@,
        "python3 "@,
        "go "@,
        "rustc "@,
        "tn "@,
        "thunder "@,
    ]
}

/// The query holds a `/` or ends with a known source extension.
pub open spec fn looks_like_path(q: Seq<char>) -> bool {
    has_char(q, '/') || exists|i: int| 0 <= i < path_suffixes().len() && is_suffix(path_suffixes()[i], q)
}

/// The query starts with a known command word.
pub open spec fn looks_like_shell_command(q: Seq<char>) -> bool {
    exists|i: int| 0 <= i < command_prefixes().len() && is_prefix(command_prefixes()[i], q)
}

/// The route of `query`; `path_exists` tells whether the trimmed query
/// names an existing path.
pub open spec fn route_spec(query: Seq<char>, path_exists: bool) -> QueryRoute {
    let t = trim(query);
    if t.len() == 0 {
        QueryRoute::Search
    } else if looks_like_path(t) || path_exists {
        QueryRoute::Files
    } else if looks_like_shell_command(t) {
        QueryRoute::History
    } else if has_char(t, '/') || (has_char(t, '.') && fuzzy_spec(t, t).spec_is_match()) {
        QueryRoute::Files
    } else {
        QueryRoute::Search
    }
}

fn looks_like_path_exec(q: &str) -> (b: bool)
    ensures
        b == looks_like_path(q@),
{
    if str_has_char(q, '/') {
        return true;
    }
    let mut suffixes: Vec<&'static str> = Vec::new();
    suffixes.push(".rs");
    suffixes.push(".ts");
    suffixes.push(".tsx");
    suffixes.push(".js");
    suffixes.push(".py");
    suffixes.push(".go");
    suffixes.push(".md");
    suffixes.push(".toml");
    suffixes.push(".json");
    let ghost ss = suffixes@.map_values(|p: &str| p@);
    assert(ss =~= path_suffixes());
    let mut i: usize = 0;
    while i < suffixes.len()
        invariant
            ss == suffixes@.map_values(|p: &str| p@),
            ss == path_suffixes(),
            !has_char(q@, '/'),
            i <= ss.len(),
            forall|k: int| 0 <= k < i ==> !is_suffix(ss[k], q@),
        decreases ss.len() - i,
    {
        if str_ends_with(q, suffixes[i]) {
            assert(is_suffix(path_suffixes()[i as int], q@));
            return true;
        }
        i = i + 1;
    }
    false
}

fn looks_like_shell_command_exec(q: &str) -> (b: bool)
    ensures
        b == looks_like_shell_command(q@),
{
    let mut prefixes: Vec<&'static str> = Vec::new();
    prefixes.push("git ");
    prefixes.push("cargo ");
    prefixes.push("npm ");
    prefixes.push("yarn ");
    prefixes.push("pnpm ");
    prefixes.push("docker ");
    prefixes.push("kubectl ");
    prefixes.push("make ");
    prefixes.push("python ");
    prefixes.push("python3 ");
    prefixes.push("go ");
    prefixes.push("rustc ");
    prefixes.push("tn ");
    prefixes.push("thunder ");
    let ghost ps = prefixes@.map_values(|p: &str| p@);
    assert(ps =~= command_prefixes());
    let mut i: usize = 0;
    while i < prefixes.len()
        invariant
            ps == prefixes@.map_values(|p: &str| p@),
            ps == command_prefixes(),
            i <= ps.len(),
            forall|k: int| 0 <= k < i ==> !is_prefix(ps[k], q@),
        decreases ps.len() - i,
    {
        if str_starts_with(q, prefixes[i]) {
            assert(is_prefix(command_prefixes()[i as int], q@));
            return true;
        }
        i = i + 1;
    }
    false
}

/// Route a bare query: empty goes to search; a path (by shape, or because
/// `path_exists` says the trimmed query names an existing path) goes to the
/// file finder; a shell command goes to history; a query with a `/` or a
/// `.` that fuzzy-matches itself goes to files; anything else to search.
pub fn route_query(query: &str, path_exists: bool, _config: &ThunderConfig) -> (r: QueryRoute)
    ensures
        r == route_spec(query@, path_exists),
{
    let trimmed = str_trim(query);
    let t = trimmed.as_str();
    if t.is_empty() {
        return QueryRoute::Search;
    }
    if looks_like_path_exec(t) || path_exists {
        return QueryRoute::Files;
    }
    if looks_like_shell_command_exec(t) {
        return QueryRoute::History;
    }
    if str_has_char(t, '/') || (str_has_char(t, '.') && fuzzy_match(t, t).is_match()) {
        return QueryRoute::Files;
    }
    QueryRoute::Search
}

/// A query holding a `.` never goes to plain search: it is a path, a
/// command, or (as every text matches itself) a file name.
pub proof fn lemma_dotted_query_not_search(query: Seq<char>, path_exists: bool)
    requires
        trim(query).len() > 0,
        has_char(trim(query), '.'),
    ensures
        route_spec(query, path_exists) != QueryRoute::Search,
{
    lemma_fuzzy_self(trim(query));
}

/// A query that starts with a command word and a space (`git`, `cargo`,
/// `npm`, `yarn`, `pnpm`, `docker`, `kubectl`, `make`, `python`,
/// `python3`, `go`, `rustc`, `tn`, `thunder`), that holds no `/`, has no
/// known source extension and names no existing path, is a shell command:
/// it goes to history.
pub proof fn lemma_command_words_route_to_history(query: Seq<char>)
    requires
        is_prefix("git "@, trim(query))
        || is_prefix("cargo "@, trim(query))
        || is_prefix("npm "@, trim(query))
        || is_prefix("yarn "@, trim(query))
        || is_prefix("pnpm "@, trim(query))
        || is_prefix("docker "@, trim(query))
        || is_prefix("kubectl "@, trim(query))
        || is_prefix("make "@, trim(query))
        || is_prefix("python "@, trim(query))
        || is_prefix("python3 "@, trim(query))
        || is_prefix("go "@, trim(query))
        || is_prefix("rustc "@, trim(query))
        || is_prefix("tn "@, trim(query))
        || is_prefix("thunder "@, trim(query)),
        !has_char(trim(query), '/'),
        !is_suffix(".rs"@, trim(query)),
        !is_suffix(".ts"@, trim(query)),
        !is_suffix(".tsx"@, trim(query)),
        !is_suffix(".js"@, trim(query)),
        !is_suffix(".py"@, trim(query)),
        !is_suffix(".go"@, trim(query)),
        !is_suffix(".md"@, trim(query)),
        !is_suffix(".toml"@, trim(query)),
        !is_suffix(".json"@, trim(query)),
    ensures
        route_spec(query, false) == QueryRoute::History,
{
    let t = trim(query);
    reveal_strlit("git ");
    reveal_strlit("cargo ");
    reveal_strlit("npm ");
    reveal_strlit("yarn ");
    reveal_strlit("pnpm ");
    reveal_strlit("docker ");
    reveal_strlit("kubectl ");
    reveal_strlit("make ");
    reveal_strlit("python ");
    reveal_strlit("python3 ");
    reveal_strlit("go ");
    reveal_strlit("rustc ");
    reveal_strlit("tn ");
    reveal_strlit("thunder ");
    assert(!looks_like_path(t)) by {
        assert forall|i: int| 0 <= i < path_suffixes().len() implies !is_suffix(path_suffixes()[i], t) by {
            if i == 0 {
                assert(path_suffixes()[i] == ".rs"@);
            }
            if i == 1 {
                assert(path_suffixes()[i] == ".ts"@);
            }
            if i == 2 {
                assert(path_suffixes()[i] == ".tsx"@);
            }
            if i == 3 {
                assert(path_suffixes()[i] == ".js"@);
            }
            if i == 4 {
                assert(path_suffixes()[i] == ".py"@);
            }
            if i == 5 {
                assert(path_suffixes()[i] == ".go"@);
            }
            if i == 6 {
                assert(path_suffixes()[i] == ".md"@);
            }
            if i == 7 {
                assert(path_suffixes()[i] == ".toml"@);
            }
            if i == 8 {
                assert(path_suffixes()[i] == ".json"@);
            }
        }
    }
    if is_prefix("git "@, t) {
        assert(is_prefix(command_prefixes()[0], t));
    }
    if is_prefix("cargo "@, t) {
        assert(is_prefix(command_prefixes()[1], t));
    }
    if is_prefix("npm "@, t) {
        assert(is_prefix(command_prefixes()[2], t));
    }
    if is_prefix("yarn "@, t) {
        assert(is_prefix(command_prefixes()[3], t));
    }
    if is_prefix("pnpm "@, t) {
        assert(is_prefix(command_prefixes()[4], t));
    }
    if is_prefix("docker "@, t) {
        assert(is_prefix(command_prefixes()[5], t));
    }
    if is_prefix("kubectl "@, t) {
        assert(is_prefix(command_prefixes()[6], t));
    }
    if is_prefix("make "@, t) {
        assert(is_prefix(command_prefixes()[7], t));
    }
    if is_prefix("python "@, t) {
        assert(is_prefix(command_prefixes()[8], t));
    }
    if is_prefix("python3 "@, t) {
        assert(is_prefix(command_prefixes()[9], t));
    }
    if is_prefix("go "@, t) {
        assert(is_prefix(command_prefixes()[10], t));
    }
    if is_prefix("rustc "@, t) {
        assert(is_prefix(command_prefixes()[11], t));
    }
    if is_prefix("tn "@, t) {
        assert(is_prefix(command_prefixes()[12], t));
    }
    if is_prefix("thunder "@, t) {
        assert(is_prefix(command_prefixes()[13], t));
    }
}

} // verus!
