//! How the bridge dispatches a request: the API and the static files are
//! kept strictly apart, so that a request with the wrong method never
//! falls through to the single-page fallback and gets HTML instead of JSON.
use vstd::prelude::*;

use crate::ai::difficulty::{Difficulty, level_of_id};
use crate::text::{chars_of, owned, push_str, str_eq, string_of};

verus! {

/// An API endpoint.
#[derive(Clone, Copy, Debug, PartialEq, Eq, Structural)]
pub enum ApiRoute {
    /// `GET /api/health`.
    Health,
    /// `GET /api/state`.
    State,
    /// `POST /api/new`: a new game, from a FEN or the initial position.
    NewGame,
    /// `POST /api/move`: a move by text or by coordinates.
    Move,
    /// `POST /api/undo`.
    Undo,
    /// `POST /api/engine`: the engine plays a move.
    Engine,
    /// `POST /api/hint`: suggested moves.
    Hint,
    /// `POST /api/coach`: commentary of the last move.
    Coach,
    /// `POST /api/seek`: show the position after a given move.
    Seek,
    /// `POST /api/resign`.
    Resign,
    /// `POST /api/settle`: settle a loss on time now.
    Settle,
    /// `POST /api/analyze`: commentary of a given move.
    Analyze,
    /// Any other method or path under `/api/`.
    Unknown,
}

/// The endpoint that `method` and `path` name.
pub open spec fn api_route_of(method: Seq<char>, path: Seq<char>) -> ApiRoute {
    if method == "GET"@ && path == "/api/health"@ {
        ApiRoute::Health
    } else if method == "GET"@ && path == "/api/state"@ {
        ApiRoute::State
    } else if method != "POST"@ {
        ApiRoute::Unknown
    } else if path == "/api/new"@ {
        ApiRoute::NewGame
    } else if path == "/api/move"@ {
        ApiRoute::Move
    } else if path == "/api/undo"@ {
        ApiRoute::Undo
    } else if path == "/api/engine"@ {
        ApiRoute::Engine
    } else if path == "/api/hint"@ {
        ApiRoute::Hint
    } else if path == "/api/coach"@ {
        ApiRoute::Coach
    } else if path == "/api/seek"@ {
        ApiRoute::Seek
    } else if path == "/api/resign"@ {
        ApiRoute::Resign
    } else if path == "/api/settle"@ {
        ApiRoute::Settle
    } else if path == "/api/analyze"@ {
        ApiRoute::Analyze
    } else {
        ApiRoute::Unknown
    }
}

/// The endpoint that `method` and `path` name.
pub fn api_route(method: &str, path: &str) -> (r: ApiRoute)
    ensures
        r == api_route_of(method@, path@),
{
    if str_eq(method, "GET") && str_eq(path, "/api/health") {
        ApiRoute::Health
    } else if str_eq(method, "GET") && str_eq(path, "/api/state") {
        ApiRoute::State
    } else if !str_eq(method, "POST") {
        ApiRoute::Unknown
    } else if str_eq(path, "/api/new") {
        ApiRoute::NewGame
    } else if str_eq(path, "/api/move") {
        ApiRoute::Move
    } else if str_eq(path, "/api/undo") {
        ApiRoute::Undo
    } else if str_eq(path, "/api/engine") {
        ApiRoute::Engine
    } else if str_eq(path, "/api/hint") {
        ApiRoute::Hint
    } else if str_eq(path, "/api/coach") {
        ApiRoute::Coach
    } else if str_eq(path, "/api/seek") {
        ApiRoute::Seek
    } else if str_eq(path, "/api/resign") {
        ApiRoute::Resign
    } else if str_eq(path, "/api/settle") {
        ApiRoute::Settle
    } else if str_eq(path, "/api/analyze") {
        ApiRoute::Analyze
    } else {
        ApiRoute::Unknown
    }
}

/// What a request is: a CORS preflight, an API call, a static file
/// refused in API-only mode, or a static file.
#[derive(Clone, Copy, Debug, PartialEq, Eq, Structural)]
pub enum RouteKind {
    /// `OPTIONS`, answered with 204 and no body.
    Preflight,
    /// A path under `/api/`.
    Api(ApiRoute),
    /// A static file while the front end is served elsewhere.
    ApiOnly,
    /// A static file.
    Static,
}

/// `p` starts with `/api/`.
pub open spec fn under_api(p: Seq<char>) -> bool {
    p.len() >= 5 && p.take(5) == "/api/"@
}

/// What request `method path` is; see [`RouteKind`].
pub open spec fn route_kind_of(method: Seq<char>, path: Seq<char>, only_api: bool) -> RouteKind {
    if method == "OPTIONS"@ {
        RouteKind::Preflight
    } else if under_api(path) {
        RouteKind::Api(api_route_of(method, path))
    } else if only_api {
        RouteKind::ApiOnly
    } else {
        RouteKind::Static
    }
}

/// A request under `/api/` is answered by the API (or as a preflight),
/// whatever its method: it never falls through to the static files.
pub proof fn law_api_paths_stay_in_the_api(method: Seq<char>, path: Seq<char>, only_api: bool)
    requires
        under_api(path),
    ensures
        route_kind_of(method, path, only_api) is Api || route_kind_of(method, path, only_api) is Preflight,
        method != "OPTIONS"@ ==> route_kind_of(method, path, only_api) == RouteKind::Api(
            api_route_of(method, path),
        ),
{
}

/// What request `method path` is.
pub fn route_kind(method: &str, path: &str, only_api: bool) -> (r: RouteKind)
    ensures
        r == route_kind_of(method@, path@, only_api),
{
    if str_eq(method, "OPTIONS") {
        return RouteKind::Preflight;
    }
    let cs = chars_of(path);
    let prefix = chars_of("/api/");
    let mut api = cs.len() >= 5;
    let mut i: usize = 0;
    while api && i < 5
        invariant
            prefix@ == "/api/"@,
            i <= 5,
            api ==> cs@.len() >= 5 && forall|k: int| 0 <= k < i ==> cs@[k] == prefix@[k],
            !api ==> !under_api(path@),
            cs@ == path@,
        decreases 5 - i,
    {
        proof {
            reveal_strlit("/api/");
        }
        if cs[i] != prefix[i] {
            proof {
                assert(cs@.take(5)[i as int] != prefix@[i as int]);
            }
            api = false;
        }
        i += 1;
    }
    proof {
        reveal_strlit("/api/");
        if api {
            assert(cs@.take(5) =~= prefix@);
        }
    }
    if api {
        RouteKind::Api(api_route(method, path))
    } else if only_api {
        RouteKind::ApiOnly
    } else {
        RouteKind::Static
    }
}

/// `v` clamped to `lo..=hi`.
pub open spec fn clamped(v: u64, lo: u64, hi: u64) -> u64 {
    if v < lo {
        lo
    } else if v > hi {
        hi
    } else {
        v
    }
}

/// Level and thinking time of an engine request: the level named by its
/// id (else `fallback`), and the time asked for (1200 ms when absent)
/// kept within `50..=cap` milliseconds.
pub open spec fn search_params(level: Option<Seq<char>>, think_ms: Option<u64>, fallback: Difficulty, cap: u64) -> (
    Difficulty,
    u64,
) {
    let d = match level {
        Some(t) => match level_of_id(t) {
            Some(d) => d,
            None => fallback,
        },
        None => fallback,
    };
    let ms = match think_ms {
        Some(v) => v,
        None => 1200,
    };
    (d, clamped(ms, 50, cap))
}

fn params(level: Option<&str>, think_ms: Option<u64>, fallback: Difficulty, cap: u64) -> (r: (
    Difficulty,
    u64,
))
    requires
        50 <= cap,
    ensures
        r == search_params(
            match level {
                Some(t) => Some(t@),
                None => None,
            },
            think_ms,
            fallback,
            cap,
        ),
{
    let d = match level {
        Some(t) => match Difficulty::from_id(t) {
            Some(d) => d,
            None => fallback,
        },
        None => fallback,
    };
    let ms = match think_ms {
        Some(v) => v,
        None => 1200,
    };
    let ms = if ms < 50 {
        50
    } else if ms > cap {
        cap
    } else {
        ms
    };
    (d, ms)
}

/// Level and thinking time of an engine move or a hint: level L3 unless
/// one is named, at most 30 seconds.
pub fn engine_params(level: Option<&str>, think_ms: Option<u64>) -> (r: (Difficulty, u64))
    ensures
        r == search_params(
            match level {
                Some(t) => Some(t@),
                None => None,
            },
            think_ms,
            Difficulty::L3,
            30_000,
        ),
{
    params(level, think_ms, Difficulty::L3, 30_000)
}

/// Level and thinking time of a commentary search: level L4 unless one is
/// named (grades are only as good as the scores), at most 10 seconds.
pub fn coach_params(level: Option<&str>, think_ms: Option<u64>) -> (r: (Difficulty, u64))
    ensures
        r == search_params(
            match level {
                Some(t) => Some(t@),
                None => None,
            },
            think_ms,
            Difficulty::L4,
            10_000,
        ),
{
    params(level, think_ms, Difficulty::L4, 10_000)
}

/// Message for an unknown endpoint.
pub fn unknown_route_message(method: &str, path: &str) -> (r: String)
    ensures
        r@ == "未知接口："@ + method@ + " "@ + path@ + "（可用接口见服务启动日志）"@,
{
    let mut s = owned("未知接口：");
    push_str(&mut s, method);
    push_str(&mut s, " ");
    push_str(&mut s, path);
    push_str(&mut s, "（可用接口见服务启动日志）");
    s
}

/// `p` without its leading `/` characters.
pub open spec fn strip_slashes(p: Seq<char>) -> Seq<char>
    decreases p.len(),
{
    if p.len() > 0 && p[0] == '/' {
        strip_slashes(p.drop_first())
    } else {
        p
    }
}

/// The segments of `p` between `/` characters.
pub open spec fn segments(p: Seq<char>) -> Seq<Seq<char>> {
    crate::text::split_on(p, '/')
}

/// File asked for by a static path: `index.html` for the root, else the
/// path without leading slashes; none when a segment is `.` or `..`, or
/// when it holds a backslash (no way out of the served directory).
pub open spec fn static_file_of(path: Seq<char>) -> Option<Seq<char>> {
    let rel = if path == "/"@ || path.len() == 0 {
        "index.html"@
    } else {
        strip_slashes(path)
    };
    if segments(rel).contains("."@) || segments(rel).contains(".."@) || rel.contains('\\') {
        None
    } else {
        Some(rel)
    }
}

/// A static path never leads out of the served directory: the file it
/// names has no `.` or `..` segment and no backslash.
pub proof fn law_static_files_stay_inside(path: Seq<char>)
    requires
        static_file_of(path) is Some,
    ensures
        !segments(static_file_of(path).unwrap()).contains(".."@),
        !segments(static_file_of(path).unwrap()).contains("."@),
        !static_file_of(path).unwrap().contains('\\'),
{
}

/// The file a static path asks for; see [`static_file_of`].
pub fn static_file(path: &str) -> (r: Option<String>)
    ensures
        match static_file_of(path@) {
            Some(f) => r matches Some(x) && x@ == f,
            None => r is None,
        },
{
    let cs = chars_of(path);
    let rel: Vec<char> = if str_eq(path, "/") || cs.len() == 0 {
        chars_of("index.html")
    } else {
        let mut a: usize = 0;
        assert(cs@.subrange(0, cs@.len() as int) =~= cs@);
        while a < cs.len() && cs[a] == '/'
            invariant
                a <= cs@.len(),
                cs@ == path@,
                strip_slashes(path@) == strip_slashes(cs@.subrange(a as int, cs@.len() as int)),
            decreases cs@.len() - a,
        {
            proof {
                assert(cs@.subrange(a as int, cs@.len() as int).drop_first() =~= cs@.subrange(
                    a + 1,
                    cs@.len() as int,
                ));
            }
            a += 1;
        }
        proof {
            if a == 0 {
                assert(cs@.subrange(0, cs@.len() as int) =~= cs@);
            }
        }
        let mut out: Vec<char> = Vec::new();
        let mut k: usize = a;
        while k < cs.len()
            invariant
                a <= k <= cs@.len(),
                out@ == cs@.subrange(a as int, k as int),
            decreases cs@.len() - k,
        {
            out.push(cs[k]);
            k += 1;
            assert(out@ =~= cs@.subrange(a as int, k as int));
        }
        proof {
            assert(a == 0 ==> cs@.subrange(0, cs@.len() as int) =~= cs@);
        }
        out
    };
    assert(rel@ == (if path@ == "/"@ || path@.len() == 0 {
        "index.html"@
    } else {
        strip_slashes(path@)
    }));
    let parts = crate::text::split_at_char(&rel, '/');
    let mut bad = false;
    let mut i: usize = 0;
    while i < parts.len()
        invariant
            i <= parts@.len(),
            crate::text::texts(parts@) == segments(rel@),
            bad == (exists|k: int| 0 <= k < i && (#[trigger] crate::text::texts(parts@)[k] == "."@
                || crate::text::texts(parts@)[k] == ".."@)),
        decreases parts@.len() - i,
    {
        let seg = string_of(&parts[i]);
        if str_eq(seg.as_str(), ".") || str_eq(seg.as_str(), "..") {
            bad = true;
        }
        proof {
            assert(crate::text::texts(parts@)[i as int] == parts@[i as int]@);
        }
        i += 1;
    }
    let mut backslash = false;
    let mut j: usize = 0;
    while j < rel.len()
        invariant
            j <= rel@.len(),
            backslash == (exists|k: int| 0 <= k < j && rel@[k] == '\\'),
        decreases rel@.len() - j,
    {
        if rel[j] == '\\' {
            backslash = true;
        }
        j += 1;
    }
    proof {
        let segs = segments(rel@);
        if segs.contains("."@) {
            let k = choose|k: int| 0 <= k < segs.len() && segs[k] == "."@;
            assert(crate::text::texts(parts@)[k] == "."@);
        }
        if segs.contains(".."@) {
            let k = choose|k: int| 0 <= k < segs.len() && segs[k] == ".."@;
            assert(crate::text::texts(parts@)[k] == ".."@);
        }
        if bad {
            let k = choose|k: int| 0 <= k < i && (#[trigger] crate::text::texts(parts@)[k] == "."@
                || crate::text::texts(parts@)[k] == ".."@);
            assert(segs[k] == "."@ || segs[k] == ".."@);
        }
        if rel@.contains('\\') {
            let k = choose|k: int| 0 <= k < rel@.len() && rel@[k] == '\\';
            assert(rel@[k] == '\\');
        }
    }
    if bad || backslash {
        None
    } else {
        Some(string_of(&rel))
    }
}

} // verus!
