//! Synthetic service log generator: normal lines obey a fixed grammar, anomalies
//! break it (syntactic) or combine valid values impossibly (semantic).
use vstd::prelude::*;

use crate::rng::{random_u32, random_usize};
use crate::text::{
    decimal, lemma_cancel_prefix, lemma_concat_lacks, lemma_decimal_digits, lemma_cancel_suffix, lemma_concat_no_space, lemma_decimal_no_space,
    lemma_decimal_short, lemma_spaced_injective, lemma_spaced_six, newline_terminated, no_space,
    push_char, push_decimal, spaced, str_eq,
};

verus! {

/// Severity of a normal line.
#[derive(Clone, Copy, PartialEq, Eq, Structural, Debug)]
pub enum Level {
    Info,
    Warn,
    Error,
}

/// The text of a level.
pub open spec fn level_name(l: Level) -> Seq<char> {
    match l {
        Level::Info => "INFO"@,
        Level::Warn => "WARN"@,
        Level::Error => "ERROR"@,
    }
}

impl Level {
    /// The text of the level, as it stands in a line.
    pub fn name(&self) -> (s: &'static str)
        ensures
            s@ == level_name(*self),
    {
        match self {
            Level::Info => "INFO",
            Level::Warn => "WARN",
            Level::Error => "ERROR",
        }
    }
}

pub open spec fn services() -> Seq<Seq<char>> {
    seq!["auth"@, "api"@, "db"@, "cache"@, "worker"@]
}

pub open spec fn methods() -> Seq<Seq<char>> {
    seq!["GET"@, "POST"@, "PUT"@, "DELETE"@]
}

pub open spec fn paths() -> Seq<Seq<char>> {
    seq!["/login"@, "/logout"@, "/users"@, "/orders"@, "/cart"@, "/health"@, "/search"@]
}

pub open spec fn codes_ok() -> Seq<Seq<char>> {
    seq!["200"@, "201"@, "204"@, "301"@, "302"@]
}

pub open spec fn codes_err() -> Seq<Seq<char>> {
    seq!["400"@, "401"@, "403"@, "404"@, "500"@, "503"@]
}

/// Status codes a line of level `l` may carry.
pub open spec fn codes_for(l: Level) -> Seq<Seq<char>> {
    if l == Level::Error {
        codes_err()
    } else {
        codes_ok()
    }
}

/// Latencies (in ms) a line of level `l` may carry.
pub open spec fn latency_ok(l: Level, lat: nat) -> bool {
    if l == Level::Error {
        200 <= lat < 900
    } else {
        2 <= lat < 250
    }
}

/// The six space-separated tokens of a line.
pub open spec fn line_tokens(
    svc: Seq<char>,
    l: Level,
    method: Seq<char>,
    path: Seq<char>,
    code: Seq<char>,
    lat: nat,
) -> Seq<Seq<char>> {
    seq!["svc="@ + svc, "lvl="@ + level_name(l), method, path, code, decimal(lat) + "ms"@]
}

/// `s` is a normal line of level `l`: it follows the grammar of the service.
pub open spec fn is_normal_line_at(s: Seq<char>, l: Level) -> bool {
    exists|svc: Seq<char>, method: Seq<char>, path: Seq<char>, code: Seq<char>, lat: nat|
        #![trigger line_tokens(svc, l, method, path, code, lat)]
        {
            &&& services().contains(svc)
            &&& methods().contains(method)
            &&& paths().contains(path)
            &&& codes_for(l).contains(code)
            &&& latency_ok(l, lat)
            &&& s == spaced(line_tokens(svc, l, method, path, code, lat))
        }
}

/// `s` is a normal line of some level.
pub open spec fn is_normal_line(s: Seq<char>) -> bool {
    exists|l: Level| is_normal_line_at(s, l)
}

/// The texts of `xs`.
pub open spec fn texts(xs: Seq<&str>) -> Seq<Seq<char>> {
    xs.map_values(|x: &str| x@)
}

/// One element of `xs`, drawn at random.
pub fn choice<'a>(xs: &[&'a str]) -> (r: &'a str)
    requires
        xs@.len() > 0,
    ensures
        texts(xs@).contains(r@),
{
    let i = random_usize(0, xs.len());
    assert(texts(xs@)[i as int] == xs@[i as int]@);
    xs[i]
}

/// A normal line of level `level`, the other fields drawn at random.
pub fn normal_line(level: Level) -> (s: String)
    ensures
        is_normal_line_at(s@, level),
{
    let services_list: [&str; 5] = ["auth", "api", "db", "cache", "worker"];
    let methods_list: [&str; 4] = ["GET", "POST", "PUT", "DELETE"];
    let paths_list: [&str; 7] = ["/login", "/logout", "/users", "/orders", "/cart", "/health", "/search"];
    let ok_list: [&str; 5] = ["200", "201", "204", "301", "302"];
    let err_list: [&str; 6] = ["400", "401", "403", "404", "500", "503"];
    proof {
        assert(texts(services_list@) =~= services());
        assert(texts(methods_list@) =~= methods());
        assert(texts(paths_list@) =~= paths());
        assert(texts(ok_list@) =~= codes_ok());
        assert(texts(err_list@) =~= codes_err());
    }
    let err = level == Level::Error;
    let code = if err {
        choice(&err_list)
    } else {
        choice(&ok_list)
    };
    let lat = if err {
        random_u32(200, 900)
    } else {
        random_u32(2, 250)
    };
    let svc = choice(&services_list);
    let method = choice(&methods_list);
    let path = choice(&paths_list);
    format_line(svc, level, method, path, code, lat)
}

/// The line with the given fields: `svc={svc} lvl={level} {method} {path} {code} {lat}ms`.
pub fn format_line(svc: &str, level: Level, method: &str, path: &str, code: &str, lat: u32) -> (s:
    String)
    ensures
        s@ == spaced(line_tokens(svc@, level, method@, path@, code@, lat as nat)),
{
    let mut s = String::from_str("svc=");
    s.append(svc);
    s.append(" ");
    s.append("lvl=");
    s.append(level.name());
    s.append(" ");
    s.append(method);
    s.append(" ");
    s.append(path);
    s.append(" ");
    s.append(code);
    s.append(" ");
    push_decimal(&mut s, lat);
    s.append("ms");
    proof {
        reveal_strlit(" ");
        let t = line_tokens(svc@, level, method@, path@, code@, lat as nat);
        lemma_spaced_six(t);
        assert(s@ =~= spaced(t));
    }
    s
}

/// The characters of the literal texts of the grammar.
proof fn lemma_grammar_literals()
    ensures
        "svc="@ == seq!['s', 'v', 'c', '='],
        "lvl="@ == seq!['l', 'v', 'l', '='],
        "ms"@ == seq!['m', 's'],
        "INFO"@ == seq!['I', 'N', 'F', 'O'],
        "WARN"@ == seq!['W', 'A', 'R', 'N'],
        "ERROR"@ == seq!['E', 'R', 'R', 'O', 'R'],
        "auth"@ == seq!['a', 'u', 't', 'h'],
        "api"@ == seq!['a', 'p', 'i'],
        "db"@ == seq!['d', 'b'],
        "cache"@ == seq!['c', 'a', 'c', 'h', 'e'],
        "worker"@ == seq!['w', 'o', 'r', 'k', 'e', 'r'],
        "GET"@ == seq!['G', 'E', 'T'],
        "POST"@ == seq!['P', 'O', 'S', 'T'],
        "PUT"@ == seq!['P', 'U', 'T'],
        "DELETE"@ == seq!['D', 'E', 'L', 'E', 'T', 'E'],
        "/login"@ == seq!['/', 'l', 'o', 'g', 'i', 'n'],
        "/logout"@ == seq!['/', 'l', 'o', 'g', 'o', 'u', 't'],
        "/users"@ == seq!['/', 'u', 's', 'e', 'r', 's'],
        "/orders"@ == seq!['/', 'o', 'r', 'd', 'e', 'r', 's'],
        "/cart"@ == seq!['/', 'c', 'a', 'r', 't'],
        "/health"@ == seq!['/', 'h', 'e', 'a', 'l', 't', 'h'],
        "/search"@ == seq!['/', 's', 'e', 'a', 'r', 'c', 'h'],
        "200"@ == seq!['2', '0', '0'],
        "201"@ == seq!['2', '0', '1'],
        "204"@ == seq!['2', '0', '4'],
        "301"@ == seq!['3', '0', '1'],
        "302"@ == seq!['3', '0', '2'],
        "400"@ == seq!['4', '0', '0'],
        "401"@ == seq!['4', '0', '1'],
        "403"@ == seq!['4', '0', '3'],
        "404"@ == seq!['4', '0', '4'],
        "500"@ == seq!['5', '0', '0'],
        "503"@ == seq!['5', '0', '3'],
{
    reveal_strlit("svc=");
    reveal_strlit("lvl=");
    reveal_strlit("ms");
    reveal_strlit("INFO");
    reveal_strlit("WARN");
    reveal_strlit("ERROR");
    reveal_strlit("auth");
    reveal_strlit("api");
    reveal_strlit("db");
    reveal_strlit("cache");
    reveal_strlit("worker");
    reveal_strlit("GET");
    reveal_strlit("POST");
    reveal_strlit("PUT");
    reveal_strlit("DELETE");
    reveal_strlit("/login");
    reveal_strlit("/logout");
    reveal_strlit("/users");
    reveal_strlit("/orders");
    reveal_strlit("/cart");
    reveal_strlit("/health");
    reveal_strlit("/search");
    reveal_strlit("200");
    reveal_strlit("201");
    reveal_strlit("204");
    reveal_strlit("301");
    reveal_strlit("302");
    reveal_strlit("400");
    reveal_strlit("401");
    reveal_strlit("403");
    reveal_strlit("404");
    reveal_strlit("500");
    reveal_strlit("503");
    assert("svc="@ =~= seq!['s', 'v', 'c', '=']);
    assert("lvl="@ =~= seq!['l', 'v', 'l', '=']);
    assert("ms"@ =~= seq!['m', 's']);
    assert("INFO"@ =~= seq!['I', 'N', 'F', 'O']);
    assert("WARN"@ =~= seq!['W', 'A', 'R', 'N']);
    assert("ERROR"@ =~= seq!['E', 'R', 'R', 'O', 'R']);
    assert("auth"@ =~= seq!['a', 'u', 't', 'h']);
    assert("api"@ =~= seq!['a', 'p', 'i']);
    assert("db"@ =~= seq!['d', 'b']);
    assert("cache"@ =~= seq!['c', 'a', 'c', 'h', 'e']);
    assert("worker"@ =~= seq!['w', 'o', 'r', 'k', 'e', 'r']);
    assert("GET"@ =~= seq!['G', 'E', 'T']);
    assert("POST"@ =~= seq!['P', 'O', 'S', 'T']);
    assert("PUT"@ =~= seq!['P', 'U', 'T']);
    assert("DELETE"@ =~= seq!['D', 'E', 'L', 'E', 'T', 'E']);
    assert("/login"@ =~= seq!['/', 'l', 'o', 'g', 'i', 'n']);
    assert("/logout"@ =~= seq!['/', 'l', 'o', 'g', 'o', 'u', 't']);
    assert("/users"@ =~= seq!['/', 'u', 's', 'e', 'r', 's']);
    assert("/orders"@ =~= seq!['/', 'o', 'r', 'd', 'e', 'r', 's']);
    assert("/cart"@ =~= seq!['/', 'c', 'a', 'r', 't']);
    assert("/health"@ =~= seq!['/', 'h', 'e', 'a', 'l', 't', 'h']);
    assert("/search"@ =~= seq!['/', 's', 'e', 'a', 'r', 'c', 'h']);
    assert("200"@ =~= seq!['2', '0', '0']);
    assert("201"@ =~= seq!['2', '0', '1']);
    assert("204"@ =~= seq!['2', '0', '4']);
    assert("301"@ =~= seq!['3', '0', '1']);
    assert("302"@ =~= seq!['3', '0', '2']);
    assert("400"@ =~= seq!['4', '0', '0']);
    assert("401"@ =~= seq!['4', '0', '1']);
    assert("403"@ =~= seq!['4', '0', '3']);
    assert("404"@ =~= seq!['4', '0', '4']);
    assert("500"@ =~= seq!['5', '0', '0']);
    assert("503"@ =~= seq!['5', '0', '3']);
}

/// The tokens of a normal line hold no space.
proof fn lemma_line_tokens_no_space(
    svc: Seq<char>,
    l: Level,
    method: Seq<char>,
    path: Seq<char>,
    code: Seq<char>,
    lat: nat,
)
    requires
        services().contains(svc),
        methods().contains(method),
        paths().contains(path),
        codes_for(l).contains(code),
    ensures
        forall|i: int|
            0 <= i < 6 ==> no_space(#[trigger] line_tokens(svc, l, method, path, code, lat)[i]),
{
    lemma_grammar_literals();
    assert(no_space(svc));
    assert(no_space(method));
    assert(no_space(path));
    assert(no_space(code));
    assert(no_space(level_name(l)));
    lemma_concat_no_space("svc="@, svc);
    lemma_concat_no_space("lvl="@, level_name(l));
    lemma_decimal_no_space(lat);
    lemma_concat_no_space(decimal(lat), "ms"@);
}

/// `line` is a normal line of a level that `draw_level` may return.
pub open spec fn drawn_normal_line<F: Fn() -> Level>(draw_level: F, line: Seq<char>) -> bool {
    exists|l: Level| call_ensures(draw_level, (), l) && is_normal_line_at(line, l)
}

/// A training corpus of `n` normal lines, each followed by a newline; `draw_level`
/// draws the level of each line.
pub fn build_corpus(n: usize, draw_level: impl Fn() -> Level) -> (s: String)
    requires
        call_requires(draw_level, ()),
    ensures
        exists|lines: Seq<Seq<char>>|
            {
                &&& lines.len() == n
                &&& forall|i: int| 0 <= i < n ==> is_normal_line(#[trigger] lines[i])
                &&& forall|i: int| 0 <= i < n ==> drawn_normal_line(draw_level, #[trigger] lines[i])
                &&& s@ == newline_terminated(lines)
            },
{
    let mut s = String::new();
    let ghost mut lines: Seq<Seq<char>> = seq![];
    let mut k: usize = 0;
    while k < n
        invariant
            k <= n,
            call_requires(draw_level, ()),
            lines.len() == k,
            forall|i: int| 0 <= i < k ==> is_normal_line(#[trigger] lines[i]),
            forall|i: int| 0 <= i < k ==> drawn_normal_line(draw_level, #[trigger] lines[i]),
            s@ == newline_terminated(lines),
        decreases n - k,
    {
        let level = draw_level();
        let line = normal_line(level);
        s.append(line.as_str());
        push_char(&mut s, '\n');
        proof {
            assert(is_normal_line_at(line@, level));
            assert(call_ensures(draw_level, (), level));
            let prev = lines;
            lines = lines.push(line@);
            assert(lines.drop_last() == prev);
            assert(s@ =~= newline_terminated(lines));
            assert(lines[k as int] == line@);
            assert forall|i: int| 0 <= i < k + 1 implies drawn_normal_line(
                draw_level,
                #[trigger] lines[i],
            ) by {
                if i < k {
                    assert(lines[i] == prev[i]);
                } else {
                    assert(call_ensures(draw_level, (), level) && is_normal_line_at(lines[i], level));
                }
            }
        }
        k = k + 1;
    }
    s
}

/// A service name holds no space.
proof fn lemma_service_no_space(svc: Seq<char>)
    requires
        services().contains(svc),
    ensures
        no_space(svc),
{
    lemma_grammar_literals();
}

/// The fields of a normal line, read back from its tokens.
proof fn lemma_read_normal_line(s: Seq<char>, u: Seq<Seq<char>>) -> (w: (
    Seq<char>,
    Level,
    Seq<char>,
    Seq<char>,
    Seq<char>,
    nat,
))
    requires
        is_normal_line(s),
        u.len() == 6,
        forall|i: int| 0 <= i < 6 ==> no_space(#[trigger] u[i]),
        s == spaced(u),
    ensures
        services().contains(w.0),
        methods().contains(w.2),
        paths().contains(w.3),
        codes_for(w.1).contains(w.4),
        latency_ok(w.1, w.5),
        u == line_tokens(w.0, w.1, w.2, w.3, w.4, w.5),
{
    let l = choose|l: Level| is_normal_line_at(s, l);
    let (svc, method, path, code, lat) = choose|
        svc: Seq<char>,
        method: Seq<char>,
        path: Seq<char>,
        code: Seq<char>,
        lat: nat,
    |
        #![trigger line_tokens(svc, l, method, path, code, lat)]
        {
            &&& services().contains(svc)
            &&& methods().contains(method)
            &&& paths().contains(path)
            &&& codes_for(l).contains(code)
            &&& latency_ok(l, lat)
            &&& s == spaced(line_tokens(svc, l, method, path, code, lat))
        };
    let t = line_tokens(svc, l, method, path, code, lat);
    lemma_line_tokens_no_space(svc, l, method, path, code, lat);
    lemma_spaced_injective(u, t);
    (svc, l, method, path, code, lat)
}

/// A level whose text is `INFO` is `Info`.
proof fn lemma_info_level(l: Level)
    requires
        "lvl="@ + level_name(l) == "lvl=INFO"@,
    ensures
        l == Level::Info,
{
    lemma_grammar_literals();
    reveal_strlit("lvl=INFO");
    assert("lvl=INFO"@ =~= "lvl="@ + "INFO"@);
    lemma_cancel_prefix("lvl="@, level_name(l), "INFO"@);
    match l {
        Level::Info => {},
        Level::Warn => {
            assert("WARN"@[0] != "INFO"@[0]);
        },
        Level::Error => {
            assert("ERROR"@.len() != "INFO"@.len());
        },
    }
}

/// The line of the `garbage` anomaly.
pub open spec fn garbage_line() -> Seq<char> {
    "svc=??? lvl=?? PATCH /../etc/passwd 999 -1ms"@
}

/// The line of the `weird_method` anomaly for service `svc`.
pub open spec fn weird_method_line(svc: Seq<char>) -> Seq<char> {
    "svc="@ + svc + " lvl=INFO TRACE /admin 200 5ms"@
}

/// The line of the `huge_lat` anomaly for service `svc`.
pub open spec fn huge_latency_line(svc: Seq<char>) -> Seq<char> {
    "svc="@ + svc + " lvl=INFO GET /health 200 89000ms"@
}

/// The line of the `bad_code` anomaly for service `svc`.
pub open spec fn bad_code_line(svc: Seq<char>) -> Seq<char> {
    "svc="@ + svc + " lvl=INFO POST /users 500 12ms"@
}

/// The four anomaly kinds of the evaluation.
pub open spec fn is_anomaly_kind(kind: Seq<char>) -> bool {
    ||| kind == "garbage"@
    ||| kind == "weird_method"@
    ||| kind == "huge_lat"@
    ||| kind == "bad_code"@
}

/// `s` is a line that `anomaly` may give for `kind`: the fixed corrupted line for
/// `garbage`, the kind's template with a known service for the other three kinds,
/// and a normal line for anything else.
pub open spec fn is_anomaly_output(kind: Seq<char>, s: Seq<char>) -> bool {
    if kind == "garbage"@ {
        s == garbage_line()
    } else if kind == "weird_method"@ {
        exists|svc: Seq<char>| services().contains(svc) && s == weird_method_line(svc)
    } else if kind == "huge_lat"@ {
        exists|svc: Seq<char>| services().contains(svc) && s == huge_latency_line(svc)
    } else if kind == "bad_code"@ {
        exists|svc: Seq<char>| services().contains(svc) && s == bad_code_line(svc)
    } else {
        is_normal_line(s)
    }
}

/// One anomalous line of the given kind; any other kind gives a normal line, whose
/// level `draw_level` draws.
pub fn anomaly(kind: &str, draw_level: impl Fn() -> Level) -> (s: String)
    requires
        call_requires(draw_level, ()),
    ensures
        is_anomaly_output(kind@, s@),
        !is_anomaly_kind(kind@) ==> drawn_normal_line(draw_level, s@),
{
    let services_list: [&str; 5] = ["auth", "api", "db", "cache", "worker"];
    proof {
        assert(texts(services_list@) =~= services());
    }
    if str_eq(kind, "garbage") {
        String::from_str("svc=??? lvl=?? PATCH /../etc/passwd 999 -1ms")
    } else if str_eq(kind, "weird_method") || str_eq(kind, "huge_lat") || str_eq(kind, "bad_code") {
        let svc = choice(&services_list);
        match anomaly_for_service(kind, svc) {
            Some(s) => s,
            None => vstd::pervasive::unreached(),
        }
    } else {
        let level = draw_level();
        let s = normal_line(level);
        assert(is_normal_line_at(s@, level));
        s
    }
}

/// The line of a templated anomaly kind (`weird_method`, `huge_lat`, `bad_code`)
/// for service `svc`; `None` for any other kind.
pub fn anomaly_for_service(kind: &str, svc: &str) -> (s: Option<String>)
    ensures
        kind@ == "weird_method"@ ==> (s matches Some(t) && t@ == weird_method_line(svc@)),
        kind@ == "huge_lat"@ ==> (s matches Some(t) && t@ == huge_latency_line(svc@)),
        kind@ == "bad_code"@ ==> (s matches Some(t) && t@ == bad_code_line(svc@)),
        kind@ != "weird_method"@ && kind@ != "huge_lat"@ && kind@ != "bad_code"@ ==> s is None,
{
    proof {
        lemma_kinds_distinct();
    }
    let rest = if str_eq(kind, "weird_method") {
        " lvl=INFO TRACE /admin 200 5ms"
    } else if str_eq(kind, "huge_lat") {
        " lvl=INFO GET /health 200 89000ms"
    } else if str_eq(kind, "bad_code") {
        " lvl=INFO POST /users 500 12ms"
    } else {
        return None;
    };
    let mut s = String::from_str("svc=");
    s.append(svc);
    s.append(rest);
    Some(s)
}

proof fn lemma_garbage_not_normal()
    ensures
        !is_normal_line(garbage_line()),
{
    reveal_strlit("svc=??? lvl=?? PATCH /../etc/passwd 999 -1ms");
    reveal_strlit("svc=???");
    reveal_strlit("lvl=??");
    reveal_strlit("PATCH");
    reveal_strlit("/../etc/passwd");
    reveal_strlit("999");
    reveal_strlit("-1ms");
    let u = seq!["svc=???"@, "lvl=??"@, "PATCH"@, "/../etc/passwd"@, "999"@, "-1ms"@];
    lemma_spaced_six(u);
    assert(garbage_line() =~= spaced(u));
    assert(forall|i: int| 0 <= i < 6 ==> no_space(#[trigger] u[i]));
    if is_normal_line(garbage_line()) {
        let w = lemma_read_normal_line(garbage_line(), u);
        lemma_grammar_literals();
        reveal_strlit("???");
        assert("svc=???"@ =~= "svc="@ + "???"@);
        lemma_cancel_prefix("svc="@, "???"@, w.0);
        assert("???"@[0] == '?');
        assert(services()[0][0] == 'a');
        assert(services()[1][0] == 'a');
        assert(services()[2][0] == 'd');
        assert(services()[3][0] == 'c');
        assert(services()[4][0] == 'w');
        assert(!services().contains("???"@));
    }
}

proof fn lemma_weird_method_not_normal(svc: Seq<char>)
    requires
        services().contains(svc),
    ensures
        !is_normal_line(weird_method_line(svc)),
{
    lemma_grammar_literals();
    reveal_strlit(" lvl=INFO TRACE /admin 200 5ms");
    reveal_strlit("lvl=INFO");
    reveal_strlit("TRACE");
    reveal_strlit("/admin");
    reveal_strlit("5ms");
    let u = seq!["svc="@ + svc, "lvl=INFO"@, "TRACE"@, "/admin"@, "200"@, "5ms"@];
    lemma_spaced_six(u);
    assert(weird_method_line(svc) =~= spaced(u));
    lemma_service_no_space(svc);
    lemma_concat_no_space("svc="@, svc);
    assert(forall|i: int| 0 <= i < 6 ==> no_space(#[trigger] u[i]));
    if is_normal_line(weird_method_line(svc)) {
        let w = lemma_read_normal_line(weird_method_line(svc), u);
        assert(!methods().contains("TRACE"@));
    }
}

proof fn lemma_huge_latency_not_normal(svc: Seq<char>)
    requires
        services().contains(svc),
    ensures
        !is_normal_line(huge_latency_line(svc)),
{
    lemma_grammar_literals();
    reveal_strlit(" lvl=INFO GET /health 200 89000ms");
    reveal_strlit("lvl=INFO");
    reveal_strlit("89000ms");
    let u = seq!["svc="@ + svc, "lvl=INFO"@, "GET"@, "/health"@, "200"@, "89000ms"@];
    lemma_spaced_six(u);
    assert(huge_latency_line(svc) =~= spaced(u));
    lemma_service_no_space(svc);
    lemma_concat_no_space("svc="@, svc);
    assert(forall|i: int| 0 <= i < 6 ==> no_space(#[trigger] u[i]));
    if is_normal_line(huge_latency_line(svc)) {
        let w = lemma_read_normal_line(huge_latency_line(svc), u);
        lemma_info_level(w.1);
        reveal_strlit("89000");
        assert("89000ms"@ =~= "89000"@ + "ms"@);
        lemma_cancel_suffix(decimal(w.5), "89000"@, "ms"@);
        lemma_decimal_short(w.5);
    }
}

proof fn lemma_bad_code_not_normal(svc: Seq<char>)
    requires
        services().contains(svc),
    ensures
        !is_normal_line(bad_code_line(svc)),
{
    lemma_grammar_literals();
    reveal_strlit(" lvl=INFO POST /users 500 12ms");
    reveal_strlit("lvl=INFO");
    reveal_strlit("12ms");
    let u = seq!["svc="@ + svc, "lvl=INFO"@, "POST"@, "/users"@, "500"@, "12ms"@];
    lemma_spaced_six(u);
    assert(bad_code_line(svc) =~= spaced(u));
    lemma_service_no_space(svc);
    lemma_concat_no_space("svc="@, svc);
    assert(forall|i: int| 0 <= i < 6 ==> no_space(#[trigger] u[i]));
    if is_normal_line(bad_code_line(svc)) {
        let w = lemma_read_normal_line(bad_code_line(svc), u);
        lemma_info_level(w.1);
        assert("500"@[0] == '5');
        assert(codes_ok()[0][0] == '2');
        assert(codes_ok()[1][0] == '2');
        assert(codes_ok()[2][0] == '2');
        assert(codes_ok()[3][0] == '3');
        assert(codes_ok()[4][0] == '3');
        assert(!codes_ok().contains("500"@));
    }
}

/// The four anomaly kinds, and only they, leave the grammar of normal lines:
/// a line that `anomaly` gives is normal exactly when the kind is none of
/// `garbage`, `weird_method`, `huge_lat` and `bad_code`.
pub proof fn lemma_anomaly_leaves_grammar(kind: Seq<char>, s: Seq<char>)
    requires
        is_anomaly_output(kind, s),
    ensures
        is_normal_line(s) <==> !is_anomaly_kind(kind),
{
    if kind == "garbage"@ {
        lemma_garbage_not_normal();
    } else if kind == "weird_method"@ {
        let svc = choose|svc: Seq<char>| services().contains(svc) && s == weird_method_line(svc);
        lemma_weird_method_not_normal(svc);
    } else if kind == "huge_lat"@ {
        let svc = choose|svc: Seq<char>| services().contains(svc) && s == huge_latency_line(svc);
        lemma_huge_latency_not_normal(svc);
    } else if kind == "bad_code"@ {
        let svc = choose|svc: Seq<char>| services().contains(svc) && s == bad_code_line(svc);
        lemma_bad_code_not_normal(svc);
    }
}

/// `c` occurs in no normal line.
pub open spec fn never_in_normal_lines(c: char) -> bool {
    forall|w: Seq<char>| is_normal_line(w) ==> !w.contains(c)
}

/// Some normal line holds every character of `s`.
pub open spec fn covered_by_normal_line(s: Seq<char>) -> bool {
    exists|w: Seq<char>|
        is_normal_line(w) && forall|i: int| 0 <= i < s.len() ==> w.contains(#[trigger] s[i])
}

/// No normal line holds `?` or `C`.
proof fn lemma_normal_lines_lack(w: Seq<char>)
    requires
        is_normal_line(w),
    ensures
        !w.contains('?'),
        !w.contains('C'),
{
    let l = choose|l: Level| is_normal_line_at(w, l);
    let (svc, method, path, code, lat) = choose|
        svc: Seq<char>,
        method: Seq<char>,
        path: Seq<char>,
        code: Seq<char>,
        lat: nat,
    |
        #![trigger line_tokens(svc, l, method, path, code, lat)]
        {
            &&& services().contains(svc)
            &&& methods().contains(method)
            &&& paths().contains(path)
            &&& codes_for(l).contains(code)
            &&& latency_ok(l, lat)
            &&& w == spaced(line_tokens(svc, l, method, path, code, lat))
        };
    let t = line_tokens(svc, l, method, path, code, lat);
    lemma_spaced_six(t);
    lemma_grammar_literals();
    lemma_decimal_digits(lat);
    let c = '?';
    assert(!svc.contains(c) && !method.contains(c) && !path.contains(c) && !code.contains(c));
    assert(!level_name(l).contains(c));
    assert(!decimal(lat).contains(c));
    lemma_tokens_lack(t, c);
    let c = 'C';
    assert(!svc.contains(c) && !method.contains(c) && !path.contains(c) && !code.contains(c));
    assert(!level_name(l).contains(c));
    assert(!decimal(lat).contains(c));
    lemma_tokens_lack(t, c);
}

/// Tokens of a normal line without `c` join to a line without `c`.
proof fn lemma_tokens_lack(t: Seq<Seq<char>>, c: char)
    requires
        t.len() == 6,
        c != ' ',
        exists|svc: Seq<char>, l: Level, method: Seq<char>, path: Seq<char>, code: Seq<char>, lat: nat|
            {
                &&& t == line_tokens(svc, l, method, path, code, lat)
                &&& !svc.contains(c)
                &&& !level_name(l).contains(c)
                &&& !method.contains(c)
                &&& !path.contains(c)
                &&& !code.contains(c)
                &&& !decimal(lat).contains(c)
                &&& !"svc="@.contains(c)
                &&& !"lvl="@.contains(c)
                &&& !"ms"@.contains(c)
            },
    ensures
        !spaced(t).contains(c),
{
    let (svc, l, method, path, code, lat) = choose|
        svc: Seq<char>,
        l: Level,
        method: Seq<char>,
        path: Seq<char>,
        code: Seq<char>,
        lat: nat,
    |
        {
            &&& t == line_tokens(svc, l, method, path, code, lat)
            &&& !svc.contains(c)
            &&& !level_name(l).contains(c)
            &&& !method.contains(c)
            &&& !path.contains(c)
            &&& !code.contains(c)
            &&& !decimal(lat).contains(c)
            &&& !"svc="@.contains(c)
            &&& !"lvl="@.contains(c)
            &&& !"ms"@.contains(c)
        };
    let sp = seq![' '];
    assert(!sp.contains(c));
    lemma_concat_lacks("svc="@, svc, c);
    lemma_concat_lacks("lvl="@, level_name(l), c);
    lemma_concat_lacks(decimal(lat), "ms"@, c);
    lemma_spaced_six(t);
    let p1 = t[0] + sp;
    lemma_concat_lacks(t[0], sp, c);
    lemma_concat_lacks(p1, t[1], c);
    let p2 = p1 + t[1] + sp;
    lemma_concat_lacks(p1 + t[1], sp, c);
    lemma_concat_lacks(p2, t[2], c);
    let p3 = p2 + t[2] + sp;
    lemma_concat_lacks(p2 + t[2], sp, c);
    lemma_concat_lacks(p3, t[3], c);
    let p4 = p3 + t[3] + sp;
    lemma_concat_lacks(p3 + t[3], sp, c);
    lemma_concat_lacks(p4, t[4], c);
    let p5 = p4 + t[4] + sp;
    lemma_concat_lacks(p4 + t[4], sp, c);
    lemma_concat_lacks(p5, t[5], c);
}

/// The literal kinds differ from one another.
proof fn lemma_kinds_distinct()
    ensures
        "garbage"@ != "weird_method"@,
        "garbage"@ != "huge_lat"@,
        "garbage"@ != "bad_code"@,
        "weird_method"@ != "huge_lat"@,
        "weird_method"@ != "bad_code"@,
        "huge_lat"@ != "bad_code"@,
{
    reveal_strlit("garbage");
    reveal_strlit("weird_method");
    reveal_strlit("huge_lat");
    reveal_strlit("bad_code");
    assert("garbage"@[0] != "weird_method"@[0]);
    assert("garbage"@[0] != "huge_lat"@[0]);
    assert("garbage"@[0] != "bad_code"@[0]);
    assert("weird_method"@[0] != "huge_lat"@[0]);
    assert("weird_method"@[0] != "bad_code"@[0]);
    assert("huge_lat"@[0] != "bad_code"@[0]);
}

/// The syntactic anomalies (`garbage`, `weird_method`) hold a character that no
/// normal line holds: a character-level model has never seen it.
pub proof fn lemma_syntactic_anomalies_hold_unseen_character(kind: Seq<char>, s: Seq<char>)
    requires
        is_anomaly_output(kind, s),
        kind == "garbage"@ || kind == "weird_method"@,
    ensures
        exists|c: char| s.contains(c) && never_in_normal_lines(c),
{
    lemma_kinds_distinct();
    if kind == "garbage"@ {
        reveal_strlit("svc=??? lvl=?? PATCH /../etc/passwd 999 -1ms");
        assert(s[4] == '?');
        assert forall|w: Seq<char>| is_normal_line(w) implies !w.contains('?') by {
            lemma_normal_lines_lack(w);
        }
        assert(s.contains('?') && never_in_normal_lines('?'));
    } else {
        let svc = choose|svc: Seq<char>| services().contains(svc) && s == weird_method_line(svc);
        lemma_grammar_literals();
        reveal_strlit(" lvl=INFO TRACE /admin 200 5ms");
        assert(s[4 + svc.len() as int + 13] == 'C');
        assert forall|w: Seq<char>| is_normal_line(w) implies !w.contains('C') by {
            lemma_normal_lines_lack(w);
        }
        assert(s.contains('C') && never_in_normal_lines('C'));
    }
}

/// The semantic anomalies (`huge_lat`, `bad_code`) hold only characters that one
/// normal line holds: at the level of characters they look normal.
pub proof fn lemma_semantic_anomalies_hold_seen_characters(kind: Seq<char>, s: Seq<char>)
    requires
        is_anomaly_output(kind, s),
        kind == "huge_lat"@ || kind == "bad_code"@,
    ensures
        covered_by_normal_line(s),
{
    lemma_kinds_distinct();
    lemma_grammar_literals();
    if kind == "huge_lat"@ {
        let svc = choose|svc: Seq<char>| services().contains(svc) && s == huge_latency_line(svc);
        let t = line_tokens(svc, Level::Info, "GET"@, "/health"@, "200"@, 89);
        let w = spaced(t);
        assert(decimal(89) =~= seq!['8', '9']) by {
            assert(decimal(8) == seq!['8']);
        }
        assert(is_normal_line_at(w, Level::Info)) by {
            assert(services().contains(svc));
            assert(methods()[0] == "GET"@);
            assert(paths()[5] == "/health"@);
            assert(codes_ok()[0] == "200"@);
        }
        lemma_spaced_six(t);
        reveal_strlit(" lvl=INFO GET /health 200 89000ms");
        // the witness reads "svc=" + svc + " lvl=INFO GET /health 200 89ms"
        let n: int = 4 + svc.len() as int;
        assert(w.len() == n + 30);
        assert forall|i: int| 0 <= i < s.len() implies w.contains(#[trigger] s[i]) by {
            if i < n + 28 {
                assert(w[i] == s[i]);
            } else if i < n + 31 {
                assert(s[i] == '0');
                assert(w[n + 24] == '0');
            } else {
                assert(w[i - 3] == s[i]);
            }
        }
        assert(is_normal_line(w));
    } else {
        let svc = choose|svc: Seq<char>| services().contains(svc) && s == bad_code_line(svc);
        let t = line_tokens(svc, Level::Info, "POST"@, "/users"@, "200"@, 125);
        let w = spaced(t);
        assert(decimal(125) =~= seq!['1', '2', '5']) by {
            assert(decimal(1) == seq!['1']);
            assert(decimal(12) == decimal(1).push('2'));
        }
        assert(is_normal_line_at(w, Level::Info)) by {
            assert(services().contains(svc));
            assert(methods()[1] == "POST"@);
            assert(paths()[2] == "/users"@);
            assert(codes_ok()[0] == "200"@);
        }
        lemma_spaced_six(t);
        reveal_strlit(" lvl=INFO POST /users 500 12ms");
        // the anomaly reads "svc=" + svc + " lvl=INFO POST /users 500 12ms",
        // the witness "svc=" + svc + " lvl=INFO POST /users 200 125ms"
        let n: int = 4 + svc.len() as int;
        assert forall|i: int| 0 <= i < s.len() implies w.contains(#[trigger] s[i]) by {
            if i < n + 22 {
                assert(w[i] == s[i]);
            } else if i == n + 22 {
                assert(s[i] == '5');
                assert(w[n + 28] == '5');
            } else if i < n + 26 {
                assert(w[i] == s[i]);
            } else if i < n + 28 {
                assert(w[i] == s[i]);
            } else {
                assert(w[i + 1] == s[i]);
            }
        }
        assert(is_normal_line(w));
    }
}

} // verus!
