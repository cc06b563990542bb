//! Profile argument strings: tokenizing, validation, and reading the
//! listen address out of them.

use vstd::prelude::*;
use crate::config::Profile;
use crate::text::{chars_of, eq_lit, has_prefix, is_whitespace, is_ws, parse_u16, spec_parse_u16, starts_with_lit, string_of, sub_chars, trim_chars, trim_quotes};

verus! {

broadcast use vstd::string::group_string_axioms;

/// What the tokenizer holds after reading a prefix of its input: the
/// finished tokens, the token being built, and whether an opening double
/// quote is still unmatched.
pub struct Scan {
    pub tokens: Seq<Seq<char>>,
    pub current: Seq<char>,
    pub in_quotes: bool,
}

/// Reads `s` from position `i` on, starting in state `st`.
///
/// A double quote flips the quoted state and is kept in the token; inside
/// quotes a backslash is kept together with the character after it, which
/// then has no effect of its own; whitespace outside quotes ends the current
/// token (if any); every other character extends the current token.
pub open spec fn scan(s: Seq<char>, i: int, st: Scan) -> Scan
    decreases s.len() - i,
{
    if i < 0 || i >= s.len() {
        st
    } else {
        let c = s[i];
        if c == '"' {
            scan(s, i + 1, Scan { current: st.current.push(c), in_quotes: !st.in_quotes, ..st })
        } else if c == '\\' && st.in_quotes {
            if i + 1 < s.len() {
                scan(s, i + 2, Scan { current: st.current.push('\\').push(s[i + 1]), ..st })
            } else {
                scan(s, i + 1, Scan { current: st.current.push('\\'), ..st })
            }
        } else if is_ws(c) && !st.in_quotes {
            if st.current.len() > 0 {
                scan(s, i + 1, Scan { tokens: st.tokens.push(st.current), current: seq![], ..st })
            } else {
                scan(s, i + 1, st)
            }
        } else {
            scan(s, i + 1, Scan { current: st.current.push(c), ..st })
        }
    }
}

/// The state the tokenizer starts in.
pub open spec fn scan_start() -> Scan {
    Scan { tokens: seq![], current: seq![], in_quotes: false }
}

/// The tokens of a profile argument string, or `None` when a double quote
/// is left open.
pub open spec fn spec_split_args(s: Seq<char>) -> Option<Seq<Seq<char>>> {
    let st = scan(s, 0, scan_start());
    if st.in_quotes {
        None
    } else if st.current.len() > 0 {
        Some(st.tokens.push(st.current))
    } else {
        Some(st.tokens)
    }
}

/// The message of the error for an unmatched double quote.
pub open spec fn unclosed_quote_message() -> Seq<char> {
    "Незакрытая кавычка в аргументах профиля"@
}

/// The views of a list of strings.
pub open spec fn views(v: Seq<String>) -> Seq<Seq<char>> {
    v.map_values(|t: String| t@)
}

/// Split a profile args string into tokens, respecting double quotes.
pub fn split_args(input: &str) -> (r: Result<Vec<String>, String>)
    ensures
        r is Ok <==> spec_split_args(input@) is Some,
        r matches Ok(v) ==> spec_split_args(input@) == Some(views(v@)),
        r matches Err(e) ==> e@ == unclosed_quote_message(),
{
    let s = chars_of(input);
    let n = s.len();
    let mut args: Vec<String> = Vec::new();
    let mut current: Vec<char> = Vec::new();
    let mut in_quotes = false;
    let mut i: usize = 0;
    assert(views(args@) =~= Seq::<Seq<char>>::empty());
    assert(current@ =~= Seq::<char>::empty());
    while i < n
        invariant
            n == s@.len(),
            s@ == input@,
            i <= n,
            scan(s@, 0, scan_start()) == scan(
                s@,
                i as int,
                Scan { tokens: views(args@), current: current@, in_quotes },
            ),
        decreases n - i,
    {
        let c = s[i];
        if c == '"' {
            in_quotes = !in_quotes;
            current.push(c);
            i = i + 1;
        } else if c == '\\' && in_quotes {
            if i + 1 < n {
                current.push('\\');
                current.push(s[i + 1]);
                i = i + 2;
            } else {
                current.push('\\');
                i = i + 1;
            }
        } else if is_whitespace(c) && !in_quotes {
            if current.len() > 0 {
                let ghost before = args@;
                args.push(string_of(&current));
                assert(views(args@) == views(before).push(current@));
                current = Vec::new();
            }
            i = i + 1;
        } else {
            current.push(c);
            i = i + 1;
        }
    }
    if in_quotes {
        return Err("Незакрытая кавычка в аргументах профиля".to_string());
    }
    if current.len() > 0 {
        let ghost before = args@;
        args.push(string_of(&current));
        assert(views(args@) == views(before).push(current@));
    }
    Ok(args)
}


/// Whether a token, with its surrounding quotes removed, selects the model
/// or its alias: `-m`, `--model`, `--alias`, or one of them followed by `=`.
pub open spec fn is_model_flag(b: Seq<char>) -> bool {
    ||| b == "-m"@
    ||| b == "--model"@
    ||| b == "--alias"@
    ||| has_prefix(b, "-m="@)
    ||| has_prefix(b, "--model="@)
    ||| has_prefix(b, "--alias="@)
}

/// Whether some token of `ts` selects the model or its alias.
pub open spec fn names_model(ts: Seq<Seq<char>>) -> bool {
    exists|i: int| 0 <= i < ts.len() && #[trigger] is_model_flag(trim_quotes(ts[i]))
}

/// The message of the error for a profile that selects the model itself.
pub open spec fn model_flag_message() -> Seq<char> {
    "Профиль не должен содержать -m / --model / --alias — модель выбирается отдельно"@
}

/// Whether a profile argument string is acceptable: it tokenizes, and no
/// token selects the model, which is chosen separately.
pub open spec fn profile_args_valid(a: Seq<char>) -> bool {
    spec_split_args(a) matches Some(ts) && !names_model(ts)
}

/// Checks a profile argument string: it must tokenize, and must leave the
/// choice of model (`-m`, `--model`, `--alias`) to the application.
pub fn validate_profile_args(args: &str) -> (r: Result<(), String>)
    ensures
        r is Ok <==> profile_args_valid(args@),
        r matches Err(e) ==> e@ == (if spec_split_args(args@) is None {
            unclosed_quote_message()
        } else {
            model_flag_message()
        }),
{
    let tokens = match split_args(args) {
        Ok(t) => t,
        Err(e) => {
            return Err(e);
        },
    };
    let ghost ts = views(tokens@);
    let mut i: usize = 0;
    while i < tokens.len()
        invariant
            spec_split_args(args@) == Some(ts),
            ts == views(tokens@),
            i <= tokens.len(),
            forall|j: int| 0 <= j < i ==> !#[trigger] is_model_flag(trim_quotes(ts[j])),
        decreases tokens.len() - i,
    {
        let t = chars_of(tokens[i].as_str());
        let bare = trim_chars(&t, Some('"'));
        assert(bare@ == trim_quotes(ts[i as int]));
        if eq_lit(&bare, "-m") || eq_lit(&bare, "--model") || eq_lit(&bare, "--alias")
            || starts_with_lit(&bare, "-m=") || starts_with_lit(&bare, "--model=")
            || starts_with_lit(&bare, "--alias=") {
            assert(is_model_flag(trim_quotes(ts[i as int])));
            assert(names_model(ts));
            assert(!profile_args_valid(args@));
            return Err(
                "Профиль не должен содержать -m / --model / --alias — модель выбирается отдельно".to_string(),
            );
        }
        i = i + 1;
    }
    assert(!names_model(ts));
    Ok(())
}


/// `port` replaced by the value of `s` when `s` is a valid `u16`.
pub open spec fn port_or(s: Seq<char>, port: u16) -> u16 {
    match spec_parse_u16(s) {
        Some(p) => p,
        None => port,
    }
}

/// The host and port that the tokens `ts`, read from index `i` on, set,
/// starting from `host` and `port`. `--host V` / `-h V` / `--host=V` set
/// the host and `--port V` / `-p V` / `--port=V` the port (when `V` is a
/// valid port number); surrounding double quotes are ignored. A flag that
/// takes a value consumes the next token.
pub open spec fn host_port_from(ts: Seq<Seq<char>>, i: int, host: Seq<char>, port: u16) -> (Seq<char>, u16)
    decreases ts.len() - i,
{
    if i < 0 || i >= ts.len() {
        (host, port)
    } else {
        let t = trim_quotes(ts[i]);
        if t == "--host"@ || t == "-h"@ {
            if i + 1 < ts.len() {
                host_port_from(ts, i + 2, trim_quotes(ts[i + 1]), port)
            } else {
                host_port_from(ts, i + 1, host, port)
            }
        } else if has_prefix(t, "--host="@) {
            host_port_from(ts, i + 1, trim_quotes(t.skip("--host="@.len() as int)), port)
        } else if t == "--port"@ || t == "-p"@ {
            if i + 1 < ts.len() {
                host_port_from(ts, i + 2, host, port_or(trim_quotes(ts[i + 1]), port))
            } else {
                host_port_from(ts, i + 1, host, port)
            }
        } else if has_prefix(t, "--port="@) {
            host_port_from(ts, i + 1, host, port_or(trim_quotes(t.skip("--port="@.len() as int)), port))
        } else {
            host_port_from(ts, i + 1, host, port)
        }
    }
}

/// The host to contact for a listen address: a wildcard address
/// (`0.0.0.0`, `::`, `[::]`) is reached at `127.0.0.1`.
pub open spec fn reachable_host(h: Seq<char>) -> Seq<char> {
    if h == "0.0.0.0"@ || h == "::"@ || h == "[::]"@ {
        "127.0.0.1"@
    } else {
        h
    }
}

/// Where the server of a profile with arguments `args` listens, as seen
/// from this machine: `127.0.0.1:8080` unless the arguments say otherwise.
pub open spec fn spec_host_port(args: Option<Seq<char>>) -> (Seq<char>, u16) {
    match args {
        None => ("127.0.0.1"@, 8080),
        Some(a) => match spec_split_args(a) {
            None => ("127.0.0.1"@, 8080),
            Some(ts) => {
                let hp = host_port_from(ts, 0, "127.0.0.1"@, 8080);
                (reachable_host(hp.0), hp.1)
            },
        },
    }
}

fn value_after(t: &Vec<char>, prefix: &str) -> (r: Vec<char>)
    requires
        has_prefix(t@, prefix@),
    ensures
        r@ == trim_quotes(t@.skip(prefix@.len() as int)),
{
    let p = chars_of(prefix);
    let rest = sub_chars(t, p.len(), t.len());
    assert(rest@ =~= t@.skip(prefix@.len() as int));
    trim_chars(&rest, Some('"'))
}

/// The host and port on which the server of `profile` can be reached.
/// Health checks should reach the local machine even when the server
/// binds a wildcard address.
pub fn extract_host_port(profile: Option<&Profile>) -> (r: (String, u16))
    ensures
        (r.0@, r.1) == spec_host_port(
            match profile {
                Some(p) => Some(p.args@),
                None => None,
            },
        ),
{
    let profile = match profile {
        Some(p) => p,
        None => {
            return ("127.0.0.1".to_string(), 8080u16);
        },
    };
    let tokens = match split_args(profile.args.as_str()) {
        Ok(t) => t,
        Err(_) => {
            return ("127.0.0.1".to_string(), 8080u16);
        },
    };
    let ghost ts = views(tokens@);
    let mut host: Vec<char> = chars_of("127.0.0.1");
    let mut port: u16 = 8080;
    let n = tokens.len();
    let mut i: usize = 0;
    while i < n
        invariant
            n == tokens@.len(),
            ts == views(tokens@),
            i <= n + 1,
            host_port_from(ts, 0, "127.0.0.1"@, 8080) == host_port_from(ts, i as int, host@, port),
        decreases n + 1 - i,
    {
        let raw = chars_of(tokens[i].as_str());
        let t = trim_chars(&raw, Some('"'));
        assert(t@ == trim_quotes(ts[i as int]));
        if eq_lit(&t, "--host") || eq_lit(&t, "-h") {
            if i + 1 < n {
                let v = chars_of(tokens[i + 1].as_str());
                host = trim_chars(&v, Some('"'));
                i = i + 2;
            } else {
                i = i + 1;
            }
        } else if starts_with_lit(&t, "--host=") {
            host = value_after(&t, "--host=");
            i = i + 1;
        } else if eq_lit(&t, "--port") || eq_lit(&t, "-p") {
            if i + 1 < n {
                let v = chars_of(tokens[i + 1].as_str());
                let pv = trim_chars(&v, Some('"'));
                match parse_u16(&pv) {
                    Some(p) => {
                        port = p;
                    },
                    None => {},
                }
                i = i + 2;
            } else {
                i = i + 1;
            }
        } else if starts_with_lit(&t, "--port=") {
            let pv = value_after(&t, "--port=");
            match parse_u16(&pv) {
                Some(p) => {
                    port = p;
                },
                None => {},
            }
            i = i + 1;
        } else {
            i = i + 1;
        }
    }
    assert(host_port_from(ts, i as int, host@, port) == (host@, port));
    if eq_lit(&host, "0.0.0.0") || eq_lit(&host, "::") || eq_lit(&host, "[::]") {
        host = chars_of("127.0.0.1");
    }
    proof {
        reachable_host_not_wildcard(host_port_from(ts, 0, "127.0.0.1"@, 8080).0);
    }
    (string_of(&host), port)
}

/// The host given for health checks is never a wildcard address.
pub proof fn reachable_host_not_wildcard(h: Seq<char>)
    ensures
        reachable_host(h) != "0.0.0.0"@,
        reachable_host(h) != "::"@,
        reachable_host(h) != "[::]"@,
{
    reveal_strlit("0.0.0.0");
    reveal_strlit("::");
    reveal_strlit("[::]");
    reveal_strlit("127.0.0.1");
    if h == "0.0.0.0"@ || h == "::"@ || h == "[::]"@ {
        assert("127.0.0.1"@.len() == 9);
    }
}

/// Whether `s` is one plain path component on every platform: not empty,
/// without `/`, `\` or `:`, and neither `.` nor `..`.
pub open spec fn bare_name(s: Seq<char>) -> bool {
    &&& s.len() > 0
    &&& !s.contains('/')
    &&& !s.contains('\\')
    &&& !s.contains(':')
    &&& s != "."@
    &&& s != ".."@
}

/// Whether `n` occurs in `s` as a run of consecutive characters.
pub open spec fn occurs_in(n: Seq<char>, s: Seq<char>) -> bool {
    exists|i: int| 0 <= i && i + n.len() <= s.len() && #[trigger] s.subrange(i, i + n.len()) == n
}

/// Whether `path` starts with two slashes (a network path on Windows).
pub open spec fn starts_with_two_slashes(path: Seq<char>) -> bool {
    path.len() >= 2 && path[0] == '/' && path[1] == '/'
}

/// Whether `c` separates path components: `/`, or `\` on Windows.
pub open spec fn is_sep(c: char) -> bool {
    c == '/' || c == '\\'
}

/// Whether `path` starts with two separators (a network or device path on
/// Windows).
pub open spec fn starts_with_two_separators(path: Seq<char>) -> bool {
    path.len() >= 2 && is_sep(path[0]) && is_sep(path[1])
}

/// Whether `f` is a suffix of `s`.
pub open spec fn is_suffix(f: Seq<char>, s: Seq<char>) -> bool {
    f.len() <= s.len() && s.subrange(s.len() - f.len(), s.len() as int) == f
}

/// What holds on every platform of the file name `name` that
/// `Path::file_name` finds in `path`: a name found is a non-empty run of
/// the path's characters other than `.` and `..`, without `/` when the path
/// has no `\` (only a Windows verbatim path, which starts with `\\?\`,
/// keeps `/` inside a component); a bare name is its own file name; a
/// path without `\` that does not start with `//` and ends in `/` and a
/// bare name has that name as its file name; and a path that does not
/// start with two separators and ends in a separator and a bare name has a
/// file name, a suffix of the path that holds that name (the name itself
/// where `\` separates too, and the part after the last `/` elsewhere).
pub open spec fn file_name_fits(path: Seq<char>, name: Option<Seq<char>>) -> bool {
    &&& name matches Some(n) ==> n.len() > 0 && n != "."@ && n != ".."@ && occurs_in(n, path)
    &&& name matches Some(n) ==> (!path.contains('\\') ==> !n.contains('/'))
    &&& bare_name(path) ==> name == Some(path)
    &&& forall|k: int|
        0 <= k < path.len() && #[trigger] path[k] == '/' && bare_name(path.subrange(k + 1, path.len() as int))
            && !path.contains('\\') && !starts_with_two_slashes(path) ==> name == Some(
            path.subrange(k + 1, path.len() as int),
        )
    &&& forall|k: int|
        0 <= k < path.len() && is_sep(#[trigger] path[k]) && bare_name(path.subrange(k + 1, path.len() as int))
            && !starts_with_two_separators(path) ==> (name matches Some(f) && is_suffix(f, path)
            && f.len() >= path.len() - (k + 1))
}

/// The text of an optional string slice.
pub open spec fn opt_text(s: Option<&str>) -> Option<Seq<char>> {
    match s {
        Some(t) => Some(t@),
        None => None,
    }
}

/// `std::path::Path::file_name` of `path`, as text (`Path::new` and
/// `OsStr::to_str` only change the type of the same text; the second cannot
/// fail on text that came from a `str`). The contract states what holds of
/// the name on every platform (see `file_name_fits`); which component is
/// the file name of other paths depends on the platform's path syntax and
/// is left unsaid.
#[verifier::external_body]
pub(crate) fn file_name_of(path: &str) -> (r: Option<&str>)
    ensures
        file_name_fits(path@, opt_text(r)),
{
    match std::path::Path::new(path).file_name() {
        Some(os) => os.to_str(),
        None => None,
    }
}

/// The stem of a file name, looking for a `.` at index `j` or before (but
/// not at index 0).
pub open spec fn stem_from(name: Seq<char>, j: int) -> Seq<char>
    decreases j,
{
    if j <= 0 {
        name
    } else if name[j] == '.' {
        name.take(j)
    } else {
        stem_from(name, j - 1)
    }
}

/// The stem of a file name, as `Path::file_stem` documents it: the part
/// before the last `.`, or the whole name when it has no `.` after its
/// first character.
pub open spec fn spec_file_stem(name: Seq<char>) -> Seq<char> {
    stem_from(name, name.len() - 1)
}

proof fn lemma_stem_from(name: Seq<char>, j: int)
    requires
        name.len() > 0,
        j < name.len(),
    ensures
        stem_from(name, j).len() > 0,
    decreases j,
{
    if j > 0 && name[j] != '.' {
        lemma_stem_from(name, j - 1);
    }
}

/// The stem of a non-empty file name is not empty.
pub proof fn file_stem_nonempty(name: Seq<char>)
    requires
        name.len() > 0,
    ensures
        spec_file_stem(name).len() > 0,
{
    lemma_stem_from(name, name.len() - 1);
}

/// The stem of the file name `name`.
pub fn file_stem_chars(name: &Vec<char>) -> (r: Vec<char>)
    ensures
        r@ == spec_file_stem(name@),
{
    if name.len() == 0 {
        return Vec::new();
    }
    let mut j: usize = name.len() - 1;
    while j > 0
        invariant
            j < name@.len(),
            spec_file_stem(name@) == stem_from(name@, j as int),
        decreases j,
    {
        if name[j] == '.' {
            return sub_chars(name, 0, j);
        }
        j = j - 1;
    }
    let all = sub_chars(name, 0, name.len());
    assert(all@ =~= name@);
    all
}

/// The model alias for the file name `name` of a model's path: its stem,
/// or `model` when the path has no file name.
pub open spec fn alias_for(name: Option<Seq<char>>) -> Seq<char> {
    match name {
        Some(n) => spec_file_stem(n),
        None => "model"@,
    }
}

/// Whether `alias` is the model alias for `path`: the alias for a file name
/// that fits `path`.
pub open spec fn alias_of_path(path: Seq<char>, alias: Seq<char>) -> bool {
    exists|n: Option<Seq<char>>| file_name_fits(path, n) && alias == #[trigger] alias_for(n)
}

/// The model alias for a file name found in a path: its stem, or `model`
/// when the path has no file name.
pub fn alias_from_file_name(name: Option<&str>) -> (r: String)
    ensures
        r@ == alias_for(opt_text(name)),
{
    match name {
        Some(n) => {
            let v = chars_of(n);
            string_of(&file_stem_chars(&v))
        },
        None => "model".to_string(),
    }
}

/// The alias under which the server offers a model: the stem of the model
/// path's file name, or `model` when the path has no file name.
pub fn model_alias(model_path: &str) -> (r: String)
    ensures
        alias_of_path(model_path@, r@),
        bare_name(model_path@) ==> r@ == spec_file_stem(model_path@),
        (forall|k: int| 0 <= k < model_path@.len() ==> #[trigger] model_path@[k] == '/') ==> r@
            == "model"@,
        r@.len() > 0,
{
    let name = file_name_of(model_path);
    proof {
        reveal_strlit("model");
        if name is Some {
            file_stem_nonempty(name->0@);
            let p = model_path@;
            let n = name->0@;
            if forall|k: int| 0 <= k < p.len() ==> #[trigger] p[k] == '/' {
                assert(!p.contains('\\'));
                let i = choose|i: int| 0 <= i && i + n.len() <= p.len() && #[trigger] p.subrange(i, i + n.len()) == n;
                assert(n[0] == p[i]);
                assert(n.contains('/'));
            }
        }
    }
    alias_from_file_name(name)
}

/// Whether `path` ends in a separator followed by the bare name `n`, and
/// does not start with two separators.
pub open spec fn ends_in_name(path: Seq<char>, n: Seq<char>) -> bool {
    &&& bare_name(n)
    &&& n.len() < path.len()
    &&& is_suffix(n, path)
    &&& is_sep(path[path.len() - n.len() - 1])
    &&& !starts_with_two_separators(path)
}

/// Whether the file name `n` has an extension: a `.` after its first
/// character.
pub open spec fn has_extension(n: Seq<char>) -> bool {
    exists|j: int| 0 < j < n.len() && n[j] == '.'
}

proof fn lemma_stem_shift(g: Seq<char>, n: Seq<char>, i: int)
    requires
        0 < i < n.len(),
        exists|j: int| 0 < j <= i && n[j] == '.',
    ensures
        stem_from(g + n, g.len() + i) == g + stem_from(n, i),
        stem_from(n, i).len() <= i,
    decreases i,
{
    let f = g + n;
    assert(f[g.len() + i] == n[i]);
    if n[i] == '.' {
        assert(f.take(g.len() + i) =~= g + n.take(i));
    } else {
        let j = choose|j: int| 0 < j <= i && n[j] == '.';
        assert(j < i);
        lemma_stem_shift(g, n, i - 1);
    }
}

pub(crate) proof fn lemma_named_path(path: Seq<char>, name: Option<Seq<char>>, n: Seq<char>)
    requires
        file_name_fits(path, name),
        ends_in_name(path, n),
    ensures
        name matches Some(f) && is_suffix(f, path) && is_suffix(n, f) && (has_extension(n) ==> (
        is_suffix(spec_file_stem(n), spec_file_stem(f)) && spec_file_stem(f).len() < path.len())),
{
    let k = path.len() - n.len() - 1;
    assert(path.subrange(k + 1, path.len() as int) == n);
    assert(is_sep(path[k]));
    let f = name->0;
    assert(f.subrange(f.len() - n.len(), f.len() as int) =~= n) by {
        assert forall|t: int| 0 <= t < n.len() implies f.subrange(f.len() - n.len(), f.len() as int)[t]
            == n[t] by {
            assert(f[f.len() - n.len() + t] == path.subrange(path.len() - f.len(), path.len() as int)[f.len()
                - n.len() + t]);
            assert(n[t] == path.subrange(path.len() - n.len(), path.len() as int)[t]);
        }
    }
    if has_extension(n) {
        let g = f.take(f.len() - n.len());
        assert(f =~= g + n);
        let j = choose|j: int| 0 < j < n.len() && n[j] == '.';
        lemma_stem_shift(g, n, n.len() - 1);
        assert(spec_file_stem(f) == g + spec_file_stem(n));
        assert((g + spec_file_stem(n)).subrange(g.len() as int, (g + spec_file_stem(n)).len() as int)
            =~= spec_file_stem(n));
    }
}

/// The model alias of a path that ends in a separator and a bare file name
/// `n` (and does not start with two separators) is the stem of the path's
/// file name, a suffix of the path that ends in `n`: never `model` for
/// want of a file name. When `n` has an extension, the alias ends in the
/// stem of `n` and is shorter than the path.
pub proof fn alias_is_stem_of_file_name(path: Seq<char>, alias: Seq<char>, n: Seq<char>)
    requires
        alias_of_path(path, alias),
        ends_in_name(path, n),
    ensures
        exists|f: Seq<char>| is_suffix(f, path) && is_suffix(n, f) && alias == #[trigger] spec_file_stem(f),
        has_extension(n) ==> is_suffix(spec_file_stem(n), alias) && alias.len() < path.len(),
{
    let name = choose|name: Option<Seq<char>>| file_name_fits(path, name) && alias == #[trigger] alias_for(name);
    lemma_named_path(path, name, n);
    let f = name->0;
    assert(alias == spec_file_stem(f));
}

proof fn lemma_scan_keeps_tokens_nonempty(s: Seq<char>, i: int, st: Scan)
    requires
        forall|k: int| 0 <= k < st.tokens.len() ==> #[trigger] st.tokens[k].len() > 0,
    ensures
        forall|k: int|
            0 <= k < scan(s, i, st).tokens.len() ==> #[trigger] scan(s, i, st).tokens[k].len() > 0,
    decreases s.len() - i,
{
    if i < 0 || i >= s.len() {
    } else {
        let c = s[i];
        let (j, next) = if c == '"' {
            (i + 1, Scan { current: st.current.push(c), in_quotes: !st.in_quotes, ..st })
        } else if c == '\\' && st.in_quotes {
            if i + 1 < s.len() {
                (i + 2, Scan { current: st.current.push('\\').push(s[i + 1]), ..st })
            } else {
                (i + 1, Scan { current: st.current.push('\\'), ..st })
            }
        } else if is_ws(c) && !st.in_quotes {
            if st.current.len() > 0 {
                (i + 1, Scan { tokens: st.tokens.push(st.current), current: seq![], ..st })
            } else {
                (i + 1, st)
            }
        } else {
            (i + 1, Scan { current: st.current.push(c), ..st })
        };
        assert(scan(s, i, st) == scan(s, j, next));
        assert forall|k: int| 0 <= k < next.tokens.len() implies #[trigger] next.tokens[k].len()
            > 0 by {
            if k < st.tokens.len() {
                assert(next.tokens[k] == st.tokens[k]);
            }
        }
        lemma_scan_keeps_tokens_nonempty(s, j, next);
    }
}

/// Tokenizing never yields an empty token.
pub proof fn split_tokens_nonempty(s: Seq<char>)
    ensures
        spec_split_args(s) matches Some(ts) ==> forall|k: int|
            0 <= k < ts.len() ==> #[trigger] ts[k].len() > 0,
{
    lemma_scan_keeps_tokens_nonempty(s, 0, scan_start());
    let st = scan(s, 0, scan_start());
    if !st.in_quotes && st.current.len() > 0 {
        let ts = st.tokens.push(st.current);
        assert forall|k: int| 0 <= k < ts.len() implies #[trigger] ts[k].len() > 0 by {
            if k < st.tokens.len() {
                assert(ts[k] == st.tokens[k]);
            }
        }
    }
}

/// The maximal runs of non-whitespace characters of `s`, in order.
pub open spec fn ws_split(s: Seq<char>) -> Seq<Seq<char>>
    decreases s.len(),
{
    if s.len() == 0 {
        seq![]
    } else {
        let w = ws_split(s.drop_last());
        let c = s.last();
        if is_ws(c) {
            w
        } else if s.len() >= 2 && !is_ws(s[s.len() - 2]) {
            w.update(w.len() - 1, w.last().push(c))
        } else {
            w.push(seq![c])
        }
    }
}

/// Where the tokenizer stands after reading the quote-free prefix `p`.
pub open spec fn unquoted_state(p: Seq<char>) -> Scan {
    if p.len() == 0 || is_ws(p.last()) {
        Scan { tokens: ws_split(p), current: seq![], in_quotes: false }
    } else {
        Scan { tokens: ws_split(p).drop_last(), current: ws_split(p).last(), in_quotes: false }
    }
}

proof fn lemma_ws_split_last(p: Seq<char>)
    requires
        p.len() > 0,
        !is_ws(p.last()),
    ensures
        ws_split(p).len() > 0,
        ws_split(p).last().len() > 0,
    decreases p.len(),
{
    let q = p.drop_last();
    if p.len() >= 2 && !is_ws(p[p.len() - 2]) {
        assert(q.last() == p[p.len() - 2]);
        lemma_ws_split_last(q);
    }
}

proof fn lemma_unquoted_step(s: Seq<char>, k: int)
    requires
        0 <= k < s.len(),
        s[k] != '"',
    ensures
        scan(s, k, unquoted_state(s.take(k))) == scan(s, k + 1, unquoted_state(s.take(k + 1))),
{
    let p = s.take(k);
    let q = s.take(k + 1);
    assert(q.drop_last() =~= p);
    assert(q.last() == s[k]);
    if k >= 1 {
        assert(q[q.len() - 2] == p.last());
    }
    if p.len() > 0 && !is_ws(p.last()) {
        lemma_ws_split_last(p);
    }
    let st = unquoted_state(p);
    let w = ws_split(p);
    if is_ws(s[k]) {
        if st.current.len() > 0 {
            assert(w.drop_last().push(w.last()) =~= w);
        }
    } else if k >= 1 && !is_ws(p.last()) {
        let w2 = ws_split(q);
        assert(w2.drop_last() =~= w.drop_last());
    } else {
        let w2 = ws_split(q);
        assert(w2.drop_last() =~= w);
    }
}

proof fn lemma_unquoted_prefix(s: Seq<char>, k: int)
    requires
        0 <= k <= s.len(),
        forall|j: int| 0 <= j < s.len() ==> #[trigger] s[j] != '"',
    ensures
        scan(s, 0, scan_start()) == scan(s, k, unquoted_state(s.take(k))),
    decreases k,
{
    if k == 0 {
        assert(s.take(0) =~= Seq::<char>::empty());
        assert(unquoted_state(s.take(0)) == scan_start());
    } else {
        lemma_unquoted_prefix(s, k - 1);
        lemma_unquoted_step(s, k - 1);
    }
}

/// Without double quotes, tokenizing is splitting at whitespace: the
/// tokens are the maximal runs of non-whitespace characters (a blank string
/// has none, and a backslash is an ordinary character).
pub proof fn split_without_quotes_is_whitespace_split(s: Seq<char>)
    requires
        forall|k: int| 0 <= k < s.len() ==> #[trigger] s[k] != '"',
    ensures
        spec_split_args(s) == Some(ws_split(s)),
{
    lemma_unquoted_prefix(s, s.len() as int);
    assert(s.take(s.len() as int) =~= s);
    let w = ws_split(s);
    if s.len() > 0 && !is_ws(s.last()) {
        lemma_ws_split_last(s);
        assert(w.drop_last().push(w.last()) =~= w);
    }
}

proof fn lemma_scan_quoted_body(s: Seq<char>, i: int, st: Scan)
    requires
        s.len() >= 2,
        1 <= i <= s.len() - 1,
        st == (Scan { tokens: seq![], current: s.take(i), in_quotes: true }),
        s.last() == '"',
        forall|k: int| 1 <= k < s.len() - 1 ==> #[trigger] s[k] != '"',
        s.len() == 2 || s[s.len() - 2] != '\\',
    ensures
        scan(s, i, st) == (Scan { tokens: seq![], current: s, in_quotes: false }),
    decreases s.len() - i,
{
    let n = s.len() as int;
    if i == n - 1 {
        assert(s.take(i).push(s[i]) =~= s);
        assert(scan(s, n, Scan { current: s, in_quotes: false, ..st }) == Scan {
            current: s,
            in_quotes: false,
            ..st
        });
    } else {
        let c = s[i];
        assert(c != '"');
        if c == '\\' {
            assert(i + 1 < n - 1);
            assert(s.take(i).push('\\').push(s[i + 1]) =~= s.take(i + 2));
            lemma_scan_quoted_body(s, i + 2, Scan { current: s.take(i + 2), ..st });
        } else {
            assert(s.take(i).push(c) =~= s.take(i + 1));
            lemma_scan_quoted_body(s, i + 1, Scan { current: s.take(i + 1), ..st });
        }
    }
}

/// A double-quoted argument is one token, kept exactly as written: quotes,
/// whitespace and backslashes included. Inside the quotes a backslash is
/// kept together with the character after it, so the text between the
/// quotes may hold any characters but a double quote, as long as it does
/// not end in a backslash (which would escape the closing quote).
pub proof fn quoted_argument_is_one_token(body: Seq<char>)
    requires
        !body.contains('"'),
        body.len() == 0 || body.last() != '\\',
    ensures
        spec_split_args(seq!['"'] + body + seq!['"']) == Some(seq![seq!['"'] + body + seq!['"']]),
{
    let s = seq!['"'] + body + seq!['"'];
    assert forall|k: int| 1 <= k < s.len() - 1 implies #[trigger] s[k] != '"' by {
        assert(s[k] == body[k - 1]);
        if body[k - 1] == '"' {
            assert(body.contains('"'));
        }
    }
    if s.len() > 2 {
        assert(s[s.len() - 2] == body.last());
    }
    assert(s[0] == '"');
    let st1 = Scan { tokens: seq![], current: s.take(1), in_quotes: true };
    assert(scan_start().current.push('"') =~= s.take(1));
    assert(scan(s, 0, scan_start()) == scan(s, 1, st1));
    lemma_scan_quoted_body(s, 1, st1);
    assert(seq![].push(s) =~= seq![s]);
}

/// A word that tokenizes as itself: nonempty, with no whitespace and no
/// double quote.
pub open spec fn plain_word(w: Seq<char>) -> bool {
    w.len() > 0 && forall|k: int| 0 <= k < w.len() ==> !is_ws(#[trigger] w[k]) && w[k] != '"'
}

/// The words of `ws` joined by single spaces.
pub open spec fn join_words(ws: Seq<Seq<char>>) -> Seq<char>
    decreases ws.len(),
{
    if ws.len() == 0 {
        seq![]
    } else if ws.len() == 1 {
        ws[0]
    } else {
        ws[0] + seq![' '] + join_words(ws.drop_first())
    }
}

proof fn lemma_scan_word(s: Seq<char>, i: int, st: Scan, w: Seq<char>)
    requires
        !st.in_quotes,
        0 <= i,
        i + w.len() <= s.len(),
        s.subrange(i, i + w.len()) == w,
        forall|k: int| 0 <= k < w.len() ==> !is_ws(#[trigger] w[k]) && w[k] != '"',
    ensures
        scan(s, i, st) == scan(s, i + w.len(), Scan { current: st.current + w, ..st }),
    decreases w.len(),
{
    if w.len() == 0 {
        assert(st.current + w =~= st.current);
        assert(Scan { current: st.current + w, ..st } == st);
    } else {
        let c = s[i];
        assert(c == w[0]);
        let next = Scan { current: st.current.push(c), ..st };
        let rest = w.drop_first();
        assert(s.subrange(i + 1, i + 1 + rest.len()) =~= rest);
        assert forall|k: int| 0 <= k < rest.len() implies !is_ws(#[trigger] rest[k]) && rest[k]
            != '"' by {
            assert(rest[k] == w[k + 1]);
        }
        lemma_scan_word(s, i + 1, next, rest);
        assert(next.current + rest =~= st.current + w);
    }
}

proof fn lemma_join_len(ws: Seq<Seq<char>>)
    requires
        ws.len() > 1,
    ensures
        join_words(ws).len() == ws[0].len() + 1 + join_words(ws.drop_first()).len(),
{
}

proof fn lemma_scan_join(s: Seq<char>, i: int, st: Scan, ws: Seq<Seq<char>>)
    requires
        !st.in_quotes,
        st.current.len() == 0,
        ws.len() > 0,
        0 <= i <= s.len(),
        s.skip(i) == join_words(ws),
        forall|k: int| 0 <= k < ws.len() ==> plain_word(#[trigger] ws[k]),
    ensures
        scan(s, i, st) == (Scan {
            tokens: st.tokens + ws.drop_last(),
            current: ws.last(),
            in_quotes: false,
        }),
    decreases ws.len(),
{
    let w = ws[0];
    assert(plain_word(ws[0]));
    if ws.len() == 1 {
        assert(s.skip(i) == w);
        assert(s.subrange(i, i + w.len()) =~= w);
        lemma_scan_word(s, i, st, w);
        assert(st.current + w =~= w);
        assert(st.tokens + ws.drop_last() =~= st.tokens);
    } else {
        let rest = ws.drop_first();
        lemma_join_len(ws);
        let j = join_words(ws);
        assert(j == w + seq![' '] + join_words(rest));
        assert(s.subrange(i, i + w.len()) =~= w) by {
            assert forall|k: int| 0 <= k < w.len() implies s.subrange(i, i + w.len())[k] == w[k] by {
                assert(s.skip(i)[k] == j[k]);
            }
        }
        lemma_scan_word(s, i, st, w);
        let at_space = Scan { current: st.current + w, ..st };
        assert(st.current + w =~= w);
        let k0 = i + w.len();
        assert(s[k0] == ' ') by {
            assert(s.skip(i)[w.len() as int] == j[w.len() as int]);
        }
        assert(is_ws(' '));
        let after = Scan { tokens: st.tokens.push(w), current: seq![], in_quotes: false };
        assert(scan(s, k0, at_space) == scan(s, k0 + 1, after));
        assert(s.skip(k0 + 1) =~= join_words(rest)) by {
            assert forall|k: int| 0 <= k < s.skip(k0 + 1).len() implies s.skip(k0 + 1)[k]
                == join_words(rest)[k] by {
                assert(s.skip(i)[w.len() + 1 + k] == j[w.len() + 1 + k]);
            }
        }
        assert forall|k: int| 0 <= k < rest.len() implies plain_word(#[trigger] rest[k]) by {
            assert(rest[k] == ws[k + 1]);
        }
        lemma_scan_join(s, k0 + 1, after, rest);
        assert(after.tokens + rest.drop_last() =~= st.tokens + ws.drop_last());
        assert(rest.last() == ws.last());
    }
}

/// Joining plain words with single spaces and tokenizing the result gives
/// the words back.
pub proof fn split_join_roundtrip(ws: Seq<Seq<char>>)
    requires
        forall|k: int| 0 <= k < ws.len() ==> plain_word(#[trigger] ws[k]),
    ensures
        spec_split_args(join_words(ws)) == Some(ws),
{
    let s = join_words(ws);
    if ws.len() == 0 {
        assert(scan(s, 0, scan_start()) == scan_start());
        assert(scan_start().tokens =~= ws);
    } else {
        assert(s.skip(0) =~= s);
        lemma_scan_join(s, 0, scan_start(), ws);
        assert(plain_word(ws.last()));
        assert(scan_start().tokens + ws.drop_last() =~= ws.drop_last());
        assert(ws.drop_last().push(ws.last()) =~= ws);
    }
}

} // verus!
