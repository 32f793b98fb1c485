use vstd::prelude::*;
use crate::text::{is_space, is_space_char};
use crate::yaml_utils::same_text;

verus! {

/// The path of `name` under `base`, as `Path::join` forms it.
pub uninterp spec fn joined_path(base: Seq<char>, name: Seq<char>) -> Seq<char>;

/// Relies on `std::path::Path::join`: the path of `name` under `base`, written
/// back as text (lossless, both parts being UTF-8).
#[verifier::external_body]
fn join_path(base: &str, name: &str) -> (r: String)
    ensures
        r@ == joined_path(base@, name@),
{
    std::path::Path::new(base).join(name).to_string_lossy().into_owned()
}

/// Relies on `dirs::config_dir`: the user's configuration directory, if the
/// platform has one; it depends on the environment, so nothing is known of it.
#[verifier::external_body]
fn user_config_dir() -> (r: Option<String>) {
    dirs::config_dir().map(|p| p.to_string_lossy().into_owned())
}

pub open spec fn app_dir_name() -> Seq<char> {
    "BetterReplacementsManager"@
}

pub open spec fn no_config_dir() -> Seq<char> {
    "Could not find config directory"@
}

/// `dir/sub`, or the error for a missing configuration directory.
pub open spec fn under_config(config_dir: Option<Seq<char>>, sub: Seq<char>) -> Result<Seq<char>, Seq<char>> {
    match config_dir {
        Some(c) => Ok(joined_path(c, sub)),
        None => Err(no_config_dir()),
    }
}

pub open spec fn result_view(r: Result<String, String>) -> Result<Seq<char>, Seq<char>> {
    match r {
        Ok(s) => Ok(s@),
        Err(e) => Err(e@),
    }
}

/// The application's data directory under a given configuration directory.
pub fn app_data_dir_under(config_dir: Option<String>) -> (r: Result<String, String>)
    ensures
        result_view(r) == under_config(config_dir.deep_view(), app_dir_name()),
{
    match config_dir {
        Some(c) => Ok(join_path(c.as_str(), "BetterReplacementsManager")),
        None => Err(String::from_str("Could not find config directory")),
    }
}

/// The application's data directory: `BetterReplacementsManager` under the
/// user's configuration directory.
pub fn get_app_data_dir_internal() -> (r: Result<String, String>)
    ensures
        exists|c: Option<Seq<char>>| result_view(r) == #[trigger] under_config(c, app_dir_name()),
{
    let c = user_config_dir();
    let ghost cv = c.deep_view();
    let r = app_data_dir_under(c);
    assert(result_view(r) == under_config(cv, app_dir_name()));
    r
}

/// The path of a file in the application's data directory.
pub fn get_app_data_file_path(filename: &str) -> (r: Result<String, String>)
    ensures
        exists|c: Option<Seq<char>>|
            result_view(r) == match #[trigger] under_config(c, app_dir_name()) {
                Ok(d) => Ok(joined_path(d, filename@)),
                Err(e) => Err(e),
            },
{
    let c = user_config_dir();
    let ghost cv = c.deep_view();
    match app_data_dir_under(c) {
        Ok(d) => {
            let r = Ok(join_path(d.as_str(), filename));
            assert(result_view(r) == match under_config(cv, app_dir_name()) {
                Ok(d) => Ok(joined_path(d, filename@)),
                Err(e) => Err(e),
            });
            r
        },
        Err(e) => Err(e),
    }
}

/// The expansion tool's configuration directory: the one its own command
/// reported, if any, else `espanso` under the user's configuration directory.
pub fn espanso_config_dir_from(reported: Option<String>, config_dir: Option<String>) -> (r: Result<String, String>)
    ensures
        result_view(r) == match reported.deep_view() {
            Some(p) => Ok(p),
            None => under_config(config_dir.deep_view(), "espanso"@),
        },
{
    match reported {
        Some(p) => Ok(p),
        None => match config_dir {
            Some(c) => Ok(join_path(c.as_str(), "espanso")),
            None => Err(String::from_str("Could not find config directory")),
        },
    }
}

/// The expansion tool's configuration directory, given what its own command
/// reported (if anything).
pub fn get_espanso_config_dir_internal(reported: Option<String>) -> (r: Result<String, String>)
    ensures
        reported.deep_view() matches Some(p) ==> result_view(r) == Ok::<Seq<char>, Seq<char>>(p),
        reported is None ==> exists|c: Option<Seq<char>>|
            result_view(r) == #[trigger] under_config(c, "espanso"@),
{
    let c = user_config_dir();
    espanso_config_dir_from(reported, c)
}

/// The rule directory: `match` under the configuration directory.
pub fn get_espanso_match_dir_internal(reported: Option<String>) -> (r: Result<String, String>)
    ensures
        reported.deep_view() matches Some(p) ==> result_view(r) == Ok::<Seq<char>, Seq<char>>(
            joined_path(p, "match"@),
        ),
        reported is None ==> exists|c: Option<Seq<char>>|
            result_view(r) == match #[trigger] under_config(c, "espanso"@) {
                Ok(d) => Ok(joined_path(d, "match"@)),
                Err(e) => Err(e),
            },
        r matches Err(e) ==> e@ == no_config_dir(),
{
    let ghost is_none = reported is None;
    let cfg = get_espanso_config_dir_internal(reported);
    let ghost c = choose|c: Option<Seq<char>>| result_view(cfg) == #[trigger] under_config(c, "espanso"@);
    let r = match cfg {
        Ok(d) => Ok(join_path(d.as_str(), "match")),
        Err(e) => Err(e),
    };
    assert(is_none ==> result_view(r) == match under_config(c, "espanso"@) {
        Ok(d) => Ok(joined_path(d, "match"@)),
        Err(e) => Err(e),
    });
    r
}

/// The path of a file in the rule directory.
pub fn get_espanso_file_path(filename: &str, reported: Option<String>) -> (r: Result<String, String>)
    ensures
        reported.deep_view() matches Some(p) ==> result_view(r) == Ok::<Seq<char>, Seq<char>>(
            joined_path(joined_path(p, "match"@), filename@),
        ),
        reported is None ==> exists|c: Option<Seq<char>>|
            result_view(r) == match #[trigger] under_config(c, "espanso"@) {
                Ok(d) => Ok(joined_path(joined_path(d, "match"@), filename@)),
                Err(e) => Err(e),
            },
        r matches Err(e) ==> e@ == no_config_dir(),
{
    let ghost is_none = reported is None;
    let m = get_espanso_match_dir_internal(reported);
    let ghost c = choose|c: Option<Seq<char>>|
        result_view(m) == match #[trigger] under_config(c, "espanso"@) {
            Ok(d) => Ok(joined_path(d, "match"@)),
            Err(e) => Err(e),
        };
    let r = match m {
        Ok(d) => Ok(join_path(d.as_str(), filename)),
        Err(e) => Err(e),
    };
    assert(is_none ==> result_view(r) == match under_config(c, "espanso"@) {
        Ok(d) => Ok(joined_path(joined_path(d, "match"@), filename@)),
        Err(e) => Err(e),
    });
    r
}

pub open spec fn trim_start(t: Seq<char>) -> Seq<char>
    decreases t.len(),
{
    if t.len() > 0 && is_space(t[0]) {
        trim_start(t.skip(1))
    } else {
        t
    }
}

pub open spec fn trim_end(t: Seq<char>) -> Seq<char>
    decreases t.len(),
{
    if t.len() > 0 && is_space(t.last()) {
        trim_end(t.drop_last())
    } else {
        t
    }
}

/// The text without leading and trailing white space.
pub open spec fn trimmed(t: Seq<char>) -> Seq<char> {
    trim_end(trim_start(t))
}

/// Where the line that holds position `p` ends (a line break or the end).
pub open spec fn line_end(s: Seq<char>, p: int) -> int
    decreases s.len() - p,
{
    if p < 0 || p >= s.len() || s[p] == '\n' {
        p
    } else {
        line_end(s, p + 1)
    }
}

proof fn lemma_line_end(s: Seq<char>, p: int)
    requires
        0 <= p <= s.len(),
    ensures
        p <= line_end(s, p) <= s.len(),
        line_end(s, p) < s.len() ==> s[line_end(s, p)] == '\n',
    decreases s.len() - p,
{
    if p < s.len() && s[p] != '\n' {
        lemma_line_end(s, p + 1);
    }
}

/// The value of the first line, from the line that starts at `p` on, that
/// starts with `Config:`.
pub open spec fn config_line_from(s: Seq<char>, p: int) -> Option<Seq<char>>
    decreases s.len() - p,
{
    let e = line_end(s, p);
    if p < 0 || p > s.len() || e < p {
        None
    } else if e - p >= 7 && s.subrange(p, p + 7) == "Config:"@ {
        Some(trimmed(s.subrange(p + 7, e)))
    } else if e < s.len() {
        config_line_from(s, e + 1)
    } else {
        None
    }
}

fn line_end_at(s: &str, n: usize, p: usize) -> (r: usize)
    requires
        n == s@.len(),
        p <= n,
    ensures
        r as int == line_end(s@, p as int),
{
    let mut j = p;
    while j < n && s.get_char(j) != '\n'
        invariant
            n == s@.len(),
            p <= j <= n,
            line_end(s@, p as int) == line_end(s@, j as int),
        decreases n - j,
    {
        j = j + 1;
    }
    j
}

fn trim_text(t: &str) -> (r: String)
    ensures
        r@ == trimmed(t@),
{
    let n = t.unicode_len();
    let mut i: usize = 0;
    assert(t@.subrange(0, n as int) =~= t@);
    while i < n && is_space_char(t.get_char(i))
        invariant
            n == t@.len(),
            i <= n,
            trim_start(t@) == trim_start(t@.subrange(i as int, n as int)),
        decreases n - i,
    {
        assert(t@.subrange(i as int, n as int).skip(1) =~= t@.subrange(i + 1, n as int));
        i = i + 1;
    }
    assert(trim_start(t@.subrange(i as int, n as int)) == t@.subrange(i as int, n as int));
    let mut j: usize = n;
    while j > i && is_space_char(t.get_char(j - 1))
        invariant
            n == t@.len(),
            i <= j <= n,
            trimmed(t@) == trim_end(t@.subrange(i as int, j as int)),
        decreases j,
    {
        assert(t@.subrange(i as int, j as int).drop_last() =~= t@.subrange(i as int, j - 1));
        j = j - 1;
    }
    String::from_str(t.substring_char(i, j))
}

/// Reads the configuration directory out of what the tool's `path` command
/// printed: the rest of the first line that starts with `Config:`, trimmed.
pub fn parse_espanso_path_output(stdout: &str) -> (r: Option<String>)
    ensures
        r.deep_view() == config_line_from(stdout@, 0),
{
    let n = stdout.unicode_len();
    let mut p: usize = 0;
    loop
        invariant
            n == stdout@.len(),
            p <= n,
            config_line_from(stdout@, 0) == config_line_from(stdout@, p as int),
        decreases n - p,
    {
        let e = line_end_at(stdout, n, p);
        proof {
            lemma_line_end(stdout@, p as int);
        }
        if e - p >= 7 && same_text(stdout.substring_char(p, p + 7), "Config:") {
            return Some(trim_text(stdout.substring_char(p + 7, e)));
        }
        if e < n {
            p = e + 1;
        } else {
            return None;
        }
    }
}

} // verus!
