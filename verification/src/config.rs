//! The configuration value the server core consumes: feature settings,
//! folder mounts, and worker environment variables. The file that this is
//! parsed from is handled outside the core; the core receives plain values
//! and finishes them: it normalizes folder paths and resolves `$NAME`
//! variable references against a snapshot of the process environment.

use vstd::prelude::*;
use vstd::string::StrSliceExecFns;
use vstd::string::StringExecFns;
use crate::text::find_char;
use crate::text::seq_contains_char;
use crate::text::spec_split;
use crate::text::split_on;

verus! {

/// Settings of the outbound HTTP-fetch capability: whether workers may call
/// it at all, and which hosts they may reach.
#[derive(Clone)]
pub struct HttpRequestsConfig {
    pub enabled: bool,
    pub allowed_hosts: Vec<String>,
}

impl Default for HttpRequestsConfig {
    /// The capability is disabled unless the configuration enables it.
    fn default() -> (r: Self)
        ensures
            !r.enabled,
            r.allowed_hosts@ == Seq::<String>::empty(),
    {
        HttpRequestsConfig { enabled: false, allowed_hosts: Vec::new() }
    }
}

/// The feature section of the configuration.
#[derive(Clone)]
pub struct Features {
    pub http_requests: HttpRequestsConfig,
}

impl Default for Features {
    fn default() -> (r: Self)
        ensures
            !r.http_requests.enabled,
            r.http_requests.allowed_hosts@ == Seq::<String>::empty(),
    {
        Features { http_requests: HttpRequestsConfig::default() }
    }
}

/// A folder mount: the subtree under the filesystem path `from` is served
/// under the URL prefix `to`.
#[derive(Clone)]
pub struct Folder {
    pub from: String,
    pub to: String,
}

impl Default for Folder {
    fn default() -> (r: Self)
        ensures
            r.from@ == Seq::<char>::empty(),
            r.to@ == Seq::<char>::empty(),
    {
        Folder { from: String::new(), to: String::new() }
    }
}

/// The whole configuration value: loaded once, immutable afterwards.
#[derive(Clone)]
pub struct Config {
    pub name: Option<String>,
    pub features: Features,
    pub folders: Option<Vec<Folder>>,
    pub vars: Vec<(String, String)>,
}

impl Default for Config {
    fn default() -> (r: Self)
        ensures
            r.name is None,
            !r.features.http_requests.enabled,
            r.folders is None,
            r.vars@ == Seq::<(String, String)>::empty(),
    {
        Config { name: None, features: Features::default(), folders: None, vars: Vec::new() }
    }
}

/// The characters of each pair in a sequence of string pairs.
pub open spec fn pairs_view(v: Seq<(String, String)>) -> Seq<(Seq<char>, Seq<char>)> {
    v.map_values(|p: (String, String)| (p.0@, p.1@))
}

/// A configured value names an environment variable when it starts with `$`
/// and holds no space.
pub open spec fn spec_is_env_reference(v: Seq<char>) -> bool {
    v.len() > 0 && v[0] == '$' && !seq_contains_char(v, ' ')
}

/// The value of `name` in an environment snapshot: the first binding wins,
/// and an absent name reads as the empty string.
pub open spec fn spec_env_value(env: Seq<(Seq<char>, Seq<char>)>, name: Seq<char>) -> Seq<char>
    decreases env.len(),
{
    if env.len() == 0 {
        Seq::empty()
    } else if env[0].0 == name {
        env[0].1
    } else {
        spec_env_value(env.drop_first(), name)
    }
}

/// What a configured variable value resolves to: a `$NAME` reference reads
/// `NAME` from the environment, anything else stands as written.
pub open spec fn spec_resolved_value(
    v: Seq<char>,
    env: Seq<(Seq<char>, Seq<char>)>,
) -> Seq<char> {
    if spec_is_env_reference(v) {
        spec_env_value(env, v.skip(1))
    } else {
        v
    }
}

/// The environment variable a configured value refers to, if any.
pub fn env_reference(value: &String) -> (r: Option<String>)
    ensures
        (r is Some) == spec_is_env_reference(value@),
        r is Some ==> r->Some_0@ == value@.skip(1),
{
    let s = value.as_str();
    let n = s.unicode_len();
    if n == 0 {
        return None;
    }
    if s.get_char(0) != '$' {
        return None;
    }
    match find_char(s, ' ') {
        Some(_) => None,
        None => Some(s.substring_char(1, n).to_owned()),
    }
}

/// Reads `name` from an environment snapshot; an absent name reads as the
/// empty string.
pub fn env_value(env: &Vec<(String, String)>, name: &String) -> (r: String)
    ensures
        r@ == spec_env_value(pairs_view(env@), name@),
{
    let n = env.len();
    let mut i: usize = 0;
    proof {
        assert(pairs_view(env@.skip(0)) =~~= pairs_view(env@));
    }
    while i < n
        invariant
            n == env@.len(),
            i <= n,
            spec_env_value(pairs_view(env@), name@) == spec_env_value(
                pairs_view(env@.skip(i as int)),
                name@,
            ),
        decreases n - i,
    {
        let pair = &env[i];
        proof {
            assert(pairs_view(env@.skip(i as int))[0] == (env@[i as int].0@, env@[i as int].1@));
            assert(pairs_view(env@.skip(i as int)).drop_first() =~~= pairs_view(
                env@.skip(i + 1),
            ));
        }
        if pair.0.eq(name) {
            return pair.1.clone();
        }
        i += 1;
    }
    String::new()
}

/// Resolves every configured variable value against an environment snapshot:
/// a `$NAME` value becomes the environment's value of `NAME` (or the empty
/// string when `NAME` is unset), any other value is kept as written.
pub fn resolve_vars(vars: &Vec<(String, String)>, env: &Vec<(String, String)>) -> (r: Vec<
    (String, String),
>)
    ensures
        r@.len() == vars@.len(),
        forall|i: int|
            0 <= i < vars@.len() ==> r@[i].0@ == vars@[i].0@ && r@[i].1@ == spec_resolved_value(
                vars@[i].1@,
                pairs_view(env@),
            ),
{
    let n = vars.len();
    let mut r: Vec<(String, String)> = Vec::new();
    let mut i: usize = 0;
    while i < n
        invariant
            n == vars@.len(),
            i <= n,
            r@.len() == i,
            forall|k: int|
                0 <= k < i ==> r@[k].0@ == vars@[k].0@ && r@[k].1@ == spec_resolved_value(
                    vars@[k].1@,
                    pairs_view(env@),
                ),
        decreases n - i,
    {
        let pair = &vars[i];
        let key = pair.0.clone();
        let value = match env_reference(&pair.1) {
            Some(name) => env_value(env, &name),
            None => pair.1.clone(),
        };
        r.push((key, value));
        i += 1;
    }
    r
}

/// How a configured folder path splits into segments: on `/` when the value
/// holds one, else on `\`.
pub open spec fn spec_config_path_segments(v: Seq<char>) -> Seq<Seq<char>> {
    if seq_contains_char(v, '/') {
        spec_split(v, '/')
    } else {
        spec_split(v, '\\')
    }
}

/// Splits a configured folder path into segments, accepting either `/` or
/// `\` as the separator.
pub fn path_from_config(value: &str) -> (r: Vec<String>)
    ensures
        crate::text::strs_view(r@) == spec_config_path_segments(value@),
{
    match find_char(value, '/') {
        Some(_) => split_on(value, '/'),
        None => split_on(value, '\\'),
    }
}

} // verus!
