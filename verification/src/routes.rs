//! The route table: built once from the files scanned under the project
//! root and under each declared folder mount, ordered and immutable
//! thereafter, and queried per request with `resolve`.
//!
//! Route derivation follows the file-system convention: a file's URL path is
//! its relative path with the extension stripped and `/` separators, and a
//! file whose stem is `index` collapses to its parent directory's path. A
//! mount remaps its subtree under the mount's URL prefix. Mounts are
//! processed before the implicit scan of the project root, in declaration
//! order, and on a path collision the entry processed first wins. The table
//! is then sorted by URL path (code-point order), which makes construction
//! deterministic for identical directory contents.

use vstd::prelude::*;
use vstd::string::StrSliceExecFns;
use vstd::string::StringExecFns;
use crate::config::Folder;
use crate::config::spec_config_path_segments;
use crate::config::path_from_config;
use crate::text::join_slash;
use crate::text::lemma_last_index_props;
use crate::text::lemma_lex_le_total;
use crate::text::lemma_lex_le_trans;
use crate::text::lemma_split_len;
use crate::text::lex_le;
use crate::text::spec_join;
use crate::text::spec_last_index;
use crate::text::spec_split;
use crate::text::split_on;
use crate::text::str_le;
use crate::text::strs_view;

verus! {

/// One entry of the table: a URL pattern and the module path that handles it.
pub struct Route {
    pub path: String,
    pub handler: String,
}

/// The mathematical value of a `Route`.
pub ghost struct RouteV {
    pub path: Seq<char>,
    pub handler: Seq<char>,
}

impl View for Route {
    type V = RouteV;

    open spec fn view(&self) -> RouteV {
        RouteV { path: self.path@, handler: self.handler@ }
    }
}

/// The mathematical values of a sequence of routes.
pub open spec fn routes_view(v: Seq<Route>) -> Seq<RouteV> {
    v.map_values(|r: Route| r@)
}

/// A folder mount together with the files scanned under it, each given as a
/// `/`-separated path relative to the mount root.
pub struct MountScan {
    pub folder: Folder,
    pub files: Vec<String>,
}

/// The mathematical value of a `MountScan`.
pub ghost struct MountScanV {
    pub from: Seq<char>,
    pub to: Seq<char>,
    pub files: Seq<Seq<char>>,
}

impl View for MountScan {
    type V = MountScanV;

    open spec fn view(&self) -> MountScanV {
        MountScanV { from: self.folder.from@, to: self.folder.to@, files: strs_view(self.files@) }
    }
}

pub open spec fn mounts_view(v: Seq<MountScan>) -> Seq<MountScanV> {
    v.map_values(|m: MountScan| m@)
}

pub open spec fn wasm_ext() -> Seq<char> {
    seq!['w', 'a', 's', 'm']
}

pub open spec fn js_ext() -> Seq<char> {
    seq!['j', 's']
}

pub open spec fn index_stem() -> Seq<char> {
    seq!['i', 'n', 'd', 'e', 'x']
}

/// A scanned file becomes a route when its extension is `wasm` or `js`.
pub open spec fn spec_eligible(name: Seq<char>) -> bool {
    let j = spec_last_index(name, '.');
    j >= 0 && (name.skip(j + 1) == wasm_ext() || name.skip(j + 1) == js_ext())
}

/// A file name without its extension; the whole name when it has none.
pub open spec fn spec_stem(name: Seq<char>) -> Seq<char> {
    let j = spec_last_index(name, '.');
    if j < 0 {
        name
    } else {
        name.take(j)
    }
}

/// The URL path of a file scanned at relative path `rel` under URL prefix
/// `prefix` (empty for the project root): the extension is stripped from the
/// last segment, and an `index` stem collapses to the directory path.
pub open spec fn spec_url_for(prefix: Seq<char>, rel: Seq<char>) -> Seq<char> {
    let segs = spec_split(rel, '/');
    let stem = spec_stem(segs.last());
    let kept = if stem == index_stem() {
        segs.drop_last()
    } else {
        segs.drop_last().push(stem)
    };
    if kept.len() == 0 {
        if prefix.len() == 0 {
            seq!['/']
        } else {
            prefix
        }
    } else {
        prefix + seq!['/'] + spec_join(kept, '/')
    }
}

/// A mount's URL prefix, normalized: trailing slashes dropped, one leading
/// slash added where missing, the empty prefix left empty.
pub open spec fn spec_strip_trailing_slashes(s: Seq<char>) -> Seq<char>
    decreases s.len(),
{
    if s.len() > 0 && s.last() == '/' {
        spec_strip_trailing_slashes(s.drop_last())
    } else {
        s
    }
}

pub open spec fn spec_prefix(to: Seq<char>) -> Seq<char> {
    let t = spec_strip_trailing_slashes(to);
    if t.len() == 0 {
        Seq::empty()
    } else if t[0] == '/' {
        t
    } else {
        seq!['/'] + t
    }
}

/// The handler module path of a file at `rel` under a mount rooted at
/// `from`: the mount's path segments (written with either separator) and the
/// file's segments, joined with `/`.
pub open spec fn spec_mount_handler(from: Seq<char>, rel: Seq<char>) -> Seq<char> {
    spec_join(spec_config_path_segments(from) + spec_split(rel, '/'), '/')
}

/// Checks whether a scanned file name carries a handled extension.
pub fn eligible_file(name: &str) -> (r: bool)
    ensures
        r == spec_eligible(name@),
{
    match crate::text::rfind_char(name, '.') {
        None => false,
        Some(j) => {
            let n = s_len(name);
            proof {
                lemma_last_index_props(name@, '.');
            }
            let ext = name.substring_char(j + 1, n).to_owned();
            let w = ext.eq(&String::from_str("wasm"));
            let s = ext.eq(&String::from_str("js"));
            proof {
                reveal_strlit("wasm");
                reveal_strlit("js");
                assert("wasm"@ =~= wasm_ext());
                assert("js"@ =~= js_ext());
                assert(name@.subrange(j + 1, n as int) =~= name@.skip(j + 1));
            }
            w || s
        },
    }
}

/// The character count of a string.
fn s_len(s: &str) -> (n: usize)
    ensures
        n == s@.len(),
{
    s.unicode_len()
}

/// Strips the extension from a file name.
pub fn stem_of(name: &str) -> (r: String)
    ensures
        r@ == spec_stem(name@),
{
    match crate::text::rfind_char(name, '.') {
        None => name.to_owned(),
        Some(j) => {
            proof {
                lemma_last_index_props(name@, '.');
            }
            let r = name.substring_char(0, j).to_owned();
            proof {
                assert(name@.subrange(0, j as int) =~= name@.take(j as int));
            }
            r
        },
    }
}

/// Normalizes a mount's URL prefix.
pub fn normalize_prefix(to: &str) -> (r: String)
    ensures
        r@ == spec_prefix(to@),
{
    let n = s_len(to);
    let mut e: usize = n;
    proof {
        assert(to@.take(n as int) =~= to@);
    }
    while e > 0 && to.get_char(e - 1) == '/'
        invariant
            n == to@.len(),
            e <= n,
            spec_strip_trailing_slashes(to@) == spec_strip_trailing_slashes(to@.take(e as int)),
        decreases e,
    {
        proof {
            assert(to@.take(e as int).last() == to@[e - 1]);
            assert(to@.take(e as int).drop_last() =~= to@.take(e - 1));
        }
        e -= 1;
    }
    proof {
        if e > 0 {
            assert(to@.take(e as int).last() == to@[e - 1]);
        }
        assert(spec_strip_trailing_slashes(to@) == to@.take(e as int));
    }
    if e == 0 {
        let r = String::new();
        proof {
            assert(to@.take(0) =~= Seq::<char>::empty());
        }
        r
    } else {
        let t = to.substring_char(0, e);
        proof {
            assert(t@ =~= to@.take(e as int));
        }
        if t.get_char(0) == '/' {
            t.to_owned()
        } else {
            let mut out = String::from_str("/");
            out.append(t);
            proof {
                reveal_strlit("/");
                assert("/"@ =~= seq!['/']);
            }
            out
        }
    }
}

/// Builds the URL path for a file scanned at `rel` under `prefix`.
pub fn url_for(prefix: &String, rel: &str) -> (r: String)
    ensures
        r@ == spec_url_for(prefix@, rel@),
{
    let segs = split_on(rel, '/');
    proof {
        lemma_split_len(rel@, '/');
    }
    let last_ix = segs.len() - 1;
    let stem = stem_of(segs[last_ix].as_str());
    proof {
        assert(strs_view(segs@).last() == segs@.last()@);
    }
    let mut kept: Vec<String> = Vec::new();
    let mut i: usize = 0;
    while i < last_ix
        invariant
            last_ix < segs@.len(),
            i <= last_ix,
            kept@.len() == i,
            forall|k: int| 0 <= k < i ==> kept@[k]@ == segs@[k]@,
        decreases last_ix - i,
    {
        kept.push(segs[i].clone());
        i += 1;
    }
    proof {
        assert(strs_view(kept@) =~~= strs_view(segs@).drop_last());
    }
    let is_index = stem.eq(&String::from_str("index"));
    proof {
        reveal_strlit("index");
        assert("index"@ =~= index_stem());
    }
    if !is_index {
        kept.push(stem);
        proof {
            assert(strs_view(kept@) =~~= strs_view(segs@).drop_last().push(
                spec_stem(strs_view(segs@).last()),
            ));
        }
    }
    if kept.len() == 0 {
        if prefix.as_str().unicode_len() == 0 {
            let r = String::from_str("/");
            proof {
                reveal_strlit("/");
                assert("/"@ =~= seq!['/']);
            }
            r
        } else {
            prefix.clone()
        }
    } else {
        let joined = join_slash(&kept);
        let mut out = prefix.clone();
        out.append("/");
        out.append(joined.as_str());
        proof {
            reveal_strlit("/");
            assert("/"@ =~= seq!['/']);
        }
        out
    }
}

/// Builds the handler module path for a file under a mount.
pub fn mount_handler(from: &str, rel: &str) -> (r: String)
    ensures
        r@ == spec_mount_handler(from@, rel@),
{
    let mut segs = path_from_config(from);
    let mut rel_segs = split_on(rel, '/');
    proof {
        assert(strs_view(segs@ + rel_segs@) =~~= spec_config_path_segments(from@) + spec_split(
            rel@,
            '/',
        ));
    }
    segs.append(&mut rel_segs);
    join_slash(&segs)
}

/// The candidate routes of the project root's scan, in scan order.
pub open spec fn spec_root_routes(files: Seq<Seq<char>>) -> Seq<RouteV>
    decreases files.len(),
{
    if files.len() == 0 {
        Seq::empty()
    } else {
        let rest = spec_root_routes(files.drop_first());
        if spec_eligible(files[0]) {
            seq![RouteV { path: spec_url_for(Seq::empty(), files[0]), handler: files[0] }] + rest
        } else {
            rest
        }
    }
}

/// The candidate routes of one mount's scan, in scan order.
pub open spec fn spec_mount_file_routes(
    prefix: Seq<char>,
    from: Seq<char>,
    files: Seq<Seq<char>>,
) -> Seq<RouteV>
    decreases files.len(),
{
    if files.len() == 0 {
        Seq::empty()
    } else {
        let rest = spec_mount_file_routes(prefix, from, files.drop_first());
        if spec_eligible(files[0]) {
            seq![
                RouteV {
                    path: spec_url_for(prefix, files[0]),
                    handler: spec_mount_handler(from, files[0]),
                },
            ] + rest
        } else {
            rest
        }
    }
}

/// The candidate routes of all mounts, in declaration order.
pub open spec fn spec_mount_routes(mounts: Seq<MountScanV>) -> Seq<RouteV>
    decreases mounts.len(),
{
    if mounts.len() == 0 {
        Seq::empty()
    } else {
        spec_mount_file_routes(spec_prefix(mounts[0].to), mounts[0].from, mounts[0].files)
            + spec_mount_routes(mounts.drop_first())
    }
}

/// All candidates: mounts first, then the project root's scan.
pub open spec fn spec_candidates(mounts: Seq<MountScanV>, files: Seq<Seq<char>>) -> Seq<RouteV> {
    spec_mount_routes(mounts) + spec_root_routes(files)
}

/// The set of URL paths a sequence of routes covers.
pub open spec fn spec_paths_of(s: Seq<RouteV>) -> Set<Seq<char>> {
    Set::new(|p: Seq<char>| exists|i: int| 0 <= i < s.len() && s[i].path == p)
}

/// Keeps each candidate whose path has not been taken yet: the entry
/// processed first wins a collision.
pub open spec fn spec_dedup_from(s: Seq<RouteV>, seen: Set<Seq<char>>) -> Seq<RouteV>
    decreases s.len(),
{
    if s.len() == 0 {
        Seq::empty()
    } else if seen.contains(s[0].path) {
        spec_dedup_from(s.drop_first(), seen)
    } else {
        seq![s[0]] + spec_dedup_from(s.drop_first(), seen.insert(s[0].path))
    }
}

/// Inserts a route into a path-ordered sequence, after any entry whose path
/// does not come after `x`'s.
pub open spec fn spec_insert_sorted(s: Seq<RouteV>, x: RouteV) -> Seq<RouteV>
    decreases s.len(),
{
    if s.len() == 0 {
        seq![x]
    } else if lex_le(s[0].path, x.path) {
        seq![s[0]] + spec_insert_sorted(s.drop_first(), x)
    } else {
        seq![x] + s
    }
}

/// Sorts routes by URL path, in code-point order.
pub open spec fn spec_sort(s: Seq<RouteV>) -> Seq<RouteV>
    decreases s.len(),
{
    if s.len() == 0 {
        Seq::empty()
    } else {
        spec_insert_sorted(spec_sort(s.drop_last()), s.last())
    }
}

/// What building the table means: collect the candidates, keep the first
/// entry per path, and order the result by path.
pub open spec fn spec_build(mounts: Seq<MountScanV>, files: Seq<Seq<char>>) -> Seq<RouteV> {
    spec_sort(spec_dedup_from(spec_candidates(mounts, files), Set::empty()))
}

fn clone_route(x: &Route) -> (r: Route)
    ensures
        r@ == x@,
{
    Route { path: x.path.clone(), handler: x.handler.clone() }
}

fn collect_candidates(mounts: &Vec<MountScan>, files: &Vec<String>) -> (r: Vec<Route>)
    ensures
        routes_view(r@) == spec_candidates(mounts_view(mounts@), strs_view(files@)),
{
    let ghost m_all = mounts_view(mounts@);
    let ghost f_all = strs_view(files@);
    let mut c: Vec<Route> = Vec::new();
    let mut i: usize = 0;
    proof {
        assert(m_all.skip(0) =~= m_all);
        assert(routes_view(c@) + spec_mount_routes(m_all) =~~= spec_mount_routes(m_all));
    }
    while i < mounts.len()
        invariant
            m_all == mounts_view(mounts@),
            i <= mounts@.len(),
            routes_view(c@) + spec_mount_routes(m_all.skip(i as int)) == spec_mount_routes(m_all),
        decreases mounts@.len() - i,
    {
        let prefix = normalize_prefix(mounts[i].folder.to.as_str());
        let ghost c0 = routes_view(c@);
        let ghost mf = strs_view(mounts@[i as int].files@);
        let ghost from_v = mounts@[i as int].folder.from@;
        let mut j: usize = 0;
        proof {
            assert(mf.skip(0) =~= mf);
        }
        while j < mounts[i].files.len()
            invariant
                i < mounts@.len(),
                m_all == mounts_view(mounts@),
                mf == strs_view(mounts@[i as int].files@),
                from_v == mounts@[i as int].folder.from@,
                prefix@ == spec_prefix(m_all[i as int].to),
                j <= mounts@[i as int].files@.len(),
                routes_view(c@) + spec_mount_file_routes(prefix@, from_v, mf.skip(j as int)) == c0
                    + spec_mount_file_routes(prefix@, from_v, mf),
            decreases mounts@[i as int].files@.len() - j,
        {
            let f = &mounts[i].files[j];
            proof {
                assert(mf.skip(j as int)[0] == f@);
                assert(mf.skip(j as int).drop_first() =~= mf.skip(j + 1));
            }
            if eligible_file(f.as_str()) {
                let rt = Route {
                    path: url_for(&prefix, f.as_str()),
                    handler: mount_handler(mounts[i].folder.from.as_str(), f.as_str()),
                };
                let ghost c_before = routes_view(c@);
                c.push(rt);
                proof {
                    assert(routes_view(c@) =~~= c_before.push(rt@));
                    assert(routes_view(c@) + spec_mount_file_routes(prefix@, from_v, mf.skip(j + 1))
                        =~~= c_before + spec_mount_file_routes(prefix@, from_v, mf.skip(j as int)));
                }
            }
            j += 1;
        }
        proof {
            assert(mf.skip(mounts@[i as int].files@.len() as int) =~= Seq::<Seq<char>>::empty());
            assert(routes_view(c@) =~~= c0 + spec_mount_file_routes(prefix@, from_v, mf));
            assert(m_all.skip(i as int)[0] == m_all[i as int]);
            assert(m_all.skip(i as int).drop_first() =~= m_all.skip(i + 1));
            assert(routes_view(c@) + spec_mount_routes(m_all.skip(i + 1)) =~~= c0
                + spec_mount_routes(m_all.skip(i as int)));
        }
        i += 1;
    }
    proof {
        assert(m_all.skip(mounts@.len() as int) =~= Seq::<MountScanV>::empty());
        assert(routes_view(c@) =~~= spec_mount_routes(m_all));
    }
    let ghost c1 = routes_view(c@);
    let empty_prefix = String::new();
    let mut k: usize = 0;
    proof {
        assert(f_all.skip(0) =~= f_all);
    }
    while k < files.len()
        invariant
            f_all == strs_view(files@),
            empty_prefix@ == Seq::<char>::empty(),
            k <= files@.len(),
            routes_view(c@) + spec_root_routes(f_all.skip(k as int)) == c1 + spec_root_routes(
                f_all,
            ),
        decreases files@.len() - k,
    {
        let f = &files[k];
        proof {
            assert(f_all.skip(k as int)[0] == f@);
            assert(f_all.skip(k as int).drop_first() =~= f_all.skip(k + 1));
        }
        if eligible_file(f.as_str()) {
            let rt = Route { path: url_for(&empty_prefix, f.as_str()), handler: f.clone() };
            let ghost c_before = routes_view(c@);
            c.push(rt);
            proof {
                assert(routes_view(c@) =~~= c_before.push(rt@));
                assert(routes_view(c@) + spec_root_routes(f_all.skip(k + 1)) =~~= c_before
                    + spec_root_routes(f_all.skip(k as int)));
            }
        }
        k += 1;
    }
    proof {
        assert(f_all.skip(files@.len() as int) =~= Seq::<Seq<char>>::empty());
        assert(routes_view(c@) =~~= c1 + spec_root_routes(f_all));
        assert(routes_view(c@) =~~= spec_candidates(m_all, f_all));
    }
    c
}

proof fn lemma_paths_of_push(s: Seq<RouteV>, x: RouteV)
    ensures
        spec_paths_of(s.push(x)) =~= spec_paths_of(s).insert(x.path),
{
    assert forall|p: Seq<char>| spec_paths_of(s.push(x)).contains(p) implies spec_paths_of(
        s,
    ).insert(x.path).contains(p) by {
        let i = choose|i: int| 0 <= i < s.push(x).len() && s.push(x)[i].path == p;
        if i < s.len() {
            assert(s[i].path == p);
        }
    };
    assert forall|p: Seq<char>| spec_paths_of(s).insert(x.path).contains(p) implies spec_paths_of(
        s.push(x),
    ).contains(p) by {
        if p == x.path {
            assert(s.push(x)[s.len() as int].path == p);
        } else {
            let i = choose|i: int| 0 <= i < s.len() && s[i].path == p;
            assert(s.push(x)[i].path == p);
        }
    };
}

fn contains_path(v: &Vec<Route>, path: &String) -> (r: bool)
    ensures
        r == spec_paths_of(routes_view(v@)).contains(path@),
{
    let n = v.len();
    let mut i: usize = 0;
    while i < n
        invariant
            n == v@.len(),
            i <= n,
            forall|k: int| 0 <= k < i ==> routes_view(v@)[k].path != path@,
        decreases n - i,
    {
        if v[i].path.eq(path) {
            proof {
                assert(routes_view(v@)[i as int].path == path@);
            }
            return true;
        }
        i += 1;
    }
    false
}

fn dedup_first_wins(cands: Vec<Route>) -> (r: Vec<Route>)
    ensures
        routes_view(r@) == spec_dedup_from(routes_view(cands@), Set::empty()),
{
    let ghost all = routes_view(cands@);
    let mut out: Vec<Route> = Vec::new();
    let mut i: usize = 0;
    proof {
        assert(all.skip(0) =~= all);
        assert(spec_paths_of(routes_view(out@)) =~= Set::<Seq<char>>::empty());
    }
    while i < cands.len()
        invariant
            all == routes_view(cands@),
            i <= cands@.len(),
            routes_view(out@) + spec_dedup_from(all.skip(i as int), spec_paths_of(
                routes_view(out@),
            )) == spec_dedup_from(all, Set::empty()),
        decreases cands@.len() - i,
    {
        let c = &cands[i];
        proof {
            assert(all.skip(i as int)[0] == c@);
            assert(all.skip(i as int).drop_first() =~= all.skip(i + 1));
        }
        if !contains_path(&out, &c.path) {
            let ghost out_before = routes_view(out@);
            let rt = clone_route(c);
            out.push(rt);
            proof {
                assert(routes_view(out@) =~~= out_before.push(c@));
                lemma_paths_of_push(out_before, c@);
                assert(routes_view(out@) + spec_dedup_from(all.skip(i + 1), spec_paths_of(
                    routes_view(out@),
                )) =~~= out_before + spec_dedup_from(all.skip(i as int), spec_paths_of(out_before)));
            }
        }
        i += 1;
    }
    proof {
        assert(all.skip(cands@.len() as int) =~= Seq::<RouteV>::empty());
        assert(routes_view(out@) =~~= spec_dedup_from(all, Set::empty()));
    }
    out
}

proof fn lemma_insert_position(s: Seq<RouteV>, x: RouteV, j: int)
    requires
        0 <= j <= s.len(),
        forall|k: int| 0 <= k < j ==> lex_le(s[k].path, x.path),
        j < s.len() ==> !lex_le(s[j].path, x.path),
    ensures
        spec_insert_sorted(s, x) == s.take(j) + seq![x] + s.skip(j),
    decreases j,
{
    if s.len() == 0 {
        assert(spec_insert_sorted(s, x) =~~= s.take(j) + seq![x] + s.skip(j));
    } else if j == 0 {
        assert(spec_insert_sorted(s, x) =~~= s.take(j) + seq![x] + s.skip(j));
    } else {
        let d = s.drop_first();
        assert(forall|k: int| 0 <= k < j - 1 ==> d[k] == s[k + 1] && lex_le(d[k].path, x.path));
        assert(j - 1 < d.len() ==> d[j - 1] == s[j]);
        lemma_insert_position(d, x, j - 1);
        assert(d.take(j - 1) =~= s.take(j).drop_first());
        assert(d.skip(j - 1) =~= s.skip(j));
        assert(spec_insert_sorted(s, x) =~~= s.take(j) + seq![x] + s.skip(j));
    }
}

fn insert_sorted(v: &mut Vec<Route>, x: Route)
    ensures
        routes_view(final(v)@) == spec_insert_sorted(routes_view(old(v)@), x@),
{
    let mut j: usize = 0;
    let n = v.len();
    let ghost before = routes_view(v@);
    while j < n
        invariant
            v@ == old(v)@,
            before == routes_view(v@),
            n == v@.len(),
            j <= n,
            forall|k: int| 0 <= k < j ==> lex_le(routes_view(v@)[k].path, x@.path),
        decreases n - j,
    {
        if !str_le(v[j].path.as_str(), x.path.as_str()) {
            proof {
                lemma_insert_position(before, x@, j as int);
            }
            v.insert(j, x);
            proof {
                assert(routes_view(v@) =~~= before.take(j as int) + seq![x@] + before.skip(
                    j as int,
                ));
            }
            return;
        }
        j += 1;
    }
    proof {
        lemma_insert_position(before, x@, n as int);
    }
    v.insert(n, x);
    proof {
        assert(routes_view(v@) =~~= before.take(n as int) + seq![x@] + before.skip(n as int));
    }
}

fn sort_routes(cands: Vec<Route>) -> (r: Vec<Route>)
    ensures
        routes_view(r@) == spec_sort(routes_view(cands@)),
{
    let ghost all = routes_view(cands@);
    let mut out: Vec<Route> = Vec::new();
    let mut i: usize = 0;
    proof {
        assert(all.take(0) =~= Seq::<RouteV>::empty());
    }
    while i < cands.len()
        invariant
            all == routes_view(cands@),
            i <= cands@.len(),
            routes_view(out@) == spec_sort(all.take(i as int)),
        decreases cands@.len() - i,
    {
        let rt = clone_route(&cands[i]);
        insert_sorted(&mut out, rt);
        proof {
            assert(all.take(i + 1).drop_last() =~= all.take(i as int));
            assert(all.take(i + 1).last() == all[i as int]);
        }
        i += 1;
    }
    proof {
        assert(all.take(cands@.len() as int) =~= all);
    }
    out
}

/// The route table: ordered, built once, immutable afterwards.
pub struct Routes {
    pub routes: Vec<Route>,
}

impl View for Routes {
    type V = Seq<RouteV>;

    open spec fn view(&self) -> Seq<RouteV> {
        routes_view(self.routes@)
    }
}

/// The first route whose pattern equals the URL path exactly, if any.
pub open spec fn spec_resolve(rs: Seq<RouteV>, path: Seq<char>) -> Option<RouteV>
    decreases rs.len(),
{
    if rs.len() == 0 {
        None
    } else if rs[0].path == path {
        Some(rs[0])
    } else {
        spec_resolve(rs.drop_first(), path)
    }
}

impl Routes {
    /// Builds the table from the scan of the project root and of each mount.
    pub fn build(mounts: &Vec<MountScan>, files: &Vec<String>) -> (r: Routes)
        ensures
            r@ == spec_build(mounts_view(mounts@), strs_view(files@)),
            spec_paths_unique(r@),
            spec_sorted_by_path(r@),
    {
        let cands = collect_candidates(mounts, files);
        let deduped = dedup_first_wins(cands);
        let sorted = sort_routes(deduped);
        proof {
            lemma_table_invariants(mounts_view(mounts@), strs_view(files@));
        }
        Routes { routes: sorted }
    }

    /// Resolves a request to a route by exact, case-sensitive path match;
    /// the result does not depend on the method, since a worker handles
    /// every method of its pattern. A miss is reported as `None`, never
    /// raised.
    #[allow(unused_variables)]
    pub fn resolve(&self, method: &str, url_path: &String) -> (r: Option<Route>)
        ensures
            match r {
                Some(rt) => spec_resolve(self@, url_path@) == Some(rt@),
                None => spec_resolve(self@, url_path@) is None,
            },
    {
        let ghost all = self@;
        let mut i: usize = 0;
        proof {
            assert(all.skip(0) =~= all);
        }
        while i < self.routes.len()
            invariant
                all == self@,
                i <= self.routes@.len(),
                spec_resolve(all, url_path@) == spec_resolve(all.skip(i as int), url_path@),
            decreases self.routes@.len() - i,
        {
            let rt = &self.routes[i];
            proof {
                assert(all.skip(i as int)[0] == rt@);
                assert(all.skip(i as int).drop_first() =~= all.skip(i + 1));
            }
            if rt.path.eq(url_path) {
                return Some(clone_route(rt));
            }
            i += 1;
        }
        proof {
            assert(all.skip(self.routes@.len() as int) =~= Seq::<RouteV>::empty());
        }
        None
    }
}

/// What `spec_resolve` finds: a hit is the first entry with the path, a miss
/// means no entry has it.
pub proof fn lemma_resolve_props(rs: Seq<RouteV>, path: Seq<char>)
    ensures
        match spec_resolve(rs, path) {
            Some(rt) => exists|i: int|
                0 <= i < rs.len() && rs[i] == rt && rs[i].path == path && (forall|k: int|
                    0 <= k < i ==> rs[k].path != path),
            None => forall|i: int| 0 <= i < rs.len() ==> rs[i].path != path,
        },
    decreases rs.len(),
{
    if rs.len() != 0 && rs[0].path != path {
        lemma_resolve_props(rs.drop_first(), path);
        match spec_resolve(rs, path) {
            Some(rt) => {
                let i = choose|i: int|
                    0 <= i < rs.drop_first().len() && rs.drop_first()[i] == rt && rs.drop_first()[
                        i
                    ].path == path && (forall|k: int|
                        0 <= k < i ==> rs.drop_first()[k].path != path);
                assert(rs[i + 1] == rt && rs[i + 1].path == path);
                assert forall|k: int| 0 <= k < i + 1 implies rs[k].path != path by {
                    if k >= 1 {
                        assert(rs.drop_first()[k - 1].path != path);
                        assert(rs[k] == rs.drop_first()[k - 1]);
                    }
                };
                assert(0 <= i + 1 < rs.len() && rs[i + 1] == rt && rs[i + 1].path == path && (
                forall|k: int| 0 <= k < i + 1 ==> rs[k].path != path));
            },
            None => {
                assert forall|k: int| 0 <= k < rs.len() implies rs[k].path != path by {
                    if k >= 1 {
                        assert(rs.drop_first()[k - 1].path != path);
                        assert(rs[k] == rs.drop_first()[k - 1]);
                    }
                };
            },
        }
    }
}

/// No two entries cover the same URL path.
pub open spec fn spec_paths_unique(s: Seq<RouteV>) -> bool {
    forall|i: int, j: int| 0 <= i < j < s.len() ==> s[i].path != s[j].path
}

/// The entries stand in path order.
pub open spec fn spec_sorted_by_path(s: Seq<RouteV>) -> bool {
    forall|i: int, j: int| 0 <= i < j < s.len() ==> lex_le(s[i].path, s[j].path)
}

pub open spec fn spec_seq_contains(s: Seq<RouteV>, x: RouteV) -> bool {
    exists|i: int| 0 <= i < s.len() && s[i] == x
}

proof fn lemma_insert_sorted_elems(s: Seq<RouteV>, x: RouteV)
    ensures
        spec_insert_sorted(s, x).len() == s.len() + 1,
        forall|k: int|
            0 <= k < spec_insert_sorted(s, x).len() ==> (spec_insert_sorted(s, x)[k] == x
                || spec_seq_contains(s, spec_insert_sorted(s, x)[k])),
    decreases s.len(),
{
    if s.len() == 0 {
    } else if lex_le(s[0].path, x.path) {
        let d = s.drop_first();
        lemma_insert_sorted_elems(d, x);
        assert forall|k: int|
            0 <= k < spec_insert_sorted(s, x).len() implies (spec_insert_sorted(s, x)[k] == x
            || spec_seq_contains(s, spec_insert_sorted(s, x)[k])) by {
            if k == 0 {
                assert(spec_insert_sorted(s, x)[0] == s[0]);
            } else {
                let y = spec_insert_sorted(s, x)[k];
                assert(y == spec_insert_sorted(d, x)[k - 1]);
                if y != x {
                    let i = choose|i: int| 0 <= i < d.len() && d[i] == y;
                    assert(s[i + 1] == y);
                }
            }
        };
    } else {
        assert forall|k: int|
            0 <= k < spec_insert_sorted(s, x).len() implies (spec_insert_sorted(s, x)[k] == x
            || spec_seq_contains(s, spec_insert_sorted(s, x)[k])) by {
            if k > 0 {
                assert(spec_insert_sorted(s, x)[k] == s[k - 1]);
            }
        };
    }
}

proof fn lemma_insert_sorted_sorted(s: Seq<RouteV>, x: RouteV)
    requires
        spec_sorted_by_path(s),
    ensures
        spec_sorted_by_path(spec_insert_sorted(s, x)),
    decreases s.len(),
{
    if s.len() == 0 {
    } else if lex_le(s[0].path, x.path) {
        let d = s.drop_first();
        assert(forall|i: int, j: int|
            0 <= i < j < d.len() ==> d[i] == s[i + 1] && d[j] == s[j + 1]);
        lemma_insert_sorted_sorted(d, x);
        lemma_insert_sorted_elems(d, x);
        let r = spec_insert_sorted(s, x);
        assert forall|i: int, j: int| 0 <= i < j < r.len() implies lex_le(
            r[i].path,
            r[j].path,
        ) by {
            if i == 0 {
                let y = spec_insert_sorted(d, x)[j - 1];
                assert(r[j] == y);
                if y == x {
                } else {
                    let k = choose|k: int| 0 <= k < d.len() && d[k] == y;
                    assert(s[k + 1] == y);
                    assert(lex_le(s[0].path, s[k + 1].path));
                }
            } else {
                assert(r[i] == spec_insert_sorted(d, x)[i - 1]);
                assert(r[j] == spec_insert_sorted(d, x)[j - 1]);
            }
        };
    } else {
        lemma_lex_le_total(s[0].path, x.path);
        let r = spec_insert_sorted(s, x);
        assert forall|i: int, j: int| 0 <= i < j < r.len() implies lex_le(
            r[i].path,
            r[j].path,
        ) by {
            if i == 0 {
                assert(r[j] == s[j - 1]);
                if j > 1 {
                    assert(lex_le(s[0].path, s[j - 1].path));
                    lemma_lex_le_trans(x.path, s[0].path, s[j - 1].path);
                }
            } else {
                assert(r[i] == s[i - 1]);
                assert(r[j] == s[j - 1]);
            }
        };
    }
}

proof fn lemma_insert_sorted_unique(s: Seq<RouteV>, x: RouteV)
    requires
        spec_paths_unique(s),
        forall|i: int| 0 <= i < s.len() ==> s[i].path != x.path,
    ensures
        spec_paths_unique(spec_insert_sorted(s, x)),
    decreases s.len(),
{
    if s.len() == 0 {
    } else if lex_le(s[0].path, x.path) {
        let d = s.drop_first();
        assert(forall|i: int| 0 <= i < d.len() ==> d[i] == s[i + 1]);
        lemma_insert_sorted_unique(d, x);
        lemma_insert_sorted_elems(d, x);
        let r = spec_insert_sorted(s, x);
        assert forall|i: int, j: int| 0 <= i < j < r.len() implies r[i].path != r[j].path by {
            if i == 0 {
                let y = spec_insert_sorted(d, x)[j - 1];
                assert(r[j] == y);
                if y == x {
                } else {
                    let k = choose|k: int| 0 <= k < d.len() && d[k] == y;
                    assert(s[k + 1] == y);
                    assert(s[0].path != s[k + 1].path);
                }
            } else {
                assert(r[i] == spec_insert_sorted(d, x)[i - 1]);
                assert(r[j] == spec_insert_sorted(d, x)[j - 1]);
            }
        };
    } else {
        let r = spec_insert_sorted(s, x);
        assert forall|i: int, j: int| 0 <= i < j < r.len() implies r[i].path != r[j].path by {
            if i == 0 {
                assert(r[j] == s[j - 1]);
            } else {
                assert(r[i] == s[i - 1]);
                assert(r[j] == s[j - 1]);
            }
        };
    }
}

proof fn lemma_sort_props(s: Seq<RouteV>)
    requires
        spec_paths_unique(s),
    ensures
        spec_sorted_by_path(spec_sort(s)),
        spec_paths_unique(spec_sort(s)),
        spec_sort(s).len() == s.len(),
        forall|k: int| 0 <= k < spec_sort(s).len() ==> spec_seq_contains(s, spec_sort(s)[k]),
    decreases s.len(),
{
    if s.len() != 0 {
        let d = s.drop_last();
        let x = s.last();
        assert(forall|i: int| 0 <= i < d.len() ==> d[i] == s[i]);
        lemma_sort_props(d);
        assert forall|i: int| 0 <= i < spec_sort(d).len() implies spec_sort(d)[i].path
            != x.path by {
            let k = choose|k: int| 0 <= k < d.len() && d[k] == spec_sort(d)[i];
            assert(s[k].path != s[s.len() - 1].path);
        };
        lemma_insert_sorted_sorted(spec_sort(d), x);
        lemma_insert_sorted_unique(spec_sort(d), x);
        lemma_insert_sorted_elems(spec_sort(d), x);
        assert forall|k: int| 0 <= k < spec_sort(s).len() implies spec_seq_contains(
            s,
            spec_sort(s)[k],
        ) by {
            let y = spec_sort(s)[k];
            if y == x {
                assert(s[s.len() - 1] == y);
            } else {
                let i = choose|i: int| 0 <= i < spec_sort(d).len() && spec_sort(d)[i] == y;
                let j = choose|j: int| 0 <= j < d.len() && d[j] == y;
                assert(s[j] == y);
            }
        };
    }
}

proof fn lemma_dedup_unique(s: Seq<RouteV>, seen: Set<Seq<char>>)
    ensures
        spec_paths_unique(spec_dedup_from(s, seen)),
        forall|k: int|
            0 <= k < spec_dedup_from(s, seen).len() ==> !seen.contains(
                spec_dedup_from(s, seen)[k].path,
            ),
    decreases s.len(),
{
    if s.len() != 0 {
        if seen.contains(s[0].path) {
            lemma_dedup_unique(s.drop_first(), seen);
        } else {
            lemma_dedup_unique(s.drop_first(), seen.insert(s[0].path));
            let rest = spec_dedup_from(s.drop_first(), seen.insert(s[0].path));
            let r = spec_dedup_from(s, seen);
            assert forall|i: int, j: int| 0 <= i < j < r.len() implies r[i].path
                != r[j].path by {
                if i == 0 {
                    assert(r[j] == rest[j - 1]);
                    assert(!seen.insert(s[0].path).contains(rest[j - 1].path));
                } else {
                    assert(r[i] == rest[i - 1]);
                    assert(r[j] == rest[j - 1]);
                }
            };
            assert forall|k: int| 0 <= k < r.len() implies !seen.contains(r[k].path) by {
                if k > 0 {
                    assert(r[k] == rest[k - 1]);
                    assert(!seen.insert(s[0].path).contains(rest[k - 1].path));
                }
            };
        }
    }
}

/// Law: the built table carries the table's two invariants — each URL path
/// occurs once, and the entries stand in path order.
pub proof fn lemma_table_invariants(mounts: Seq<MountScanV>, files: Seq<Seq<char>>)
    ensures
        spec_paths_unique(spec_build(mounts, files)),
        spec_sorted_by_path(spec_build(mounts, files)),
{
    let cands = spec_candidates(mounts, files);
    lemma_dedup_unique(cands, Set::empty());
    lemma_sort_props(spec_dedup_from(cands, Set::empty()));
}

/// Law: route-table construction is deterministic. Two tables built from
/// identical scans of an unchanged file system are equal, entry for entry.
pub proof fn lemma_build_deterministic(
    a: Routes,
    b: Routes,
    mounts: Seq<MountScanV>,
    files: Seq<Seq<char>>,
)
    requires
        a@ == spec_build(mounts, files),
        b@ == spec_build(mounts, files),
    ensures
        a@ == b@,
{
}

} // verus!
