//! Local settings and filesystem layout values. The driver reads and writes
//! these on disk; this module owns their shape, their defaults, and the pure
//! path-resolution rules. No function here touches the environment: every
//! discovered fact (the configuration root, which candidate paths exist)
//! comes in as an argument.

use vstd::prelude::*;
use vstd::string::StringExecFns;
use crate::text::{chars_to_string, lower_seq, str_eq_ignore_ascii_case, str_eq, str_to_chars};

verus! {

/// Where the subscription comes from.
#[derive(Debug, Clone)]
pub struct SubscriptionConfig {
    pub url: Option<String>,
}

/// Where the forwarding-engine executable lives.
#[derive(Debug, Clone)]
pub struct ProxyCoreConfig {
    pub path: String,
}

/// The local mixed-protocol inbound.
#[derive(Debug, Clone)]
pub struct LocalProxyConfig {
    pub mixed_port: u16,
}

/// Which domains go through the proxy, and which hosts bypass it.
#[derive(Debug, Clone)]
pub struct RoutingConfig {
    pub proxy_domains: Vec<String>,
    pub no_proxy: Vec<String>,
}

/// State remembered between runs: the sticky node choice.
#[derive(Debug, Clone)]
pub struct RuntimeConfig {
    pub selected_node: Option<String>,
}

/// The whole persisted settings record, always fully populated.
#[derive(Debug, Clone)]
pub struct AppConfig {
    pub subscription: SubscriptionConfig,
    pub proxy_core: ProxyCoreConfig,
    pub proxy: LocalProxyConfig,
    pub routing: RoutingConfig,
    pub runtime: RuntimeConfig,
}

impl Default for AppConfig {
    /// Fresh settings: no subscription, the bare engine name, port 27890,
    /// the usual proxied domains, loopback exempt, no sticky node.
    fn default() -> (c: AppConfig)
        ensures
            c.subscription.url is None,
            c.proxy_core.path@ == "sing-box.exe"@,
            c.proxy.mixed_port == 27890,
            c.routing.proxy_domains.deep_view() =~= seq![
                "openai.com"@,
                "api.openai.com"@,
                "chatgpt.com"@,
                "oaistatic.com"@,
                "oaiusercontent.com"@,
                "openaiapi-site.azureedge.net"@,
            ],
            c.routing.no_proxy.deep_view() =~= seq!["localhost"@, "127.0.0.1"@],
            c.runtime.selected_node is None,
    {
        let proxy_domains: Vec<String> = vec![
            String::from_str("openai.com"),
            String::from_str("api.openai.com"),
            String::from_str("chatgpt.com"),
            String::from_str("oaistatic.com"),
            String::from_str("oaiusercontent.com"),
            String::from_str("openaiapi-site.azureedge.net"),
        ];
        let no_proxy: Vec<String> = vec![String::from_str("localhost"), String::from_str("127.0.0.1")];
        AppConfig {
            subscription: SubscriptionConfig { url: None },
            proxy_core: ProxyCoreConfig { path: String::from_str("sing-box.exe") },
            proxy: LocalProxyConfig { mixed_port: 27890 },
            routing: RoutingConfig { proxy_domains, no_proxy },
            runtime: RuntimeConfig { selected_node: None },
        }
    }
}

/// The files and directories of one configuration root, as plain paths.
#[derive(Debug, Clone)]
pub struct AppPaths {
    pub config_toml: String,
    pub subscription_yaml: String,
    pub generated_dir: String,
    pub sing_box_json: String,
}

impl AppPaths {
    /// Lays the fixed file names out under the given root.
    pub fn from_root(root: &str) -> (p: AppPaths)
        ensures
            p.config_toml@ == root@ + "/config.toml"@,
            p.subscription_yaml@ == root@ + "/cache/subscription.yaml"@,
            p.generated_dir@ == root@ + "/generated"@,
            p.sing_box_json@ == root@ + "/generated/sing-box.json"@,
    {
        let mut config_toml = String::from_str(root);
        config_toml.append("/config.toml");
        let mut subscription_yaml = String::from_str(root);
        subscription_yaml.append("/cache/subscription.yaml");
        let mut generated_dir = String::from_str(root);
        generated_dir.append("/generated");
        let mut sing_box_json = String::from_str(root);
        sing_box_json.append("/generated/sing-box.json");
        AppPaths { config_toml, subscription_yaml, generated_dir, sing_box_json }
    }
}

/// Whether the one-time move of the legacy configuration root must copy it:
/// only when the new root is absent and the legacy root is present.
pub fn migrate_legacy_root(new_root_exists: bool, legacy_root_exists: bool) -> (copy: bool)
    ensures
        copy == (!new_root_exists && legacy_root_exists),
{
    !new_root_exists && legacy_root_exists
}

/// The first of the candidate paths, scanning from `i`, that is among those
/// known to exist.
pub open spec fn first_existing(
    cands: Seq<Seq<char>>,
    existing: Seq<Seq<char>>,
    i: int,
) -> Option<Seq<char>>
    decreases cands.len() - i,
{
    if i < 0 || i >= cands.len() {
        None
    } else if existing.contains(cands[i]) {
        Some(cands[i])
    } else {
        first_existing(cands, existing, i + 1)
    }
}

/// Membership of a path among those known to exist.
fn vec_contains_str(v: &Vec<String>, s: &str) -> (b: bool)
    ensures
        b == v.deep_view().contains(s@),
{
    let mut m: usize = 0;
    while m < v.len()
        invariant
            m <= v@.len(),
            forall|q: int| 0 <= q < m ==> #[trigger] v.deep_view()[q] != s@,
        decreases v@.len() - m,
    {
        if str_eq(v[m].as_str(), s) {
            proof {
                assert(v.deep_view()[m as int] == s@);
            }
            return true;
        }
        m = m + 1;
    }
    proof {
        assert(forall|q: int| 0 <= q < v.deep_view().len() ==> #[trigger] v.deep_view()[q] != s@);
    }
    false
}

/// The first candidate that exists, as `first_existing` states from the
/// head of the list.
fn first_existing_exec(candidates: &Vec<String>, existing: &Vec<String>) -> (r: Option<String>)
    ensures
        match first_existing(candidates.deep_view(), existing.deep_view(), 0) {
            Some(p) => r matches Some(s) && s@ == p,
            None => r is None,
        },
{
    let mut i: usize = 0;
    while i < candidates.len()
        invariant
            i <= candidates@.len(),
            first_existing(candidates.deep_view(), existing.deep_view(), 0) == first_existing(
                candidates.deep_view(),
                existing.deep_view(),
                i as int,
            ),
        decreases candidates@.len() - i,
    {
        if vec_contains_str(existing, candidates[i].as_str()) {
            proof {
                assert(existing.deep_view().contains(candidates.deep_view()[i as int]));
            }
            return Some(candidates[i].clone());
        }
        i = i + 1;
    }
    None
}

/// `dir` and `rest` joined with a forward slash.
fn join_slash(dir: &str, rest: &str) -> (r: String)
    ensures
        r@ == dir@ + seq!['/'] + rest@,
{
    let mut r = String::from_str(dir);
    crate::text::push_char(&mut r, '/');
    r.append(rest);
    r
}

/// The paths tried for the engine executable, in the order they are tried:
/// the bundled copy (plain, under the working directory, under the
/// executable's directory) when the configured path is the bare engine name,
/// then the configured path itself, plain and under both directories.
pub open spec fn spec_core_path_candidates(
    configured: Seq<char>,
    cwd: Option<Seq<char>>,
    exe_dir: Option<Seq<char>>,
) -> Seq<Seq<char>> {
    let bundled = "tools/sing-box/sing-box.exe"@;
    let with_bundled: Seq<Seq<char>> = if lower_seq(configured) == lower_seq("sing-box.exe"@) {
        let a = seq![bundled];
        let b = match cwd {
            Some(c) => a.push(c + seq!['/'] + bundled),
            None => a,
        };
        match exe_dir {
            Some(e) => b.push(e + seq!['/'] + bundled),
            None => b,
        }
    } else {
        Seq::empty()
    };
    let with_cfg = with_bundled.push(configured);
    let with_cwd = match cwd {
        Some(c) => with_cfg.push(c + seq!['/'] + configured),
        None => with_cfg,
    };
    match exe_dir {
        Some(e) => with_cwd.push(e + seq!['/'] + configured),
        None => with_cwd,
    }
}

/// Builds the candidate paths for the engine executable, as
/// `spec_core_path_candidates` states. The caller supplies the working
/// directory and the executable's directory where it knows them.
pub fn core_path_candidates(configured: &str, cwd: &Option<String>, exe_dir: &Option<String>) -> (c:
    Vec<String>)
    ensures
        c.deep_view() == spec_core_path_candidates(
            configured@,
            match cwd {
                Some(s) => Some(s@),
                None => None,
            },
            match exe_dir {
                Some(s) => Some(s@),
                None => None,
            },
        ),
{
    let bundled = "tools/sing-box/sing-box.exe";
    let mut c: Vec<String> = Vec::new();
    if str_eq_ignore_ascii_case(configured, "sing-box.exe") {
        c.push(String::from_str(bundled));
        if let Some(d) = cwd {
            c.push(join_slash(d.as_str(), bundled));
        }
        if let Some(d) = exe_dir {
            c.push(join_slash(d.as_str(), bundled));
        }
    }
    c.push(String::from_str(configured));
    if let Some(d) = cwd {
        c.push(join_slash(d.as_str(), configured));
    }
    if let Some(d) = exe_dir {
        c.push(join_slash(d.as_str(), configured));
    }
    proof {
        assert(c.deep_view() =~= spec_core_path_candidates(
            configured@,
            match cwd {
                Some(s) => Some(s@),
                None => None,
            },
            match exe_dir {
                Some(s) => Some(s@),
                None => None,
            },
        ));
    }
    c
}

/// The engine path a run uses: the first candidate that exists; with none,
/// a configured path that is the bundled copy's falls back to the bare
/// engine name, and anything else is returned unchanged.
pub open spec fn spec_resolve_core_path(
    configured: Seq<char>,
    cands: Seq<Seq<char>>,
    existing: Seq<Seq<char>>,
) -> Seq<char> {
    match first_existing(cands, existing, 0) {
        Some(p) => p,
        None => if lower_seq(configured) == lower_seq("tools/sing-box/sing-box.exe"@) {
            "sing-box.exe"@
        } else {
            configured
        },
    }
}

/// Resolves the engine path from the configured value, the candidate paths
/// built for it, and the subset of them that exists on disk, as
/// `spec_resolve_core_path` states.
pub fn resolve_proxy_core_path(configured: &str, candidates: &Vec<String>, existing: &Vec<String>)
    -> (r: String)
    ensures
        r@ == spec_resolve_core_path(configured@, candidates.deep_view(), existing.deep_view()),
{
    match first_existing_exec(candidates, existing) {
        Some(p) => p,
        None => {
            if str_eq_ignore_ascii_case(configured, "tools/sing-box/sing-box.exe") {
                String::from_str("sing-box.exe")
            } else {
                String::from_str(configured)
            }
        },
    }
}

/// A path separator, as the target platform reads them.
pub open spec fn is_sep(c: char) -> bool {
    c == '/' || c == '\\'
}

/// The name contains a path separator: more than one path component.
pub open spec fn has_separator(s: Seq<char>) -> bool {
    exists|i: int| 0 <= i < s.len() && is_sep(#[trigger] s[i])
}

/// The name carries an extension: a dot after its first character.
pub open spec fn has_dot_extension(s: Seq<char>) -> bool {
    exists|i: int| 0 < i < s.len() && #[trigger] s[i] == '.'
}

/// A program name that names a path or already carries an extension is used
/// as given, with no search.
pub open spec fn skip_resolution(s: Seq<char>) -> bool {
    has_separator(s) || has_dot_extension(s)
}

fn skip_resolution_exec(program: &str) -> (b: bool)
    ensures
        b == skip_resolution(program@),
{
    let chars = str_to_chars(program);
    let mut i: usize = 0;
    while i < chars.len()
        invariant
            chars@ == program@,
            i <= program@.len(),
            forall|q: int| 0 <= q < i ==> !is_sep(#[trigger] program@[q]),
            forall|q: int| 0 < q < i ==> #[trigger] program@[q] != '.',
        decreases program@.len() - i,
    {
        let c = chars[i];
        if c == '/' || c == '\\' {
            return true;
        }
        if c == '.' && i > 0 {
            return true;
        }
        i = i + 1;
    }
    false
}

/// Whitespace, for the purpose of dropping blank extension list entries.
pub open spec fn is_space(c: char) -> bool {
    c == ' ' || c == '\t' || c == '\n' || c == '\r'
}

/// Nothing but whitespace.
pub open spec fn all_space(s: Seq<char>) -> bool {
    forall|i: int| 0 <= i < s.len() ==> is_space(#[trigger] s[i])
}

fn is_blank(s: &str) -> (b: bool)
    ensures
        b == all_space(s@),
{
    let chars = str_to_chars(s);
    let mut i: usize = 0;
    while i < chars.len()
        invariant
            chars@ == s@,
            i <= s@.len(),
            forall|q: int| 0 <= q < i ==> is_space(#[trigger] s@[q]),
        decreases s@.len() - i,
    {
        let c = chars[i];
        if !(c == ' ' || c == '\t' || c == '\n' || c == '\r') {
            return false;
        }
        i = i + 1;
    }
    true
}

/// The position of the first `;` at or after `i`, or the length when there
/// is none.
pub open spec fn first_semi(s: Seq<char>, i: int) -> int
    decreases s.len() - i,
{
    if i < 0 || i >= s.len() {
        s.len() as int
    } else if s[i] == ';' {
        i
    } else {
        first_semi(s, i + 1)
    }
}

/// The `;`-separated pieces of `s`, separators dropped: one piece more than
/// there are separators, empty pieces kept.
pub open spec fn split_semi(s: Seq<char>) -> Seq<Seq<char>>
    decreases s.len(),
{
    let j = first_semi(s, 0);
    if j < 0 || j >= s.len() {
        seq![s]
    } else {
        seq![s.subrange(0, j)] + split_semi(s.subrange(j + 1, s.len() as int))
    }
}

proof fn lemma_first_semi_bounds(s: Seq<char>, i: int)
    requires
        0 <= i <= s.len(),
    ensures
        i <= first_semi(s, i) <= s.len(),
        first_semi(s, i) < s.len() ==> s[first_semi(s, i)] == ';',
        forall|q: int| i <= q < first_semi(s, i) ==> #[trigger] s[q] != ';',
    decreases s.len() - i,
{
    if i < s.len() && s[i] != ';' {
        lemma_first_semi_bounds(s, i + 1);
    }
}

proof fn lemma_first_semi_at(s: Seq<char>, i: int, j: int)
    requires
        0 <= i <= j <= s.len(),
        forall|q: int| i <= q < j ==> #[trigger] s[q] != ';',
        j < s.len() ==> s[j] == ';',
    ensures
        first_semi(s, i) == j,
    decreases j - i,
{
    if i < j {
        lemma_first_semi_at(s, i + 1, j);
    }
}

fn chars_range_to_string(chars: &Vec<char>, a: usize, b: usize) -> (r: String)
    requires
        a <= b <= chars@.len(),
    ensures
        r@ == chars@.subrange(a as int, b as int),
{
    let mut piece: Vec<char> = Vec::new();
    let mut i: usize = a;
    while i < b
        invariant
            a <= i <= b <= chars@.len(),
            piece@ == chars@.subrange(a as int, i as int),
        decreases b - i,
    {
        piece.push(chars[i]);
        proof {
            assert(piece@ =~= chars@.subrange(a as int, i + 1));
        }
        i = i + 1;
    }
    chars_to_string(&piece)
}

fn split_semi_push(chars: &Vec<char>, start: usize, out: &mut Vec<String>)
    requires
        start <= chars@.len(),
    ensures
        final(out).deep_view() == old(out).deep_view() + split_semi(
            chars@.subrange(start as int, chars@.len() as int),
        ),
    decreases chars@.len() - start,
{
    let ghost sub = chars@.subrange(start as int, chars@.len() as int);
    let mut j: usize = start;
    while j < chars.len() && chars[j] != ';'
        invariant
            start <= j <= chars@.len(),
            forall|q: int| start <= q < j ==> #[trigger] chars@[q] != ';',
        decreases chars@.len() - j,
    {
        j = j + 1;
    }
    proof {
        assert forall|q: int| 0 <= q < j - start implies #[trigger] sub[q] != ';' by {
            assert(sub[q] == chars@[start + q]);
        }
        if j < chars@.len() {
            assert(sub[j - start] == chars@[j as int]);
        }
        lemma_first_semi_at(sub, 0, j - start);
    }
    let piece = chars_range_to_string(chars, start, j);
    proof {
        assert(piece@ =~= sub.subrange(0, j - start));
    }
    let ghost before = out.deep_view();
    out.push(piece);
    proof {
        assert(out.deep_view() =~= before.push(sub.subrange(0, j - start)));
    }
    if j < chars.len() {
        split_semi_push(chars, j + 1, out);
        proof {
            assert(chars@.subrange(j + 1, chars@.len() as int) =~= sub.subrange(
                j + 1 - start,
                sub.len() as int,
            ));
            assert(sub.subrange(0, j - start) =~= sub.subrange(0, first_semi(sub, 0)));
            assert(out.deep_view() =~= before + split_semi(sub));
        }
    } else {
        proof {
            assert(sub.subrange(0, j - start) =~= sub);
            assert(split_semi(sub) =~= seq![sub]);
            assert(out.deep_view() =~= before + split_semi(sub));
        }
    }
}

/// The pieces of `s` between `;` separators, as `split_semi` states.
pub fn split_semicolons(s: &str) -> (r: Vec<String>)
    ensures
        r.deep_view() == split_semi(s@),
{
    let chars = str_to_chars(s);
    let mut out: Vec<String> = Vec::new();
    split_semi_push(&chars, 0, &mut out);
    proof {
        assert(chars@.subrange(0, chars@.len() as int) =~= s@);
        assert(out.deep_view() =~= split_semi(s@));
    }
    out
}

/// The first `k` pieces with the blank ones dropped.
pub open spec fn drop_blank(pieces: Seq<Seq<char>>, k: int) -> Seq<Seq<char>>
    decreases k,
{
    if k <= 0 || k > pieces.len() {
        Seq::empty()
    } else {
        let d = drop_blank(pieces, k - 1);
        if all_space(pieces[k - 1]) {
            d
        } else {
            d.push(pieces[k - 1])
        }
    }
}

/// Drops blank pieces, as `drop_blank` states over the whole list.
pub fn filter_nonblank(pieces: &Vec<String>) -> (r: Vec<String>)
    ensures
        r.deep_view() == drop_blank(pieces.deep_view(), pieces@.len() as int),
{
    let mut r: Vec<String> = Vec::new();
    proof {
        assert(r.deep_view() =~= drop_blank(pieces.deep_view(), 0));
    }
    let mut i: usize = 0;
    while i < pieces.len()
        invariant
            i <= pieces@.len(),
            r.deep_view() == drop_blank(pieces.deep_view(), i as int),
        decreases pieces@.len() - i,
    {
        if !is_blank(pieces[i].as_str()) {
            let ghost before = r.deep_view();
            r.push(pieces[i].clone());
            proof {
                assert(r.deep_view() =~= before.push(pieces.deep_view()[i as int]));
            }
        }
        i = i + 1;
    }
    r
}

/// The extension list PATHEXT dictates: its `;`-separated pieces with blank
/// ones dropped, or the standard four when PATHEXT is not set at all.
pub open spec fn spec_pathext_extensions(pathext: Option<Seq<char>>) -> Seq<Seq<char>> {
    match pathext {
        Some(s) => drop_blank(split_semi(s), split_semi(s).len() as int),
        None => seq![".COM"@, ".EXE"@, ".BAT"@, ".CMD"@],
    }
}

/// Reads the extension list out of the PATHEXT value, as
/// `spec_pathext_extensions` states.
pub fn pathext_extensions(pathext: &Option<String>) -> (exts: Vec<String>)
    ensures
        exts.deep_view() == spec_pathext_extensions(
            match pathext {
                Some(s) => Some(s@),
                None => None,
            },
        ),
{
    match pathext {
        Some(s) => {
            let pieces = split_semicolons(s.as_str());
            filter_nonblank(&pieces)
        },
        None => {
            let r: Vec<String> = vec![
                String::from_str(".COM"),
                String::from_str(".EXE"),
                String::from_str(".BAT"),
                String::from_str(".CMD"),
            ];
            proof {
                assert(r.deep_view() =~= seq![".COM"@, ".EXE"@, ".BAT"@, ".CMD"@]);
            }
            r
        },
    }
}

/// The extension with its leading dot, supplied when missing.
pub open spec fn norm_ext(e: Seq<char>) -> Seq<char> {
    if e.len() > 0 && e[0] == '.' {
        e
    } else {
        seq!['.'] + e
    }
}

/// One searched path: the directory, a backslash, the program name and the
/// normalized extension.
pub open spec fn win_candidate(dir: Seq<char>, program: Seq<char>, e: Seq<char>) -> Seq<char> {
    dir + seq!['\\'] + program + norm_ext(e)
}

/// The candidates within one directory: the first `k` extensions in order.
pub open spec fn dir_cands(
    dir: Seq<char>,
    program: Seq<char>,
    exts: Seq<Seq<char>>,
    k: int,
) -> Seq<Seq<char>>
    decreases k,
{
    if k <= 0 || k > exts.len() {
        Seq::empty()
    } else {
        dir_cands(dir, program, exts, k - 1).push(win_candidate(dir, program, exts[k - 1]))
    }
}

/// The candidates over the first `k` directories, directory-major.
pub open spec fn all_cands(
    program: Seq<char>,
    exts: Seq<Seq<char>>,
    dirs: Seq<Seq<char>>,
    k: int,
) -> Seq<Seq<char>>
    decreases k,
{
    if k <= 0 || k > dirs.len() {
        Seq::empty()
    } else {
        all_cands(program, exts, dirs, k - 1) + dir_cands(
            dirs[k - 1],
            program,
            exts,
            exts.len() as int,
        )
    }
}

/// The paths searched for a bare program name on the target platform: every
/// extension under every search directory, in order; a name that is a path
/// or already carries an extension searches nothing.
pub open spec fn spec_windows_candidates(
    program: Seq<char>,
    pathext: Option<Seq<char>>,
    dirs: Seq<Seq<char>>,
) -> Seq<Seq<char>> {
    if skip_resolution(program) {
        Seq::empty()
    } else {
        all_cands(program, spec_pathext_extensions(pathext), dirs, dirs.len() as int)
    }
}

fn make_win_candidate(dir: &str, program: &str, e: &str) -> (r: String)
    ensures
        r@ == win_candidate(dir@, program@, e@),
{
    let mut r = String::from_str(dir);
    crate::text::push_char(&mut r, '\\');
    r.append(program);
    let e_chars = str_to_chars(e);
    if e_chars.len() > 0 && e_chars[0] == '.' {
        r.append(e);
    } else {
        crate::text::push_char(&mut r, '.');
        r.append(e);
    }
    r
}

/// Builds the searched paths for a program name, as
/// `spec_windows_candidates` states. The caller supplies the PATHEXT value
/// and the search directories where it knows them.
pub fn windows_program_candidates(program: &str, pathext: &Option<String>, path_dirs: &Vec<String>)
    -> (c: Vec<String>)
    ensures
        c.deep_view() == spec_windows_candidates(
            program@,
            match pathext {
                Some(s) => Some(s@),
                None => None,
            },
            path_dirs.deep_view(),
        ),
{
    if skip_resolution_exec(program) {
        let c: Vec<String> = Vec::new();
        proof {
            assert(c.deep_view() =~= Seq::<Seq<char>>::empty());
        }
        return c;
    }
    let exts = pathext_extensions(pathext);
    let mut c: Vec<String> = Vec::new();
    proof {
        assert(c.deep_view() =~= all_cands(program@, exts.deep_view(), path_dirs.deep_view(), 0));
    }
    let mut d: usize = 0;
    while d < path_dirs.len()
        invariant
            d <= path_dirs@.len(),
            exts.deep_view() == spec_pathext_extensions(
                match pathext {
                    Some(s) => Some(s@),
                    None => None,
                },
            ),
            c.deep_view() == all_cands(
                program@,
                exts.deep_view(),
                path_dirs.deep_view(),
                d as int,
            ),
        decreases path_dirs@.len() - d,
    {
        let mut e: usize = 0;
        while e < exts.len()
            invariant
                d < path_dirs@.len(),
                e <= exts@.len(),
                c.deep_view() == all_cands(
                    program@,
                    exts.deep_view(),
                    path_dirs.deep_view(),
                    d as int,
                ) + dir_cands(
                    path_dirs.deep_view()[d as int],
                    program@,
                    exts.deep_view(),
                    e as int,
                ),
            decreases exts@.len() - e,
        {
            let ghost before = c.deep_view();
            c.push(make_win_candidate(path_dirs[d].as_str(), program, exts[e].as_str()));
            proof {
                assert(c.deep_view() =~= before.push(
                    win_candidate(path_dirs.deep_view()[d as int], program@, exts.deep_view()[e as int]),
                ));
            }
            e = e + 1;
        }
        proof {
            assert(c.deep_view() =~= all_cands(
                program@,
                exts.deep_view(),
                path_dirs.deep_view(),
                d + 1,
            ));
        }
        d = d + 1;
    }
    c
}

/// The program the wrapped command resolves to on the target platform: the
/// first searched path that exists, or the name unchanged — also when the
/// name is a path or carries an extension, which searches nothing.
pub open spec fn spec_resolve_program(
    program: Seq<char>,
    cands: Seq<Seq<char>>,
    existing: Seq<Seq<char>>,
) -> Seq<char> {
    match first_existing(cands, existing, 0) {
        Some(p) => p,
        None => program,
    }
}

/// Resolves a program name against the searched paths built for it and the
/// subset of them that exists, as `spec_resolve_program` states.
pub fn resolve_program_for_windows(program: &str, candidates: &Vec<String>, existing: &Vec<String>)
    -> (r: String)
    ensures
        r@ == spec_resolve_program(program@, candidates.deep_view(), existing.deep_view()),
{
    match first_existing_exec(candidates, existing) {
        Some(p) => p,
        None => String::from_str(program),
    }
}

} // verus!
