//! Decisions for installing the forwarding engine from a release archive:
//! which release asset to take, where an archive entry is installed, and the
//! de-duplication of bundle search paths. The downloads, the archive walk
//! and the copies are the driver's; every choice is made here.

use vstd::prelude::*;
use vstd::string::StringExecFns;
use crate::text::{chars_eq, lower_chars, lower_seq, push_char, str_eq, str_to_chars};

verus! {

/// `s` ends in `suffix`.
pub open spec fn ends_with_seq(s: Seq<char>, suffix: Seq<char>) -> bool {
    &&& s.len() >= suffix.len()
    &&& s.subrange(s.len() - suffix.len(), s.len() as int) == suffix
}

/// Suffix test over characters, as `ends_with_seq` states.
pub fn chars_ends_with(s: &Vec<char>, suffix: &Vec<char>) -> (b: bool)
    ensures
        b == ends_with_seq(s@, suffix@),
{
    if suffix.len() > s.len() {
        return false;
    }
    let s_len = s.len();
    let off = s.len() - suffix.len();
    let mut m: usize = 0;
    while m < suffix.len()
        invariant
            s_len == s@.len(),
            suffix@.len() <= s@.len(),
            off == s@.len() - suffix@.len(),
            m <= suffix@.len(),
            forall|q: int| 0 <= q < m ==> s@[off + q] == suffix@[q],
        decreases suffix@.len() - m,
    {
        if s[off + m] != suffix[m] {
            proof {
                assert(s@.subrange(off as int, s@.len() as int)[m as int] == s@[off + m]);
            }
            return false;
        }
        m = m + 1;
    }
    proof {
        assert(s@.subrange(off as int, s@.len() as int) =~= suffix@);
    }
    true
}

/// One release asset as the release listing carries it: both fields may be
/// missing from the listing.
#[derive(Debug, Clone)]
pub struct ReleaseAsset {
    pub name: Option<String>,
    pub browser_download_url: Option<String>,
}

/// The first asset whose name ends in the wanted suffix and whose download
/// link is non-empty, scanning from `i`; an asset with either field missing
/// aborts the whole search empty-handed.
pub open spec fn spec_pick_asset(assets: Seq<ReleaseAsset>, i: int) -> Option<(Seq<char>, Seq<
    char,
>)>
    decreases assets.len() - i,
{
    if i < 0 || i >= assets.len() {
        None
    } else if assets[i].name is None || assets[i].browser_download_url is None {
        None
    } else if ends_with_seq(assets[i].name->0@, "windows-amd64.zip"@)
        && assets[i].browser_download_url->0@.len() > 0 {
        Some((assets[i].name->0@, assets[i].browser_download_url->0@))
    } else {
        spec_pick_asset(assets, i + 1)
    }
}

/// Picks the release asset to install, as `spec_pick_asset` states from the
/// head of the listing.
pub fn pick_windows_amd64_asset(assets: &Vec<ReleaseAsset>) -> (r: Option<(String, String)>)
    ensures
        match spec_pick_asset(assets@, 0) {
            Some(p) => r matches Some(q) && q.0@ == p.0 && q.1@ == p.1,
            None => r is None,
        },
{
    let suffix = str_to_chars("windows-amd64.zip");
    let mut i: usize = 0;
    while i < assets.len()
        invariant
            suffix@ == "windows-amd64.zip"@,
            i <= assets@.len(),
            spec_pick_asset(assets@, 0) == spec_pick_asset(assets@, i as int),
        decreases assets@.len() - i,
    {
        let name = match &assets[i].name {
            Some(n) => n,
            None => {
                return None;
            },
        };
        let url = match &assets[i].browser_download_url {
            Some(u) => u,
            None => {
                return None;
            },
        };
        let name_chars = str_to_chars(name.as_str());
        if chars_ends_with(&name_chars, &suffix) && !url.as_str().is_empty() {
            return Some((name.clone(), url.clone()));
        }
        i = i + 1;
    }
    None
}

/// Where one archive entry is installed under the target directory: the
/// engine executable under its canonical name, dynamic libraries beside it
/// under their own, anything else nowhere. Case of the entry name does not
/// matter.
pub open spec fn spec_zip_destination(file_name: Seq<char>, target_dir: Seq<char>) -> Option<Seq<
    char,
>> {
    let lower = lower_seq(file_name);
    if lower == "sing-box.exe"@ {
        Some(target_dir + seq!['/'] + "sing-box.exe"@)
    } else if ends_with_seq(lower, ".dll"@) {
        Some(target_dir + seq!['/'] + file_name)
    } else {
        None
    }
}

/// Decides the install destination of an archive entry, as
/// `spec_zip_destination` states.
pub fn zip_entry_destination(file_name: &str, target_dir: &str) -> (r: Option<String>)
    ensures
        match spec_zip_destination(file_name@, target_dir@) {
            Some(p) => r matches Some(s) && s@ == p,
            None => r is None,
        },
{
    let chars = str_to_chars(file_name);
    let lower = lower_chars(&chars);
    if chars_eq(&lower, &str_to_chars("sing-box.exe")) {
        let mut dest = String::from_str(target_dir);
        push_char(&mut dest, '/');
        dest.append("sing-box.exe");
        return Some(dest);
    }
    if chars_ends_with(&lower, &str_to_chars(".dll")) {
        let mut dest = String::from_str(target_dir);
        push_char(&mut dest, '/');
        dest.append(file_name);
        return Some(dest);
    }
    None
}

/// The sequence with later repeats dropped: the first `k` entries, each kept
/// only at its first occurrence.
pub open spec fn spec_dedup(paths: Seq<Seq<char>>, k: int) -> Seq<Seq<char>>
    decreases k,
{
    if k <= 0 || k > paths.len() {
        Seq::empty()
    } else {
        let d = spec_dedup(paths, k - 1);
        if d.contains(paths[k - 1]) {
            d
        } else {
            d.push(paths[k - 1])
        }
    }
}

/// Drops repeated paths, keeping first occurrences in order, as `spec_dedup`
/// states.
pub fn dedup_paths(paths: &Vec<String>) -> (r: Vec<String>)
    ensures
        r.deep_view() == spec_dedup(paths.deep_view(), paths@.len() as int),
{
    let mut r: Vec<String> = Vec::new();
    let mut i: usize = 0;
    proof {
        assert(r.deep_view() =~= spec_dedup(paths.deep_view(), 0));
    }
    while i < paths.len()
        invariant
            i <= paths@.len(),
            r.deep_view() == spec_dedup(paths.deep_view(), i as int),
        decreases paths@.len() - i,
    {
        let mut seen = false;
        let mut m: usize = 0;
        while m < r.len()
            invariant
                m <= r@.len(),
                i < paths@.len(),
                seen == exists|q: int|
                    0 <= q < m && #[trigger] r.deep_view()[q] == paths.deep_view()[i as int],
            decreases r@.len() - m,
        {
            if str_eq(r[m].as_str(), paths[i].as_str()) {
                seen = true;
                proof {
                    assert(r.deep_view()[m as int] == paths.deep_view()[i as int]);
                }
            }
            m = m + 1;
        }
        proof {
            if seen {
                let q = choose|q: int|
                    0 <= q < r@.len() && #[trigger] r.deep_view()[q] == paths.deep_view()[i as int];
                assert(r.deep_view().contains(paths.deep_view()[i as int]));
            } else {
                assert(forall|q: int|
                    0 <= q < r@.len() ==> #[trigger] r.deep_view()[q] != paths.deep_view()[i as int]);
                assert(!r.deep_view().contains(paths.deep_view()[i as int]));
            }
        }
        if !seen {
            let ghost before = r.deep_view();
            r.push(paths[i].clone());
            proof {
                assert(r.deep_view() =~= before.push(paths.deep_view()[i as int]));
            }
        }
        i = i + 1;
    }
    r
}

} // verus!
