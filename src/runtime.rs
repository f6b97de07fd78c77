//! Choices around the Python runtime: which standalone build fits the
//! platform, and which archive entries and workspace files may be written.
use vstd::prelude::*;
use crate::layout::{
    Os, Arch, joined, is_separator, starts_with, ends_with, has_prefix, has_suffix, path_join,
    workspace_dir,
};

verus! {

#[derive(Clone, Copy, Debug, PartialEq, Eq, Structural)]
pub struct UnsupportedPlatform {
    pub os: Os,
}

pub open spec fn triple_of(os: Os, arch: Arch) -> Option<Seq<char>> {
    match (os, arch) {
        (Os::Windows, Arch::X86_64) => Some("x86_64-pc-windows-msvc"@),
        (Os::Windows, Arch::Aarch64) => Some("aarch64-pc-windows-msvc"@),
        (Os::MacOs, Arch::Aarch64) => Some("aarch64-apple-darwin"@),
        (Os::MacOs, Arch::X86_64) => Some("x86_64-apple-darwin"@),
        (Os::Linux, Arch::X86_64) => Some("x86_64-unknown-linux-gnu"@),
        (Os::Linux, Arch::Aarch64) => Some("aarch64-unknown-linux-gnu"@),
        _ => None,
    }
}

/// The target triple of the standalone Python builds for a platform.
pub fn target_triple_hint(os: Os, arch: Arch) -> (r: Result<&'static str, UnsupportedPlatform>)
    ensures
        match triple_of(os, arch) {
            Some(t) => r matches Ok(s) && s@ == t,
            None => r == Err::<&'static str, UnsupportedPlatform>(UnsupportedPlatform { os }),
        },
{
    match (os, arch) {
        (Os::Windows, Arch::X86_64) => Ok("x86_64-pc-windows-msvc"),
        (Os::Windows, Arch::Aarch64) => Ok("aarch64-pc-windows-msvc"),
        (Os::MacOs, Arch::Aarch64) => Ok("aarch64-apple-darwin"),
        (Os::MacOs, Arch::X86_64) => Ok("x86_64-apple-darwin"),
        (Os::Linux, Arch::X86_64) => Ok("x86_64-unknown-linux-gnu"),
        (Os::Linux, Arch::Aarch64) => Ok("aarch64-unknown-linux-gnu"),
        _ => Err(UnsupportedPlatform { os }),
    }
}

// ---------------------------------------------------------------------------
// Picking a build
/// A downloadable file of a release.
pub struct GhAsset {
    pub name: String,
    pub browser_download_url: String,
}

pub open spec fn contains(s: Seq<char>, p: Seq<char>) -> bool {
    exists|i: int| 0 <= i && i + p.len() <= s.len() && #[trigger] s.subrange(i, i + p.len()) == p
}

/// Whether `s` contains `p`.
pub fn has_infix(s: &str, p: &str) -> (r: bool)
    ensures
        r == contains(s@, p@),
{
    let n = s.unicode_len();
    let m = p.unicode_len();
    if m > n {
        return false;
    }
    if m == 0 {
        assert(s@.subrange(0, 0 + p@.len() as int) =~= p@);
        return true;
    }
    let mut i: usize = 0;
    while i <= n - m
        invariant
            n == s@.len(),
            m == p@.len(),
            0 < m <= n,
            forall|q: int| 0 <= q < i ==> #[trigger] s@.subrange(q, q + m) != p@,
        decreases n - m + 1 - i,
    {
        let rest = s.substring_char(i, n);
        if has_prefix(rest, p) {
            assert(rest@.subrange(0, m as int) =~= s@.subrange(i as int, i + m));
            return true;
        }
        assert(rest@.subrange(0, m as int) =~= s@.subrange(i as int, i + m));
        i = i + 1;
    }
    false
}

/// An asset of the wanted series and triple, in an install-only archive.
pub open spec fn is_candidate(name: Seq<char>, prefix: Seq<char>, triple: Seq<char>) -> bool {
    starts_with(name, prefix) && contains(name, triple) && contains(name, "install_only"@) && (
    ends_with(name, ".zip"@) || ends_with(name, ".tar.gz"@))
}

/// The preferred archive kind of the platform ranks first.
pub open spec fn ext_rank(name: Seq<char>, os: Os) -> int {
    if os == Os::Windows {
        if ends_with(name, ".zip"@) {
            0
        } else {
            1
        }
    } else {
        if ends_with(name, ".tar.gz"@) {
            0
        } else {
            1
        }
    }
}

pub open spec fn strip_rank(name: Seq<char>) -> int {
    if contains(name, "install_only_stripped"@) {
        0
    } else {
        1
    }
}

/// Strict lexicographic order of names, by code point.
pub open spec fn name_lt(a: Seq<char>, b: Seq<char>) -> bool
    decreases a.len(),
{
    if a.len() == 0 {
        b.len() > 0
    } else if b.len() == 0 {
        false
    } else if a[0] != b[0] {
        (a[0] as int) < (b[0] as int)
    } else {
        name_lt(a.drop_first(), b.drop_first())
    }
}

/// Stripped builds first, then the platform's archive kind, then by name.
pub open spec fn ranks_before(a: Seq<char>, b: Seq<char>, os: Os) -> bool {
    strip_rank(a) < strip_rank(b) || (strip_rank(a) == strip_rank(b) && (ext_rank(a, os) < ext_rank(
        b,
        os,
    ) || (ext_rank(a, os) == ext_rank(b, os) && name_lt(a, b))))
}

fn name_less(a: &str, b: &str) -> (r: bool)
    ensures
        r == name_lt(a@, b@),
{
    let n = a.unicode_len();
    let m = b.unicode_len();
    let mut i: usize = 0;
    assert(a@.subrange(0, n as int) =~= a@);
    assert(b@.subrange(0, m as int) =~= b@);
    while i < n && i < m && a.get_char(i) == b.get_char(i)
        invariant
            n == a@.len(),
            m == b@.len(),
            i <= n,
            i <= m,
            name_lt(a@, b@) == name_lt(a@.subrange(i as int, n as int), b@.subrange(i as int, m as int)),
        decreases n - i,
    {
        proof {
            let x = a@.subrange(i as int, n as int);
            let y = b@.subrange(i as int, m as int);
            assert(x.drop_first() =~= a@.subrange(i + 1, n as int));
            assert(y.drop_first() =~= b@.subrange(i + 1, m as int));
            assert(x[0] == a@[i as int]);
            assert(y[0] == b@[i as int]);
        }
        i = i + 1;
    }
    proof {
        let x = a@.subrange(i as int, n as int);
        let y = b@.subrange(i as int, m as int);
        if i < n {
            assert(x[0] == a@[i as int]);
        }
        if i < m {
            assert(y[0] == b@[i as int]);
        }
    }
    if i == n {
        i < m
    } else if i == m {
        false
    } else {
        let x = a.get_char(i) as u32;
        let y = b.get_char(i) as u32;
        assert(x as int == a@[i as int] as int);
        x < y
    }
}

fn ext_rank_of(name: &str, os: Os) -> (r: u8)
    ensures
        r as int == ext_rank(name@, os),
{
    if os == Os::Windows {
        if has_suffix(name, ".zip") {
            0
        } else {
            1
        }
    } else {
        if has_suffix(name, ".tar.gz") {
            0
        } else {
            1
        }
    }
}

fn ranks_before_exec(a: &str, b: &str, os: Os) -> (r: bool)
    ensures
        r == ranks_before(a@, b@, os),
{
    let sa: u8 = if has_infix(a, "install_only_stripped") {
        0
    } else {
        1
    };
    let sb: u8 = if has_infix(b, "install_only_stripped") {
        0
    } else {
        1
    };
    let ea = ext_rank_of(a, os);
    let eb = ext_rank_of(b, os);
    sa < sb || (sa == sb && (ea < eb || (ea == eb && name_less(a, b))))
}

fn candidate_exec(name: &str, prefix: &str, triple: &str) -> (r: bool)
    ensures
        r == is_candidate(name@, prefix@, triple@),
{
    has_prefix(name, prefix) && has_infix(name, triple) && has_infix(name, "install_only") && (
    has_suffix(name, ".zip") || has_suffix(name, ".tar.gz"))
}

pub open spec fn series_prefix(series: Seq<char>) -> Seq<char> {
    "cpython-"@ + series + "."@
}

/// The build to install: among the assets of the series and triple in an
/// install-only `.zip` or `.tar.gz`, the first that ranks lowest (stripped,
/// then the platform's archive kind, then by name); none if there is none.
pub open spec fn is_pick(assets: Seq<GhAsset>, series: Seq<char>, triple: Seq<char>, os: Os, i: int) -> bool {
    let p = series_prefix(series);
    0 <= i < assets.len() && is_candidate(assets[i].name@, p, triple) && (forall|j: int|
        0 <= j < assets.len() && is_candidate(#[trigger] assets[j].name@, p, triple) ==> !ranks_before(
            assets[j].name@,
            assets[i].name@,
            os,
        )) && (forall|j: int|
        0 <= j < i && is_candidate(#[trigger] assets[j].name@, p, triple) ==> ranks_before(
            assets[i].name@,
            assets[j].name@,
            os,
        ))
}

pub open spec fn no_candidate(assets: Seq<GhAsset>, series: Seq<char>, triple: Seq<char>) -> bool {
    forall|j: int|
        0 <= j < assets.len() ==> !is_candidate(#[trigger] assets[j].name@, series_prefix(series), triple)
}

proof fn lemma_name_lt_total(a: Seq<char>, b: Seq<char>)
    requires
        a != b,
    ensures
        name_lt(a, b) || name_lt(b, a),
    decreases a.len(),
{
    if a.len() > 0 && b.len() > 0 {
        if a[0] != b[0] {
            assert((a[0] as int) != (b[0] as int));
        } else {
            assert(a.drop_first() != b.drop_first()) by {
                if a.drop_first() == b.drop_first() {
                    assert(a =~= seq![a[0]] + a.drop_first());
                    assert(b =~= seq![b[0]] + b.drop_first());
                }
            }
            lemma_name_lt_total(a.drop_first(), b.drop_first());
        }
    } else if a.len() == 0 && b.len() == 0 {
        assert(a =~= b);
    }
}

proof fn lemma_name_lt_order(a: Seq<char>, b: Seq<char>, c: Seq<char>)
    ensures
        !name_lt(a, a),
        name_lt(a, b) ==> !name_lt(b, a),
        name_lt(a, b) && name_lt(b, c) ==> name_lt(a, c),
        a != b ==> name_lt(a, b) || name_lt(b, a),
    decreases a.len(),
{
    if a.len() > 0 && b.len() > 0 && c.len() > 0 {
        lemma_name_lt_order(a.drop_first(), b.drop_first(), c.drop_first());
    }
    if a.len() > 0 && b.len() > 0 {
        if a[0] != b[0] {
            assert((a[0] as int) != (b[0] as int));
        }
        lemma_name_lt_order(a.drop_first(), b.drop_first(), b.drop_first());
        if a != b && a[0] == b[0] {
            assert(a.drop_first() != b.drop_first()) by {
                if a.drop_first() == b.drop_first() {
                    assert(a =~= seq![a[0]] + a.drop_first());
                    assert(b =~= seq![b[0]] + b.drop_first());
                }
            }
        }
    }
    if a.len() > 0 {
        lemma_name_lt_order(a.drop_first(), a.drop_first(), a.drop_first());
    }
    if a != b {
        lemma_name_lt_total(a, b);
    }
}

proof fn lemma_ranks_order(a: Seq<char>, b: Seq<char>, c: Seq<char>, os: Os)
    ensures
        !ranks_before(a, a, os),
        ranks_before(a, b, os) && ranks_before(b, c, os) ==> ranks_before(a, c, os),
        !ranks_before(a, b, os) && a != b ==> ranks_before(b, a, os),
{
    lemma_name_lt_order(a, b, c);
    lemma_name_lt_order(b, a, a);
}

/// The position of the build to install (see `is_pick`).
pub fn pick_asset_index(assets: &Vec<GhAsset>, python_series: &str, triple: &str, os: Os) -> (r: Option<usize>)
    ensures
        match r {
            Some(i) => is_pick(assets@, python_series@, triple@, os, i as int),
            None => no_candidate(assets@, python_series@, triple@),
        },
{
    let prefix = String::from_str("cpython-").concat(python_series).concat(".");
    assert(prefix@ == series_prefix(python_series@));
    let ghost p = prefix@;
    let mut best: Option<usize> = None;
    let mut j: usize = 0;
    while j < assets.len()
        invariant
            j <= assets@.len(),
            p == series_prefix(python_series@),
            prefix@ == p,
            match best {
                None => forall|k: int| 0 <= k < j ==> !is_candidate(#[trigger] assets@[k].name@, p, triple@),
                Some(b) => b < j && is_candidate(assets@[b as int].name@, p, triple@) && (forall|k: int|
                    0 <= k < j && is_candidate(#[trigger] assets@[k].name@, p, triple@) ==> !ranks_before(
                        assets@[k].name@,
                        assets@[b as int].name@,
                        os,
                    )) && (forall|k: int|
                    0 <= k < b && is_candidate(#[trigger] assets@[k].name@, p, triple@) ==> ranks_before(
                        assets@[b as int].name@,
                        assets@[k].name@,
                        os,
                    )),
            },
        decreases assets@.len() - j,
    {
        let name = assets[j].name.as_str();
        if candidate_exec(name, prefix.as_str(), triple) {
            match best {
                None => {
                    proof {
                        lemma_ranks_order(assets@[j as int].name@, assets@[j as int].name@, assets@[j as int].name@, os);
                    }
                    best = Some(j);
                },
                Some(b) => {
                    if ranks_before_exec(name, assets[b].name.as_str(), os) {
                        proof {
                            let nj = assets@[j as int].name@;
                            let nb = assets@[b as int].name@;
                            lemma_ranks_order(nj, nj, nj, os);
                            assert forall|k: int|
                                0 <= k < j + 1 && is_candidate(#[trigger] assets@[k].name@, p, triple@)
                                    implies !ranks_before(assets@[k].name@, nj, os) by {
                                lemma_ranks_order(assets@[k].name@, nj, nb, os);
                            }
                            assert forall|k: int|
                                0 <= k < j && is_candidate(#[trigger] assets@[k].name@, p, triple@)
                                    implies ranks_before(nj, assets@[k].name@, os) by {
                                let nk = assets@[k].name@;
                                lemma_ranks_order(nk, nb, nk, os);
                                lemma_ranks_order(nj, nb, nk, os);
                                if nk == nb {
                                } else {
                                    assert(ranks_before(nb, nk, os));
                                }
                            }
                        }
                        best = Some(j);
                    }
                },
            }
        }
        j = j + 1;
    }
    best
}

/// The build to install (see `is_pick`), copied out of the release.
pub fn pick_python_build_asset(assets: &Vec<GhAsset>, python_series: &str, triple: &str, os: Os) -> (r: Option<GhAsset>)
    ensures
        match r {
            Some(a) => exists|i: int|
                is_pick(assets@, python_series@, triple@, os, i) && a.name@ == assets@[i].name@
                    && a.browser_download_url@ == assets@[i].browser_download_url@,
            None => no_candidate(assets@, python_series@, triple@),
        },
{
    match pick_asset_index(assets, python_series, triple, os) {
        Some(i) => {
            let a = GhAsset {
                name: assets[i].name.clone(),
                browser_download_url: assets[i].browser_download_url.clone(),
            };
            assert(is_pick(assets@, python_series@, triple@, os, i as int));
            Some(a)
        },
        None => None,
    }
}

// ---------------------------------------------------------------------------
// Paths from outside
/// A path separator on the platform: `/`, and on Windows also `\`.
pub open spec fn is_separator_on(c: char, os: Os) -> bool {
    c == '/' || (os == Os::Windows && c == '\\')
}

/// An absolute path as the platform reads one. Elsewhere than on Windows,
/// one rooted at `/`. On Windows, one rooted at a separator or carrying a
/// drive letter (drive-relative paths such as `C:x` included, since they
/// leave the base too).
pub open spec fn looks_absolute(p: Seq<char>, os: Os) -> bool {
    if os == Os::Windows {
        (p.len() > 0 && is_separator(p[0])) || (p.len() > 1 && p[1] == ':')
    } else {
        p.len() > 0 && p[0] == '/'
    }
}

/// `..` somewhere in the text.
pub open spec fn has_dot_dot(p: Seq<char>) -> bool {
    exists|i: int| 0 <= i && i + 1 < p.len() && #[trigger] p[i] == '.' && p[i + 1] == '.'
}

/// A `..` component: `..` between the platform's separators or the ends.
pub open spec fn has_parent_component(p: Seq<char>, os: Os) -> bool {
    exists|i: int|
        0 <= i && i + 1 < p.len() && #[trigger] p[i] == '.' && p[i + 1] == '.' && (i == 0
            || is_separator_on(p[i - 1], os)) && (i + 2 == p.len() || is_separator_on(p[i + 2], os))
}

fn is_separator_exec(c: char, os: Os) -> (r: bool)
    ensures
        r == is_separator_on(c, os),
{
    c == '/' || (os == Os::Windows && c == '\\')
}

fn looks_absolute_exec(p: &str, os: Os) -> (r: bool)
    ensures
        r == looks_absolute(p@, os),
{
    let n = p.unicode_len();
    if os == Os::Windows {
        if n > 0 {
            let c = p.get_char(0);
            if c == '/' || c == '\\' {
                return true;
            }
        }
        n > 1 && p.get_char(1) == ':'
    } else {
        n > 0 && p.get_char(0) == '/'
    }
}

/// Finds `..` in `p`; with `whole`, only as a whole component.
fn find_dot_dot(p: &str, whole: bool, os: Os) -> (r: bool)
    ensures
        whole ==> r == has_parent_component(p@, os),
        !whole ==> r == has_dot_dot(p@),
{
    let n = p.unicode_len();
    if n < 2 {
        return false;
    }
    let mut i: usize = 0;
    while i + 1 < n
        invariant
            n == p@.len(),
            n >= 2,
            i + 1 <= n,
            whole ==> forall|q: int|
                0 <= q < i ==> !(#[trigger] p@[q] == '.' && p@[q + 1] == '.' && (q == 0
                    || is_separator_on(p@[q - 1], os)) && (q + 2 == n || is_separator_on(
                    p@[q + 2],
                    os,
                ))),
            !whole ==> forall|q: int| 0 <= q < i ==> !(#[trigger] p@[q] == '.' && p@[q + 1] == '.'),
        decreases n - i,
    {
        if p.get_char(i) == '.' && p.get_char(i + 1) == '.' {
            if !whole {
                return true;
            }
            let before_ok = i == 0 || is_separator_exec(p.get_char(i - 1), os);
            let after_ok = i + 2 == n || is_separator_exec(p.get_char(i + 2), os);
            if before_ok && after_ok {
                return true;
            }
        }
        i = i + 1;
    }
    false
}

/// Where an archive entry is extracted below `base` on the platform `os`:
/// nowhere for an entry path that is absolute there or that holds `..`.
pub fn safe_extract_path(base: &str, entry_path: &str, os: Os) -> (r: Option<String>)
    ensures
        if looks_absolute(entry_path@, os) || has_dot_dot(entry_path@) {
            r is None
        } else {
            r matches Some(p) && p@ == joined(base@, entry_path@)
        },
{
    if looks_absolute_exec(entry_path, os) || find_dot_dot(entry_path, false, os) {
        None
    } else {
        Some(path_join(base, entry_path))
    }
}

#[derive(Clone, Copy, Debug, PartialEq, Eq, Structural)]
pub enum WorkspacePathError {
    /// The relative path was absolute.
    Absolute,
    /// The relative path climbs out with `..`.
    ParentDir,
}

/// A file inside a workspace's directory under the data root, from a path
/// relative to that directory, as the platform `os` reads paths.
pub fn workspace_file_path(root: &str, workspace_id: &str, relative: &str, os: Os) -> (r: Result<
    String,
    WorkspacePathError,
>)
    ensures
        looks_absolute(relative@, os) ==> r == Err::<String, WorkspacePathError>(
            WorkspacePathError::Absolute,
        ),
        !looks_absolute(relative@, os) && has_parent_component(relative@, os) ==> r == Err::<
            String,
            WorkspacePathError,
        >(WorkspacePathError::ParentDir),
        !looks_absolute(relative@, os) && !has_parent_component(relative@, os) ==> (r matches Ok(p)
            && p@ == joined(joined(joined(root@, "workspaces"@), workspace_id@), relative@)),
{
    if looks_absolute_exec(relative, os) {
        return Err(WorkspacePathError::Absolute);
    }
    if find_dot_dot(relative, true, os) {
        return Err(WorkspacePathError::ParentDir);
    }
    let base = workspace_dir(root, workspace_id);
    Ok(path_join(base.as_str(), relative))
}
} // verus!
