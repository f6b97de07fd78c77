//! Where the supervisor keeps its files: the data root under the user's home,
//! the run directory with the per-workspace registry and lock files, the
//! workspaces, and the runtime and virtual environment paths.
//!
//! Paths are strings whose components are joined with `/`.
use vstd::prelude::*;

verus! {

#[derive(Clone, Copy, Debug, PartialEq, Eq, Structural)]
pub enum Os {
    Windows,
    MacOs,
    Linux,
}

#[derive(Clone, Copy, Debug, PartialEq, Eq, Structural)]
pub enum Arch {
    X86_64,
    Aarch64,
    Other,
}

pub open spec fn is_separator(c: char) -> bool {
    c == '/' || c == '\\'
}

/// `part` appended to `base` as a path component.
pub open spec fn joined(base: Seq<char>, part: Seq<char>) -> Seq<char> {
    if base.len() == 0 {
        part
    } else if is_separator(base.last()) {
        base + part
    } else {
        base + "/"@ + part
    }
}

pub open spec fn starts_with(s: Seq<char>, p: Seq<char>) -> bool {
    p.len() <= s.len() && s.subrange(0, p.len() as int) == p
}

pub open spec fn ends_with(s: Seq<char>, x: Seq<char>) -> bool {
    x.len() <= s.len() && s.subrange(s.len() - x.len(), s.len() as int) == x
}

/// Appends `part` to `base` as a path component.
pub fn path_join(base: &str, part: &str) -> (r: String)
    ensures
        r@ == joined(base@, part@),
{
    let n = base.unicode_len();
    let mut s = String::from_str(base);
    if n == 0 {
        return String::from_str(part);
    }
    let last = base.get_char(n - 1);
    if last != '/' && last != '\\' {
        s.append("/");
    }
    s.append(part);
    s
}

pub fn has_prefix(s: &str, p: &str) -> (r: bool)
    ensures
        r == starts_with(s@, p@),
{
    let n = s.unicode_len();
    let m = p.unicode_len();
    if m > n {
        return false;
    }
    let mut i: usize = 0;
    while i < m
        invariant
            m == p@.len(),
            n == s@.len(),
            m <= n,
            i <= m,
            s@.subrange(0, i as int) == p@.subrange(0, i as int),
        decreases m - i,
    {
        if s.get_char(i) != p.get_char(i) {
            return false;
        }
        assert(s@.subrange(0, i + 1) =~= s@.subrange(0, i as int).push(s@[i as int]));
        assert(p@.subrange(0, i + 1) =~= p@.subrange(0, i as int).push(p@[i as int]));
        i = i + 1;
    }
    assert(p@.subrange(0, m as int) =~= p@);
    true
}

pub fn has_suffix(s: &str, x: &str) -> (r: bool)
    ensures
        r == ends_with(s@, x@),
{
    let n = s.unicode_len();
    let m = x.unicode_len();
    if m > n {
        return false;
    }
    let base = n - m;
    let mut i: usize = 0;
    while i < m
        invariant
            m == x@.len(),
            n == s@.len(),
            m <= n,
            base == n - m,
            i <= m,
            s@.subrange(base as int, base + i) == x@.subrange(0, i as int),
        decreases m - i,
    {
        if s.get_char(base + i) != x.get_char(i) {
            assert(s@.subrange(base as int, n as int)[i as int] == s@[base + i]);
            return false;
        }
        assert(s@.subrange(base as int, base + i + 1) =~= s@.subrange(base as int, base + i).push(
            s@[base + i],
        ));
        assert(x@.subrange(0, i + 1) =~= x@.subrange(0, i as int).push(x@[i as int]));
        i = i + 1;
    }
    assert(x@.subrange(0, m as int) =~= x@);
    true
}

// ---------------------------------------------------------------------------
// The data root and the run directory
pub open spec fn root_of(home: Option<Seq<char>>) -> Seq<char> {
    joined(
        match home {
            Some(h) => h,
            None => "."@,
        },
        ".openakita"@,
    )
}

/// Relies on dirs_next::home_dir: the user's home directory, if the
/// platform tells one. It depends on the environment, so nothing is
/// promised of it.
#[verifier::external_body]
fn home_dir_string() -> (r: Option<String>) {
    dirs_next::home_dir().map(|p| p.to_string_lossy().into_owned())
}

/// The data root below a given home directory (the current directory when
/// there is none).
pub fn root_dir_from_home(home: Option<&str>) -> (r: String)
    ensures
        r@ == root_of(
            match home {
                Some(h) => Some(h@),
                None => None,
            },
        ),
{
    match home {
        Some(h) => path_join(h, ".openakita"),
        None => path_join(".", ".openakita"),
    }
}

/// The data root below the user's home directory.
pub fn openakita_root_dir() -> (r: String)
    ensures
        exists|h: Option<Seq<char>>| r@ == root_of(h),
{
    let home = home_dir_string();
    match home {
        Some(h) => {
            let r = root_dir_from_home(Some(h.as_str()));
            assert(r@ == root_of(Some(h@)));
            r
        },
        None => {
            let r = root_dir_from_home(None);
            assert(r@ == root_of(None));
            r
        },
    }
}

pub fn run_dir(root: &str) -> (r: String)
    ensures
        r@ == joined(root@, "run"@),
{
    path_join(root, "run")
}

pub fn state_file_path(root: &str) -> (r: String)
    ensures
        r@ == joined(root@, "state.json"@),
{
    path_join(root, "state.json")
}

pub fn workspaces_dir(root: &str) -> (r: String)
    ensures
        r@ == joined(root@, "workspaces"@),
{
    path_join(root, "workspaces")
}

pub fn workspace_dir(root: &str, id: &str) -> (r: String)
    ensures
        r@ == joined(joined(root@, "workspaces"@), id@),
{
    let w = workspaces_dir(root);
    path_join(w.as_str(), id)
}

pub fn runtime_dir(root: &str) -> (r: String)
    ensures
        r@ == joined(root@, "runtime"@),
{
    path_join(root, "runtime")
}

pub fn embedded_python_root(root: &str) -> (r: String)
    ensures
        r@ == joined(joined(root@, "runtime"@), "python"@),
{
    let rt = runtime_dir(root);
    path_join(rt.as_str(), "python")
}

// ---------------------------------------------------------------------------
// Registry and lock file names
pub open spec fn pid_file_name(ws: Seq<char>) -> Seq<char> {
    "openakita-"@ + ws + ".pid"@
}

pub open spec fn lock_file_name(ws: Seq<char>) -> Seq<char> {
    "openakita-"@ + ws + ".lock"@
}

/// The workspace whose registry file has this name: the nonempty text
/// between the fixed prefix and `.pid`.
pub open spec fn pid_file_workspace(name: Seq<char>) -> Option<Seq<char>> {
    let p = "openakita-"@;
    let x = ".pid"@;
    if name.len() > p.len() + x.len() && starts_with(name, p) && ends_with(name, x) {
        Some(name.subrange(p.len() as int, name.len() - x.len()))
    } else {
        None
    }
}

/// A start lock marker: a name with the `lock` extension.
pub open spec fn is_lock_marker(name: Seq<char>) -> bool {
    name.len() > ".lock"@.len() && ends_with(name, ".lock"@)
}

pub fn pid_file_name_of(ws: &str) -> (r: String)
    ensures
        r@ == pid_file_name(ws@),
{
    let s = String::from_str("openakita-");
    let s = s.concat(ws);
    s.concat(".pid")
}

pub fn lock_file_name_of(ws: &str) -> (r: String)
    ensures
        r@ == lock_file_name(ws@),
{
    let s = String::from_str("openakita-");
    let s = s.concat(ws);
    s.concat(".lock")
}

/// The registry file of a workspace.
pub fn service_pid_file(root: &str, ws: &str) -> (r: String)
    ensures
        r@ == joined(joined(root@, "run"@), pid_file_name(ws@)),
{
    let d = run_dir(root);
    let n = pid_file_name_of(ws);
    path_join(d.as_str(), n.as_str())
}

/// The start lock marker of a workspace.
pub fn service_lock_file(root: &str, ws: &str) -> (r: String)
    ensures
        r@ == joined(joined(root@, "run"@), lock_file_name(ws@)),
{
    let d = run_dir(root);
    let n = lock_file_name_of(ws);
    path_join(d.as_str(), n.as_str())
}

/// The workspace whose registry file has this name, if it is one.
pub fn workspace_of_pid_file(name: &str) -> (r: Option<String>)
    ensures
        match pid_file_workspace(name@) {
            Some(w) => r matches Some(s) && s@ == w,
            None => r is None,
        },
{
    let p = "openakita-";
    let x = ".pid";
    let n = name.unicode_len();
    let pl = p.unicode_len();
    let xl = x.unicode_len();
    if n > pl && n - pl > xl && has_prefix(name, p) && has_suffix(name, x) {
        let mid = name.substring_char(pl, n - xl);
        Some(String::from_str(mid))
    } else {
        None
    }
}

/// Whether a file of the run directory is a start lock marker.
pub fn is_lock_marker_name(name: &str) -> (r: bool)
    ensures
        r == is_lock_marker(name@),
{
    let x = ".lock";
    name.unicode_len() > x.unicode_len() && has_suffix(name, x)
}

// ---------------------------------------------------------------------------
// The virtual environment
pub open spec fn venv_python(venv: Seq<char>, os: Os) -> Seq<char> {
    if os == Os::Windows {
        joined(joined(venv, "Scripts"@), "python.exe"@)
    } else {
        joined(joined(venv, "bin"@), "python"@)
    }
}

/// The interpreter of a virtual environment.
pub fn venv_python_path(venv_dir: &str, os: Os) -> (r: String)
    ensures
        r@ == venv_python(venv_dir@, os),
{
    match os {
        Os::Windows => {
            let d = path_join(venv_dir, "Scripts");
            path_join(d.as_str(), "python.exe")
        },
        _ => {
            let d = path_join(venv_dir, "bin");
            path_join(d.as_str(), "python")
        },
    }
}

/// The interpreter that runs the service: on Windows the console-less
/// `pythonw.exe` when the environment has one, else the plain interpreter.
pub fn venv_pythonw_path(venv_dir: &str, os: Os, pythonw_exists: bool) -> (r: String)
    ensures
        r@ == if os == Os::Windows && pythonw_exists {
            joined(joined(venv_dir@, "Scripts"@), "pythonw.exe"@)
        } else {
            venv_python(venv_dir@, os)
        },
{
    if os == Os::Windows && pythonw_exists {
        let d = path_join(venv_dir, "Scripts");
        path_join(d.as_str(), "pythonw.exe")
    } else {
        venv_python_path(venv_dir, os)
    }
}

} // verus!
