//! Where the manager and Codex keep their files.

use vstd::prelude::*;
use vstd::string::StringExecFns;

use crate::text::{ends_with, lower_seq};

use directories::{BaseDirs, ProjectDirs};

verus! {

#[verifier::external_type_specification]
#[verifier::external_body]
pub struct ExProjectDirs(ProjectDirs);

#[verifier::external_type_specification]
#[verifier::external_body]
pub struct ExBaseDirs(BaseDirs);

/// An ASCII letter or digit.
pub open spec fn ascii_alnum(c: char) -> bool {
    ('0' <= c && c <= '9') || ('a' <= c && c <= 'z') || ('A' <= c && c <= 'Z')
}

/// Every character is an ASCII letter or digit.
pub open spec fn all_alnum(s: Seq<char>) -> bool
    decreases s.len(),
{
    s.len() == 0 || (ascii_alnum(s[0]) && all_alnum(s.drop_first()))
}

/// A name of ASCII letters and digits, not empty.
pub open spec fn alnum_word(s: Seq<char>) -> bool {
    s.len() > 0 && all_alnum(s)
}

/// The project path that `ProjectDirs::from` builds from a qualifier, an
/// organization and an application made of ASCII letters and digits: the
/// application lower-cased (Linux), `qualifier.organization.application`
/// (macOS), or `organization\application` (Windows).
pub open spec fn is_project_path(
    pp: Seq<char>,
    qualifier: Seq<char>,
    organization: Seq<char>,
    application: Seq<char>,
) -> bool {
    ||| pp == lower_seq(application)
    ||| pp == qualifier + seq!['.'] + organization + seq!['.'] + application
    ||| pp == organization + seq!['\\'] + application
}

/// What follows the start of a project path: letters, digits, dots and
/// backslashes, each backslash followed by a letter or digit.
pub open spec fn path_rest_ok(s: Seq<char>) -> bool
    decreases s.len(),
{
    if s.len() == 0 {
        true
    } else if s[0] == '\\' {
        s.len() > 1 && ascii_alnum(s[1]) && path_rest_ok(s.drop_first())
    } else {
        (ascii_alnum(s[0]) || s[0] == '.') && path_rest_ok(s.drop_first())
    }
}

/// A relative path whose parts are plain names (each begins with a letter
/// or digit), joined by backslashes, ending in a letter or digit: no drive,
/// no root, no `.` or `..` part.
pub open spec fn safe_project_path(pp: Seq<char>) -> bool {
    &&& pp.len() > 0
    &&& ascii_alnum(pp[0])
    &&& ascii_alnum(pp.last())
    &&& path_rest_ok(pp)
}

/// `r` ends with `tail` after a separator.
pub open spec fn ends_in_dir(r: Seq<char>, tail: Seq<char>) -> bool {
    ends_with(r, seq!['/'] + tail) || ends_with(r, seq!['\\'] + tail)
}

/// `r` is a platform directory of the project whose path is `pp`: `pp`
/// inside a base directory (Linux, macOS), or `leaf` inside that (Windows).
pub open spec fn platform_dir(r: Seq<char>, pp: Seq<char>, leaf: Seq<char>) -> bool {
    ends_in_dir(r, pp) || ends_in_dir(r, pp + seq!['\\'] + leaf)
}

/// `ProjectDirs::project_path` of a value, as characters.
pub uninterp spec fn project_path_of(dirs: ProjectDirs) -> Seq<char>;

/// `ProjectDirs::from`: the platform's directories for a project, or `None`
/// when the system offers no home directory (or, on Windows, no application
/// data folders).  Whether it comes back depends on the environment.  Its
/// project path is, for names of ASCII letters and digits, the one
/// `directories` builds on the platform: `lin.rs` lower-cases the
/// application, `mac.rs` joins the three names with dots, `win.rs` joins the
/// organization and the application as a path.
pub assume_specification[ ProjectDirs::from ](
    qualifier: &str,
    organization: &str,
    application: &str,
) -> (r: Option<ProjectDirs>)
    ensures
        alnum_word(qualifier@) && alnum_word(organization@) && alnum_word(application@) ==> (
        r matches Some(d) ==> is_project_path(
            project_path_of(d),
            qualifier@,
            organization@,
            application@,
        )),
;

/// `BaseDirs::new`: the user's base directories, or `None` when the system
/// offers no home directory.  Nothing is promised of what comes back.
pub assume_specification[ BaseDirs::new ]() -> Option<BaseDirs>;

/// `ProjectDirs::config_dir`, as a string.  Which directory it is depends on
/// the platform and the environment.  It is never empty, and `directories`
/// builds it with `Path::join` from a base directory: the project path
/// inside it on Linux and macOS, `config` inside that on Windows; for a
/// project path of plain parts, the text ends so.
#[verifier::external_body]
fn project_config_dir(dirs: &ProjectDirs) -> (r: String)
    ensures
        r@.len() > 0,
        safe_project_path(project_path_of(*dirs)) ==> platform_dir(
            r@,
            project_path_of(*dirs),
            "config"@,
        ),
{
    dirs.config_dir().to_string_lossy().to_string()
}

/// `ProjectDirs::data_dir`, as a string: as for the configuration
/// directory, with `data` inside the project path on Windows (on macOS it is
/// the configuration directory itself).
#[verifier::external_body]
fn project_data_dir(dirs: &ProjectDirs) -> (r: String)
    ensures
        r@.len() > 0,
        safe_project_path(project_path_of(*dirs)) ==> platform_dir(
            r@,
            project_path_of(*dirs),
            "data"@,
        ),
{
    dirs.data_dir().to_string_lossy().to_string()
}

/// `BaseDirs::home_dir`, as a string.  Which directory it is depends on the
/// environment; the claim is only that it is not empty: on Unix `dirs-sys`
/// takes `$HOME` only when it is not empty and else the password entry's
/// directory only when that is not empty (no `BaseDirs` otherwise); on
/// Windows it is the profile folder that `SHGetKnownFolderPath` reports.
#[verifier::external_body]
fn base_home_dir(dirs: &BaseDirs) -> (r: String)
    ensures
        r@.len() > 0,
{
    dirs.home_dir().to_string_lossy().to_string()
}

/// A plain file or directory name: no separator, no drive colon, not `.` or
/// `..`.
pub open spec fn is_plain_name(name: Seq<char>) -> bool {
    &&& name.len() > 0
    &&& name != seq!['.']
    &&& name != seq!['.', '.']
    &&& forall|i: int| 0 <= i < name.len() ==> #[trigger] name[i] != '/' && name[i] != '\\' && name[i] != ':'
}

/// `r` is `name` inside `base`: both put together, with at most one
/// separator between them.
pub open spec fn is_joined(base: Seq<char>, name: Seq<char>, r: Seq<char>) -> bool {
    ||| r == base + name
    ||| r == base + seq!['/'] + name
    ||| r == base + seq!['\\'] + name
}

/// A Windows verbatim path: one that begins with `\\?\`.
pub open spec fn has_verbatim_prefix(s: Seq<char>) -> bool {
    &&& s.len() >= 4
    &&& s[0] == '\\'
    &&& s[1] == '\\'
    &&& s[2] == '?'
    &&& s[3] == '\\'
}

/// `r` is `name` put inside `base` by `Path::join`: it ends with `name`, and
/// unless `base` is a verbatim path (whose `.` and `..` Windows resolves
/// first) it is `base`, at most one separator and `name`.
pub open spec fn joined_under(base: Seq<char>, name: Seq<char>, r: Seq<char>) -> bool {
    &&& ends_with(r, name)
    &&& !has_verbatim_prefix(base) ==> is_joined(base, name, r)
}

/// `Path::join` of a plain name, as a string.
///
/// `PathBuf::push` of a relative path adds the platform separator unless
/// `base` is empty or already ends in one (or, on Windows, is a bare drive
/// such as `C:`), then the name; the name is plain, so it is appended as it
/// stands.  On Windows a verbatim base (`\\?\...`) is first normalised, its
/// `.` and `..` resolved, so of that case only the ending is claimed.  Which
/// separator, if any, is left to the platform.
#[verifier::external_body]
fn join_path(base: &str, name: &str) -> (r: String)
    requires
        is_plain_name(name@),
    ensures
        joined_under(base@, name@, r@),
{
    std::path::Path::new(base).join(name).to_string_lossy().to_string()
}

pub const QUALIFIER: &'static str = "dev";

pub const ORGANIZATION: &'static str = "CodexManager";

pub const APPLICATION: &'static str = "CodexManager";

/// The manager's qualifier, organization and application, as characters.
pub open spec fn manager_names() -> (Seq<char>, Seq<char>, Seq<char>) {
    ("dev"@, "CodexManager"@, "CodexManager"@)
}

/// A project path of the manager on some platform.
pub open spec fn is_manager_project_path(pp: Seq<char>) -> bool {
    is_project_path(pp, manager_names().0, manager_names().1, manager_names().2)
}

/// The manager's names are ASCII words, and each of its project paths is
/// made of plain parts.
proof fn lemma_manager_names()
    ensures
        alnum_word(manager_names().0),
        alnum_word(manager_names().1),
        alnum_word(manager_names().2),
        forall|pp: Seq<char>| #[trigger] is_manager_project_path(pp) ==> safe_project_path(pp),
{
    reveal_strlit("dev");
    reveal_strlit("CodexManager");
    reveal_with_fuel(all_alnum, 13);
    reveal_with_fuel(path_rest_ok, 30);
    let cm: Seq<char> = "CodexManager"@;
    let lin = lower_seq(cm);
    assert(lin =~= seq!['c', 'o', 'd', 'e', 'x', 'm', 'a', 'n', 'a', 'g', 'e', 'r']);
    assert(safe_project_path(lin));
    let mac = "dev"@ + seq!['.'] + cm + seq!['.'] + cm;
    assert(mac =~= seq![
        'd', 'e', 'v', '.', 'C', 'o', 'd', 'e', 'x', 'M', 'a', 'n', 'a', 'g', 'e', 'r', '.',
        'C', 'o', 'd', 'e', 'x', 'M', 'a', 'n', 'a', 'g', 'e', 'r',
    ]);
    assert(safe_project_path(mac));
    let win = cm + seq!['\\'] + cm;
    assert(win =~= seq![
        'C', 'o', 'd', 'e', 'x', 'M', 'a', 'n', 'a', 'g', 'e', 'r', '\\',
        'C', 'o', 'd', 'e', 'x', 'M', 'a', 'n', 'a', 'g', 'e', 'r',
    ]);
    assert(safe_project_path(win));
}

/// The platform directories of Codex Manager: `ProjectDirs::from` with the
/// qualifier, organization and application above, so their project path is
/// one of the manager's.
pub fn project_dirs() -> (r: Option<ProjectDirs>)
    ensures
        r matches Some(d) ==> is_manager_project_path(project_path_of(d)),
{
    proof {
        lemma_manager_names();
    }
    ProjectDirs::from(QUALIFIER, ORGANIZATION, APPLICATION)
}

proof fn lemma_names()
    ensures
        is_plain_name(".codex-manager"@),
        is_plain_name("config.json"@),
        is_plain_name("backups"@),
        is_plain_name(".codex"@),
        is_plain_name("config.toml"@),
        is_plain_name("auth.json"@),
{
    reveal_strlit(".codex-manager");
    reveal_strlit("config.json");
    reveal_strlit("backups");
    reveal_strlit(".codex");
    reveal_strlit("config.toml");
    reveal_strlit("auth.json");
    assert(".codex-manager"@.len() != seq!['.'].len());
    assert(".codex-manager"@.len() != seq!['.', '.'].len());
    assert(".codex"@.len() != seq!['.'].len());
    assert(".codex"@.len() != seq!['.', '.'].len());
}

/// The user's home directory, or `.` when the system offers none; either
/// way not empty.
fn fallback_home_dir() -> (r: String)
    ensures
        r@.len() > 0,
{
    match BaseDirs::new() {
        Some(dirs) => base_home_dir(&dirs),
        None => {
            proof {
                reveal_strlit(".");
            }
            String::from_str(".")
        },
    }
}

/// `d` is `name` inside a home directory (the user's, or `.`).
pub open spec fn in_home(name: Seq<char>, d: Seq<char>) -> bool {
    exists|home: Seq<char>| home.len() > 0 && #[trigger] joined_under(home, name, d)
}

/// `d` is the manager's directory when the platform's directory for the
/// project is `project`: that directory itself, or `.codex-manager` in the
/// home directory when there is none.
pub open spec fn is_manager_dir(project: Option<Seq<char>>, d: Seq<char>) -> bool {
    match project {
        Some(p) => d == p,
        None => in_home(".codex-manager"@, d),
    }
}

/// `x` is a platform directory of the manager (not empty) with `leaf` as
/// its Windows leaf.
pub open spec fn is_platform_manager_dir(x: Seq<char>, leaf: Seq<char>) -> bool {
    &&& x.len() > 0
    &&& exists|pp: Seq<char>| is_manager_project_path(pp) && #[trigger] platform_dir(x, pp, leaf)
}

/// A directory of the manager: the platform's directory for its project
/// (`leaf` naming the Windows leaf, `config` or `data`), or `.codex-manager`
/// in the home directory when there is none.
pub open spec fn is_some_manager_dir(d: Seq<char>, leaf: Seq<char>) -> bool {
    exists|p: Option<Seq<char>>|
        (p matches Some(x) ==> is_platform_manager_dir(x, leaf)) && #[trigger] is_manager_dir(
            p,
            d,
        )
}

/// An optional directory by its characters.
pub open spec fn dir_view(d: Option<String>) -> Option<Seq<char>> {
    match d {
        Some(p) => Some(p@),
        None => None,
    }
}

/// The manager's directory, given the platform's directory for the project
/// when there is one; else `.codex-manager` in the home directory.
pub fn manager_dir(project_dir: Option<String>) -> (r: String)
    ensures
        is_manager_dir(dir_view(project_dir), r@),
{
    match project_dir {
        Some(p) => p,
        None => {
            proof {
                lemma_names();
                reveal_strlit(".codex-manager");
            }
            let home = fallback_home_dir();
            let r = join_path(home.as_str(), ".codex-manager");
            assert(joined_under(home@, ".codex-manager"@, r@));
            r
        },
    }
}

/// The manager's configuration directory: the platform's one for the
/// project, or `.codex-manager` in the home directory; either way not empty.
pub fn config_dir() -> (r: String)
    ensures
        is_some_manager_dir(r@, "config"@),
        r@.len() > 0,
{
    let project = match project_dirs() {
        Some(dirs) => {
            let x = project_config_dir(&dirs);
            proof {
                let pp = project_path_of(dirs);
                lemma_manager_names();
                assert(safe_project_path(pp));
                assert(platform_dir(x@, pp, "config"@));
                assert(is_platform_manager_dir(x@, "config"@));
            }
            Some(x)
        },
        None => None,
    };
    let ghost pv = dir_view(project);
    let r = manager_dir(project);
    proof {
        lemma_names();
        reveal_strlit(".codex-manager");
        assert(is_manager_dir(pv, r@));
    }
    r
}

/// The manager's data directory: the platform's one for the project, or
/// `.codex-manager` in the home directory; either way not empty.
pub fn data_dir() -> (r: String)
    ensures
        is_some_manager_dir(r@, "data"@),
        r@.len() > 0,
{
    let project = match project_dirs() {
        Some(dirs) => {
            let x = project_data_dir(&dirs);
            proof {
                let pp = project_path_of(dirs);
                lemma_manager_names();
                assert(safe_project_path(pp));
                assert(platform_dir(x@, pp, "data"@));
                assert(is_platform_manager_dir(x@, "data"@));
            }
            Some(x)
        },
        None => None,
    };
    let ghost pv = dir_view(project);
    let r = manager_dir(project);
    proof {
        lemma_names();
        reveal_strlit(".codex-manager");
        assert(is_manager_dir(pv, r@));
    }
    r
}

/// `config.json` in the configuration directory.
pub fn settings_file() -> (r: String)
    ensures
        exists|dir: Seq<char>|
            is_some_manager_dir(dir, "config"@) && #[trigger] joined_under(dir, "config.json"@, r@),
{
    proof {
        lemma_names();
    }
    let dir = config_dir();
    let r = join_path(dir.as_str(), "config.json");
    assert(joined_under(dir@, "config.json"@, r@));
    r
}

/// `backups` in the data directory.
pub fn backup_dir() -> (r: String)
    ensures
        exists|dir: Seq<char>|
            is_some_manager_dir(dir, "data"@) && #[trigger] joined_under(dir, "backups"@, r@),
{
    proof {
        lemma_names();
    }
    let dir = data_dir();
    let r = join_path(dir.as_str(), "backups");
    assert(joined_under(dir@, "backups"@, r@));
    r
}

/// Codex's home: the `CODEX_HOME` value when it is set and not empty, else
/// `.codex` in the home directory.
pub fn codex_home_dir(codex_home_env: Option<String>) -> (r: String)
    ensures
        match codex_home_env {
            Some(p) if p@.len() > 0 => r@ == p@,
            _ => in_home(".codex"@, r@),
        },
        r@.len() > 0,
{
    match codex_home_env {
        Some(p) if p.unicode_len() > 0 => p,
        _ => {
            proof {
                lemma_names();
                reveal_strlit(".codex");
            }
            let home = fallback_home_dir();
            let r = join_path(home.as_str(), ".codex");
            assert(joined_under(home@, ".codex"@, r@));
            r
        },
    }
}

/// A file of Codex: `name` in the `CODEX_HOME` directory when it is set and
/// not empty, else in `.codex` in the home directory.
pub open spec fn is_codex_file(codex_home_env: Option<String>, name: Seq<char>, r: Seq<char>) -> bool {
    match codex_home_env {
        Some(p) if p@.len() > 0 => joined_under(p@, name, r),
        _ => exists|home: Seq<char>| in_home(".codex"@, home) && #[trigger] joined_under(home, name, r),
    }
}

/// `config.toml` in Codex's home.
pub fn codex_config_file(codex_home_env: Option<String>) -> (r: String)
    ensures
        is_codex_file(codex_home_env, "config.toml"@, r@),
{
    proof {
        lemma_names();
    }
    let home = codex_home_dir(codex_home_env);
    let r = join_path(home.as_str(), "config.toml");
    assert(joined_under(home@, "config.toml"@, r@));
    r
}

/// `auth.json` in Codex's home.
pub fn codex_auth_file(codex_home_env: Option<String>) -> (r: String)
    ensures
        is_codex_file(codex_home_env, "auth.json"@, r@),
{
    proof {
        lemma_names();
    }
    let home = codex_home_dir(codex_home_env);
    let r = join_path(home.as_str(), "auth.json");
    assert(joined_under(home@, "auth.json"@, r@));
    r
}

} // verus!
