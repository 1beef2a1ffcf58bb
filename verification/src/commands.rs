//! The manager's command payloads, and how a downloaded installer is named.

use vstd::prelude::*;
use vstd::string::StringExecFns;

use crate::text::{
    chars_of, contains, copy_range, find_char_or_len, find_chars, first_index_of_char, has_infix,
    index_of, last_index_of, lemma_index_of, lower_seq, push_all, rfind_char, string_of,
    lemma_trim_fixed, lemma_trim_idempotent, to_ascii_lower, trim, trim_str,
};
use crate::settings::{
    accounts_view, first_enabled_id, fresh_ids_cover, fresh_ids_ok, has_active, is_active_at,
    is_uuid_char, law_normalized_active, lemma_normalize_api_key_idempotent, spec_clean_url,
    spec_normalize_accounts, spec_normalize_api_key, spec_normalized, strings_view, Account,
    AccountView, AppSettings, SettingsView,
};
use crate::update::{strip_v_prefix, Platform};

verus! {

/// `char::is_control`: the C0 and C1 control characters.
pub open spec fn is_control(c: char) -> bool {
    let u = c as u32;
    u < 0x20 || (0x7f <= u && u <= 0x9f)
}

/// A character that cannot stand in a file name.
pub open spec fn is_unsafe_file_char(c: char) -> bool {
    ||| is_control(c)
    ||| c == '<'
    ||| c == '>'
    ||| c == ':'
    ||| c == '"'
    ||| c == '/'
    ||| c == '\\'
    ||| c == '|'
    ||| c == '?'
    ||| c == '*'
}

/// A space or a dot, which a file name may not begin or end with.
pub open spec fn is_space_or_dot(c: char) -> bool {
    c == ' ' || c == '.'
}

/// Leading spaces and dots removed.
pub open spec fn trim_start_space_dot(s: Seq<char>) -> Seq<char>
    decreases s.len(),
{
    if s.len() > 0 && is_space_or_dot(s[0]) {
        trim_start_space_dot(s.drop_first())
    } else {
        s
    }
}

/// Trailing spaces and dots removed.
pub open spec fn trim_end_space_dot(s: Seq<char>) -> Seq<char>
    decreases s.len(),
{
    if s.len() > 0 && is_space_or_dot(s.last()) {
        trim_end_space_dot(s.drop_last())
    } else {
        s
    }
}

/// Unsafe characters replaced by `_`, spaces and dots trimmed at both ends.
pub open spec fn spec_sanitize_file_name(s: Seq<char>) -> Seq<char> {
    trim_end_space_dot(
        trim_start_space_dot(
            s.map_values(|c: char| if is_unsafe_file_char(c) { '_' } else { c }),
        ),
    )
}

fn unsafe_file_char(c: char) -> (r: bool)
    ensures
        r == is_unsafe_file_char(c),
{
    let u = c as u32;
    u < 0x20 || (0x7f <= u && u <= 0x9f) || c == '<' || c == '>' || c == ':' || c == '"' || c
        == '/' || c == '\\' || c == '|' || c == '?' || c == '*'
}

/// Replaces what cannot stand in a file name by `_` and trims spaces and dots.
pub fn sanitize_file_name(value: &[char]) -> (r: Vec<char>)
    ensures
        r@ == spec_sanitize_file_name(value@),
{
    let ghost mapped = value@.map_values(|c: char| if is_unsafe_file_char(c) { '_' } else { c });
    let mut m: Vec<char> = Vec::new();
    let mut i: usize = 0;
    while i < value.len()
        invariant
            i <= value@.len(),
            mapped == value@.map_values(|c: char| if is_unsafe_file_char(c) { '_' } else { c }),
            m@ == mapped.take(i as int),
        decreases value@.len() - i,
    {
        let c = value[i];
        m.push(if unsafe_file_char(c) { '_' } else { c });
        i = i + 1;
        assert(m@ =~= mapped.take(i as int));
    }
    assert(mapped.take(value@.len() as int) =~= mapped);
    let mut a: usize = 0;
    assert(m@.skip(0) =~= m@);
    while a < m.len() && (m[a] == ' ' || m[a] == '.')
        invariant
            a <= m@.len(),
            trim_start_space_dot(m@) == trim_start_space_dot(m@.skip(a as int)),
        decreases m@.len() - a,
    {
        assert(m@.skip(a as int).drop_first() =~= m@.skip(a + 1));
        a = a + 1;
    }
    let t = copy_range(m.as_slice(), a, m.len());
    assert(t@ =~= m@.skip(a as int));
    let mut b: usize = t.len();
    assert(t@.take(t@.len() as int) =~= t@);
    while b > 0 && (t[b - 1] == ' ' || t[b - 1] == '.')
        invariant
            b <= t@.len(),
            trim_end_space_dot(t@) == trim_end_space_dot(t@.take(b as int)),
        decreases b,
    {
        assert(t@.take(b as int).drop_last() =~= t@.take(b - 1));
        b = b - 1;
    }
    copy_range(t.as_slice(), 0, b)
}

/// A release version as it goes into a file name: trimmed and with one
/// leading `v`; empty for a blank version.
pub open spec fn spec_normalized_download_version(value: Seq<char>) -> Seq<char> {
    let t = trim(value);
    if t.len() == 0 {
        seq![]
    } else if t[0] == 'v' || t[0] == 'V' {
        seq!['v'] + strip_v_prefix(t)
    } else {
        seq!['v'] + t
    }
}

/// The version with one leading `v`, or empty.
pub fn normalized_download_version(value: &str) -> (r: Vec<char>)
    ensures
        r@ == spec_normalized_download_version(value@),
{
    let t = trim_str(value);
    if t.len() == 0 {
        return Vec::new();
    }
    let mut out: Vec<char> = Vec::new();
    out.push('v');
    if t[0] == 'v' || t[0] == 'V' {
        let mut i: usize = 0;
        assert(t@.skip(0) =~= t@);
        while i < t.len() && (t[i] == 'v' || t[i] == 'V')
            invariant
                i <= t@.len(),
                strip_v_prefix(t@) == strip_v_prefix(t@.skip(i as int)),
            decreases t@.len() - i,
        {
            assert(t@.skip(i as int).drop_first() =~= t@.skip(i + 1));
            i = i + 1;
        }
        let rest = copy_range(t.as_slice(), i, t.len());
        assert(rest@ =~= t@.skip(i as int));
        push_all(&mut out, rest.as_slice());
    } else {
        push_all(&mut out, t.as_slice());
    }
    out
}

/// The file name already carries the version, with or without its `v`,
/// ignoring ASCII case.
pub open spec fn spec_file_name_has_version(file_name: Seq<char>, version: Seq<char>) -> bool {
    let lower = lower_seq(file_name);
    contains(lower, lower_seq(version)) || contains(lower, lower_seq(strip_v_prefix(version)))
}

/// Whether the file name already carries the version.
pub fn file_name_has_version(file_name: &[char], version: &[char]) -> (r: bool)
    ensures
        r == spec_file_name_has_version(file_name@, version@),
{
    let mut i: usize = 0;
    assert(version@.skip(0) =~= version@);
    while i < version.len() && (version[i] == 'v' || version[i] == 'V')
        invariant
            i <= version@.len(),
            strip_v_prefix(version@) == strip_v_prefix(version@.skip(i as int)),
        decreases version@.len() - i,
    {
        assert(version@.skip(i as int).drop_first() =~= version@.skip(i + 1));
        i = i + 1;
    }
    let without_v = copy_range(version, i, version.len());
    assert(without_v@ =~= version@.skip(i as int));
    let lower = to_ascii_lower(file_name);
    has_infix(lower.as_slice(), to_ascii_lower(version).as_slice()) || has_infix(
        lower.as_slice(),
        to_ascii_lower(without_v.as_slice()).as_slice(),
    )
}

/// `stem-version.ext` when the name has a non-empty stem and extension around
/// its last dot, else `name-version`.
pub open spec fn spec_append_version_to_file_name(file_name: Seq<char>, version: Seq<char>) -> Seq<
    char,
> {
    let i = last_index_of(file_name, '.');
    if i > 0 && i < file_name.len() - 1 {
        file_name.take(i) + seq!['-'] + version + seq!['.'] + file_name.skip(i + 1)
    } else {
        file_name + seq!['-'] + version
    }
}

pub proof fn lemma_last_index_of_bounds(s: Seq<char>, c: char)
    ensures
        -1 <= last_index_of(s, c) < s.len(),
    decreases s.len(),
{
    if s.len() > 0 && s.last() != c {
        lemma_last_index_of_bounds(s.drop_last(), c);
    }
}

/// Puts the version before the extension, or at the end.
pub fn append_version_to_file_name(file_name: &[char], version: &[char]) -> (r: Vec<char>)
    ensures
        r@ == spec_append_version_to_file_name(file_name@, version@),
{
    proof {
        lemma_last_index_of_bounds(file_name@, '.');
    }
    match rfind_char(file_name, '.') {
        Some(i) if i > 0 && i < file_name.len() - 1 => {
            let mut out = copy_range(file_name, 0, i);
            assert(out@ =~= file_name@.take(i as int));
            out.push('-');
            push_all(&mut out, version);
            out.push('.');
            let ext = copy_range(file_name, i + 1, file_name.len());
            assert(ext@ =~= file_name@.skip(i + 1));
            push_all(&mut out, ext.as_slice());
            out
        },
        _ => {
            let mut out = copy_range(file_name, 0, file_name.len());
            assert(out@ =~= file_name@);
            out.push('-');
            push_all(&mut out, version);
            out
        },
    }
}

/// The word replaced by the version.
pub open spec fn latest_word() -> Seq<char> {
    seq!['l', 'a', 't', 'e', 's', 't']
}

/// Every `latest`, in any ASCII case, replaced by the version, from left to
/// right.
pub open spec fn spec_replace_latest_token(file_name: Seq<char>, version: Seq<char>) -> Seq<char>
    decreases file_name.len(),
{
    let i = index_of(lower_seq(file_name), latest_word());
    if i < 0 {
        file_name
    } else {
        proof {
            lemma_index_of(lower_seq(file_name), latest_word());
        }
        file_name.take(i) + version + spec_replace_latest_token(file_name.skip(i + 6), version)
    }
}

/// Replaces each `latest`, in any ASCII case, by the version.
#[verifier::rlimit(40)]
pub fn replace_latest_token(file_name: &[char], version: &[char]) -> (r: Vec<char>)
    ensures
        r@ == spec_replace_latest_token(file_name@, version@),
{
    let word = vec!['l', 'a', 't', 'e', 's', 't'];
    assert(word@ =~= latest_word());
    let mut out: Vec<char> = Vec::new();
    let mut start: usize = 0;
    assert(file_name@.skip(0) =~= file_name@);
    loop
        invariant
            start <= file_name@.len(),
            word@ == latest_word(),
            out@ + spec_replace_latest_token(file_name@.skip(start as int), version@)
                == spec_replace_latest_token(file_name@, version@),
        decreases file_name@.len() - start,
    {
        let rest = copy_range(file_name, start, file_name.len());
        assert(rest@ =~= file_name@.skip(start as int));
        let lower = to_ascii_lower(rest.as_slice());
        proof {
            lemma_index_of(lower@, latest_word());
        }
        match find_chars(lower.as_slice(), word.as_slice()) {
            None => {
                push_all(&mut out, rest.as_slice());
                return out;
            },
            Some(i) => {
                let head = copy_range(rest.as_slice(), 0, i);
                assert(head@ =~= rest@.take(i as int));
                let ghost before = out@;
                push_all(&mut out, head.as_slice());
                push_all(&mut out, version);
                assert(rest@.skip(i + 6) =~= file_name@.skip(start + i + 6));
                assert(out@ + spec_replace_latest_token(rest@.skip(i + 6), version@) =~= before
                    + spec_replace_latest_token(rest@, version@));
                start = start + i + 6;
            },
        }
    }
}


/// The file name at the end of a URL: the path before any `?`, after its last
/// `/`.
pub open spec fn url_file_name(url: Seq<char>) -> Seq<char> {
    let q = url.take(first_index_of_char(url, '?'));
    q.skip(last_index_of(q, '/') + 1)
}

/// The name of a downloaded installer: the asset's name (else the file name
/// of its URL), made safe for the file system, and carrying the release
/// version (`latest` replaced by it, or the version put before the
/// extension).
pub open spec fn spec_update_asset_name(asset_name: Seq<char>, asset_url: Seq<char>, latest_version: Seq<char>) -> Seq<char> {
    let from_name = trim(asset_name);
    let raw = if from_name.len() == 0 {
        url_file_name(asset_url)
    } else {
        from_name
    };
    let sanitized = spec_sanitize_file_name(raw);
    let version = spec_normalized_download_version(latest_version);
    if sanitized.len() == 0 && version.len() == 0 {
        "codex-manager-windows-update.msi"@
    } else if sanitized.len() == 0 {
        "codex-manager-windows-"@ + version + ".msi"@
    } else if version.len() == 0 || spec_file_name_has_version(sanitized, version) {
        sanitized
    } else if contains(lower_seq(sanitized), latest_word()) {
        spec_replace_latest_token(sanitized, version)
    } else {
        spec_append_version_to_file_name(sanitized, version)
    }
}

proof fn lemma_first_index_of_char_bounds(s: Seq<char>, c: char)
    ensures
        0 <= first_index_of_char(s, c) <= s.len(),
    decreases s.len(),
{
    if s.len() > 0 && s[0] != c {
        lemma_first_index_of_char_bounds(s.drop_first(), c);
    }
}

/// The name under which a downloaded installer is saved.
pub fn update_asset_name(asset_name: &str, asset_url: &str, latest_version: &str) -> (r: String)
    ensures
        r@ == spec_update_asset_name(asset_name@, asset_url@, latest_version@),
{
    let from_name = trim_str(asset_name);
    let raw = if from_name.len() == 0 {
        let url = chars_of(asset_url);
        let q_end = find_char_or_len(url.as_slice(), '?');
        let q = copy_range(url.as_slice(), 0, q_end);
        assert(q@ =~= url@.take(q_end as int));
        proof {
            lemma_last_index_of_bounds(q@, '/');
        }
        let start = match rfind_char(q.as_slice(), '/') {
            Some(k) => k + 1,
            None => 0,
        };
        let f = copy_range(q.as_slice(), start, q.len());
        assert(f@ =~= q@.skip(start as int));
        f
    } else {
        from_name
    };
    let sanitized = sanitize_file_name(raw.as_slice());
    let version = normalized_download_version(latest_version);
    let out = if sanitized.len() == 0 && version.len() == 0 {
        chars_of("codex-manager-windows-update.msi")
    } else if sanitized.len() == 0 {
        let mut v = chars_of("codex-manager-windows-");
        push_all(&mut v, version.as_slice());
        push_all(&mut v, chars_of(".msi").as_slice());
        v
    } else if version.len() == 0 || file_name_has_version(sanitized.as_slice(), version.as_slice()) {
        sanitized
    } else {
        let word = vec!['l', 'a', 't', 'e', 's', 't'];
        assert(word@ =~= latest_word());
        if has_infix(to_ascii_lower(sanitized.as_slice()).as_slice(), word.as_slice()) {
            replace_latest_token(sanitized.as_slice(), version.as_slice())
        } else {
            append_version_to_file_name(sanitized.as_slice(), version.as_slice())
        }
    };
    string_of(out.as_slice())
}

/// The download page of Codex for a platform (`arm64` picks the Apple
/// silicon build on macOS).
pub open spec fn spec_install_url(platform: Platform, arm64: bool) -> Seq<char> {
    if platform == Platform::MacOs {
        if arm64 {
            "https://codexapp.agentsmirror.com/latest/mac-arm64"@
        } else {
            "https://codexapp.agentsmirror.com/latest/mac-intel"@
        }
    } else {
        "https://codexapp.agentsmirror.com/latest/win"@
    }
}

/// The download page of Codex for the platform.
pub fn install_url(platform: Platform, arm64: bool) -> (r: &'static str)
    ensures
        r@ == spec_install_url(platform, arm64),
{
    if platform == Platform::MacOs {
        if arm64 {
            "https://codexapp.agentsmirror.com/latest/mac-arm64"
        } else {
            "https://codexapp.agentsmirror.com/latest/mac-intel"
        }
    } else {
        "https://codexapp.agentsmirror.com/latest/win"
    }
}

/// A program to start and its arguments.
#[derive(Debug)]
pub struct ProgramCall {
    pub program: String,
    pub args: Vec<String>,
}

/// `s` with each single quote doubled, as PowerShell reads it inside single
/// quotes.
pub open spec fn double_single_quotes(s: Seq<char>) -> Seq<char>
    decreases s.len(),
{
    if s.len() == 0 {
        seq![]
    } else {
        double_single_quotes(s.drop_last()) + if s.last() == '\'' {
            seq!['\'', '\'']
        } else {
            seq![s.last()]
        }
    }
}

/// How a URL or file is opened with the desktop's default handler: through
/// PowerShell's `Start-Process` (hidden) on Windows, `open` on macOS and
/// `xdg-open` elsewhere.
pub open spec fn spec_open_url_call(platform: Platform, url: Seq<char>) -> (Seq<char>, Seq<Seq<char>>) {
    if platform == Platform::Windows {
        (
            "powershell.exe"@,
            seq![
                "-NoProfile"@,
                "-WindowStyle"@,
                "Hidden"@,
                "-ExecutionPolicy"@,
                "Bypass"@,
                "-Command"@,
                "Start-Process '"@ + double_single_quotes(url) + seq!['\''],
            ],
        )
    } else if platform == Platform::MacOs {
        ("open"@, seq![url])
    } else {
        ("xdg-open"@, seq![url])
    }
}

/// The program call that opens `url` on `platform`.
pub fn open_url_call(platform: Platform, url: &str) -> (r: ProgramCall)
    ensures
        (r.program@, strings_view(r.args@)) == spec_open_url_call(platform, url@),
{
    if platform == Platform::Windows {
        let u = chars_of(url);
        let mut command = chars_of("Start-Process '");
        let ghost start = command@;
        let mut i: usize = 0;
        while i < u.len()
            invariant
                i <= u@.len(),
                command@ == start + double_single_quotes(u@.take(i as int)),
            decreases u@.len() - i,
        {
            assert(u@.take(i + 1).drop_last() =~= u@.take(i as int));
            if u[i] == '\'' {
                command.push('\'');
                command.push('\'');
            } else {
                command.push(u[i]);
            }
            i = i + 1;
            assert(command@ =~= start + double_single_quotes(u@.take(i as int)));
        }
        assert(u@.take(u@.len() as int) =~= u@);
        command.push('\'');
        assert(command@ =~= "Start-Process '"@ + double_single_quotes(url@) + seq!['\'']);
        let last = string_of(command.as_slice());
        let args = vec![
            "-NoProfile".to_string(),
            "-WindowStyle".to_string(),
            "Hidden".to_string(),
            "-ExecutionPolicy".to_string(),
            "Bypass".to_string(),
            "-Command".to_string(),
            last,
        ];
        assert(args@[6]@ == last@);
        let r = ProgramCall { program: "powershell.exe".to_string(), args };
        assert(strings_view(r.args@) =~= spec_open_url_call(platform, url@).1);
        r
    } else {
        let program = if platform == Platform::MacOs {
            "open".to_string()
        } else {
            "xdg-open".to_string()
        };
        let args = vec![url.to_string()];
        let r = ProgramCall { program, args };
        assert(strings_view(r.args@) =~= seq![url@]);
        r
    }
}

/// The reply to every command: `status` is `ok` or `failed`, `message` says
/// what happened, and `payload` carries the command's data.
#[derive(Debug)]
pub struct CommandResult<T> {
    pub status: String,
    pub message: String,
    pub payload: T,
}

/// A successful reply.
pub fn ok<T>(message: &str, payload: T) -> (r: CommandResult<T>)
    ensures
        r.status@ == "ok"@,
        r.message@ == message@,
        r.payload == payload,
{
    CommandResult { status: String::from_str("ok"), message: String::from_str(message), payload }
}

/// A failed reply.
pub fn failed<T>(message: &str, payload: T) -> (r: CommandResult<T>)
    ensures
        r.status@ == "failed"@,
        r.message@ == message@,
        r.payload == payload,
{
    CommandResult { status: String::from_str("failed"), message: String::from_str(message), payload }
}

/// The backend's version.
#[derive(Debug)]
pub struct VersionPayload {
    pub version: String,
}

/// The settings and where they are stored.
#[derive(Debug)]
pub struct SettingsPayload {
    pub settings: AppSettings,
    pub settings_path: String,
}

/// An account to add or update, and whether to make it active.
#[derive(Debug)]
pub struct UpsertAccountRequest {
    pub account: Account,
    pub activate: bool,
}

/// A search for remote keys.
#[derive(Debug)]
pub struct SearchRemoteKeysRequest {
    pub keyword: String,
    pub login_id: String,
}

/// A remote key to decrypt.
#[derive(Debug)]
pub struct DecryptRemoteKeyRequest {
    pub token_id: String,
    pub login_id: String,
}

/// An installer to download and open.
#[derive(Debug)]
pub struct InstallUpdateRequest {
    pub asset_name: String,
    pub asset_url: String,
    pub latest_version: String,
}

/// The installer downloaded.
#[derive(Debug)]
pub struct InstallUpdatePayload {
    pub asset_name: String,
    pub asset_url: String,
    pub installer_path: String,
}

/// Why no installer can be downloaded.
#[derive(Debug, PartialEq, Eq)]
pub enum DownloadError {
    /// The request has no download URL.
    MissingUrl,
}

/// What to download for an update request: the installer's file name and
/// the trimmed URL.  A blank URL is refused.
pub fn download_target(request: &InstallUpdateRequest) -> (r: Result<(String, String), DownloadError>)
    ensures
        match r {
            Ok((name, url)) => trim(request.asset_url@).len() > 0 && url@ == trim(request.asset_url@)
                && name@ == spec_update_asset_name(
                request.asset_name@,
                trim(request.asset_url@),
                request.latest_version@,
            ),
            Err(e) => trim(request.asset_url@).len() == 0 && e == DownloadError::MissingUrl,
        },
{
    let url = trim_str(request.asset_url.as_str());
    if url.len() == 0 {
        return Err(DownloadError::MissingUrl);
    }
    let url = string_of(url.as_slice());
    let name = update_asset_name(request.asset_name.as_str(), url.as_str(), request.latest_version.as_str());
    Ok((name, url))
}


/// The accounts with `a` in place of every account of the same id, or `a`
/// appended when none has its id.
pub open spec fn replace_or_push(accounts: Seq<AccountView>, a: AccountView) -> Seq<AccountView> {
    if exists|i: int| 0 <= i < accounts.len() && #[trigger] accounts[i].id == a.id {
        Seq::new(accounts.len(), |i: int| if accounts[i].id == a.id { a } else { accounts[i] })
    } else {
        accounts.push(a)
    }
}

/// `a` is the account that `Account::new` makes of `from`.
pub open spec fn is_new_account(a: AccountView, from: AccountView) -> bool {
    &&& a.name == from.name
    &&& a.base_url == spec_clean_url(from.base_url)
    &&& a.api_key == spec_normalize_api_key(from.api_key)
    &&& a.enabled
    &&& a.id.len() == 36
    &&& forall|i: int| 0 <= i < 36 ==> is_uuid_char(#[trigger] a.id[i])
}

/// The settings other than accounts and active id are unchanged.
pub open spec fn same_but_accounts(r: AppSettings, s: AppSettings) -> bool {
    &&& r.codex_app_path == s.codex_app_path
    &&& r.launch_extra_args == s.launch_extra_args
    &&& r.plugin_enabled == s.plugin_enabled
    &&& r.auth == s.auth
}

/// Adds the request's account, or updates the account of the same id; an
/// account without an id is created anew (fresh id, cleaned URL, normalised
/// key, enabled).  With `activate` it becomes the active account.  The
/// settings are then saved, which normalises them.
pub fn upsert_account(settings: AppSettings, request: UpsertAccountRequest) -> (r: AppSettings)
    ensures
        same_but_accounts(r, settings),
        exists|a: AccountView|
            {
                &&& if trim(request.account.id@).len() == 0 {
                    is_new_account(a, request.account@)
                } else {
                    a == request.account@
                }
                &&& accounts_view(r.accounts@) == replace_or_push(accounts_view(settings.accounts@), a)
                &&& r.active_account_id@ == if request.activate {
                    a.id
                } else {
                    settings.active_account_id@
                }
            },
{
    let ghost req = request.account@;
    let ghost orig = settings;
    let mut account = request.account;
    if trim_str(account.id.as_str()).len() == 0 {
        account = Account::new(account.name, account.base_url, account.api_key);
    }
    let ghost a = account@;
    assert(if trim(req.id).len() == 0 {
        is_new_account(a, req)
    } else {
        a == req
    });
    let ghost old_accounts = accounts_view(settings.accounts@);
    let mut settings = settings;
    let mut found = false;
    let mut i: usize = 0;
    while i < settings.accounts.len()
        invariant
            i <= settings.accounts@.len(),
            a == account@,
            same_but_accounts(settings, orig),
            settings.active_account_id == orig.active_account_id,
            old_accounts.len() == settings.accounts@.len(),
            found == exists|k: int| 0 <= k < i && #[trigger] old_accounts[k].id == a.id,
            forall|k: int|
                0 <= k < settings.accounts@.len() ==> #[trigger] settings.accounts@[k]@ == if k < i
                    && old_accounts[k].id == a.id {
                    a
                } else {
                    old_accounts[k]
                },
        decreases settings.accounts@.len() - i,
    {
        let ghost prev = settings.accounts@;
        assert(settings.accounts@[i as int]@ == old_accounts[i as int]);
        let matched = settings.accounts[i].id == account.id;
        if matched {
            settings.accounts.set(i, account.clone());
            found = true;
            assert(old_accounts[i as int].id == a.id);
        }
        proof {
            assert forall|k: int| 0 <= k < settings.accounts@.len() implies #[trigger] settings.accounts@[k]@
                == if k < i + 1 && old_accounts[k].id == a.id {
                a
            } else {
                old_accounts[k]
            } by {
                if k != i {
                    assert(settings.accounts@[k] == prev[k]);
                }
            }
            if !matched {
                assert(old_accounts[i as int].id != a.id);
                assert((exists|k: int| 0 <= k < i + 1 && #[trigger] old_accounts[k].id == a.id) == (
                exists|k: int| 0 <= k < i && #[trigger] old_accounts[k].id == a.id)) by {
                    if exists|k: int| 0 <= k < i + 1 && #[trigger] old_accounts[k].id == a.id {
                        let k = choose|k: int| 0 <= k < i + 1 && #[trigger] old_accounts[k].id == a.id;
                        assert(k < i);
                    }
                }
            }
        }
        i = i + 1;
    }
    if found {
        assert(accounts_view(settings.accounts@) =~= replace_or_push(old_accounts, a));
    } else {
        settings.accounts.push(account.clone());
        assert(accounts_view(settings.accounts@) =~= replace_or_push(old_accounts, a));
    }
    if request.activate {
        settings.active_account_id = account.id;
    }
    assert(accounts_view(settings.accounts@) == replace_or_push(old_accounts, a));
    settings
}

/// The accounts other than those with id `id`, in order.
pub open spec fn without_id(accounts: Seq<AccountView>, id: Seq<char>) -> Seq<AccountView>
    decreases accounts.len(),
{
    if accounts.len() == 0 {
        seq![]
    } else if accounts.last().id == id {
        without_id(accounts.drop_last(), id)
    } else {
        without_id(accounts.drop_last(), id).push(accounts.last())
    }
}

/// Removes the accounts with id `id`; when it was the active id, no account is
/// active.  The settings are then saved, which normalises them.
pub fn delete_account(settings: AppSettings, id: &str) -> (r: AppSettings)
    ensures
        r@ == spec_delete_account(settings@, id@),
        same_but_accounts(r, settings),
        accounts_view(r.accounts@) == without_id(accounts_view(settings.accounts@), id@),
        r.active_account_id@ == if settings.active_account_id@ == id@ {
            seq![]
        } else {
            settings.active_account_id@
        },
{
    let ghost old_accounts = accounts_view(settings.accounts@);
    let key = String::from_str(id);
    let mut kept: Vec<Account> = Vec::new();
    let mut i: usize = 0;
    while i < settings.accounts.len()
        invariant
            i <= settings.accounts@.len(),
            key@ == id@,
            old_accounts == accounts_view(settings.accounts@),
            accounts_view(kept@) == without_id(old_accounts.take(i as int), id@),
        decreases settings.accounts@.len() - i,
    {
        let ghost pre = old_accounts.take(i + 1);
        assert(pre.drop_last() =~= old_accounts.take(i as int));
        assert(pre.last() == settings.accounts@[i as int]@);
        if settings.accounts[i].id != key {
            kept.push(settings.accounts[i].clone());
            assert(accounts_view(kept@) =~= without_id(pre, id@));
        }
        i = i + 1;
    }
    assert(old_accounts.take(old_accounts.len() as int) =~= old_accounts);
    let active_account_id = if settings.active_account_id == key {
        String::new()
    } else {
        settings.active_account_id
    };
    AppSettings {
        codex_app_path: settings.codex_app_path,
        active_account_id,
        launch_extra_args: settings.launch_extra_args,
        plugin_enabled: settings.plugin_enabled,
        auth: settings.auth,
        accounts: kept,
    }
}


/// Deleting an account by id undoes storing an account under that id: the
/// other accounts are left as they were, in order.
pub proof fn law_delete_undoes_upsert(accounts: Seq<AccountView>, a: AccountView)
    ensures
        without_id(replace_or_push(accounts, a), a.id) == without_id(accounts, a.id),
{
    if exists|i: int| 0 <= i < accounts.len() && #[trigger] accounts[i].id == a.id {
        lemma_without_replaced(accounts, a);
        assert(replace_or_push(accounts, a) =~= Seq::new(
            accounts.len(),
            |i: int| if accounts[i].id == a.id { a } else { accounts[i] },
        ));
    } else {
        assert(accounts.push(a).drop_last() =~= accounts);
    }
}

proof fn lemma_without_replaced(accounts: Seq<AccountView>, a: AccountView)
    ensures
        without_id(
            Seq::new(accounts.len(), |i: int| if accounts[i].id == a.id { a } else { accounts[i] }),
            a.id,
        ) == without_id(accounts, a.id),
    decreases accounts.len(),
{
    let m = Seq::new(accounts.len(), |i: int| if accounts[i].id == a.id { a } else { accounts[i] });
    if accounts.len() > 0 {
        let d = accounts.drop_last();
        lemma_without_replaced(d, a);
        let md = Seq::new(d.len(), |i: int| if d[i].id == a.id { a } else { d[i] });
        assert(m.drop_last() =~= md);
        assert(without_id(m, a.id) == if m.last().id == a.id {
            without_id(md, a.id)
        } else {
            without_id(md, a.id).push(m.last())
        });
        assert(m.last() == if accounts.last().id == a.id { a } else { accounts.last() });
    }
}

/// Storing an account makes it the account under its id.
pub proof fn law_upsert_stores(accounts: Seq<AccountView>, a: AccountView)
    ensures
        exists|i: int|
            0 <= i < replace_or_push(accounts, a).len() && #[trigger] replace_or_push(accounts, a)[i]
                == a,
{
    if exists|i: int| 0 <= i < accounts.len() && #[trigger] accounts[i].id == a.id {
        let i = choose|i: int| 0 <= i < accounts.len() && #[trigger] accounts[i].id == a.id;
        assert(replace_or_push(accounts, a)[i] == a);
    } else {
        assert(replace_or_push(accounts, a)[accounts.len() as int] == a);
    }
}

/// After a delete no account has the deleted id.
pub proof fn law_delete_removes(accounts: Seq<AccountView>, id: Seq<char>)
    ensures
        forall|k: int| 0 <= k < without_id(accounts, id).len() ==> (#[trigger] without_id(accounts, id)[k]).id != id,
    decreases accounts.len(),
{
    if accounts.len() > 0 {
        let d = accounts.drop_last();
        law_delete_removes(d, id);
        let r = without_id(accounts, id);
        let p = without_id(d, id);
        assert forall|k: int| 0 <= k < r.len() implies (#[trigger] r[k]).id != id by {
            if k < p.len() {
                assert(r[k] == p[k]);
            }
        }
    }
}


proof fn lemma_trim_start_space_dot(s: Seq<char>) -> (k: int)
    ensures
        0 <= k <= s.len(),
        trim_start_space_dot(s) == s.skip(k),
        trim_start_space_dot(s).len() > 0 ==> !is_space_or_dot(trim_start_space_dot(s)[0]),
    decreases s.len(),
{
    if s.len() > 0 && is_space_or_dot(s[0]) {
        let k = lemma_trim_start_space_dot(s.drop_first());
        assert(s.drop_first().skip(k) =~= s.skip(k + 1));
        k + 1
    } else {
        assert(s.skip(0) =~= s);
        0
    }
}

proof fn lemma_trim_end_space_dot(s: Seq<char>) -> (k: int)
    ensures
        0 <= k <= s.len(),
        trim_end_space_dot(s) == s.take(k),
        trim_end_space_dot(s).len() > 0 ==> !is_space_or_dot(trim_end_space_dot(s).last()),
    decreases s.len(),
{
    if s.len() > 0 && is_space_or_dot(s.last()) {
        let k = lemma_trim_end_space_dot(s.drop_last());
        assert(s.drop_last().take(k) =~= s.take(k));
        k
    } else {
        assert(s.take(s.len() as int) =~= s);
        s.len() as int
    }
}

/// A sanitized file name is safe: it holds no character that a file name
/// cannot hold, and it neither begins nor ends with a space or a dot.
pub proof fn law_sanitized_file_name_safe(s: Seq<char>)
    ensures
        forall|i: int|
            0 <= i < spec_sanitize_file_name(s).len() ==> !is_unsafe_file_char(
                #[trigger] spec_sanitize_file_name(s)[i],
            ),
        spec_sanitize_file_name(s).len() > 0 ==> !is_space_or_dot(spec_sanitize_file_name(s)[0])
            && !is_space_or_dot(spec_sanitize_file_name(s).last()),
{
    let m = s.map_values(|c: char| if is_unsafe_file_char(c) { '_' } else { c });
    let t = trim_start_space_dot(m);
    let k1 = lemma_trim_start_space_dot(m);
    let k2 = lemma_trim_end_space_dot(t);
    let r = spec_sanitize_file_name(s);
    assert(r == t.take(k2));
    assert forall|i: int| 0 <= i < r.len() implies !is_unsafe_file_char(#[trigger] r[i]) by {
        assert(r[i] == m[k1 + i]);
    }
}


/// An account as loading or saving stores it: its id is trimmed and not
/// blank, its key is normalised and not empty.
pub open spec fn stored_account(a: AccountView) -> bool {
    &&& trim(a.id) == a.id
    &&& a.id.len() > 0
    &&& spec_normalize_api_key(a.api_key) == a.api_key
    &&& a.api_key.len() > 0
}

/// Settings as loading or saving stores them (both normalise): every
/// account stored, and the active id names an enabled account, or is empty
/// when none is enabled.
pub open spec fn stored_settings(s: SettingsView) -> bool {
    &&& forall|i: int| 0 <= i < s.accounts.len() ==> stored_account(#[trigger] s.accounts[i])
    &&& has_active(s.accounts, s.active_account_id) || (s.active_account_id.len() == 0
        && first_enabled_id(s.accounts).len() == 0)
}

/// The settings as [`delete_account`] leaves them.
pub open spec fn spec_delete_account(s: SettingsView, id: Seq<char>) -> SettingsView {
    SettingsView {
        codex_app_path: s.codex_app_path,
        active_account_id: if s.active_account_id == id {
            seq![]
        } else {
            s.active_account_id
        },
        launch_extra_args: s.launch_extra_args,
        plugin_enabled: s.plugin_enabled,
        auth: s.auth,
        accounts: without_id(s.accounts, id),
    }
}

/// Normalising stored accounts keeps each of them, with its id and whether
/// it is enabled, whatever ids stand in for blank ones.
proof fn lemma_stored_accounts_kept(accounts: Seq<AccountView>, ids: Seq<Seq<char>>)
    requires
        forall|i: int| 0 <= i < accounts.len() ==> stored_account(#[trigger] accounts[i]),
    ensures
        spec_normalize_accounts(accounts, ids).len() == accounts.len(),
        forall|k: int|
            0 <= k < accounts.len() ==> (#[trigger] spec_normalize_accounts(accounts, ids)[k]).id
                == accounts[k].id && spec_normalize_accounts(accounts, ids)[k].enabled
                == accounts[k].enabled,
    decreases accounts.len(),
{
    if accounts.len() > 0 {
        let d = accounts.drop_last();
        assert forall|i: int| 0 <= i < d.len() implies stored_account(#[trigger] d[i]) by {
            assert(d[i] == accounts[i]);
        }
        lemma_stored_accounts_kept(d, ids);
        let n = accounts.len() - 1;
        assert(stored_account(accounts[n]));
        assert(accounts.last() == accounts[n]);
        let r = spec_normalize_accounts(accounts, ids);
        let p = spec_normalize_accounts(d, ids);
        assert forall|k: int| 0 <= k < accounts.len() implies (#[trigger] r[k]).id
            == accounts[k].id && r[k].enabled == accounts[k].enabled by {
            if k < n {
                assert(r[k] == p[k]);
                assert(d[k] == accounts[k]);
            }
        }
    }
}

/// Two account lists with the same ids and flags, in order, have the same
/// first enabled id and the same active ones.
proof fn lemma_same_ids_flags(x: Seq<AccountView>, y: Seq<AccountView>, id: Seq<char>)
    requires
        x.len() == y.len(),
        forall|k: int| 0 <= k < x.len() ==> (#[trigger] x[k]).id == y[k].id && x[k].enabled
            == y[k].enabled,
    ensures
        first_enabled_id(x) == first_enabled_id(y),
        has_active(x, id) <==> has_active(y, id),
    decreases x.len(),
{
    if has_active(x, id) {
        let i = choose|i: int| is_active_at(x, id, i);
        assert(is_active_at(y, id, i));
    }
    if has_active(y, id) {
        let i = choose|i: int| is_active_at(y, id, i);
        assert(x[i].id == y[i].id);
        assert(is_active_at(x, id, i));
    }
    if x.len() > 0 {
        let dx = x.drop_first();
        let dy = y.drop_first();
        assert forall|k: int| 0 <= k < dx.len() implies (#[trigger] dx[k]).id == dy[k].id
            && dx[k].enabled == dy[k].enabled by {
            assert(dx[k] == x[k + 1]);
            assert(dy[k] == y[k + 1]);
        }
        lemma_same_ids_flags(dx, dy, id);
        assert(x[0].id == y[0].id && x[0].enabled == y[0].enabled);
    }
}

/// Deleting keeps each remaining account among the accounts, and keeps
/// every account whose id differs.
proof fn lemma_without_id_members(accounts: Seq<AccountView>, id: Seq<char>)
    ensures
        forall|k: int|
            0 <= k < without_id(accounts, id).len() ==> exists|j: int|
                0 <= j < accounts.len() && #[trigger] without_id(accounts, id)[k] == accounts[j],
        forall|j: int|
            0 <= j < accounts.len() && (#[trigger] accounts[j]).id != id ==> exists|k: int|
                0 <= k < without_id(accounts, id).len() && without_id(accounts, id)[k]
                    == accounts[j],
    decreases accounts.len(),
{
    if accounts.len() > 0 {
        let d = accounts.drop_last();
        lemma_without_id_members(d, id);
        let r = without_id(accounts, id);
        let p = without_id(d, id);
        assert forall|k: int| 0 <= k < r.len() implies exists|j: int|
            0 <= j < accounts.len() && #[trigger] r[k] == accounts[j] by {
            if k < p.len() {
                assert(r[k] == p[k]);
                let j = choose|j: int| 0 <= j < d.len() && p[k] == d[j];
                assert(d[j] == accounts[j]);
            } else {
                assert(r[k] == accounts[accounts.len() - 1]);
            }
        }
        assert forall|j: int| 0 <= j < accounts.len() && (#[trigger] accounts[j]).id != id implies exists|k: int|
            0 <= k < r.len() && r[k] == accounts[j] by {
            if j < d.len() {
                assert(d[j] == accounts[j]);
                let k = choose|k: int| 0 <= k < p.len() && p[k] == d[j];
                assert(r[k] == p[k]);
            } else {
                assert(r[r.len() - 1] == accounts[j]);
            }
        }
    }
}

/// Accounts whose ids are not blank: the first enabled id is empty exactly
/// when none is enabled.
proof fn lemma_first_enabled_empty(accounts: Seq<AccountView>)
    requires
        forall|i: int| 0 <= i < accounts.len() ==> (#[trigger] accounts[i]).id.len() > 0,
    ensures
        first_enabled_id(accounts).len() == 0 <==> forall|i: int|
            0 <= i < accounts.len() ==> !(#[trigger] accounts[i]).enabled,
    decreases accounts.len(),
{
    if accounts.len() > 0 {
        let d = accounts.drop_first();
        assert forall|i: int| 0 <= i < d.len() implies (#[trigger] d[i]).id.len() > 0 by {
            assert(d[i] == accounts[i + 1]);
        }
        lemma_first_enabled_empty(d);
        if !accounts[0].enabled {
            assert forall|i: int| 0 <= i < d.len() implies #[trigger] d[i] == accounts[i + 1] by {}
            if forall|i: int| 0 <= i < d.len() ==> !(#[trigger] d[i]).enabled {
                assert forall|i: int| 0 <= i < accounts.len() implies !(#[trigger] accounts[i]).enabled by {
                    if i > 0 {
                        assert(accounts[i] == d[i - 1]);
                    }
                }
            } else {
                let i = choose|i: int| 0 <= i < d.len() && (#[trigger] d[i]).enabled;
                assert(accounts[i + 1] == d[i]);
            }
        }
    }
}

/// Loading normalises the settings, so what it gives is stored settings.
pub proof fn law_loaded_settings_stored(s: SettingsView, ids: Seq<Seq<char>>)
    requires
        fresh_ids_ok(ids, s.accounts.len()),
    ensures
        stored_settings(spec_normalized(s, ids)),
{
    let r = spec_normalized(s, ids);
    lemma_loaded_accounts_stored(s.accounts, ids);
    assert forall|i: int| 0 <= i < r.accounts.len() implies (#[trigger] r.accounts[i]).id.len() > 0 by {
        assert(stored_account(r.accounts[i]));
    }
    lemma_first_enabled_empty(r.accounts);
    law_normalized_active(s, ids);
    if !has_active(r.accounts, r.active_account_id) {
        assert(forall|i: int| 0 <= i < r.accounts.len() ==> !(#[trigger] r.accounts[i]).enabled);
        if has_active(r.accounts, s.active_account_id) {
            let i = choose|i: int| is_active_at(r.accounts, s.active_account_id, i);
            assert(r.accounts[i].enabled);
        }
    }
}

/// The accounts that normalisation keeps are stored accounts.
proof fn lemma_loaded_accounts_stored(accounts: Seq<AccountView>, ids: Seq<Seq<char>>)
    requires
        fresh_ids_cover(ids, accounts.len()),
    ensures
        forall|k: int|
            0 <= k < spec_normalize_accounts(accounts, ids).len() ==> stored_account(
                #[trigger] spec_normalize_accounts(accounts, ids)[k],
            ),
    decreases accounts.len(),
{
    if accounts.len() > 0 {
        let d = accounts.drop_last();
        lemma_loaded_accounts_stored(d, ids);
        let n = accounts.len() - 1;
        let a = accounts.last();
        let r = spec_normalize_accounts(accounts, ids);
        let p = spec_normalize_accounts(d, ids);
        lemma_normalize_api_key_idempotent(a.api_key);
        lemma_trim_idempotent(a.id);
        let f = ids[n];
        assert(f.len() == 36 && forall|k: int| 0 <= k < 36 ==> is_uuid_char(#[trigger] f[k]));
        assert(trim(f) == f) by {
            assert(is_uuid_char(f[0]));
            assert(is_uuid_char(f[35]));
            assert(f.last() == f[35]);
            lemma_trim_fixed(f);
        }
        assert forall|k: int| 0 <= k < r.len() implies stored_account(#[trigger] r[k]) by {
            if k < p.len() {
                assert(r[k] == p[k]);
            }
        }
    }
}

/// Deleting an account from stored settings and saving them again (the
/// save normalises): the accounts left are kept, in order, each with its id
/// and whether it is enabled; the active account stays active, unless it
/// was the one deleted, when the first enabled account left becomes active
/// (none when none is enabled).
pub proof fn law_delete_then_save(s: SettingsView, id: Seq<char>, ids: Seq<Seq<char>>)
    requires
        stored_settings(s),
    ensures
        spec_normalized(spec_delete_account(s, id), ids).accounts == spec_normalize_accounts(
            without_id(s.accounts, id),
            ids,
        ),
        spec_normalized(spec_delete_account(s, id), ids).accounts.len() == without_id(
            s.accounts,
            id,
        ).len(),
        forall|k: int|
            0 <= k < without_id(s.accounts, id).len() ==> (#[trigger] spec_normalized(
                spec_delete_account(s, id),
                ids,
            ).accounts[k]).id == without_id(s.accounts, id)[k].id && spec_normalized(
                spec_delete_account(s, id),
                ids,
            ).accounts[k].enabled == without_id(s.accounts, id)[k].enabled,
        spec_normalized(spec_delete_account(s, id), ids).active_account_id == if s.active_account_id
            == id {
            first_enabled_id(without_id(s.accounts, id))
        } else {
            s.active_account_id
        },
{
    let accounts = s.accounts;
    let rest = without_id(accounts, id);
    lemma_without_id_members(accounts, id);
    assert forall|k: int| 0 <= k < rest.len() implies stored_account(#[trigger] rest[k]) by {
        let j = choose|j: int| 0 <= j < accounts.len() && rest[k] == accounts[j];
        assert(stored_account(accounts[j]));
    }
    lemma_stored_accounts_kept(rest, ids);
    let nr = spec_normalize_accounts(rest, ids);
    let a2 = spec_delete_account(s, id).active_account_id;
    lemma_same_ids_flags(nr, rest, a2);
    assert forall|k: int| 0 <= k < rest.len() implies (#[trigger] rest[k]).id.len() > 0 by {
        assert(stored_account(rest[k]));
    }
    assert forall|i: int| 0 <= i < accounts.len() implies (#[trigger] accounts[i]).id.len() > 0 by {
        assert(stored_account(accounts[i]));
    }
    lemma_first_enabled_empty(rest);
    lemma_first_enabled_empty(accounts);
    if s.active_account_id == id {
        assert(!has_active(rest, a2)) by {
            if has_active(rest, a2) {
                let i = choose|i: int| is_active_at(rest, a2, i);
                assert(rest[i].id.len() > 0);
            }
        }
    } else if has_active(accounts, s.active_account_id) {
        let j = choose|j: int| is_active_at(accounts, s.active_account_id, j);
        assert(accounts[j].id != id);
        let k = choose|k: int| 0 <= k < rest.len() && rest[k] == accounts[j];
        assert(is_active_at(rest, a2, k));
    } else {
        assert(forall|i: int| 0 <= i < accounts.len() ==> !(#[trigger] accounts[i]).enabled);
        assert forall|k: int| 0 <= k < rest.len() implies !(#[trigger] rest[k]).enabled by {
            let j = choose|j: int| 0 <= j < accounts.len() && rest[k] == accounts[j];
            assert(!accounts[j].enabled);
        }
        assert(!has_active(rest, a2)) by {
            if has_active(rest, a2) {
                let i = choose|i: int| is_active_at(rest, a2, i);
                assert(!rest[i].enabled);
            }
        }
        assert(first_enabled_id(rest).len() == 0);
        assert(first_enabled_id(rest) =~= s.active_account_id);
    }
}

} // verus!
