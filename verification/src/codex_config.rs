//! Rewriting Codex's `config.toml` and `auth.json` for a manager account, and
//! the plans that apply, clear and restore them.

use vstd::prelude::*;
use vstd::string::StringExecFns;

pub use crate::preferences::{
    read_codex_preferences, save_codex_preferences, CodexPreferenceConfig, CodexPreferenceResult,
};

use crate::settings::{
    clean_url, normalize_api_key, spec_clean_url, spec_normalize_api_key, strings_view, Account,
    AccountView,
};
use crate::text::{
    lemma_join_append, lemma_lines_state_prefix, lemma_trim_start_drop_last,
    lemma_lines_no_cr, lemma_trim_end_idempotent, lemma_trim_end_no_cr, no_cr,
    is_ws, lemma_trim_fixed, occurs_at, lemma_lines_no_newline, lemma_lines_state_join,
    lemma_trim_end_join, lemma_trim_end_no_newline, lemma_trim_of_strip_cr, lemma_trim_of_trim_end,
    lemma_trimmed_join_parts, lines_state, no_newline, strip_cr,
    chars_lt, chars_of, contains, copy_range, decimal, decimal_chars, ends_with, ends_with_char,
    has_infix, has_prefix, has_suffix, join, join_chars, lemma_chars_lt_total, lemma_chars_lt_trans,
    less_chars, lines, push_all, same_chars, split_lines, starts_with, starts_with_char, string_of,
    trim, trim_chars, trim_end, trim_end_chars, trim_start, trim_start_chars, vecs_view,
};

verus! {

/// The section header of the manager's provider.
pub open spec fn manager_header() -> Seq<char> {
    "[model_providers.CodexManager]"@
}

/// A trimmed line that opens a table: `[` ... `]`.
pub open spec fn is_table_header(t: Seq<char>) -> bool {
    starts_with_char(t, '[') && ends_with_char(t, ']')
}

/// A trimmed line that selects the manager's provider.
pub open spec fn is_manager_provider_line(t: Seq<char>) -> bool {
    starts_with(t, "model_provider"@) && contains(t, "CodexManager"@)
}

/// Whether the manager's section is open after reading `ls`.
pub open spec fn in_manager_section(ls: Seq<Seq<char>>) -> bool
    decreases ls.len(),
{
    if ls.len() == 0 {
        false
    } else {
        let t = trim(ls.last());
        if is_table_header(t) {
            t == manager_header()
        } else {
            in_manager_section(ls.drop_last())
        }
    }
}

/// The lines that survive removal of the manager's provider: everything but
/// the manager's section and the top lines that select it.
pub open spec fn kept_lines(ls: Seq<Seq<char>>) -> Seq<Seq<char>>
    decreases ls.len(),
{
    if ls.len() == 0 {
        seq![]
    } else if in_manager_section(ls) || is_manager_provider_line(trim(ls.last())) {
        kept_lines(ls.drop_last())
    } else {
        kept_lines(ls.drop_last()).push(ls.last())
    }
}

/// `text` without its trailing white space, ended by one newline.
pub open spec fn ended(text: Seq<char>) -> Seq<char> {
    trim_end(text).push('\n')
}

/// The config with the manager's provider removed.
pub open spec fn spec_remove_manager_provider(current: Seq<char>) -> Seq<char> {
    ended(join(kept_lines(lines(current)), seq!['\n']))
}

/// The kept lines of `ls`.
fn keep_lines(ls: &Vec<Vec<char>>) -> (r: Vec<Vec<char>>)
    ensures
        vecs_view(r@) == kept_lines(vecs_view(ls@)),
{
    let header = chars_of("[model_providers.CodexManager]");
    let key = chars_of("model_provider");
    let name = chars_of("CodexManager");
    let ghost lv = vecs_view(ls@);
    let mut kept: Vec<Vec<char>> = Vec::new();
    let mut skipping = false;
    let mut i: usize = 0;
    while i < ls.len()
        invariant
            i <= ls@.len(),
            lv == vecs_view(ls@),
            header@ == manager_header(),
            key@ == "model_provider"@,
            name@ == "CodexManager"@,
            vecs_view(kept@) == kept_lines(lv.take(i as int)),
            skipping == in_manager_section(lv.take(i as int)),
        decreases ls@.len() - i,
    {
        let ghost pre = lv.take(i + 1);
        assert(pre.drop_last() =~= lv.take(i as int));
        assert(pre.last() == ls@[i as int]@);
        let t = trim_chars(ls[i].as_slice());
        let n = t.len();
        if n > 0 && t[0] == '[' && t[n - 1] == ']' {
            skipping = same_chars(t.as_slice(), header.as_slice());
        }
        let drop = skipping || (has_prefix(t.as_slice(), key.as_slice()) && has_infix(
            t.as_slice(),
            name.as_slice(),
        ));
        if !drop {
            kept.push(ls[i].clone());
            assert(vecs_view(kept@) =~= kept_lines(pre));
        }
        i = i + 1;
    }
    assert(lv.take(ls@.len() as int) =~= lv);
    kept
}

/// Removes the manager's provider section and the top-level lines that select
/// it; the rest is kept, with trailing white space replaced by one newline.
pub fn remove_manager_provider(current: &str) -> (r: String)
    ensures
        r@ == spec_remove_manager_provider(current@),
{
    let chars = chars_of(current);
    let ls = split_lines(chars.as_slice());
    let kept = keep_lines(&ls);
    let nl = vec!['\n'];
    assert(nl@ =~= seq!['\n']);
    let joined = join_chars(&kept, nl.as_slice());
    let mut out = trim_end_chars(joined.as_slice());
    out.push('\n');
    string_of(out.as_slice())
}


/// The index of the first line with property `p`, or the number of lines.
pub open spec fn first_line_where(ls: Seq<Seq<char>>, p: spec_fn(Seq<char>) -> bool) -> int
    decreases ls.len(),
{
    if ls.len() == 0 {
        0
    } else if p(ls[0]) {
        0
    } else {
        1 + first_line_where(ls.drop_first(), p)
    }
}

/// `i` is the first line of `ls` with property `p`, or `ls.len()` when none
/// has it.
pub open spec fn is_first_where(ls: Seq<Seq<char>>, p: spec_fn(Seq<char>) -> bool, i: int) -> bool {
    &&& 0 <= i <= ls.len()
    &&& i < ls.len() ==> p(ls[i])
    &&& forall|k: int| 0 <= k < i ==> !p(#[trigger] ls[k])
}

/// `first_line_where` is the first such line.
pub proof fn lemma_first_line_where(ls: Seq<Seq<char>>, p: spec_fn(Seq<char>) -> bool, i: int)
    requires
        is_first_where(ls, p, i),
    ensures
        first_line_where(ls, p) == i,
    decreases ls.len(),
{
    if ls.len() > 0 && !p(ls[0]) {
        let rest = ls.drop_first();
        assert forall|k: int| 0 <= k < i - 1 implies !p(#[trigger] rest[k]) by {
            assert(rest[k] == ls[k + 1]);
        }
        if i < ls.len() {
            assert(rest[i - 1] == ls[i]);
        }
        lemma_first_line_where(rest, p, i - 1);
    }
}

/// A line that opens a table once its leading white space is removed.
pub open spec fn opens_table(l: Seq<char>) -> bool {
    starts_with_char(trim_start(l), '[')
}

/// A line that assigns `key` once its leading white space is removed.
pub open spec fn assigns_key(l: Seq<char>, key: Seq<char>) -> bool {
    starts_with(trim_start(l), key.push(' ')) || starts_with(trim_start(l), key.push('='))
}

/// `key = value` as a line.
pub open spec fn assignment(key: Seq<char>, value: Seq<char>) -> Seq<char> {
    key + " = "@ + value
}

/// The lines with `key = value` set at the top level: the first top-level
/// line assigning `key` is replaced, or the line is put in front of the first
/// table.
pub open spec fn spec_upsert_top_level(ls: Seq<Seq<char>>, key: Seq<char>, value: Seq<char>) -> Seq<
    Seq<char>,
> {
    let f = first_line_where(ls, |l: Seq<char>| opens_table(l));
    let k = first_line_where(ls.take(f), |l: Seq<char>| assigns_key(l, key));
    if k < f {
        ls.update(k, assignment(key, value))
    } else {
        ls.insert(f, assignment(key, value))
    }
}

/// Sets `key = value` at the top level of `lines`.
fn upsert_top_level(lines: &mut Vec<Vec<char>>, key: &[char], value: &[char])
    ensures
        vecs_view(final(lines)@) == spec_upsert_top_level(vecs_view(old(lines)@), key@, value@),
{
    let ghost lv = vecs_view(lines@);
    let mut f: usize = 0;
    while f < lines.len() && !starts_with_bracket(lines[f].as_slice())
        invariant
            f <= lines@.len(),
            lv == vecs_view(lines@),
            forall|k: int| 0 <= k < f ==> !opens_table(#[trigger] lv[k]),
        decreases lines@.len() - f,
    {
        assert(lv[f as int] == lines@[f as int]@);
        f = f + 1;
    }
    proof {
        if f < lines@.len() {
            assert(lv[f as int] == lines@[f as int]@);
        }
        lemma_first_line_where(lv, |l: Seq<char>| opens_table(l), f as int);
    }
    assert(key@.subrange(0, key@.len() as int) =~= key@);
    let mut with_space = copy_range(key, 0, key.len());
    with_space.push(' ');
    let mut with_eq = copy_range(key, 0, key.len());
    with_eq.push('=');
    let mut entry = copy_range(key, 0, key.len());
    push_all(&mut entry, chars_of(" = ").as_slice());
    push_all(&mut entry, value);
    let ghost top = lv.take(f as int);
    let mut k: usize = 0;
    while k < f
        invariant
            k <= f <= lines@.len(),
            lv == vecs_view(lines@),
            top == lv.take(f as int),
            lv == vecs_view(old(lines)@),
            first_line_where(lv, |l: Seq<char>| opens_table(l)) == f,
            with_space@ == key@.push(' '),
            with_eq@ == key@.push('='),
            entry@ == assignment(key@, value@),
            forall|m: int| 0 <= m < k ==> !assigns_key(#[trigger] top[m], key@),
        decreases f - k,
    {
        let t = trim_start_chars(lines[k].as_slice());
        assert(top[k as int] == lv[k as int]);
        assert(lv[k as int] == lines@[k as int]@);
        if has_prefix(t.as_slice(), with_space.as_slice()) || has_prefix(
            t.as_slice(),
            with_eq.as_slice(),
        ) {
            proof {
                lemma_first_line_where(top, |l: Seq<char>| assigns_key(l, key@), k as int);
            }
            lines.set(k, entry);
            assert(vecs_view(lines@) =~= lv.update(k as int, entry@));
            return;
        }
        k = k + 1;
    }
    proof {
        lemma_first_line_where(top, |l: Seq<char>| assigns_key(l, key@), f as int);
    }
    lines.insert(f, entry);
    assert(vecs_view(lines@) =~= lv.insert(f as int, entry@));
}

/// Whether the line opens a table once leading white space is removed.
fn starts_with_bracket(l: &[char]) -> (r: bool)
    ensures
        r == opens_table(l@),
{
    let t = trim_start_chars(l);
    t.len() > 0 && t[0] == '['
}


/// One character as it stands inside a TOML basic string.
pub open spec fn escape_toml_char(c: char) -> Seq<char> {
    if c == '\\' {
        seq!['\\', '\\']
    } else if c == '"' {
        seq!['\\', '"']
    } else {
        seq![c]
    }
}

/// `value` with backslashes and double quotes escaped by a backslash.
pub open spec fn spec_escape_toml_string(value: Seq<char>) -> Seq<char>
    decreases value.len(),
{
    if value.len() == 0 {
        seq![]
    } else {
        spec_escape_toml_string(value.drop_last()) + escape_toml_char(value.last())
    }
}

/// Escapes backslashes and double quotes for a TOML basic string.
fn escape_toml_string(value: &[char]) -> (r: Vec<char>)
    ensures
        r@ == spec_escape_toml_string(value@),
{
    let mut out: Vec<char> = Vec::new();
    let mut i: usize = 0;
    while i < value.len()
        invariant
            i <= value@.len(),
            out@ == spec_escape_toml_string(value@.take(i as int)),
        decreases value@.len() - i,
    {
        assert(value@.take(i + 1).drop_last() =~= value@.take(i as int));
        assert(value@.take(i + 1).last() == value@[i as int]);
        let c = value[i];
        if c == '\\' {
            out.push('\\');
            out.push('\\');
        } else if c == '"' {
            out.push('\\');
            out.push('"');
        } else {
            out.push(c);
        }
        assert(out@ =~= spec_escape_toml_string(value@.take(i + 1)));
        i = i + 1;
    }
    assert(value@.take(value@.len() as int) =~= value@);
    out
}

/// The lines with trailing blank lines removed.
pub open spec fn drop_trailing_blank(ls: Seq<Seq<char>>) -> Seq<Seq<char>>
    decreases ls.len(),
{
    if ls.len() > 0 && trim(ls.last()).len() == 0 {
        drop_trailing_blank(ls.drop_last())
    } else {
        ls
    }
}

/// The manager's provider section for `base_url`, after an empty line.
pub open spec fn manager_section(base_url: Seq<char>) -> Seq<Seq<char>> {
    seq![
        seq![],
        manager_header(),
        "name = \"CodexManager\""@,
        "wire_api = \"responses\""@,
        "requires_openai_auth = true"@,
        "base_url = \""@ + spec_escape_toml_string(base_url) + "\""@,
    ]
}

/// The config that selects the manager's provider at `base_url`: the old
/// manager provider removed, `model_provider = "CodexManager"` set at the top
/// level, and the manager's section appended.
pub open spec fn spec_build_codex_config(current: Seq<char>, base_url: Seq<char>) -> Seq<char> {
    let ls = spec_upsert_top_level(
        lines(spec_remove_manager_provider(current)),
        "model_provider"@,
        "\"CodexManager\""@,
    );
    ended(join(drop_trailing_blank(ls) + manager_section(base_url), seq!['\n']))
}

/// Rewrites `current` so that it selects the manager's provider at
/// `base_url`.
pub fn build_codex_config(current: &str, base_url: &str) -> (r: String)
    ensures
        r@ == spec_build_codex_config(current@, base_url@),
{
    let without_provider = remove_manager_provider(current);
    let chars = chars_of(without_provider.as_str());
    let mut ls = split_lines(chars.as_slice());
    let key = chars_of("model_provider");
    let value = chars_of("\"CodexManager\"");
    upsert_top_level(&mut ls, key.as_slice(), value.as_slice());
    let ghost upserted = vecs_view(ls@);
    while ls.len() > 0 && trim_chars(ls[ls.len() - 1].as_slice()).len() == 0
        invariant
            drop_trailing_blank(vecs_view(ls@)) == drop_trailing_blank(upserted),
        decreases ls@.len(),
    {
        let ghost before = vecs_view(ls@);
        ls.pop();
        assert(vecs_view(ls@) =~= before.drop_last());
    }
    let ghost kept = vecs_view(ls@);
    ls.push(Vec::new());
    ls.push(chars_of("[model_providers.CodexManager]"));
    ls.push(chars_of("name = \"CodexManager\""));
    ls.push(chars_of("wire_api = \"responses\""));
    ls.push(chars_of("requires_openai_auth = true"));
    let mut last = chars_of("base_url = \"");
    let escaped = escape_toml_string(chars_of(base_url).as_slice());
    push_all(&mut last, escaped.as_slice());
    push_all(&mut last, chars_of("\"").as_slice());
    ls.push(last);
    assert(vecs_view(ls@) =~= kept + manager_section(base_url@));
    let nl = vec!['\n'];
    assert(nl@ =~= seq!['\n']);
    let joined = join_chars(&ls, nl.as_slice());
    let mut out = trim_end_chars(joined.as_slice());
    out.push('\n');
    string_of(out.as_slice())
}


#[verifier::external_type_specification]
#[verifier::external_body]
pub struct ExJsonError(serde_json::Error);

/// A lowercase hexadecimal digit.
pub open spec fn hex_digit(d: nat) -> char
    recommends
        d < 16,
{
    seq!['0', '1', '2', '3', '4', '5', '6', '7', '8', '9', 'a', 'b', 'c', 'd', 'e', 'f'][d as int]
}

/// How `serde_json` writes one character inside a string: `"` and `\` after
/// a backslash, the short escapes `\b \t \n \f \r`, any other control
/// character below U+0020 as `\u00` and two lowercase hex digits, and every
/// other character as it is.
pub open spec fn json_escape_char(c: char) -> Seq<char> {
    let u = c as u32;
    if c == '"' {
        seq!['\\', '"']
    } else if c == '\\' {
        seq!['\\', '\\']
    } else if u == 8 {
        seq!['\\', 'b']
    } else if u == 9 {
        seq!['\\', 't']
    } else if u == 10 {
        seq!['\\', 'n']
    } else if u == 12 {
        seq!['\\', 'f']
    } else if u == 13 {
        seq!['\\', 'r']
    } else if u < 0x20 {
        seq!['\\', 'u', '0', '0', hex_digit((u / 16) as nat), hex_digit((u % 16) as nat)]
    } else {
        seq![c]
    }
}

/// The characters of `s`, each written as `serde_json` writes it in a string.
pub open spec fn json_escaped(s: Seq<char>) -> Seq<char>
    decreases s.len(),
{
    if s.len() == 0 {
        seq![]
    } else {
        json_escaped(s.drop_last()) + json_escape_char(s.last())
    }
}

/// What `serde_json::to_string` writes for a string: the JSON string literal,
/// the escaped characters between double quotes.
pub open spec fn json_string_literal(s: Seq<char>) -> Seq<char> {
    seq!['"'] + json_escaped(s) + seq!['"']
}

/// `serde_json::to_string` of a string slice.
///
/// It writes the JSON string literal for `s` (`format_escaped_str` with the
/// compact formatter and the `ESCAPE` table of `ser.rs`); for a `str` nothing
/// in the serializer can fail (the writer is a `Vec<u8>`), so the result is
/// `Ok`.
#[verifier::external_body]
pub(crate) fn json_quote(s: &str) -> (r: Result<String, serde_json::Error>)
    ensures
        r is Ok,
        r matches Ok(t) ==> t@ == json_string_literal(s@),
{
    serde_json::to_string(s)
}

/// The `auth.json` that hands `api_key` to Codex, as one JSON object line.
pub open spec fn spec_codex_auth(api_key: Seq<char>) -> Seq<char> {
    "{\"OPENAI_API_KEY\":"@ + json_string_literal(api_key) + "}\n"@
}

/// `{"OPENAI_API_KEY":<api_key>}` and a newline.
pub fn build_codex_auth(api_key: &str) -> (r: String)
    ensures
        r@ == spec_codex_auth(api_key@),
{
    let quoted = match json_quote(api_key) {
        Ok(t) => t,
        Err(_) => String::new(),
    };
    let mut out = String::from_str("{\"OPENAI_API_KEY\":");
    out.append(quoted.as_str());
    out.append("}\n");
    out
}

/// The outcome of a change to Codex's files, as the manager reports it.
#[derive(Debug)]
pub struct CodexApplyResult {
    pub status: String,
    pub message: String,
    pub config_path: String,
    pub auth_path: String,
    pub backup_path: String,
    pub account_id: String,
    pub account_name: String,
    pub base_url: String,
}

/// Codex's current files, as shown to the user.
#[derive(Debug)]
pub struct CodexConfigView {
    pub config_path: String,
    pub auth_path: String,
    pub config_toml: String,
    pub auth_json: String,
    pub backup_available: bool,
}

/// The latest backup, as shown before it is restored.
#[derive(Debug)]
pub struct BackupConfigPreview {
    pub backup_path: String,
    pub reason: String,
    pub created_at_ms: u128,
    pub source_account_name: String,
    pub config_path: String,
    pub auth_path: String,
    pub config_toml: String,
    pub auth_json: String,
}

/// One of Codex's files as a backup holds it.
#[derive(Debug)]
pub struct FileSnapshot {
    pub exists: bool,
    pub contents: String,
}

/// A backup of Codex's files, taken before each change.
#[derive(Debug)]
pub struct BackupSnapshot {
    pub created_at_ms: u128,
    pub reason: String,
    pub account: Option<Account>,
    pub config_toml: FileSnapshot,
    pub auth_json: FileSnapshot,
}

/// What to do with one of Codex's files.
#[derive(Debug)]
pub enum FileAction {
    /// Write these contents.
    Write(String),
    /// Remove the file.
    Remove,
}

/// The files to write for a change to Codex's configuration, and the result
/// to report once they are written.
#[derive(Debug)]
pub struct CodexApplyPlan {
    pub next_config: String,
    pub next_auth: String,
    pub result: CodexApplyResult,
}

/// Why an account cannot be applied.
#[derive(Debug, PartialEq, Eq)]
pub enum CodexConfigError {
    AccountDisabled,
    EmptyApiKey,
    EmptyBaseUrl,
}

impl CodexConfigError {
    /// The message shown for this error.
    pub fn message(&self) -> (r: String)
        ensures
            r@ == match self {
                CodexConfigError::AccountDisabled => "account is disabled"@,
                CodexConfigError::EmptyApiKey => "account api key is empty"@,
                CodexConfigError::EmptyBaseUrl => "account base url is empty"@,
            },
    {
        match self {
            CodexConfigError::AccountDisabled => String::from_str("account is disabled"),
            CodexConfigError::EmptyApiKey => String::from_str("account api key is empty"),
            CodexConfigError::EmptyBaseUrl => String::from_str("account base url is empty"),
        }
    }
}

/// The error, if any, that keeps `account` from being applied.
pub open spec fn apply_error(a: AccountView) -> Option<CodexConfigError> {
    if !a.enabled {
        Some(CodexConfigError::AccountDisabled)
    } else if spec_normalize_api_key(a.api_key).len() == 0 {
        Some(CodexConfigError::EmptyApiKey)
    } else if spec_clean_url(a.base_url).len() == 0 {
        Some(CodexConfigError::EmptyBaseUrl)
    } else {
        None
    }
}

/// Plans the switch of Codex to `account`: its provider section at the
/// cleaned base URL, its normalised key in `auth.json`.  A disabled account,
/// an empty key or an empty base URL is refused, in that order.
pub fn apply_account_to_codex(
    account: &Account,
    current_config: &str,
    config_path: &str,
    auth_path: &str,
    backup_path: &str,
) -> (r: Result<CodexApplyPlan, CodexConfigError>)
    ensures
        match r {
            Err(e) => apply_error(account@) == Some(e),
            Ok(p) => {
                &&& apply_error(account@) is None
                &&& p.next_config@ == spec_build_codex_config(
                    current_config@,
                    spec_clean_url(account.base_url@),
                )
                &&& p.next_auth@ == spec_codex_auth(spec_normalize_api_key(account.api_key@))
                &&& p.result.status@ == "ok"@
                &&& p.result.message@ == "Applied account "@ + account.name@
                &&& p.result.config_path@ == config_path@
                &&& p.result.auth_path@ == auth_path@
                &&& p.result.backup_path@ == backup_path@
                &&& p.result.account_id@ == account.id@
                &&& p.result.account_name@ == account.name@
                &&& p.result.base_url@ == spec_clean_url(account.base_url@)
            },
        },
{
    if !account.enabled {
        return Err(CodexConfigError::AccountDisabled);
    }
    let api_key = normalize_api_key(account.api_key.as_str());
    if api_key.unicode_len() == 0 {
        return Err(CodexConfigError::EmptyApiKey);
    }
    let base_url = clean_url(account.base_url.as_str());
    if base_url.unicode_len() == 0 {
        return Err(CodexConfigError::EmptyBaseUrl);
    }
    let next_config = build_codex_config(current_config, base_url.as_str());
    let next_auth = build_codex_auth(api_key.as_str());
    let mut message = String::from_str("Applied account ");
    message.append(account.name.as_str());
    Ok(
        CodexApplyPlan {
            next_config,
            next_auth,
            result: CodexApplyResult {
                status: String::from_str("ok"),
                message,
                config_path: String::from_str(config_path),
                auth_path: String::from_str(auth_path),
                backup_path: String::from_str(backup_path),
                account_id: account.id.clone(),
                account_name: account.name.clone(),
                base_url,
            },
        },
    )
}

/// Plans the removal of the manager's API mode: the provider removed from the
/// config and an empty JSON object in `auth.json`.
pub fn clear_codex_manager_config(
    current_config: &str,
    config_path: &str,
    auth_path: &str,
    backup_path: &str,
) -> (r: CodexApplyPlan)
    ensures
        r.next_config@ == spec_remove_manager_provider(current_config@),
        r.next_auth@ == "{}\n"@,
        r.result.status@ == "ok"@,
        r.result.message@ == "Cleared Codex Manager API mode"@,
        r.result.config_path@ == config_path@,
        r.result.auth_path@ == auth_path@,
        r.result.backup_path@ == backup_path@,
        r.result.account_id@.len() == 0,
        r.result.account_name@.len() == 0,
        r.result.base_url@.len() == 0,
{
    CodexApplyPlan {
        next_config: remove_manager_provider(current_config),
        next_auth: String::from_str("{}\n"),
        result: CodexApplyResult {
            status: String::from_str("ok"),
            message: String::from_str("Cleared Codex Manager API mode"),
            config_path: String::from_str(config_path),
            auth_path: String::from_str(auth_path),
            backup_path: String::from_str(backup_path),
            account_id: String::new(),
            account_name: String::new(),
            base_url: String::new(),
        },
    }
}

/// What to do with a file to bring back its backed-up state: write the
/// contents it had, or remove it when it did not exist.
pub fn snapshot_action(snapshot: &FileSnapshot) -> (r: FileAction)
    ensures
        match r {
            FileAction::Write(c) => snapshot.exists && c@ == snapshot.contents@,
            FileAction::Remove => !snapshot.exists,
        },
{
    if snapshot.exists {
        FileAction::Write(snapshot.contents.clone())
    } else {
        FileAction::Remove
    }
}

/// The files to write or remove to restore a backup, and the result to report.
#[derive(Debug)]
pub struct RestorePlan {
    pub config: FileAction,
    pub auth: FileAction,
    pub result: CodexApplyResult,
}

/// A field of the backed-up account, or empty when the backup has none.
pub open spec fn account_field(a: Option<Account>, f: spec_fn(Account) -> Seq<char>) -> Seq<char> {
    match a {
        Some(x) => f(x),
        None => seq![],
    }
}

/// The state of a file as a backup records it: its contents, or `None` when
/// it did not exist.
pub open spec fn file_state(s: FileSnapshot) -> Option<Seq<char>> {
    if s.exists {
        Some(s.contents@)
    } else {
        None
    }
}

/// The record of a file for a backup, from its contents (`None` when it
/// does not exist).
pub fn file_snapshot(contents: Option<String>) -> (r: FileSnapshot)
    ensures
        file_state(r) == match contents {
            Some(c) => Some(c@),
            None => None::<Seq<char>>,
        },
{
    match contents {
        Some(c) => FileSnapshot { exists: true, contents: c },
        None => FileSnapshot { exists: false, contents: String::new() },
    }
}

/// The state of a file once `a` is carried out on it, whatever it was before.
pub open spec fn state_after(a: FileAction, before: Option<Seq<char>>) -> Option<Seq<char>> {
    match a {
        FileAction::Write(c) => Some(c@),
        FileAction::Remove => None,
    }
}

/// Plans the restore of `snapshot`, read from `backup_path`: each file gets
/// back its backed-up state, whatever an apply or a clear since wrote to
/// it, and the result names the backed-up account.
pub fn restore_latest_backup(
    snapshot: &BackupSnapshot,
    backup_path: &str,
    config_path: &str,
    auth_path: &str,
) -> (r: RestorePlan)
    ensures
        match r.config {
            FileAction::Write(c) => snapshot.config_toml.exists && c@ == snapshot.config_toml.contents@,
            FileAction::Remove => !snapshot.config_toml.exists,
        },
        match r.auth {
            FileAction::Write(c) => snapshot.auth_json.exists && c@ == snapshot.auth_json.contents@,
            FileAction::Remove => !snapshot.auth_json.exists,
        },
        forall|before: Option<Seq<char>>| #[trigger]
            state_after(r.config, before) == file_state(snapshot.config_toml),
        forall|before: Option<Seq<char>>| #[trigger]
            state_after(r.auth, before) == file_state(snapshot.auth_json),
        r.result.status@ == "ok"@,
        r.result.message@ == "Restored latest Codex configuration backup"@,
        r.result.config_path@ == config_path@,
        r.result.auth_path@ == auth_path@,
        r.result.backup_path@ == backup_path@,
        r.result.account_id@ == account_field(snapshot.account, |a: Account| a.id@),
        r.result.account_name@ == account_field(snapshot.account, |a: Account| a.name@),
        r.result.base_url@ == account_field(snapshot.account, |a: Account| a.base_url@),
{
    let (account_id, account_name, base_url) = match &snapshot.account {
        Some(a) => (a.id.clone(), a.name.clone(), a.base_url.clone()),
        None => (String::new(), String::new(), String::new()),
    };
    RestorePlan {
        config: snapshot_action(&snapshot.config_toml),
        auth: snapshot_action(&snapshot.auth_json),
        result: CodexApplyResult {
            status: String::from_str("ok"),
            message: String::from_str("Restored latest Codex configuration backup"),
            config_path: String::from_str(config_path),
            auth_path: String::from_str(auth_path),
            backup_path: String::from_str(backup_path),
            account_id,
            account_name,
            base_url,
        },
    }
}

/// The preview of `snapshot`, read from `backup_path`, before it is restored.
pub fn read_latest_backup_preview(
    snapshot: &BackupSnapshot,
    backup_path: &str,
    config_path: &str,
    auth_path: &str,
) -> (r: BackupConfigPreview)
    ensures
        r.backup_path@ == backup_path@,
        r.reason@ == snapshot.reason@,
        r.created_at_ms == snapshot.created_at_ms,
        r.source_account_name@ == account_field(snapshot.account, |a: Account| a.name@),
        r.config_path@ == config_path@,
        r.auth_path@ == auth_path@,
        r.config_toml@ == snapshot.config_toml.contents@,
        r.auth_json@ == snapshot.auth_json.contents@,
{
    let source_account_name = match &snapshot.account {
        Some(a) => a.name.clone(),
        None => String::new(),
    };
    BackupConfigPreview {
        backup_path: String::from_str(backup_path),
        reason: snapshot.reason.clone(),
        created_at_ms: snapshot.created_at_ms,
        source_account_name,
        config_path: String::from_str(config_path),
        auth_path: String::from_str(auth_path),
        config_toml: snapshot.config_toml.contents.clone(),
        auth_json: snapshot.auth_json.contents.clone(),
    }
}

/// The view of Codex's files, from their paths and contents (empty for a
/// missing file) and whether a backup exists.
pub fn read_codex_view(
    config_path: &str,
    auth_path: &str,
    config_toml: &str,
    auth_json: &str,
    backup_available: bool,
) -> (r: CodexConfigView)
    ensures
        r.config_path@ == config_path@,
        r.auth_path@ == auth_path@,
        r.config_toml@ == config_toml@,
        r.auth_json@ == auth_json@,
        r.backup_available == backup_available,
{
    CodexConfigView {
        config_path: String::from_str(config_path),
        auth_path: String::from_str(auth_path),
        config_toml: String::from_str(config_toml),
        auth_json: String::from_str(auth_json),
        backup_available,
    }
}

/// The name of a backup file: `<created_at_ms>-<reason>.json`.
pub open spec fn spec_backup_file_name(created_at_ms: u128, reason: Seq<char>) -> Seq<char> {
    decimal(created_at_ms as nat) + seq!['-'] + reason + ".json"@
}

/// `<created_at_ms>-<reason>.json`.
pub fn backup_file_name(created_at_ms: u128, reason: &str) -> (r: String)
    ensures
        r@ == spec_backup_file_name(created_at_ms, reason@),
{
    let mut v = decimal_chars(created_at_ms);
    v.push('-');
    push_all(&mut v, chars_of(reason).as_slice());
    push_all(&mut v, chars_of(".json").as_slice());
    string_of(v.as_slice())
}


/// A file name whose extension is `json` (`Path::extension`: the part after
/// the last dot, when something comes before that dot).
pub open spec fn has_json_extension(name: Seq<char>) -> bool {
    name.len() > 5 && ends_with(name, ".json"@)
}

/// `names[i]` is the last of the JSON files in `names`, in the order of names.
pub open spec fn is_latest_backup(names: Seq<Seq<char>>, i: int) -> bool {
    &&& 0 <= i < names.len()
    &&& has_json_extension(names[i])
    &&& forall|k: int|
        0 <= k < names.len() && has_json_extension(#[trigger] names[k]) ==> !chars_lt(
            names[i],
            names[k],
        )
}

/// Whether `name` has the `json` extension.
fn is_json_file(name: &String) -> (r: bool)
    ensures
        r == has_json_extension(name@),
{
    let v = chars_of(name.as_str());
    v.len() > 5 && has_suffix(v.as_slice(), chars_of(".json").as_slice())
}

/// The latest backup among the names in the backup directory: the greatest
/// name with the `json` extension, or `None` when there is none.  Names in one
/// directory sort as their paths do.
pub fn latest_backup_name(names: &Vec<String>) -> (r: Option<String>)
    ensures
        match r {
            Some(n) => exists|i: int| is_latest_backup(strings_view(names@), i) && n@ == names@[i]@,
            None => forall|k: int|
                0 <= k < names@.len() ==> !has_json_extension(#[trigger] names@[k]@),
        },
{
    let ghost nv = strings_view(names@);
    let mut best: Option<usize> = None;
    let mut i: usize = 0;
    while i < names.len()
        invariant
            i <= names@.len(),
            nv == strings_view(names@),
            match best {
                Some(b) => b < i && has_json_extension(nv[b as int]) && forall|k: int|
                    0 <= k < i && has_json_extension(#[trigger] nv[k]) ==> !chars_lt(
                        nv[b as int],
                        nv[k],
                    ),
                None => forall|k: int| 0 <= k < i ==> !has_json_extension(#[trigger] nv[k]),
            },
        decreases names@.len() - i,
    {
        assert(nv[i as int] == names@[i as int]@);
        if is_json_file(&names[i]) {
            match best {
                None => {
                    proof {
                        lemma_chars_lt_total(nv[i as int], nv[i as int]);
                    }
                    best = Some(i);
                },
                Some(b) => {
                    let cur = chars_of(names[b].as_str());
                    let cand = chars_of(names[i].as_str());
                    assert(nv[b as int] == names@[b as int]@);
                    if less_chars(cur.as_slice(), cand.as_slice()) {
                        proof {
                            assert forall|k: int|
                                0 <= k <= i && has_json_extension(#[trigger] nv[k]) implies !chars_lt(
                                nv[i as int],
                                nv[k],
                            ) by {
                                lemma_chars_lt_total(nv[i as int], nv[k]);
                                lemma_chars_lt_total(nv[b as int], nv[k]);
                                if k < i && chars_lt(nv[i as int], nv[k]) {
                                    lemma_chars_lt_trans(nv[b as int], nv[i as int], nv[k]);
                                }
                            }
                        }
                        best = Some(i);
                    } else {
                        proof {
                            lemma_chars_lt_total(nv[b as int], nv[i as int]);
                        }
                    }
                },
            }
        }
        i = i + 1;
    }
    match best {
        Some(b) => {
            let n = names[b].clone();
            assert(is_latest_backup(nv, b as int));
            assert(n@ == names@[b as int]@);
            Some(n)
        },
        None => {
            assert forall|k: int| 0 <= k < names@.len() implies !has_json_extension(
                #[trigger] names@[k]@,
            ) by {
                assert(nv[k] == names@[k]@);
            }
            None
        },
    }
}


/// Clearing the manager's provider leaves no line that selects it and no
/// header of its section.
pub proof fn law_cleared_lines(ls: Seq<Seq<char>>)
    ensures
        forall|k: int|
            0 <= k < kept_lines(ls).len() ==> {
                let t = trim(#[trigger] kept_lines(ls)[k]);
                &&& !is_manager_provider_line(t)
                &&& t != manager_header()
            },
    decreases ls.len(),
{
    if ls.len() > 0 {
        let d = ls.drop_last();
        law_cleared_lines(d);
        let r = kept_lines(ls);
        let p = kept_lines(d);
        assert forall|k: int| 0 <= k < r.len() implies {
            let t = trim(#[trigger] r[k]);
            &&& !is_manager_provider_line(t)
            &&& t != manager_header()
        } by {
            if k < p.len() {
                assert(r[k] == p[k]);
            } else {
                let t = trim(ls.last());
                if t == manager_header() {
                    assert(is_table_header(t)) by {
                        reveal_strlit("[model_providers.CodexManager]");
                    }
                }
            }
        }
    }
}


/// Every kept line is one of the lines.
proof fn lemma_kept_no_newline(ls: Seq<Seq<char>>)
    requires
        forall|i: int| 0 <= i < ls.len() ==> no_newline(#[trigger] ls[i]),
    ensures
        forall|k: int| 0 <= k < kept_lines(ls).len() ==> no_newline(#[trigger] kept_lines(ls)[k]),
    decreases ls.len(),
{
    if ls.len() > 0 {
        let d = ls.drop_last();
        assert forall|i: int| 0 <= i < d.len() implies no_newline(#[trigger] d[i]) by {
            assert(d[i] == ls[i]);
        }
        lemma_kept_no_newline(d);
        let r = kept_lines(ls);
        let p = kept_lines(d);
        assert forall|k: int| 0 <= k < r.len() implies no_newline(#[trigger] r[k]) by {
            if k < p.len() {
                assert(r[k] == p[k]);
            } else {
                assert(r[k] == ls.last());
                assert(no_newline(ls[ls.len() - 1]));
            }
        }
    }
}

/// The config with the manager's provider removed holds no line that selects
/// that provider and no header of its section.
pub proof fn law_cleared_config(current: Seq<char>)
    ensures
        forall|k: int|
            0 <= k < lines(spec_remove_manager_provider(current)).len() ==> {
                let t = trim(#[trigger] lines(spec_remove_manager_provider(current))[k]);
                &&& !is_manager_provider_line(t)
                &&& t != manager_header()
            },
{
    let nl = seq!['\n'];
    let ls = lines(current);
    let kk = kept_lines(ls);
    law_cleared_lines(ls);
    lemma_lines_no_newline(current);
    lemma_kept_no_newline(ls);
    lemma_trim_end_join(kk);
    let q = lemma_trimmed_join_parts(kk);
    let x = join(q, nl);
    let o = spec_remove_manager_provider(current);
    assert(o == x.push('\n'));
    assert(o.drop_last() =~= x);
    let out = lines(o);
    assert(out == lines_state(x).0.push(strip_cr(lines_state(x).1)));
    if q.len() == 0 {
        assert(x =~= Seq::<char>::empty());
        assert(out =~= seq![Seq::<char>::empty()]);
        let e = Seq::<char>::empty();
        assert(trim(out[0]) =~= e);
        assert(!is_manager_provider_line(e)) by {
            reveal_strlit("model_provider");
        }
        assert(e != manager_header()) by {
            reveal_strlit("[model_providers.CodexManager]");
        }
    } else {
        assert forall|i: int| 0 <= i < q.len() implies no_newline(#[trigger] q[i]) by {
            if i < q.len() - 1 {
                assert(q[i] == kk[i]);
            } else {
                lemma_trim_end_no_newline(kk[i]);
            }
        }
        lemma_lines_state_join(q);
        assert forall|k: int| 0 <= k < out.len() implies {
            let t = trim(#[trigger] out[k]);
            &&& !is_manager_provider_line(t)
            &&& t != manager_header()
        } by {
            assert(out[k] == strip_cr(q[k]));
            lemma_trim_of_strip_cr(q[k]);
            if k < q.len() - 1 {
                assert(q[k] == kk[k]);
            } else {
                lemma_trim_of_trim_end(kk[k]);
            }
            assert(trim(out[k]) == trim(kk[k]));
        }
    }
}

/// Every kept line is one of the lines, so a text without carriage returns
/// keeps none.
proof fn lemma_kept_no_cr(ls: Seq<Seq<char>>)
    requires
        forall|i: int| 0 <= i < ls.len() ==> no_cr(#[trigger] ls[i]),
    ensures
        forall|k: int| 0 <= k < kept_lines(ls).len() ==> no_cr(#[trigger] kept_lines(ls)[k]),
    decreases ls.len(),
{
    if ls.len() > 0 {
        let d = ls.drop_last();
        assert forall|i: int| 0 <= i < d.len() implies no_cr(#[trigger] d[i]) by {
            assert(d[i] == ls[i]);
        }
        lemma_kept_no_cr(d);
        let r = kept_lines(ls);
        let p = kept_lines(d);
        assert forall|k: int| 0 <= k < r.len() implies no_cr(#[trigger] r[k]) by {
            if k < p.len() {
                assert(r[k] == p[k]);
            } else {
                assert(r[k] == ls.last());
                assert(no_cr(ls[ls.len() - 1]));
            }
        }
    }
}

/// Lines none of which is the manager's header never open its section.
proof fn lemma_not_in_manager_section(ls: Seq<Seq<char>>)
    requires
        forall|i: int| 0 <= i < ls.len() ==> trim(#[trigger] ls[i]) != manager_header(),
    ensures
        !in_manager_section(ls),
    decreases ls.len(),
{
    if ls.len() > 0 {
        let d = ls.drop_last();
        assert forall|i: int| 0 <= i < d.len() implies trim(#[trigger] d[i]) != manager_header() by {
            assert(d[i] == ls[i]);
        }
        lemma_not_in_manager_section(d);
        assert(trim(ls[ls.len() - 1]) != manager_header());
    }
}

/// Lines none of which selects the manager or opens its section are all kept.
proof fn lemma_all_kept(ls: Seq<Seq<char>>)
    requires
        forall|i: int|
            0 <= i < ls.len() ==> {
                let t = trim(#[trigger] ls[i]);
                &&& !is_manager_provider_line(t)
                &&& t != manager_header()
            },
    ensures
        kept_lines(ls) == ls,
    decreases ls.len(),
{
    if ls.len() > 0 {
        let d = ls.drop_last();
        assert forall|i: int|
            0 <= i < d.len() implies {
                let t = trim(#[trigger] d[i]);
                &&& !is_manager_provider_line(t)
                &&& t != manager_header()
            } by {
            assert(d[i] == ls[i]);
        }
        lemma_all_kept(d);
        lemma_not_in_manager_section(ls);
        assert(trim(ls[ls.len() - 1]) == trim(ls.last()));
        assert(d.push(ls.last()) =~= ls);
    }
}

/// Clearing the manager's provider twice is clearing it once, for a config
/// without carriage returns.
pub proof fn law_remove_manager_provider_idempotent(current: Seq<char>)
    requires
        no_cr(current),
    ensures
        spec_remove_manager_provider(spec_remove_manager_provider(current))
            == spec_remove_manager_provider(current),
{
    let nl = seq!['\n'];
    let ls = lines(current);
    let kk = kept_lines(ls);
    law_cleared_lines(ls);
    lemma_lines_no_newline(current);
    lemma_lines_no_cr(current);
    lemma_kept_no_newline(ls);
    lemma_kept_no_cr(ls);
    lemma_trim_end_join(kk);
    let q = lemma_trimmed_join_parts(kk);
    let x = join(q, nl);
    let o = spec_remove_manager_provider(current);
    assert(o == x.push('\n'));
    assert(o.drop_last() =~= x);
    let out = lines(o);
    assert(out == lines_state(x).0.push(strip_cr(lines_state(x).1)));
    lemma_trim_end_idempotent(join(kk, nl));
    assert(trim_end(x) == x);
    if q.len() == 0 {
        assert(x =~= Seq::<char>::empty());
        let e = Seq::<char>::empty();
        assert(out =~= seq![e]);
        assert(trim(e) =~= e);
        assert(!is_manager_provider_line(e)) by {
            reveal_strlit("model_provider");
        }
        assert(e != manager_header()) by {
            reveal_strlit("[model_providers.CodexManager]");
        }
        lemma_all_kept(out);
        assert(join(out, nl) == e);
        assert(trim_end(e) =~= e);
        assert(spec_remove_manager_provider(o) =~= e.push('\n'));
        assert(o =~= e.push('\n'));
    } else {
        assert forall|i: int| 0 <= i < q.len() implies no_newline(#[trigger] q[i]) && no_cr(
            q[i],
        ) by {
            if i < q.len() - 1 {
                assert(q[i] == kk[i]);
            } else {
                lemma_trim_end_no_newline(kk[i]);
                lemma_trim_end_no_cr(kk[i]);
            }
        }
        lemma_lines_state_join(q);
        assert forall|k: int| 0 <= k < q.len() implies #[trigger] strip_cr(q[k]) == q[k] by {
            if q[k].len() > 0 {
                assert(q[k].last() == q[k][q[k].len() - 1]);
            }
        }
        assert(out =~= q);
        assert forall|k: int|
            0 <= k < q.len() implies {
                let t = trim(#[trigger] q[k]);
                &&& !is_manager_provider_line(t)
                &&& t != manager_header()
            } by {
            if k < q.len() - 1 {
                assert(q[k] == kk[k]);
            } else {
                lemma_trim_of_trim_end(kk[k]);
            }
        }
        lemma_all_kept(q);
        assert(kept_lines(lines(o)) == q);
        assert(spec_remove_manager_provider(o) == ended(x));
    }
}

proof fn lemma_first_line_bounds(ls: Seq<Seq<char>>, p: spec_fn(Seq<char>) -> bool)
    ensures
        0 <= first_line_where(ls, p) <= ls.len(),
    decreases ls.len(),
{
    if ls.len() > 0 && !p(ls[0]) {
        lemma_first_line_bounds(ls.drop_first(), p);
    }
}

/// Each part occurs in the parts joined.
proof fn lemma_join_contains(parts: Seq<Seq<char>>, sep: Seq<char>, i: int)
    requires
        0 <= i < parts.len(),
    ensures
        contains(join(parts, sep), parts[i]),
    decreases parts.len(),
{
    let j = join(parts, sep);
    if parts.len() == 1 {
        assert(occurs_at(j, parts[i], 0)) by {
            assert(j.subrange(0, parts[i].len() as int) =~= parts[i]);
        }
    } else {
        let d = parts.drop_last();
        let jd = join(d, sep);
        assert(j == jd + sep + parts.last());
        if i < parts.len() - 1 {
            lemma_join_contains(d, sep, i);
            let k = choose|k: int| occurs_at(jd, d[i], k);
            assert(occurs_at(j, parts[i], k)) by {
                assert(j.subrange(k, k + parts[i].len()) =~= jd.subrange(k, k + d[i].len()));
            }
        } else {
            let k: int = (jd.len() + sep.len()) as int;
            assert(occurs_at(j, parts[i], k)) by {
                assert(j.subrange(k, k + parts[i].len()) =~= parts.last());
            }
        }
    }
}

/// The last character of the joined parts is that of the last part.
proof fn lemma_join_last(parts: Seq<Seq<char>>, sep: Seq<char>)
    requires
        parts.len() > 0,
        parts.last().len() > 0,
    ensures
        join(parts, sep).len() > 0,
        join(parts, sep).last() == parts.last().last(),
{
}

/// Trailing blank lines are dropped and nothing else: a line with text stays.
proof fn lemma_drop_trailing_blank(ls: Seq<Seq<char>>, i: int)
    requires
        0 <= i < ls.len(),
        trim(ls[i]).len() > 0,
    ensures
        i < drop_trailing_blank(ls).len(),
        drop_trailing_blank(ls)[i] == ls[i],
    decreases ls.len(),
{
    if trim(ls.last()).len() == 0 {
        lemma_drop_trailing_blank(ls.drop_last(), i);
    }
}

/// The upserted assignment is one of the lines.
proof fn lemma_upsert_holds(ls: Seq<Seq<char>>, key: Seq<char>, value: Seq<char>) -> (i: int)
    ensures
        0 <= i < spec_upsert_top_level(ls, key, value).len(),
        spec_upsert_top_level(ls, key, value)[i] == assignment(key, value),
{
    let f = first_line_where(ls, |l: Seq<char>| opens_table(l));
    lemma_first_line_bounds(ls, |l: Seq<char>| opens_table(l));
    let k = first_line_where(ls.take(f), |l: Seq<char>| assigns_key(l, key));
    lemma_first_line_bounds(ls.take(f), |l: Seq<char>| assigns_key(l, key));
    if k < f {
        k
    } else {
        f
    }
}

/// Switching Codex to an account makes its config select the manager's
/// provider and point that provider at the account's base URL.
pub proof fn law_built_config_selects_manager(current: Seq<char>, base_url: Seq<char>)
    ensures
        contains(spec_build_codex_config(current, base_url), "model_provider = \"CodexManager\""@),
        contains(
            spec_build_codex_config(current, base_url),
            "base_url = \""@ + spec_escape_toml_string(base_url) + "\""@,
        ),
{
    let key: Seq<char> = "model_provider"@;
    let value: Seq<char> = "\"CodexManager\""@;
    let line = assignment(key, value);
    reveal_strlit("model_provider");
    reveal_strlit("\"CodexManager\"");
    reveal_strlit(" = ");
    reveal_strlit("model_provider = \"CodexManager\"");
    reveal_strlit("\"");
    assert(line =~= "model_provider = \"CodexManager\""@);
    let ls = spec_upsert_top_level(lines(spec_remove_manager_provider(current)), key, value);
    let i = lemma_upsert_holds(lines(spec_remove_manager_provider(current)), key, value);
    assert(trim(line) == line) by {
        lemma_trim_fixed(line);
    }
    lemma_drop_trailing_blank(ls, i);
    let d = drop_trailing_blank(ls);
    let parts = d + manager_section(base_url);
    let url_line = "base_url = \""@ + spec_escape_toml_string(base_url) + "\""@;
    assert(parts[i] == line);
    assert(parts[d.len() + 5int] == url_line);
    let nl = seq!['\n'];
    let t = join(parts, nl);
    lemma_join_contains(parts, nl, i);
    lemma_join_contains(parts, nl, d.len() + 5int);
    assert(parts.last() == url_line);
    lemma_join_last(parts, nl);
    assert(!is_ws(t.last()));
    assert(trim_end(t) == t);
    let b = spec_build_codex_config(current, base_url);
    assert(b == t.push('\n'));
    let k1 = choose|k: int| occurs_at(t, line, k);
    assert(occurs_at(b, line, k1)) by {
        assert(b.subrange(k1, k1 + line.len()) =~= t.subrange(k1, k1 + line.len()));
    }
    let k2 = choose|k: int| occurs_at(t, url_line, k);
    assert(occurs_at(b, url_line, k2)) by {
        assert(b.subrange(k2, k2 + url_line.len()) =~= t.subrange(k2, k2 + url_line.len()));
    }
}

/// A restore right after an apply gives back the files as they were: when
/// the backup recorded `config0` and `auth0` ([`file_snapshot`]) and the
/// restore plan acts on the files the apply wrote
/// ([`restore_latest_backup`]), each file is again as it was, a file that
/// did not exist being removed.
pub proof fn law_restore_after_apply(
    config0: Option<Seq<char>>,
    auth0: Option<Seq<char>>,
    config_backup: FileSnapshot,
    auth_backup: FileSnapshot,
    restore: RestorePlan,
    applied: CodexApplyPlan,
)
    requires
        file_state(config_backup) == config0,
        file_state(auth_backup) == auth0,
        forall|before: Option<Seq<char>>| #[trigger]
            state_after(restore.config, before) == file_state(config_backup),
        forall|before: Option<Seq<char>>| #[trigger]
            state_after(restore.auth, before) == file_state(auth_backup),
    ensures
        state_after(restore.config, Some(applied.next_config@)) == config0,
        state_after(restore.auth, Some(applied.next_auth@)) == auth0,
{
    assert(state_after(restore.config, Some(applied.next_config@)) == file_state(config_backup));
    assert(state_after(restore.auth, Some(applied.next_auth@)) == file_state(auth_backup));
}


/// `first_line_where` is the first line with the property, or the number of
/// lines.
proof fn lemma_first_line_where_is_first(ls: Seq<Seq<char>>, p: spec_fn(Seq<char>) -> bool)
    ensures
        is_first_where(ls, p, first_line_where(ls, p)),
    decreases ls.len(),
{
    if ls.len() > 0 && !p(ls[0]) {
        let rest = ls.drop_first();
        lemma_first_line_where_is_first(rest, p);
        let f = first_line_where(rest, p);
        assert forall|k: int| 0 <= k < f + 1 implies !p(#[trigger] ls[k]) by {
            if k > 0 {
                assert(ls[k] == rest[k - 1]);
            }
        }
        if f < rest.len() {
            assert(ls[f + 1] == rest[f]);
        }
    }
}

/// The upserted line stands before every line that opens a table, and the
/// other lines are lines of `ls`.
proof fn lemma_upsert_at_top(ls: Seq<Seq<char>>, key: Seq<char>, value: Seq<char>) -> (i: int)
    ensures
        0 <= i < spec_upsert_top_level(ls, key, value).len(),
        spec_upsert_top_level(ls, key, value)[i] == assignment(key, value),
        forall|j: int| 0 <= j < i ==> !opens_table(#[trigger] spec_upsert_top_level(ls, key, value)[j]),
        forall|j: int|
            0 <= j < spec_upsert_top_level(ls, key, value).len() ==> #[trigger] spec_upsert_top_level(
                ls,
                key,
                value,
            )[j] == assignment(key, value) || exists|m: int|
                0 <= m < ls.len() && ls[m] == spec_upsert_top_level(ls, key, value)[j],
{
    let u = spec_upsert_top_level(ls, key, value);
    let ot = |l: Seq<char>| opens_table(l);
    let f = first_line_where(ls, ot);
    lemma_first_line_where_is_first(ls, ot);
    let ak = |l: Seq<char>| assigns_key(l, key);
    let k = first_line_where(ls.take(f), ak);
    lemma_first_line_where_is_first(ls.take(f), ak);
    if k < f {
        assert forall|j: int| 0 <= j < k implies !opens_table(#[trigger] u[j]) by {
            assert(u[j] == ls[j]);
            assert(!ot(ls[j]));
        }
        assert forall|j: int| 0 <= j < u.len() implies #[trigger] u[j] == assignment(key, value)
            || exists|m: int| 0 <= m < ls.len() && ls[m] == u[j] by {
            if j != k {
                assert(ls[j] == u[j]);
            }
        }
        k
    } else {
        assert forall|j: int| 0 <= j < f implies !opens_table(#[trigger] u[j]) by {
            assert(u[j] == ls[j]);
            assert(!ot(ls[j]));
        }
        assert forall|j: int| 0 <= j < u.len() implies #[trigger] u[j] == assignment(key, value)
            || exists|m: int| 0 <= m < ls.len() && ls[m] == u[j] by {
            if j < f {
                assert(ls[j] == u[j]);
            } else if j > f {
                assert(ls[j - 1] == u[j]);
            }
        }
        f
    }
}

/// Dropping trailing blank lines keeps a prefix.
proof fn lemma_drop_trailing_blank_prefix(ls: Seq<Seq<char>>)
    ensures
        drop_trailing_blank(ls).len() <= ls.len(),
        forall|k: int|
            0 <= k < drop_trailing_blank(ls).len() ==> #[trigger] drop_trailing_blank(ls)[k]
                == ls[k],
    decreases ls.len(),
{
    if ls.len() > 0 && trim(ls.last()).len() == 0 {
        let d = ls.drop_last();
        lemma_drop_trailing_blank_prefix(d);
        assert forall|k: int| 0 <= k < drop_trailing_blank(ls).len() implies #[trigger] drop_trailing_blank(
            ls,
        )[k] == ls[k] by {
            assert(d[k] == ls[k]);
        }
    }
}

/// A line that opens a table without its carriage return opened one with it.
proof fn lemma_strip_cr_opens(x: Seq<char>)
    ensures
        opens_table(strip_cr(x)) ==> opens_table(x),
{
    if x.len() > 0 && x.last() == '\r' {
        lemma_trim_start_drop_last(x);
        if opens_table(strip_cr(x)) {
            let t = trim_start(x);
            assert(t.len() > 0);
            assert(t.drop_last()[0] == t[0]);
        }
    }
}

/// The built config selects the manager's provider at the top level: one of
/// its lines is `model_provider = "CodexManager"`, and neither that line nor
/// any line before it opens a table.
pub proof fn law_manager_selected_at_top_level(current: Seq<char>, base_url: Seq<char>)
    ensures
        exists|i: int|
            0 <= i < lines(spec_build_codex_config(current, base_url)).len()
                && lines(spec_build_codex_config(current, base_url))[i]
                == "model_provider = \"CodexManager\""@ && forall|j: int|
                0 <= j <= i ==> !starts_with_char(
                    trim_start(#[trigger] lines(spec_build_codex_config(current, base_url))[j]),
                    '[',
                ),
{
    let key: Seq<char> = "model_provider"@;
    let value: Seq<char> = "\"CodexManager\""@;
    let line = assignment(key, value);
    reveal_strlit("model_provider");
    reveal_strlit("\"CodexManager\"");
    reveal_strlit(" = ");
    reveal_strlit("model_provider = \"CodexManager\"");
    reveal_strlit("\"");
    assert(line =~= "model_provider = \"CodexManager\""@);
    let nl = seq!['\n'];
    let cur = lines(spec_remove_manager_provider(current));
    lemma_lines_no_newline(spec_remove_manager_provider(current));
    let ls = spec_upsert_top_level(cur, key, value);
    let i = lemma_upsert_at_top(cur, key, value);
    assert(no_newline(line));
    assert forall|j: int| 0 <= j < ls.len() implies no_newline(#[trigger] ls[j]) by {
        if ls[j] != line {
            let m = choose|m: int| 0 <= m < cur.len() && cur[m] == ls[j];
            assert(no_newline(cur[m]));
        }
    }
    assert(trim(line) == line) by {
        lemma_trim_fixed(line);
    }
    lemma_drop_trailing_blank(ls, i);
    lemma_drop_trailing_blank_prefix(ls);
    let d = drop_trailing_blank(ls);
    assert forall|j: int| 0 <= j < d.len() implies no_newline(#[trigger] d[j]) by {
        assert(d[j] == ls[j]);
    }
    let ms = manager_section(base_url);
    let parts = d + ms;
    let url_line = "base_url = \""@ + spec_escape_toml_string(base_url) + "\""@;
    let t = join(parts, nl);
    assert(parts.last() == url_line);
    lemma_join_last(parts, nl);
    assert(!is_ws(t.last()));
    assert(trim_end(t) == t);
    let b = spec_build_codex_config(current, base_url);
    assert(b == t.push('\n'));
    assert(b.drop_last() =~= t);
    assert(lines(b) == lines_state(t).0.push(strip_cr(lines_state(t).1)));
    lemma_join_append(d, ms, nl);
    let jd = join(d, nl);
    let a = jd + nl;
    assert(t =~= a + join(ms, nl));
    lemma_lines_state_prefix(a, join(ms, nl));
    assert(a =~= jd.push('\n'));
    assert(a.drop_last() =~= jd);
    lemma_lines_state_join(d);
    let la = lines_state(a).0;
    assert(la == lines_state(jd).0.push(strip_cr(lines_state(jd).1)));
    assert(la.len() == d.len());
    assert forall|k: int| 0 <= k < d.len() implies #[trigger] lines(b)[k] == strip_cr(d[k]) by {
        assert(lines(b)[k] == lines_state(t).0[k]);
        assert(lines_state(t).0[k] == la[k]);
        if k < d.len() - 1 {
            assert(la[k] == lines_state(jd).0[k]);
        } else {
            assert(lines_state(jd).1 == d.last());
        }
    }
    assert(d[i] == line);
    assert(line.last() == '"');
    assert(strip_cr(line) == line);
    assert(lines(b)[i] == line);
    assert forall|j: int| 0 <= j <= i implies !starts_with_char(
        trim_start(#[trigger] lines(b)[j]),
        '[',
    ) by {
        assert(lines(b)[j] == strip_cr(d[j]));
        lemma_strip_cr_opens(d[j]);
        if j < i {
            assert(d[j] == ls[j]);
            assert(!opens_table(ls[j]));
        } else {
            assert(!is_ws(line[0]));
            assert(trim_start(line) == line);
            assert(line[0] == 'm');
        }
    }
}
} // verus!
