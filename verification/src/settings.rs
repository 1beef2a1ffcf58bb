//! Manager settings: accounts, login state, and the normalisation that every
//! load and save goes through.

use vstd::prelude::*;
use vstd::string::StringExecFns;

use crate::text::{
    chars_of, has_prefix, is_ws, lemma_trim_fixed, lemma_trim_idempotent, lemma_trim_prefixed,
    lemma_trim_shape, push_all, starts_with, string_of, trim, trim_end_char, trim_end_char_chars,
    trim_str,
};

verus! {

/// The auth server used when none is configured.
pub const DEFAULT_AUTH_BASE_URL: &'static str = "https://yiciyuan.one";

/// The prefix every API key carries.
pub open spec fn key_prefix() -> Seq<char> {
    "sk-"@
}

/// A URL with surrounding white space and trailing slashes removed.
pub open spec fn spec_clean_url(s: Seq<char>) -> Seq<char> {
    trim_end_char(trim(s), '/')
}

/// A trimmed API key, given the `sk-` prefix when it is non-empty and lacks it.
pub open spec fn spec_normalize_api_key(s: Seq<char>) -> Seq<char> {
    let t = trim(s);
    if t.len() == 0 || starts_with(t, key_prefix()) {
        t
    } else {
        key_prefix() + t
    }
}

/// Trims `value` and removes the slashes at its end.
pub fn clean_url(value: &str) -> (r: String)
    ensures
        r@ == spec_clean_url(value@),
{
    let t = trim_str(value);
    let u = trim_end_char_chars(t.as_slice(), '/');
    string_of(u.as_slice())
}

/// Trims `value` and puts `sk-` in front of it unless it is empty or has it.
pub fn normalize_api_key(value: &str) -> (r: String)
    ensures
        r@ == spec_normalize_api_key(value@),
{
    let t = trim_str(value);
    let prefix = chars_of("sk-");
    if t.len() == 0 || has_prefix(t.as_slice(), prefix.as_slice()) {
        string_of(t.as_slice())
    } else {
        let mut out = prefix;
        push_all(&mut out, t.as_slice());
        string_of(out.as_slice())
    }
}


/// A `Uuid::new_v4()` in its `to_string` form.
///
/// `uuid::Uuid::new_v4` draws random bytes and sets the version (4) and the
/// RFC 4122 variant; its `Display` writes the hyphenated lower-case form:
/// 36 characters, hyphens at 8, 13, 18 and 23, lower-case hex digits
/// elsewhere, `4` at 14 and one of `8 9 a b` at 19.  Which UUID comes out is
/// left open.
#[verifier::external_body]
fn new_uuid_string() -> (r: String)
    ensures
        r@.len() == 36,
        forall|i: int| 0 <= i < 36 ==> is_uuid_char(#[trigger] r@[i]),
        forall|i: int|
            0 <= i < 36 ==> (#[trigger] r@[i] == '-' <==> (i == 8 || i == 13 || i == 18 || i
                == 23)),
        r@[14] == '4',
        r@[19] == '8' || r@[19] == '9' || r@[19] == 'a' || r@[19] == 'b',
{
    uuid::Uuid::new_v4().to_string()
}

/// The characters of a hyphenated lower-case UUID.
pub open spec fn is_uuid_char(c: char) -> bool {
    ('0' <= c <= '9') || ('a' <= c <= 'f') || c == '-'
}

/// A local API account.
#[derive(Debug)]
pub struct Account {
    pub id: String,
    pub name: String,
    pub base_url: String,
    pub api_key: String,
    pub enabled: bool,
}

/// The mathematical value of an [`Account`].
pub struct AccountView {
    pub id: Seq<char>,
    pub name: Seq<char>,
    pub base_url: Seq<char>,
    pub api_key: Seq<char>,
    pub enabled: bool,
}

impl View for Account {
    type V = AccountView;

    open spec fn view(&self) -> AccountView {
        AccountView {
            id: self.id@,
            name: self.name@,
            base_url: self.base_url@,
            api_key: self.api_key@,
            enabled: self.enabled,
        }
    }
}

impl Clone for Account {
    fn clone(&self) -> (r: Self)
        ensures
            r == *self,
    {
        Account {
            id: self.id.clone(),
            name: self.name.clone(),
            base_url: self.base_url.clone(),
            api_key: self.api_key.clone(),
            enabled: self.enabled,
        }
    }
}

impl Account {
    /// A new enabled account under a fresh UUID, with a cleaned URL and a
    /// normalised key.
    pub fn new(name: String, base_url: String, api_key: String) -> (r: Account)
        ensures
            r.name == name,
            r.base_url@ == spec_clean_url(base_url@),
            r.api_key@ == spec_normalize_api_key(api_key@),
            r.enabled,
            r.id@.len() == 36,
            forall|i: int| 0 <= i < 36 ==> is_uuid_char(#[trigger] r.id@[i]),
            forall|i: int|
                0 <= i < 36 ==> (#[trigger] r.id@[i] == '-' <==> (i == 8 || i == 13 || i == 18
                    || i == 23)),
            r.id@[14] == '4',
            r.id@[19] == '8' || r.id@[19] == '9' || r.id@[19] == 'a' || r.id@[19] == 'b',
    {
        let id = new_uuid_string();
        Account {
            id,
            name,
            base_url: clean_url(base_url.as_str()),
            api_key: normalize_api_key(api_key.as_str()),
            enabled: true,
        }
    }
}


/// The user record returned by the auth server.
#[derive(Debug)]
pub struct AuthUser {
    pub id: u64,
    pub username: String,
    pub display_name: String,
    pub group: String,
    pub role: i64,
    pub status: i64,
}

/// The mathematical value of an [`AuthUser`].
pub struct AuthUserView {
    pub id: u64,
    pub username: Seq<char>,
    pub display_name: Seq<char>,
    pub group: Seq<char>,
    pub role: i64,
    pub status: i64,
}

impl View for AuthUser {
    type V = AuthUserView;

    open spec fn view(&self) -> AuthUserView {
        AuthUserView {
            id: self.id,
            username: self.username@,
            display_name: self.display_name@,
            group: self.group@,
            role: self.role,
            status: self.status,
        }
    }
}

impl Clone for AuthUser {
    fn clone(&self) -> (r: Self)
        ensures
            r == *self,
    {
        AuthUser {
            id: self.id,
            username: self.username.clone(),
            display_name: self.display_name.clone(),
            group: self.group.clone(),
            role: self.role,
            status: self.status,
        }
    }
}

/// A cookie kept between requests to the auth server.
#[derive(Debug)]
pub struct StoredCookie {
    pub name: String,
    pub value: String,
    pub domain: String,
    pub path: String,
    pub secure: bool,
    pub http_only: bool,
    pub same_site: String,
    pub expiration_date: Option<i64>,
}

/// The mathematical value of a [`StoredCookie`].
pub struct CookieView {
    pub name: Seq<char>,
    pub value: Seq<char>,
    pub domain: Seq<char>,
    pub path: Seq<char>,
    pub secure: bool,
    pub http_only: bool,
    pub same_site: Seq<char>,
    pub expiration_date: Option<i64>,
}

impl View for StoredCookie {
    type V = CookieView;

    open spec fn view(&self) -> CookieView {
        CookieView {
            name: self.name@,
            value: self.value@,
            domain: self.domain@,
            path: self.path@,
            secure: self.secure,
            http_only: self.http_only,
            same_site: self.same_site@,
            expiration_date: self.expiration_date,
        }
    }
}

impl Clone for StoredCookie {
    fn clone(&self) -> (r: Self)
        ensures
            r == *self,
    {
        StoredCookie {
            name: self.name.clone(),
            value: self.value.clone(),
            domain: self.domain.clone(),
            path: self.path.clone(),
            secure: self.secure,
            http_only: self.http_only,
            same_site: self.same_site.clone(),
            expiration_date: self.expiration_date,
        }
    }
}

/// The login state of the manager.
#[derive(Debug)]
pub struct AuthState {
    pub login_mode: String,
    pub base_url: String,
    pub user: Option<AuthUser>,
    pub cookies: Vec<StoredCookie>,
    pub updated_at_ms: u128,
}

/// The cookies of a list, each by its view.
pub open spec fn cookies_view(v: Seq<StoredCookie>) -> Seq<CookieView> {
    v.map_values(|c: StoredCookie| c@)
}

/// The mathematical value of an [`AuthState`].
pub struct AuthStateView {
    pub login_mode: Seq<char>,
    pub base_url: Seq<char>,
    pub user: Option<AuthUserView>,
    pub cookies: Seq<CookieView>,
    pub updated_at_ms: u128,
}

impl View for AuthState {
    type V = AuthStateView;

    open spec fn view(&self) -> AuthStateView {
        AuthStateView {
            login_mode: self.login_mode@,
            base_url: self.base_url@,
            user: match self.user {
                Some(u) => Some(u@),
                None => None,
            },
            cookies: cookies_view(self.cookies@),
            updated_at_ms: self.updated_at_ms,
        }
    }
}

/// Copies a list of cookies element by element.
pub fn clone_cookies(v: &Vec<StoredCookie>) -> (r: Vec<StoredCookie>)
    ensures
        r@ == v@,
        cookies_view(r@) == cookies_view(v@),
{
    let mut r: Vec<StoredCookie> = Vec::new();
    let mut i: usize = 0;
    while i < v.len()
        invariant
            i <= v@.len(),
            r@ == v@.take(i as int),
        decreases v@.len() - i,
    {
        r.push(v[i].clone());
        i = i + 1;
        assert(r@ =~= v@.take(i as int));
    }
    assert(v@.take(v@.len() as int) =~= v@);
    assert(cookies_view(r@) =~= cookies_view(v@));
    r
}

impl Clone for AuthState {
    fn clone(&self) -> (r: Self)
        ensures
            r@ == self@,
    {
        let user = match &self.user {
            Some(u) => Some(u.clone()),
            None => None,
        };
        AuthState {
            login_mode: self.login_mode.clone(),
            base_url: self.base_url.clone(),
            user,
            cookies: clone_cookies(&self.cookies),
            updated_at_ms: self.updated_at_ms,
        }
    }
}

impl Default for AuthState {
    fn default() -> (r: Self)
        ensures
            r.login_mode@ == "newApi"@,
            r.base_url@ == DEFAULT_AUTH_BASE_URL@,
            r.user is None,
            r.cookies@.len() == 0,
            r.updated_at_ms == 0,
    {
        AuthState {
            login_mode: String::from_str("newApi"),
            base_url: String::from_str(DEFAULT_AUTH_BASE_URL),
            user: None,
            cookies: Vec::new(),
            updated_at_ms: 0,
        }
    }
}

/// The manager's whole settings file.
#[derive(Debug)]
pub struct AppSettings {
    pub codex_app_path: String,
    pub active_account_id: String,
    pub launch_extra_args: Vec<String>,
    pub plugin_enabled: bool,
    pub auth: AuthState,
    pub accounts: Vec<Account>,
}

/// The accounts of a settings value, each by its view.
pub open spec fn accounts_view(v: Seq<Account>) -> Seq<AccountView> {
    v.map_values(|a: Account| a@)
}

/// The strings of a list, each by its view.
pub open spec fn strings_view(v: Seq<String>) -> Seq<Seq<char>> {
    v.map_values(|a: String| a@)
}

/// The mathematical value of [`AppSettings`].
pub struct SettingsView {
    pub codex_app_path: Seq<char>,
    pub active_account_id: Seq<char>,
    pub launch_extra_args: Seq<Seq<char>>,
    pub plugin_enabled: bool,
    pub auth: AuthStateView,
    pub accounts: Seq<AccountView>,
}

impl View for AppSettings {
    type V = SettingsView;

    open spec fn view(&self) -> SettingsView {
        SettingsView {
            codex_app_path: self.codex_app_path@,
            active_account_id: self.active_account_id@,
            launch_extra_args: strings_view(self.launch_extra_args@),
            plugin_enabled: self.plugin_enabled,
            auth: self.auth@,
            accounts: accounts_view(self.accounts@),
        }
    }
}

impl Default for AppSettings {
    fn default() -> (r: Self)
        ensures
            r.codex_app_path@.len() == 0,
            r.active_account_id@.len() == 0,
            r.launch_extra_args@.len() == 0,
            !r.plugin_enabled,
            r.auth.login_mode@ == "newApi"@,
            r.auth.base_url@ == DEFAULT_AUTH_BASE_URL@,
            r.auth.user is None,
            r.auth.cookies@.len() == 0,
            r.auth.updated_at_ms == 0,
            r.accounts@.len() == 0,
    {
        AppSettings {
            codex_app_path: String::new(),
            active_account_id: String::new(),
            launch_extra_args: Vec::new(),
            plugin_enabled: false,
            auth: AuthState::default(),
            accounts: Vec::new(),
        }
    }
}


/// The name given to an account saved without one.
pub open spec fn default_account_name() -> Seq<char> {
    "Default API Key"@
}

/// One account as normalisation leaves it, or `None` when its key is empty.
/// `fresh_id` stands in for a blank id.
pub open spec fn spec_normalize_account(a: AccountView, fresh_id: Seq<char>) -> Option<AccountView> {
    let id = trim(a.id);
    let name = trim(a.name);
    let key = spec_normalize_api_key(a.api_key);
    if key.len() == 0 {
        None
    } else {
        Some(
            AccountView {
                id: if id.len() == 0 {
                    fresh_id
                } else {
                    id
                },
                name: if name.len() == 0 {
                    default_account_name()
                } else {
                    name
                },
                base_url: spec_clean_url(a.base_url),
                api_key: key,
                enabled: a.enabled,
            },
        )
    }
}

/// The accounts that normalisation keeps, in their order; `ids[i]` stands in
/// for a blank id of `accounts[i]`.
pub open spec fn spec_normalize_accounts(accounts: Seq<AccountView>, ids: Seq<Seq<char>>) -> Seq<
    AccountView,
>
    decreases accounts.len(),
{
    if accounts.len() == 0 {
        seq![]
    } else {
        let rest = spec_normalize_accounts(accounts.drop_last(), ids);
        match spec_normalize_account(accounts.last(), ids[accounts.len() - 1]) {
            Some(a) => rest.push(a),
            None => rest,
        }
    }
}

/// `accounts[i]` is the enabled account with id `id`.
pub open spec fn is_active_at(accounts: Seq<AccountView>, id: Seq<char>, i: int) -> bool {
    0 <= i < accounts.len() && accounts[i].id == id && accounts[i].enabled
}

/// Some enabled account has id `id`.
pub open spec fn has_active(accounts: Seq<AccountView>, id: Seq<char>) -> bool {
    exists|i: int| is_active_at(accounts, id, i)
}

/// The id of the first enabled account, or the empty string.
pub open spec fn first_enabled_id(accounts: Seq<AccountView>) -> Seq<char>
    decreases accounts.len(),
{
    if accounts.len() == 0 {
        seq![]
    } else if accounts[0].enabled {
        accounts[0].id
    } else {
        first_enabled_id(accounts.drop_first())
    }
}

/// The login mode after normalisation.
pub open spec fn spec_login_mode(m: Seq<char>) -> Seq<char> {
    if trim(m).len() == 0 {
        "newApi"@
    } else {
        trim(m)
    }
}

/// The auth base URL after normalisation.
pub open spec fn spec_auth_base_url(u: Seq<char>) -> Seq<char> {
    if spec_clean_url(u).len() == 0 {
        DEFAULT_AUTH_BASE_URL@
    } else {
        spec_clean_url(u)
    }
}

/// Settings as `AppSettings::normalized` leaves them; `ids[i]` stands in for
/// a blank id of `s.accounts[i]`.
pub open spec fn spec_normalized(s: SettingsView, ids: Seq<Seq<char>>) -> SettingsView {
    let accounts = spec_normalize_accounts(s.accounts, ids);
    SettingsView {
        codex_app_path: s.codex_app_path,
        active_account_id: if has_active(accounts, s.active_account_id) {
            s.active_account_id
        } else {
            first_enabled_id(accounts)
        },
        launch_extra_args: s.launch_extra_args,
        plugin_enabled: s.plugin_enabled,
        auth: AuthStateView {
            login_mode: spec_login_mode(s.auth.login_mode),
            base_url: spec_auth_base_url(s.auth.base_url),
            user: s.auth.user,
            cookies: s.auth.cookies,
            updated_at_ms: s.auth.updated_at_ms,
        },
        accounts,
    }
}

/// Ids that can stand in for blank ones: UUIDs in hyphenated form.
pub open spec fn fresh_ids_ok(ids: Seq<Seq<char>>, n: nat) -> bool {
    ids.len() == n && fresh_ids_cover(ids, n)
}

/// The first `n` ids are UUIDs in hyphenated form.
pub open spec fn fresh_ids_cover(ids: Seq<Seq<char>>, n: nat) -> bool {
    &&& ids.len() >= n
    &&& forall|i: int|
        0 <= i < n ==> (#[trigger] ids[i]).len() == 36 && forall|k: int|
            0 <= k < 36 ==> is_uuid_char(#[trigger] ids[i][k])
}

/// One account normalised, with `fresh_id` for a blank id.
fn normalize_account(a: &Account, fresh_id: &String) -> (r: Option<Account>)
    ensures
        match (r, spec_normalize_account(a@, fresh_id@)) {
            (Some(x), Some(y)) => x@ == y,
            (None, None) => true,
            _ => false,
        },
{
    let key = normalize_api_key(a.api_key.as_str());
    if key.unicode_len() == 0 {
        return None;
    }
    let id = trim_str(a.id.as_str());
    let id = if id.len() == 0 {
        fresh_id.clone()
    } else {
        string_of(id.as_slice())
    };
    let name = trim_str(a.name.as_str());
    let name = if name.len() == 0 {
        String::from_str("Default API Key")
    } else {
        string_of(name.as_slice())
    };
    Some(Account { id, name, base_url: clean_url(a.base_url.as_str()), api_key: key, enabled: a.enabled })
}

/// The accounts as normalisation keeps them, `ids[i]` standing in for a blank
/// id of `accounts[i]`.
fn normalize_account_list(accounts: &Vec<Account>, ids: &Vec<String>) -> (r: Vec<Account>)
    requires
        ids@.len() == accounts@.len(),
    ensures
        accounts_view(r@) == spec_normalize_accounts(
            accounts_view(accounts@),
            strings_view(ids@),
        ),
{
    let mut out: Vec<Account> = Vec::new();
    let mut i: usize = 0;
    let ghost all = accounts_view(accounts@);
    let ghost idv = strings_view(ids@);
    while i < accounts.len()
        invariant
            i <= accounts@.len(),
            ids@.len() == accounts@.len(),
            all == accounts_view(accounts@),
            idv == strings_view(ids@),
            accounts_view(out@) == spec_normalize_accounts(all.take(i as int), idv),
        decreases accounts@.len() - i,
    {
        let next = normalize_account(&accounts[i], &ids[i]);
        proof {
            assert(all.take(i + 1).drop_last() =~= all.take(i as int));
            assert(all.take(i + 1).last() == accounts@[i as int]@);
        }
        match next {
            Some(a) => {
                out.push(a);
                assert(accounts_view(out@) =~= spec_normalize_accounts(all.take(i + 1), idv));
            },
            None => {
                assert(accounts_view(out@) =~= spec_normalize_accounts(all.take(i + 1), idv));
            },
        }
        i = i + 1;
    }
    assert(all.take(accounts@.len() as int) =~= all);
    out
}


/// Whether some enabled account in `accounts` has id `id`.
fn any_active(accounts: &Vec<Account>, id: &String) -> (r: bool)
    ensures
        r == has_active(accounts_view(accounts@), id@),
{
    let ghost av = accounts_view(accounts@);
    let mut i: usize = 0;
    while i < accounts.len()
        invariant
            i <= accounts@.len(),
            av == accounts_view(accounts@),
            forall|k: int| 0 <= k < i ==> !is_active_at(av, id@, k),
        decreases accounts@.len() - i,
    {
        if accounts[i].enabled && accounts[i].id == *id {
            assert(is_active_at(av, id@, i as int));
            return true;
        }
        i = i + 1;
    }
    false
}

proof fn lemma_first_enabled_skip(accounts: Seq<AccountView>, i: int)
    requires
        0 <= i < accounts.len(),
        !accounts[i].enabled,
    ensures
        first_enabled_id(accounts.skip(i)) == first_enabled_id(accounts.skip(i + 1)),
{
    assert(accounts.skip(i).drop_first() =~= accounts.skip(i + 1));
}

/// The id of the first enabled account, or an empty string.
fn first_enabled(accounts: &Vec<Account>) -> (r: String)
    ensures
        r@ == first_enabled_id(accounts_view(accounts@)),
{
    let ghost av = accounts_view(accounts@);
    let mut i: usize = 0;
    assert(av.skip(0) =~= av);
    while i < accounts.len()
        invariant
            i <= accounts@.len(),
            av == accounts_view(accounts@),
            first_enabled_id(av) == first_enabled_id(av.skip(i as int)),
        decreases accounts@.len() - i,
    {
        if accounts[i].enabled {
            assert(av.skip(i as int)[0] == av[i as int]);
            return accounts[i].id.clone();
        }
        proof {
            lemma_first_enabled_skip(av, i as int);
        }
        i = i + 1;
    }
    assert(av.skip(i as int).len() == 0);
    String::new()
}

impl AppSettings {
    /// Normalises the settings, `fresh_ids[i]` standing in for a blank id of
    /// `accounts[i]`: login mode and auth URL get their defaults, accounts are
    /// trimmed and cleaned, accounts without a key are dropped, and the active
    /// id moves to the first enabled account unless it names an enabled one.
    pub fn normalized_with_ids(self, fresh_ids: &Vec<String>) -> (r: Self)
        requires
            fresh_ids@.len() == self.accounts@.len(),
        ensures
            r@ == spec_normalized(self@, strings_view(fresh_ids@)),
    {
        let accounts = normalize_account_list(&self.accounts, fresh_ids);
        let mode = trim_str(self.auth.login_mode.as_str());
        let login_mode = if mode.len() == 0 {
            String::from_str("newApi")
        } else {
            string_of(mode.as_slice())
        };
        let cleaned = clean_url(self.auth.base_url.as_str());
        let base_url = if cleaned.unicode_len() == 0 {
            String::from_str(DEFAULT_AUTH_BASE_URL)
        } else {
            cleaned
        };
        let active_account_id = if any_active(&accounts, &self.active_account_id) {
            self.active_account_id
        } else {
            first_enabled(&accounts)
        };
        AppSettings {
            codex_app_path: self.codex_app_path,
            active_account_id,
            launch_extra_args: self.launch_extra_args,
            plugin_enabled: self.plugin_enabled,
            auth: AuthState {
                login_mode,
                base_url,
                user: self.auth.user,
                cookies: self.auth.cookies,
                updated_at_ms: self.auth.updated_at_ms,
            },
            accounts,
        }
    }

    /// Normalises the settings; each account with a blank id gets a fresh
    /// UUID.
    pub fn normalized(self) -> (r: Self)
        ensures
            exists|ids: Seq<Seq<char>>|
                fresh_ids_ok(ids, self.accounts@.len()) && r@ == spec_normalized(self@, ids),
    {
        let mut ids: Vec<String> = Vec::new();
        let mut i: usize = 0;
        while i < self.accounts.len()
            invariant
                i <= self.accounts@.len(),
                ids@.len() == i,
                fresh_ids_ok(strings_view(ids@), i as nat),
            decreases self.accounts@.len() - i,
        {
            let u = new_uuid_string();
            let ghost prev = strings_view(ids@);
            ids.push(u);
            i = i + 1;
            assert(strings_view(ids@) =~= prev.push(u@));
            assert forall|j: int| 0 <= j < i implies (#[trigger] strings_view(ids@)[j]).len() == 36
                && forall|k: int|
                0 <= k < 36 ==> is_uuid_char(#[trigger] strings_view(ids@)[j][k]) by {
                if j < i - 1 {
                    assert(strings_view(ids@)[j] == prev[j]);
                }
            }
        }
        let ghost idv = strings_view(ids@);
        let r = self.normalized_with_ids(&ids);
        assert(fresh_ids_ok(idv, self.accounts@.len()) && r@ == spec_normalized(self@, idv));
        r
    }

    /// The enabled account whose id is the active id, if any.
    pub fn active_account(&self) -> (r: Option<&Account>)
        ensures
            match r {
                Some(a) => exists|i: int|
                    is_active_at(accounts_view(self.accounts@), self.active_account_id@, i)
                        && self.accounts@[i] == *a && forall|k: int|
                        0 <= k < i ==> !is_active_at(
                            accounts_view(self.accounts@),
                            self.active_account_id@,
                            k,
                        ),
                None => !has_active(accounts_view(self.accounts@), self.active_account_id@),
            },
    {
        let ghost av = accounts_view(self.accounts@);
        let mut i: usize = 0;
        while i < self.accounts.len()
            invariant
                i <= self.accounts@.len(),
                av == accounts_view(self.accounts@),
                forall|k: int| 0 <= k < i ==> !is_active_at(av, self.active_account_id@, k),
            decreases self.accounts@.len() - i,
        {
            if self.accounts[i].enabled && self.accounts[i].id == self.active_account_id {
                assert(is_active_at(av, self.active_account_id@, i as int));
                return Some(&self.accounts[i]);
            }
            i = i + 1;
        }
        None
    }
}


/// Cleaning the URL a second time changes nothing.
pub open spec fn clean_url_stable(u: Seq<char>) -> bool {
    spec_clean_url(spec_clean_url(u)) == spec_clean_url(u)
}

/// A normalised key is its own normalisation.
pub proof fn lemma_normalize_api_key_idempotent(k: Seq<char>)
    ensures
        spec_normalize_api_key(spec_normalize_api_key(k)) == spec_normalize_api_key(k),
        spec_normalize_api_key(k).len() > 0 ==> starts_with(
            spec_normalize_api_key(k),
            key_prefix(),
        ),
{
    reveal_strlit("sk-");
    let t = trim(k);
    lemma_trim_idempotent(k);
    lemma_trim_shape(k);
    if t.len() > 0 && !starts_with(t, key_prefix()) {
        lemma_trim_prefixed(key_prefix(), t);
        assert((key_prefix() + t).take(3) =~= key_prefix());
    }
}

proof fn lemma_literals()
    ensures
        trim("newApi"@) == "newApi"@,
        "newApi"@.len() > 0,
        trim(default_account_name()) == default_account_name(),
        default_account_name().len() > 0,
        spec_clean_url(DEFAULT_AUTH_BASE_URL@) == DEFAULT_AUTH_BASE_URL@,
        DEFAULT_AUTH_BASE_URL@.len() > 0,
{
    reveal_strlit("newApi");
    reveal_strlit("Default API Key");
    reveal_strlit("https://yiciyuan.one");
    lemma_trim_fixed("newApi"@);
    lemma_trim_fixed(default_account_name());
    lemma_trim_fixed(DEFAULT_AUTH_BASE_URL@);
}

/// A normalised account normalises to itself.
proof fn lemma_account_fixed(a: AccountView, fresh: Seq<char>, other: Seq<char>)
    requires
        fresh.len() == 36,
        forall|k: int| 0 <= k < 36 ==> is_uuid_char(#[trigger] fresh[k]),
        clean_url_stable(a.base_url),
        spec_normalize_account(a, fresh) is Some,
    ensures
        spec_normalize_account(spec_normalize_account(a, fresh)->0, other) == spec_normalize_account(
            a,
            fresh,
        ),
{
    let b = spec_normalize_account(a, fresh)->0;
    lemma_literals();
    lemma_trim_idempotent(a.id);
    lemma_trim_idempotent(a.name);
    lemma_normalize_api_key_idempotent(a.api_key);
    if trim(a.id).len() == 0 {
        assert(!is_ws(fresh[0]));
        assert(!is_ws(fresh.last()));
        lemma_trim_fixed(fresh);
    }
}

/// Normalising already normalised accounts keeps all of them unchanged.
proof fn lemma_accounts_fixed(accounts: Seq<AccountView>, ids: Seq<Seq<char>>, ids2: Seq<Seq<char>>)
    requires
        fresh_ids_cover(ids, accounts.len()),
        forall|i: int| 0 <= i < accounts.len() ==> clean_url_stable(#[trigger] accounts[i].base_url),
    ensures
        spec_normalize_accounts(spec_normalize_accounts(accounts, ids), ids2)
            == spec_normalize_accounts(accounts, ids),
    decreases accounts.len(),
{
    if accounts.len() > 0 {
        let init = accounts.drop_last();
        lemma_accounts_fixed(init, ids, ids2);
        let rest = spec_normalize_accounts(init, ids);
        let n = accounts.len() - 1;
        assert(accounts.last() == accounts[n]);
        match spec_normalize_account(accounts.last(), ids[n]) {
            Some(a) => {
                lemma_account_fixed(accounts.last(), ids[n], ids2[rest.len() as int]);
                assert(rest.push(a).drop_last() =~= rest);
            },
            None => {},
        }
    }
}

/// When some account is enabled, the first enabled id names an enabled
/// account; otherwise it is empty and names none.
proof fn lemma_first_enabled(accounts: Seq<AccountView>)
    ensures
        (exists|i: int| 0 <= i < accounts.len() && accounts[i].enabled) ==> has_active(
            accounts,
            first_enabled_id(accounts),
        ),
        !(exists|i: int| 0 <= i < accounts.len() && accounts[i].enabled) ==> !has_active(
            accounts,
            first_enabled_id(accounts),
        ),
    decreases accounts.len(),
{
    if accounts.len() > 0 {
        let rest = accounts.drop_first();
        lemma_first_enabled(rest);
        if accounts[0].enabled {
            assert(is_active_at(accounts, accounts[0].id, 0));
        } else {
            if exists|i: int| 0 <= i < accounts.len() && accounts[i].enabled {
                let i = choose|i: int| 0 <= i < accounts.len() && accounts[i].enabled;
                assert(rest[i - 1].enabled);
                let j = choose|j: int| is_active_at(rest, first_enabled_id(rest), j);
                assert(is_active_at(accounts, first_enabled_id(accounts), j + 1));
            }
        }
    }
}

/// Normalisation leaves the active id naming an enabled account exactly when
/// some account is enabled.
pub proof fn law_normalized_active(s: SettingsView, ids: Seq<Seq<char>>)
    ensures
        has_active(spec_normalized(s, ids).accounts, spec_normalized(s, ids).active_account_id)
            <==> exists|i: int|
            0 <= i < spec_normalized(s, ids).accounts.len()
                && (#[trigger] spec_normalized(s, ids).accounts[i]).enabled,
{
    let r = spec_normalized(s, ids);
    lemma_first_enabled(r.accounts);
    if has_active(r.accounts, s.active_account_id) {
        let i = choose|i: int| is_active_at(r.accounts, s.active_account_id, i);
        assert(r.accounts[i].enabled);
    }
}

/// Normalising normalised settings changes nothing, so saving and loading
/// again gives back what was saved.  URLs whose cleaning is not stable (such
/// as `"a /"`, which cleans to `"a "` and then to `"a"`) are left out.
pub proof fn law_normalized_idempotent(s: SettingsView, ids: Seq<Seq<char>>, ids2: Seq<Seq<char>>)
    requires
        fresh_ids_ok(ids, s.accounts.len()),
        clean_url_stable(s.auth.base_url),
        forall|i: int|
            0 <= i < s.accounts.len() ==> clean_url_stable(#[trigger] s.accounts[i].base_url),
    ensures
        spec_normalized(spec_normalized(s, ids), ids2) == spec_normalized(s, ids),
{
    let r = spec_normalized(s, ids);
    lemma_accounts_fixed(s.accounts, ids, ids2);
    lemma_literals();
    lemma_trim_idempotent(s.auth.login_mode);
    lemma_first_enabled(r.accounts);
}

/// Where the settings are kept: the path of their JSON file.
#[derive(Debug)]
pub struct SettingsStore {
    path: String,
}

impl SettingsStore {
    /// The path the store reads and writes.
    pub closed spec fn spec_path(&self) -> Seq<char> {
        self.path@
    }

    /// A store for the settings file at `path`.
    pub fn new(path: String) -> (r: Self)
        ensures
            r.spec_path() == path@,
    {
        SettingsStore { path }
    }

    /// The path of the settings file.
    pub fn path(&self) -> (r: &String)
        ensures
            r@ == self.spec_path(),
    {
        &self.path
    }
}

impl Default for SettingsStore {
    /// The store at the manager's own settings file.
    fn default() -> (r: Self)
        ensures
            exists|dir: Seq<char>|
                crate::paths::is_some_manager_dir(dir, "config"@) && #[trigger] crate::paths::joined_under(
                    dir,
                    "config.json"@,
                    r.spec_path(),
                ),
    {
        let path = crate::paths::settings_file();
        let r = SettingsStore { path };
        assert(r.spec_path() == r.path@);
        r
    }
}

} // verus!
