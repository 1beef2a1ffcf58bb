//! The remote key service: login, key search and key decryption.  The
//! requests are planned and the replies read here; sending them is left to
//! the caller.

use vstd::prelude::*;
use vstd::string::StringExecFns;
use vstd::utf8::encode_utf8;

use crate::json::{
    clone_json, first_some, json_array, json_data, json_get, json_parsed, json_str, json_text,
    json_text_of, opt_value, or_else, parse_json, JsonData, JsonValue,
};
use crate::settings::{
    clean_url, cookies_view, normalize_api_key, spec_clean_url, spec_normalize_api_key,
    strings_view, AuthState, AuthUser, AuthUserView, CookieView, DEFAULT_AUTH_BASE_URL,
    StoredCookie,
};
use crate::text::{
    chars_of, copy_range, decimal, decimal_chars, find_char_or_len, first_index_of_char, join,
    join_chars, lower_seq, push_all, same_chars, split_char, split_on_char, string_of,
    to_ascii_lower, trim, trim_chars, trim_str, vecs_view,
};
use crate::update::{digits_value, parse_digits};

verus! {

/// Why a call to the key service failed, in the words shown to the user.
#[derive(Debug)]
pub struct RemoteError {
    pub message: String,
}

/// The login mode used when none is given.
pub fn default_login_mode() -> (r: String)
    ensures
        r@ == "newApi"@,
{
    String::from_str("newApi")
}

/// The auth server to talk to: the cleaned URL, or the default server.
pub open spec fn spec_auth_base_url(value: Seq<char>) -> Seq<char> {
    if spec_clean_url(value).len() == 0 {
        DEFAULT_AUTH_BASE_URL@
    } else {
        spec_clean_url(value)
    }
}

/// The auth server to talk to: the cleaned URL, or the default server.
pub fn normalized_auth_base_url(value: &str) -> (r: String)
    ensures
        r@ == spec_auth_base_url(value@),
{
    let base_url = clean_url(value);
    if base_url.unicode_len() == 0 {
        String::from_str(DEFAULT_AUTH_BASE_URL)
    } else {
        base_url
    }
}

/// A byte that a URL carries as it is.
pub open spec fn is_unreserved(b: u8) -> bool {
    (65 <= b <= 90) || (97 <= b <= 122) || (48 <= b <= 57) || b == 45 || b == 95 || b == 46
        || b == 126
}

/// The upper-case hexadecimal digit for `d < 16`.
pub open spec fn hex_digit(d: u8) -> char {
    "0123456789ABCDEF"@[d as int]
}

/// One byte of a URL component: itself when unreserved, else `%XX`.
pub open spec fn encode_byte(b: u8) -> Seq<char> {
    if is_unreserved(b) {
        seq![b as char]
    } else {
        seq!['%', hex_digit(b / 16), hex_digit(b % 16)]
    }
}

/// Percent-encoding of a byte string.
pub open spec fn percent_encode(bytes: Seq<u8>) -> Seq<char>
    decreases bytes.len(),
{
    if bytes.len() == 0 {
        seq![]
    } else {
        percent_encode(bytes.drop_last()) + encode_byte(bytes.last())
    }
}

/// The UTF-8 bytes of `value`, percent-encoded but for `A-Z a-z 0-9 - _ . ~`.
pub fn url_encode(value: &str) -> (r: String)
    ensures
        r@ == percent_encode(vstd::utf8::encode_utf8(value@)),
{
    let bytes = value.as_bytes();
    let digits = chars_of("0123456789ABCDEF");
    proof {
        reveal_strlit("0123456789ABCDEF");
    }
    let mut out: Vec<char> = Vec::new();
    let mut i: usize = 0;
    while i < bytes.len()
        invariant
            i <= bytes@.len(),
            digits@ == "0123456789ABCDEF"@,
            digits@.len() == 16,
            out@ == percent_encode(bytes@.take(i as int)),
        decreases bytes@.len() - i,
    {
        let b = bytes[i];
        let ghost before = out@;
        if (65 <= b && b <= 90) || (97 <= b && b <= 122) || (48 <= b && b <= 57) || b == 45
            || b == 95 || b == 46 || b == 126 {
            out.push(b as char);
        } else {
            out.push('%');
            out.push(digits[(b / 16) as usize]);
            out.push(digits[(b % 16) as usize]);
        }
        assert(bytes@.take(i + 1).drop_last() =~= bytes@.take(i as int));
        assert(out@ =~= before + encode_byte(b));
        i = i + 1;
    }
    assert(bytes@.take(bytes@.len() as int) =~= bytes@);
    string_of(out.as_slice())
}

/// The `New-Api-User` header of a logged-in user: the user id in decimal.
pub open spec fn spec_user_header(id: u64) -> Option<Seq<char>> {
    if id == 0 {
        None
    } else {
        Some(decimal(id as nat))
    }
}

/// The message when the login state has no user id.
pub open spec fn missing_user_id_message() -> Seq<char> {
    "当前登录态缺少用户 ID，无法请求远程 KEY"@
}

/// The `New-Api-User` header for `user`; an error when its id is 0.
pub fn new_api_user_header(user: &AuthUser) -> (r: Result<String, RemoteError>)
    ensures
        match r {
            Ok(h) => spec_user_header(user.id) == Some(h@),
            Err(e) => spec_user_header(user.id) is None && e.message@ == missing_user_id_message(),
        },
{
    if user.id == 0 {
        return Err(RemoteError { message: String::from_str("当前登录态缺少用户 ID，无法请求远程 KEY") });
    }
    let d = decimal_chars(user.id as u128);
    Ok(string_of(d.as_slice()))
}

/// A string member's text, trimmed, when it is not blank.
pub open spec fn nonblank_str(v: Option<JsonValue>) -> Option<Seq<char>> {
    match json_str(v) {
        Some(s) => if trim(s).len() > 0 {
            Some(trim(s))
        } else {
            None
        },
        None => None,
    }
}

/// The first of the members `keys` of `v` that is a non-blank string, trimmed.
pub open spec fn first_nonblank_member(v: JsonValue, keys: Seq<Seq<char>>) -> Option<Seq<char>>
    decreases keys.len(),
{
    if keys.len() == 0 {
        None
    } else {
        match nonblank_str(json_get(v, keys[0])) {
            Some(s) => Some(s),
            None => first_nonblank_member(v, keys.drop_first()),
        }
    }
}

/// The views of a list of string slices.
pub open spec fn strs_view(keys: Seq<&str>) -> Seq<Seq<char>> {
    keys.map_values(|k: &str| k@)
}

/// The member `key` of `v` when it is a non-blank string, trimmed.
fn nonblank_member(v: &JsonValue, key: &str) -> (r: Option<String>)
    ensures
        match r {
            Some(s) => nonblank_str(json_get(*v, key@)) == Some(s@),
            None => nonblank_str(json_get(*v, key@)) is None,
        },
{
    match v.get(key) {
        Some(JsonValue::String(s)) => {
            let t = trim_str(s.as_str());
            if t.len() > 0 {
                Some(string_of(t.as_slice()))
            } else {
                None
            }
        },
        _ => None,
    }
}

/// The first of the members `keys` of `v` that is a non-blank string, trimmed.
pub fn first_nonblank(v: &JsonValue, keys: &[&str]) -> (r: Option<String>)
    ensures
        match r {
            Some(s) => first_nonblank_member(*v, strs_view(keys@)) == Some(s@),
            None => first_nonblank_member(*v, strs_view(keys@)) is None,
        },
{
    let mut i: usize = 0;
    assert(strs_view(keys@).skip(0) =~= strs_view(keys@));
    while i < keys.len()
        invariant
            i <= keys@.len(),
            first_nonblank_member(*v, strs_view(keys@)) == first_nonblank_member(
                *v,
                strs_view(keys@).skip(i as int),
            ),
        decreases keys@.len() - i,
    {
        let ghost rest = strs_view(keys@).skip(i as int);
        assert(rest[0] == keys@[i as int]@);
        assert(rest.drop_first() =~= strs_view(keys@).skip(i + 1));
        match nonblank_member(v, keys[i]) {
            Some(s) => {
                return Some(s);
            },
            None => {},
        }
        i = i + 1;
    }
    None
}

/// The message of a service reply: its `message`, else its `error`, when a
/// non-blank string.
pub open spec fn spec_api_message(payload: JsonValue) -> Option<Seq<char>> {
    first_nonblank_member(payload, seq!["message"@, "error"@])
}

/// The message of a service reply, if it has one.
pub fn extract_api_message(payload: &JsonValue) -> (r: Option<String>)
    ensures
        match r {
            Some(s) => spec_api_message(*payload) == Some(s@),
            None => spec_api_message(*payload) is None,
        },
{
    let keys: [&str; 2] = ["message", "error"];
    assert(strs_view(keys@) =~= seq!["message"@, "error"@]);
    first_nonblank(payload, &keys)
}

/// The parts, trimmed, that are not blank, in order.
pub open spec fn trimmed_nonblank(parts: Seq<Seq<char>>) -> Seq<Seq<char>>
    decreases parts.len(),
{
    if parts.len() == 0 {
        seq![]
    } else if trim(parts.last()).len() > 0 {
        trimmed_nonblank(parts.drop_last()).push(trim(parts.last()))
    } else {
        trimmed_nonblank(parts.drop_last())
    }
}

/// The non-blank `;`-separated parts of a `Set-Cookie` line, trimmed.
pub open spec fn cookie_segments(line: Seq<char>) -> Seq<Seq<char>> {
    trimmed_nonblank(split_char(line, ';'))
}

/// `s.split_once('=')`, or the whole of `s` and nothing when there is no `=`.
pub open spec fn split_attr(s: Seq<char>) -> (Seq<char>, Seq<char>) {
    let i = first_index_of_char(s, '=');
    if i < s.len() {
        (s.take(i), s.skip(i + 1))
    } else {
        (s, seq![])
    }
}

/// Every character is an ASCII digit.
pub open spec fn all_digits(d: Seq<char>) -> bool {
    forall|k: int| 0 <= k < d.len() ==> '0' <= #[trigger] d[k] <= '9'
}

/// What follows the sign, if any.
pub open spec fn unsigned_part(s: Seq<char>) -> Seq<char> {
    if s.len() > 0 && (s[0] == '-' || s[0] == '+') {
        s.skip(1)
    } else {
        s
    }
}

/// `i64::from_str`: an optional sign, then at least one ASCII digit, in range.
pub open spec fn spec_parse_i64(s: Seq<char>) -> Option<i64> {
    let digits = unsigned_part(s);
    let v: int = if s.len() > 0 && s[0] == '-' {
        -(digits_value(digits) as int)
    } else {
        digits_value(digits) as int
    };
    if digits.len() == 0 || !all_digits(digits) {
        None
    } else if i64::MIN <= v <= i64::MAX {
        Some(v as i64)
    } else {
        None
    }
}

/// `s.parse::<i64>()`.
pub fn parse_i64(s: &[char]) -> (r: Option<i64>)
    ensures
        r == spec_parse_i64(s@),
{
    let signed = s.len() > 0 && (s[0] == '-' || s[0] == '+');
    let neg = s.len() > 0 && s[0] == '-';
    let digits = if signed {
        copy_range(s, 1, s.len())
    } else {
        copy_range(s, 0, s.len())
    };
    proof {
        if signed {
            assert(digits@ =~= s@.skip(1));
        } else {
            assert(digits@ =~= s@);
        }
    }
    if digits.len() == 0 {
        return None;
    }
    let mut k: usize = 0;
    while k < digits.len()
        invariant
            k <= digits@.len(),
            digits@ == unsigned_part(s@),
            forall|m: int| 0 <= m < k ==> '0' <= #[trigger] digits@[m] <= '9',
        decreases digits@.len() - k,
    {
        if !('0' <= digits[k] && digits[k] <= '9') {
            assert(!('0' <= digits@[k as int] <= '9'));
            return None;
        }
        k = k + 1;
    }
    let value = match parse_digits(digits.as_slice()) {
        Ok(v) => v,
        Err(_) => return None,
    };
    if neg {
        if value <= 9223372036854775807 {
            Some(-(value as i64))
        } else if value == 9223372036854775808 {
            Some(i64::MIN)
        } else {
            None
        }
    } else if value <= 9223372036854775807 {
        Some(value as i64)
    } else {
        None
    }
}

/// The parts of a `Set-Cookie` line: split at `;`, trimmed, blanks dropped.
fn cookie_segments_of(line: &str) -> (r: Vec<Vec<char>>)
    ensures
        vecs_view(r@) == cookie_segments(line@),
{
    let chars = chars_of(line);
    let pieces = split_on_char(chars.as_slice(), ';');
    let ghost pv = vecs_view(pieces@);
    let mut out: Vec<Vec<char>> = Vec::new();
    let mut i: usize = 0;
    while i < pieces.len()
        invariant
            i <= pieces@.len(),
            pv == vecs_view(pieces@),
            vecs_view(out@) == trimmed_nonblank(pv.take(i as int)),
        decreases pieces@.len() - i,
    {
        let t = trim_chars(pieces[i].as_slice());
        let ghost m = pv.take(i + 1);
        assert(m.drop_last() =~= pv.take(i as int));
        assert(m.last() == pieces@[i as int]@);
        if t.len() > 0 {
            let ghost before = vecs_view(out@);
            out.push(t);
            assert(vecs_view(out@) =~= before.push(t@));
        }
        i = i + 1;
    }
    assert(pv.take(pieces@.len() as int) =~= pv);
    out
}

/// The cookie after one attribute of its `Set-Cookie` line.
pub open spec fn apply_attr(c: CookieView, seg: Seq<char>, now_secs: i64) -> CookieView {
    let key = lower_seq(trim(split_attr(seg).0));
    let value = trim(split_attr(seg).1);
    if key == "domain"@ {
        CookieView { domain: value, ..c }
    } else if key == "path"@ {
        CookieView { path: value, ..c }
    } else if key == "secure"@ {
        CookieView { secure: true, ..c }
    } else if key == "httponly"@ {
        CookieView { http_only: true, ..c }
    } else if key == "samesite"@ {
        CookieView { same_site: lower_seq(value), ..c }
    } else if key == "max-age"@ {
        match spec_parse_i64(value) {
            Some(n) => CookieView { expiration_date: Some(i64::wrapping_add(now_secs, n)), ..c },
            None => c,
        }
    } else {
        c
    }
}

/// The cookie after the attributes `segs`, in order.
pub open spec fn apply_attrs(c: CookieView, segs: Seq<Seq<char>>, now_secs: i64) -> CookieView
    decreases segs.len(),
{
    if segs.len() == 0 {
        c
    } else {
        apply_attr(apply_attrs(c, segs.drop_last(), now_secs), segs.last(), now_secs)
    }
}

/// The cookie a `Set-Cookie` line sets, read at `now_ms`; none when its first
/// part has no `=`.
pub open spec fn spec_parse_set_cookie(line: Seq<char>, now_ms: u128) -> Option<CookieView> {
    let segs = cookie_segments(line);
    if segs.len() == 0 || first_index_of_char(segs[0], '=') >= segs[0].len() {
        None
    } else {
        let first = split_attr(segs[0]);
        Some(
            apply_attrs(
                CookieView {
                    name: trim(first.0),
                    value: first.1,
                    domain: seq![],
                    path: "/"@,
                    secure: false,
                    http_only: false,
                    same_site: "lax"@,
                    expiration_date: None,
                },
                segs.drop_first(),
                (now_ms / 1000) as i64,
            ),
        )
    }
}

/// Whether two character vectors hold the same text as `s`.
fn is_word(a: &[char], s: &str) -> (r: bool)
    ensures
        r == (a@ == s@),
{
    let w = chars_of(s);
    same_chars(a, w.as_slice())
}

/// Applies one attribute of a `Set-Cookie` line to `c`.
fn apply_attr_exec(c: &mut StoredCookie, seg: &[char], now_secs: i64)
    ensures
        final(c)@ == apply_attr(old(c)@, seg@, now_secs),
{
    let i = find_char_or_len(seg, '=');
    let (k, v) = if i < seg.len() {
        (copy_range(seg, 0, i), copy_range(seg, i + 1, seg.len()))
    } else {
        (copy_range(seg, 0, seg.len()), Vec::new())
    };
    proof {
        if i < seg@.len() {
            assert(k@ =~= seg@.take(i as int));
            assert(v@ =~= seg@.skip(i + 1));
        } else {
            assert(k@ =~= seg@);
            assert(v@ =~= seq![]);
        }
    }
    let key = to_ascii_lower(trim_chars(k.as_slice()).as_slice());
    let value = trim_chars(v.as_slice());
    if is_word(key.as_slice(), "domain") {
        c.domain = string_of(value.as_slice());
    } else if is_word(key.as_slice(), "path") {
        c.path = string_of(value.as_slice());
    } else if is_word(key.as_slice(), "secure") {
        c.secure = true;
    } else if is_word(key.as_slice(), "httponly") {
        c.http_only = true;
    } else if is_word(key.as_slice(), "samesite") {
        c.same_site = string_of(to_ascii_lower(value.as_slice()).as_slice());
    } else if is_word(key.as_slice(), "max-age") {
        match parse_i64(value.as_slice()) {
            Some(n) => {
                c.expiration_date = Some(now_secs.wrapping_add(n));
            },
            None => {},
        }
    }
}

/// The cookie a `Set-Cookie` line sets, read at `now_ms`.
pub fn parse_set_cookie(line: &str, now_ms: u128) -> (r: Option<StoredCookie>)
    ensures
        match r {
            Some(c) => spec_parse_set_cookie(line@, now_ms) == Some(c@),
            None => spec_parse_set_cookie(line@, now_ms) is None,
        },
{
    let segs = cookie_segments_of(line);
    if segs.len() == 0 {
        return None;
    }
    let first = &segs[0];
    let i = find_char_or_len(first.as_slice(), '=');
    if i >= first.len() {
        return None;
    }
    let head = copy_range(first.as_slice(), 0, i);
    let name = trim_chars(head.as_slice());
    let value = copy_range(first.as_slice(), i + 1, first.len());
    assert(head@ =~= first@.take(i as int));
    assert(value@ =~= first@.skip(i + 1));
    let now_secs = (now_ms / 1000) as i64;
    let mut cookie = StoredCookie {
        name: string_of(name.as_slice()),
        value: string_of(value.as_slice()),
        domain: String::new(),
        path: String::from_str("/"),
        secure: false,
        http_only: false,
        same_site: String::from_str("lax"),
        expiration_date: None,
    };
    let ghost sv = vecs_view(segs@);
    let ghost init = cookie@;
    let mut j: usize = 1;
    while j < segs.len()
        invariant
            1 <= j <= segs@.len(),
            sv == vecs_view(segs@),
            cookie@ == apply_attrs(init, sv.drop_first().take(j - 1), now_secs),
        decreases segs@.len() - j,
    {
        let ghost t = sv.drop_first().take(j as int);
        assert(t.drop_last() =~= sv.drop_first().take(j - 1));
        assert(t.last() == segs@[j as int]@);
        apply_attr_exec(&mut cookie, segs[j].as_slice(), now_secs);
        j = j + 1;
    }
    assert(sv.drop_first().take(segs@.len() - 1) =~= sv.drop_first());
    Some(cookie)
}

/// Two cookies fill the same slot: same name, domain and path.
pub open spec fn same_slot(a: CookieView, b: CookieView) -> bool {
    a.name == b.name && a.domain == b.domain && a.path == b.path
}

/// The cookies that do not fill the slot of `c`, in order.
pub open spec fn outside_slot(cs: Seq<CookieView>, c: CookieView) -> Seq<CookieView>
    decreases cs.len(),
{
    if cs.len() == 0 {
        seq![]
    } else if same_slot(cs.last(), c) {
        outside_slot(cs.drop_last(), c)
    } else {
        outside_slot(cs.drop_last(), c).push(cs.last())
    }
}

/// The cookies after the `Set-Cookie` lines, in order: each cookie set
/// replaces the one in its slot and goes to the end; a line that sets none
/// changes nothing.
pub open spec fn merge_lines(cs: Seq<CookieView>, lines: Seq<Seq<char>>, now_ms: u128) -> Seq<
    CookieView,
>
    decreases lines.len(),
{
    if lines.len() == 0 {
        cs
    } else {
        let prev = merge_lines(cs, lines.drop_last(), now_ms);
        match spec_parse_set_cookie(lines.last(), now_ms) {
            Some(c) => outside_slot(prev, c).push(c),
            None => prev,
        }
    }
}

/// Stores the cookie of one `Set-Cookie` line.
fn store_cookie(cookies: &mut Vec<StoredCookie>, c: StoredCookie)
    ensures
        cookies_view(final(cookies)@) == outside_slot(cookies_view(old(cookies)@), c@).push(c@),
{
    let ghost cv = cookies_view(cookies@);
    let mut kept: Vec<StoredCookie> = Vec::new();
    let mut i: usize = 0;
    while i < cookies.len()
        invariant
            i <= cookies@.len(),
            cv == cookies_view(cookies@),
            cookies_view(kept@) == outside_slot(cv.take(i as int), c@),
        decreases cookies@.len() - i,
    {
        let ghost t = cv.take(i + 1);
        assert(t.drop_last() =~= cv.take(i as int));
        assert(t.last() == cookies@[i as int]@);
        let e = &cookies[i];
        if !(e.name == c.name && e.domain == c.domain && e.path == c.path) {
            let ghost before = cookies_view(kept@);
            kept.push(e.clone());
            assert(cookies_view(kept@) =~= before.push(cookies@[i as int]@));
        }
        i = i + 1;
    }
    assert(cv.take(cookies@.len() as int) =~= cv);
    let ghost before = cookies_view(kept@);
    let ghost cc = c@;
    kept.push(c);
    assert(cookies_view(kept@) =~= before.push(cc));
    *cookies = kept;
}

/// Stores the cookies of the `Set-Cookie` lines of a reply, read at `now_ms`.
pub fn merge_set_cookie(cookies: &mut Vec<StoredCookie>, lines: &[String], now_ms: u128)
    ensures
        cookies_view(final(cookies)@) == merge_lines(
            cookies_view(old(cookies)@),
            strings_view(lines@),
            now_ms,
        ),
{
    let ghost start = cookies_view(cookies@);
    let ghost lv = strings_view(lines@);
    let mut i: usize = 0;
    while i < lines.len()
        invariant
            i <= lines@.len(),
            lv == strings_view(lines@),
            cookies_view(cookies@) == merge_lines(start, lv.take(i as int), now_ms),
        decreases lines@.len() - i,
    {
        let ghost t = lv.take(i + 1);
        assert(t.drop_last() =~= lv.take(i as int));
        assert(t.last() == lines@[i as int]@);
        match parse_set_cookie(lines[i].as_str(), now_ms) {
            Some(c) => store_cookie(cookies, c),
            None => {},
        }
        i = i + 1;
    }
    assert(lv.take(lines@.len() as int) =~= lv);
}

/// The `name=value` pairs of the cookies that have a name, in order.
pub open spec fn cookie_pairs(cs: Seq<CookieView>) -> Seq<Seq<char>>
    decreases cs.len(),
{
    if cs.len() == 0 {
        seq![]
    } else if cs.last().name.len() > 0 {
        cookie_pairs(cs.drop_last()).push(cs.last().name + "="@ + cs.last().value)
    } else {
        cookie_pairs(cs.drop_last())
    }
}

/// The `Cookie` header for the stored cookies: their pairs joined by `; `.
pub fn cookie_header(cookies: &[StoredCookie]) -> (r: String)
    ensures
        r@ == join(cookie_pairs(cookies_view(cookies@)), "; "@),
{
    let ghost cv = cookies_view(cookies@);
    let mut parts: Vec<Vec<char>> = Vec::new();
    let mut i: usize = 0;
    while i < cookies.len()
        invariant
            i <= cookies@.len(),
            cv == cookies_view(cookies@),
            vecs_view(parts@) == cookie_pairs(cv.take(i as int)),
        decreases cookies@.len() - i,
    {
        let ghost t = cv.take(i + 1);
        assert(t.drop_last() =~= cv.take(i as int));
        assert(t.last() == cookies@[i as int]@);
        let c = &cookies[i];
        if c.name.unicode_len() > 0 {
            let mut p = chars_of(c.name.as_str());
            p.push('=');
            push_all(&mut p, chars_of(c.value.as_str()).as_slice());
            proof {
                reveal_strlit("=");
            }
            assert(p@ =~= c.name@ + "="@ + c.value@);
            let ghost before = vecs_view(parts@);
            parts.push(p);
            assert(vecs_view(parts@) =~= before.push(c.name@ + "="@ + c.value@));
        }
        i = i + 1;
    }
    assert(cv.take(cookies@.len() as int) =~= cv);
    let sep = chars_of("; ");
    let r = join_chars(&parts, sep.as_slice());
    string_of(r.as_slice())
}

/// `Value::as_u64` of an optional value.
pub open spec fn json_u64(v: Option<JsonValue>) -> Option<u64> {
    match v {
        Some(JsonValue::Number(n)) => n.as_u64,
        _ => None,
    }
}

/// `Value::as_i64` of an optional value.
pub open spec fn json_i64(v: Option<JsonValue>) -> Option<i64> {
    match v {
        Some(JsonValue::Number(n)) => n.as_i64,
        _ => None,
    }
}

/// The user a login reply describes: an object with a non-blank string
/// `username`; the display name falls back to the user name, missing
/// numbers to 0 and a missing group to empty.
pub open spec fn spec_auth_user(v: Option<JsonValue>) -> Option<AuthUserView> {
    match v {
        Some(raw) => match raw {
            JsonValue::Object(_) => match json_str(json_get(raw, "username"@)) {
                Some(u) => if trim(u).len() == 0 {
                    None
                } else {
                    Some(
                        AuthUserView {
                            id: match json_u64(json_get(raw, "id"@)) {
                                Some(n) => n,
                                None => 0,
                            },
                            username: trim(u),
                            display_name: match nonblank_str(
                                or_else(json_get(raw, "display_name"@), json_get(raw, "displayName"@)),
                            ) {
                                Some(d) => d,
                                None => trim(u),
                            },
                            group: match json_str(json_get(raw, "group"@)) {
                                Some(g) => trim(g),
                                None => seq![],
                            },
                            role: match json_i64(json_get(raw, "role"@)) {
                                Some(n) => n,
                                None => 0,
                            },
                            status: match json_i64(json_get(raw, "status"@)) {
                                Some(n) => n,
                                None => 0,
                            },
                        },
                    )
                },
                None => None,
            },
            _ => None,
        },
        None => None,
    }
}

fn member_u64(raw: &JsonValue, key: &str) -> (r: u64)
    ensures
        r == match json_u64(json_get(*raw, key@)) {
            Some(n) => n,
            None => 0,
        },
{
    match raw.get(key) {
        Some(JsonValue::Number(n)) => match n.as_u64 {
            Some(x) => x,
            None => 0,
        },
        _ => 0,
    }
}

fn member_i64(raw: &JsonValue, key: &str) -> (r: i64)
    ensures
        r == match json_i64(json_get(*raw, key@)) {
            Some(n) => n,
            None => 0,
        },
{
    match raw.get(key) {
        Some(JsonValue::Number(n)) => match n.as_i64 {
            Some(x) => x,
            None => 0,
        },
        _ => 0,
    }
}

/// The user described by the `data` of a login reply.
pub fn normalize_auth_user(value: Option<&JsonValue>) -> (r: Option<AuthUser>)
    ensures
        match r {
            Some(u) => spec_auth_user(opt_value(value)) == Some(u@),
            None => spec_auth_user(opt_value(value)) is None,
        },
{
    let raw = match value {
        Some(v) => v,
        None => return None,
    };
    match raw {
        JsonValue::Object(_) => {},
        _ => return None,
    }
    let username = match raw.get("username") {
        Some(JsonValue::String(u)) => trim_str(u.as_str()),
        _ => return None,
    };
    if username.len() == 0 {
        return None;
    }
    let display = match first_some(raw.get("display_name"), raw.get("displayName")) {
        Some(JsonValue::String(d)) => trim_str(d.as_str()),
        _ => Vec::new(),
    };
    let display_name = if display.len() > 0 {
        string_of(display.as_slice())
    } else {
        string_of(username.as_slice())
    };
    let group = match raw.get("group") {
        Some(JsonValue::String(g)) => string_of(trim_str(g.as_str()).as_slice()),
        _ => String::new(),
    };
    Some(
        AuthUser {
            id: member_u64(raw, "id"),
            username: string_of(username.as_slice()),
            display_name,
            group,
            role: member_i64(raw, "role"),
            status: member_i64(raw, "status"),
        },
    )
}

/// A key of the remote service, as listed by a search.
#[derive(Debug)]
pub struct RemoteToken {
    pub id: String,
    pub name: String,
    pub api_key: String,
    pub group: String,
    pub status: JsonValue,
    pub raw: JsonValue,
}

/// The mathematical value of a [`RemoteToken`].
pub struct RemoteTokenView {
    pub id: Seq<char>,
    pub name: Seq<char>,
    pub api_key: Seq<char>,
    pub group: Seq<char>,
    pub status: JsonData,
    pub raw: JsonData,
}

impl View for RemoteToken {
    type V = RemoteTokenView;

    open spec fn view(&self) -> RemoteTokenView {
        RemoteTokenView {
            id: self.id@,
            name: self.name@,
            api_key: self.api_key@,
            group: self.group@,
            status: json_data(self.status),
            raw: json_data(self.raw),
        }
    }
}

/// The views of a list of tokens.
pub open spec fn tokens_view(v: Seq<RemoteToken>) -> Seq<RemoteTokenView> {
    v.map_values(|t: RemoteToken| t@)
}

/// The first of the members `keys` that `v` has.
pub open spec fn first_member(v: JsonValue, keys: Seq<Seq<char>>) -> Option<JsonValue>
    decreases keys.len(),
{
    if keys.len() == 0 {
        None
    } else {
        match json_get(v, keys[0]) {
            Some(x) => Some(x),
            None => first_member(v, keys.drop_first()),
        }
    }
}

/// A field's text: a string trimmed, another value as compact JSON, nothing
/// as empty.
pub open spec fn field_text(v: Option<JsonValue>) -> Seq<char> {
    match v {
        Some(JsonValue::String(s)) => trim(s@),
        Some(x) => json_text(json_data(x)),
        None => seq![],
    }
}

/// The first of the members `keys` that `v` has, as text.
fn string_field(v: &JsonValue, keys: &[&str]) -> (r: String)
    ensures
        r@ == field_text(first_member(*v, strs_view(keys@))),
{
    let mut i: usize = 0;
    assert(strs_view(keys@).skip(0) =~= strs_view(keys@));
    while i < keys.len()
        invariant
            i <= keys@.len(),
            first_member(*v, strs_view(keys@)) == first_member(
                *v,
                strs_view(keys@).skip(i as int),
            ),
        decreases keys@.len() - i,
    {
        let ghost rest = strs_view(keys@).skip(i as int);
        assert(rest[0] == keys@[i as int]@);
        assert(rest.drop_first() =~= strs_view(keys@).skip(i + 1));
        match v.get(keys[i]) {
            Some(JsonValue::String(t)) => {
                return string_of(trim_str(t.as_str()).as_slice());
            },
            Some(x) => {
                return string_of(json_text_of(x).as_slice());
            },
            None => {},
        }
        i = i + 1;
    }
    String::new()
}

/// The token a listed item describes: only an object describes one.
pub open spec fn spec_token(raw: JsonValue) -> Option<RemoteTokenView> {
    match raw {
        JsonValue::Object(_) => Some(
            RemoteTokenView {
                id: field_text(first_member(raw, seq!["id"@, "token_id"@, "key_id"@])),
                name: field_text(first_member(raw, seq!["name"@])),
                api_key: field_text(first_member(raw, seq!["key"@, "masked_key"@])),
                group: field_text(first_member(raw, seq!["group"@, "token_group"@])),
                status: match first_member(raw, seq!["status"@, "enabled"@]) {
                    Some(x) => json_data(x),
                    None => JsonData::Null,
                },
                raw: json_data(raw),
            },
        ),
        _ => None,
    }
}

/// The tokens the listed items describe, in order.
pub open spec fn spec_tokens(list: Seq<JsonValue>) -> Seq<RemoteTokenView>
    decreases list.len(),
{
    if list.len() == 0 {
        seq![]
    } else {
        match spec_token(list.last()) {
            Some(t) => spec_tokens(list.drop_last()).push(t),
            None => spec_tokens(list.drop_last()),
        }
    }
}

/// The member `key` of an optional value.
pub open spec fn get_in(v: Option<JsonValue>, key: Seq<char>) -> Option<JsonValue> {
    match v {
        Some(x) => json_get(x, key),
        None => None,
    }
}

/// The listed items of a search reply: the array `data`, else `data.items`,
/// else `items`, else none.
pub open spec fn token_list(payload: JsonValue) -> Seq<JsonValue> {
    match json_array(json_get(payload, "data"@)) {
        Some(l) => l,
        None => match json_array(get_in(json_get(payload, "data"@), "items"@)) {
            Some(l) => l,
            None => match json_array(json_get(payload, "items"@)) {
                Some(l) => l,
                None => seq![],
            },
        },
    }
}

/// The token a listed item describes, if it is an object.
fn token_of(raw: &JsonValue) -> (r: Option<RemoteToken>)
    ensures
        match r {
            Some(t) => spec_token(*raw) == Some(t@),
            None => spec_token(*raw) is None,
        },
{
    match raw {
        JsonValue::Object(_) => {},
        _ => return None,
    }
    let id_keys: [&str; 3] = ["id", "token_id", "key_id"];
    let name_keys: [&str; 1] = ["name"];
    let key_keys: [&str; 2] = ["key", "masked_key"];
    let group_keys: [&str; 2] = ["group", "token_group"];
    let status_keys: [&str; 2] = ["status", "enabled"];
    assert(strs_view(id_keys@) =~= seq!["id"@, "token_id"@, "key_id"@]);
    assert(strs_view(name_keys@) =~= seq!["name"@]);
    assert(strs_view(key_keys@) =~= seq!["key"@, "masked_key"@]);
    assert(strs_view(group_keys@) =~= seq!["group"@, "token_group"@]);
    assert(strs_view(status_keys@) =~= seq!["status"@, "enabled"@]);
    proof {
        let ks = seq!["status"@, "enabled"@];
        assert(ks[0] == "status"@);
        assert(ks.drop_first() =~= seq!["enabled"@]);
        assert(seq!["enabled"@][0] == "enabled"@);
        assert(seq!["enabled"@].drop_first() =~= Seq::<Seq<char>>::empty());
        reveal_with_fuel(first_member, 3);
    }
    assert(first_member(*raw, seq!["status"@, "enabled"@]) == or_else(
        json_get(*raw, "status"@),
        json_get(*raw, "enabled"@),
    ));
    let status = match first_some(raw.get("status"), raw.get("enabled")) {
        Some(x) => clone_json(x),
        None => JsonValue::Null,
    };
    Some(
        RemoteToken {
            id: string_field(raw, &id_keys),
            name: string_field(raw, &name_keys),
            api_key: string_field(raw, &key_keys),
            group: string_field(raw, &group_keys),
            status,
            raw: clone_json(raw),
        },
    )
}

/// The tokens listed in a search reply.
pub fn normalize_remote_tokens(payload: &JsonValue) -> (r: Vec<RemoteToken>)
    ensures
        tokens_view(r@) == spec_tokens(token_list(*payload)),
{
    let data = payload.get("data");
    let list: &Vec<JsonValue> = match data {
        Some(JsonValue::Array(l)) => l,
        _ => {
            let nested = match data {
                Some(d) => d.get("items"),
                None => None,
            };
            match nested {
                Some(JsonValue::Array(l)) => l,
                _ => match payload.get("items") {
                    Some(JsonValue::Array(l)) => l,
                    _ => {
                        assert(token_list(*payload) =~= seq![]);
                        return Vec::new();
                    },
                },
            }
        },
    };
    let ghost lv = list@;
    assert(lv == token_list(*payload));
    let mut out: Vec<RemoteToken> = Vec::new();
    let mut i: usize = 0;
    while i < list.len()
        invariant
            i <= list@.len(),
            lv == list@,
            tokens_view(out@) == spec_tokens(lv.take(i as int)),
        decreases list@.len() - i,
    {
        let ghost t = lv.take(i + 1);
        assert(t.drop_last() =~= lv.take(i as int));
        assert(t.last() == list@[i as int]);
        match token_of(&list[i]) {
            Some(tok) => {
                let ghost before = tokens_view(out@);
                let ghost tv = tok@;
                out.push(tok);
                assert(tokens_view(out@) =~= before.push(tv));
            },
            None => {},
        }
        i = i + 1;
    }
    assert(lv.take(list@.len() as int) =~= lv);
    out
}

/// The key text inside one candidate value: the value itself when a
/// non-blank string, else its first non-blank string member among
/// `key`, `token`, `value`, `api_key`, `apiKey`.
pub open spec fn key_in_value(v: JsonValue) -> Option<Seq<char>> {
    match nonblank_str(Some(v)) {
        Some(s) => Some(s),
        None => match v {
            JsonValue::Object(_) => first_nonblank_member(
                v,
                seq!["key"@, "token"@, "value"@, "api_key"@, "apiKey"@],
            ),
            _ => None,
        },
    }
}

/// The key in a decrypt reply: the first of its members `keys` that holds one.
pub open spec fn key_in_members(payload: JsonValue, keys: Seq<Seq<char>>) -> Option<Seq<char>>
    decreases keys.len(),
{
    if keys.len() == 0 {
        None
    } else {
        match json_get(payload, keys[0]) {
            Some(v) => match key_in_value(v) {
                Some(s) => Some(s),
                None => key_in_members(payload, keys.drop_first()),
            },
            None => key_in_members(payload, keys.drop_first()),
        }
    }
}

/// The key in a decrypt reply, looked for in `data`, `key`, `token`, `value`,
/// `api_key` and `apiKey`, in that order.
pub open spec fn spec_remote_key(payload: JsonValue) -> Option<Seq<char>> {
    key_in_members(payload, seq!["data"@, "key"@, "token"@, "value"@, "api_key"@, "apiKey"@])
}

/// The key text inside one candidate value.
fn key_in_value_exec(v: &JsonValue) -> (r: Option<String>)
    ensures
        match r {
            Some(s) => key_in_value(*v) == Some(s@),
            None => key_in_value(*v) is None,
        },
{
    match v {
        JsonValue::String(t) => {
            let s = trim_str(t.as_str());
            if s.len() > 0 {
                return Some(string_of(s.as_slice()));
            }
            None
        },
        JsonValue::Object(_) => {
            let keys: [&str; 5] = ["key", "token", "value", "api_key", "apiKey"];
            assert(strs_view(keys@) =~= seq!["key"@, "token"@, "value"@, "api_key"@, "apiKey"@]);
            first_nonblank(v, &keys)
        },
        _ => None,
    }
}

/// The key in a decrypt reply.
pub fn extract_remote_key_value(payload: &JsonValue) -> (r: Option<String>)
    ensures
        match r {
            Some(s) => spec_remote_key(*payload) == Some(s@),
            None => spec_remote_key(*payload) is None,
        },
{
    let keys: [&str; 6] = ["data", "key", "token", "value", "api_key", "apiKey"];
    let ghost kv = strs_view(keys@);
    assert(kv =~= seq!["data"@, "key"@, "token"@, "value"@, "api_key"@, "apiKey"@]);
    let mut i: usize = 0;
    assert(kv.skip(0) =~= kv);
    while i < keys.len()
        invariant
            i <= keys@.len(),
            kv == strs_view(keys@),
            spec_remote_key(*payload) == key_in_members(*payload, kv.skip(i as int)),
        decreases keys@.len() - i,
    {
        let ghost rest = kv.skip(i as int);
        assert(rest[0] == keys@[i as int]@);
        assert(rest.drop_first() =~= kv.skip(i + 1));
        match payload.get(keys[i]) {
            Some(v) => match key_in_value_exec(v) {
                Some(s) => {
                    return Some(s);
                },
                None => {},
            },
            None => {},
        }
        i = i + 1;
    }
    None
}

/// What the login form holds.
#[derive(Debug)]
pub struct LoginCredentials {
    pub login_mode: String,
    pub base_url: String,
    pub username: String,
    pub password: String,
}

/// The login state a successful login gives.
#[derive(Debug)]
pub struct LoginPayload {
    pub auth: AuthState,
}

/// The keys a search found.
#[derive(Debug)]
pub struct RemoteKeySearchPayload {
    pub keyword: String,
    pub items: Vec<RemoteToken>,
}

/// A decrypted key.
#[derive(Debug)]
pub struct RemoteKeyDecryptPayload {
    pub token_id: String,
    pub api_key: String,
}

/// A request to the key service: method, full URL, headers in the order they
/// are set, and an optional JSON body.
#[derive(Debug)]
pub struct HttpRequest {
    pub method: String,
    pub url: String,
    pub headers: Vec<(String, String)>,
    pub body: Option<JsonValue>,
}

/// The views of a list of headers.
pub open spec fn headers_view(h: Seq<(String, String)>) -> Seq<(Seq<char>, Seq<char>)> {
    h.map_values(|p: (String, String)| (p.0@, p.1@))
}

/// The browser user agent the service is spoken to with.
pub open spec fn browser_agent() -> Seq<char> {
    "Mozilla/5.0 (Windows NT 10.0; Win64; x64) AppleWebKit/537.36 (KHTML, like Gecko) Chrome/148.0.0.0 Safari/537.36"@
}

/// The headers every request carries, before its own.
pub open spec fn default_headers() -> Seq<(Seq<char>, Seq<char>)> {
    seq![
        ("Accept-Language"@, "zh-CN,zh;q=0.9,en;q=0.8"@),
        ("user-agent"@, browser_agent()),
        ("Connection"@, "keep-alive"@),
    ]
}

/// The `accept` value of the JSON endpoints.
pub open spec fn json_accept() -> Seq<char> {
    "application/json, text/plain, */*"@
}

fn str_pair(name: &str, value: &str) -> (r: (String, String))
    ensures
        r.0@ == name@,
        r.1@ == value@,
{
    (String::from_str(name), String::from_str(value))
}

fn concat(a: &str, b: &str) -> (r: String)
    ensures
        r@ == a@ + b@,
{
    let mut v = chars_of(a);
    push_all(&mut v, chars_of(b).as_slice());
    string_of(v.as_slice())
}

/// The headers of a request: the default ones, then `entries` in order.
pub fn build_headers(entries: Vec<(String, String)>) -> (r: Vec<(String, String)>)
    ensures
        headers_view(r@) == default_headers() + headers_view(entries@),
{
    let mut h: Vec<(String, String)> = Vec::new();
    h.push(str_pair("Accept-Language", "zh-CN,zh;q=0.9,en;q=0.8"));
    h.push(
        str_pair(
            "user-agent",
            "Mozilla/5.0 (Windows NT 10.0; Win64; x64) AppleWebKit/537.36 (KHTML, like Gecko) Chrome/148.0.0.0 Safari/537.36",
        ),
    );
    h.push(str_pair("Connection", "keep-alive"));
    assert(headers_view(h@) =~= default_headers());
    let ghost ev = headers_view(entries@);
    let mut i: usize = 0;
    while i < entries.len()
        invariant
            i <= ev.len(),
            ev == headers_view(entries@),
            headers_view(h@) == default_headers() + ev.take(i as int),
        decreases ev.len() - i,
    {
        let ghost before = headers_view(h@);
        let e = (entries[i].0.clone(), entries[i].1.clone());
        assert(ev[i as int] == (e.0@, e.1@));
        h.push(e);
        assert(ev.take(i + 1) =~= ev.take(i as int).push((e.0@, e.1@)));
        assert(headers_view(h@) =~= before.push((e.0@, e.1@)));
        i = i + 1;
    }
    assert(ev.take(ev.len() as int) =~= ev);
    h
}

/// The headers of a request with the stored cookies: a `Cookie` header is
/// added when there are any.
pub fn with_cookies(headers: Vec<(String, String)>, cookies: &[StoredCookie]) -> (r: Vec<
    (String, String),
>)
    ensures
        cookies@.len() == 0 ==> headers_view(r@) == headers_view(headers@),
        cookies@.len() > 0 ==> headers_view(r@) == headers_view(headers@).push(
            ("Cookie"@, join(cookie_pairs(cookies_view(cookies@)), "; "@)),
        ),
{
    let mut h = headers;
    if cookies.len() > 0 {
        let ghost before = headers_view(h@);
        let v = cookie_header(cookies);
        let ghost vv = v@;
        h.push((String::from_str("Cookie"), v));
        assert(headers_view(h@) =~= before.push(("Cookie"@, vv)));
    }
    h
}

/// What a reply's text stands for: nothing when blank, its JSON, or else an
/// object whose `message` is the text.
pub open spec fn spec_reply_payload(text: Seq<char>) -> JsonData {
    if trim(text).len() == 0 {
        JsonData::Null
    } else {
        match json_parsed(text) {
            Some(d) => d,
            None => JsonData::Object(seq![("message"@, JsonData::Str(text))]),
        }
    }
}

/// The JSON a reply's text stands for.
pub fn reply_payload(text: &str) -> (r: JsonValue)
    ensures
        json_data(r) == spec_reply_payload(text@),
{
    if trim_str(text).len() == 0 {
        return JsonValue::Null;
    }
    match parse_json(text) {
        Some(v) => v,
        None => {
            let mut members: Vec<(String, JsonValue)> = Vec::new();
            members.push((String::from_str("message"), JsonValue::String(String::from_str(text))));
            assert(json_data(members@[0].1) == JsonData::Str(text@));
            let r = JsonValue::Object(members);
            proof {
                if let JsonData::Object(ms) = json_data(r) {
                    assert(ms =~= seq![("message"@, JsonData::Str(text@))]);
                }
            }
            r
        },
    }
}

/// The message of a failed reply: its own message, else the status.
pub open spec fn failure_message(payload: JsonValue, status: Seq<char>) -> Seq<char> {
    match spec_api_message(payload) {
        Some(m) => m,
        None => "请求失败："@ + status,
    }
}

/// A reply's payload when its status is a success, else the failure with the
/// reply's message or its status (`status` as the status line shows it).
pub fn check_reply(success: bool, status: &str, payload: JsonValue) -> (r: Result<
    JsonValue,
    RemoteError,
>)
    ensures
        success ==> (r matches Ok(p) && p == payload),
        !success ==> (r matches Err(e) && e.message@ == failure_message(payload, status@)),
{
    if success {
        return Ok(payload);
    }
    let message = match extract_api_message(&payload) {
        Some(m) => m,
        None => concat("请求失败：", status),
    };
    Err(RemoteError { message })
}

/// A request with the given method and URL, carrying the default headers and
/// then `headers`.
pub open spec fn request_is(
    r: HttpRequest,
    method: Seq<char>,
    url: Seq<char>,
    headers: Seq<(Seq<char>, Seq<char>)>,
) -> bool {
    &&& r.method@ == method
    &&& r.url@ == url
    &&& headers_view(r.headers@) == default_headers() + headers
}

/// The first steps of a login: the server, the user name, the sign-in page
/// request and the login request.
#[derive(Debug)]
pub struct LoginStart {
    pub base_url: String,
    pub username: String,
    pub sign_in: HttpRequest,
    pub login: HttpRequest,
}

/// The message for a login mode other than `newApi`.
pub open spec fn mode_message() -> Seq<char> {
    "only newApi login mode is supported"@
}

/// The message for a missing user name or password.
pub open spec fn credentials_message() -> Seq<char> {
    "请输入账号和密码"@
}

/// The sign-in page request of a login at `base`.
pub open spec fn sign_in_headers(base: Seq<char>) -> Seq<(Seq<char>, Seq<char>)> {
    seq![
        ("accept"@, "text/html,application/xhtml+xml,application/xml;q=0.9,*/*;q=0.8"@),
        ("referer"@, base + "/sign-in"@),
    ]
}

/// The headers of the login request at `base`.
pub open spec fn login_headers(base: Seq<char>) -> Seq<(Seq<char>, Seq<char>)> {
    seq![
        ("accept"@, json_accept()),
        ("cache-control"@, "no-store"@),
        ("content-type"@, "application/json"@),
        ("origin"@, base),
        ("referer"@, base + "/sign-in"@),
    ]
}

/// Checks the login form and plans its first two requests: the sign-in page,
/// then the login with the trimmed user name and the password as typed.
pub fn login_start(credentials: &LoginCredentials) -> (r: Result<LoginStart, RemoteError>)
    ensures
        trim(credentials.login_mode@) != "newApi"@ ==> (r matches Err(e) && e.message@
            == mode_message()),
        trim(credentials.login_mode@) == "newApi"@ && (trim(credentials.username@).len() == 0
            || credentials.password@.len() == 0) ==> (r matches Err(e) && e.message@
            == credentials_message()),
        trim(credentials.login_mode@) == "newApi"@ && trim(credentials.username@).len() > 0
            && credentials.password@.len() > 0 ==> (r matches Ok(st) && {
            let base = spec_auth_base_url(credentials.base_url@);
            &&& st.base_url@ == base
            &&& st.username@ == trim(credentials.username@)
            &&& request_is(st.sign_in, "GET"@, base + "/sign-in"@, sign_in_headers(base))
            &&& st.sign_in.body is None
            &&& request_is(
                st.login,
                "POST"@,
                base + "/api/user/login?turnstile="@,
                login_headers(base),
            )
            &&& st.login.body matches Some(b) && json_data(b) == JsonData::Object(
                seq![
                    ("username"@, JsonData::Str(trim(credentials.username@))),
                    ("password"@, JsonData::Str(credentials.password@)),
                ],
            )
        }),
{
    let mode = trim_str(credentials.login_mode.as_str());
    if !is_word(mode.as_slice(), "newApi") {
        return Err(RemoteError { message: String::from_str("only newApi login mode is supported") });
    }
    let username = string_of(trim_str(credentials.username.as_str()).as_slice());
    if username.unicode_len() == 0 || credentials.password.unicode_len() == 0 {
        return Err(RemoteError { message: String::from_str("请输入账号和密码") });
    }
    let base_url = normalized_auth_base_url(credentials.base_url.as_str());
    let b = base_url.as_str();
    let sign_in_entries = vec![
        str_pair("accept", "text/html,application/xhtml+xml,application/xml;q=0.9,*/*;q=0.8"),
        (String::from_str("referer"), concat(b, "/sign-in")),
    ];
    assert(headers_view(sign_in_entries@) =~= sign_in_headers(b@));
    let sign_in = HttpRequest {
        method: String::from_str("GET"),
        url: concat(b, "/sign-in"),
        headers: build_headers(sign_in_entries),
        body: None,
    };
    let login_entries = vec![
        str_pair("accept", "application/json, text/plain, */*"),
        str_pair("cache-control", "no-store"),
        str_pair("content-type", "application/json"),
        (String::from_str("origin"), String::from_str(b)),
        (String::from_str("referer"), concat(b, "/sign-in")),
    ];
    assert(headers_view(login_entries@) =~= login_headers(b@));
    let mut members: Vec<(String, JsonValue)> = Vec::new();
    members.push((String::from_str("username"), JsonValue::String(username.clone())));
    members.push((String::from_str("password"), JsonValue::String(credentials.password.clone())));
    assert(json_data(members@[0].1) == JsonData::Str(trim(credentials.username@)));
    assert(json_data(members@[1].1) == JsonData::Str(credentials.password@));
    let body = JsonValue::Object(members);
    proof {
        if let JsonData::Object(ms) = json_data(body) {
            assert(ms =~= seq![
                ("username"@, JsonData::Str(trim(credentials.username@))),
                ("password"@, JsonData::Str(credentials.password@)),
            ]);
        }
    }
    let login = HttpRequest {
        method: String::from_str("POST"),
        url: concat(b, "/api/user/login?turnstile="),
        headers: build_headers(login_entries),
        body: Some(body),
    };
    Ok(LoginStart { base_url, username, sign_in, login })
}

/// The message when a login reply refuses the credentials without saying why.
pub open spec fn refused_message() -> Seq<char> {
    "用户名或密码错误，或用户已被禁用"@
}

/// The message when a reply that should describe the user does not.
pub open spec fn no_user_message() -> Seq<char> {
    "登录成功，但没有拿到用户信息"@
}

/// What a login reply leads to: the `New-Api-User` header for the user it
/// describes, or the reason the login failed.
pub open spec fn spec_login_reply(payload: JsonValue) -> Result<Seq<char>, Seq<char>> {
    if json_get(payload, "success"@) == Some(JsonValue::Bool(false)) {
        Err(
            match spec_api_message(payload) {
                Some(m) => m,
                None => refused_message(),
            },
        )
    } else {
        match spec_auth_user(json_get(payload, "data"@)) {
            None => Err(no_user_message()),
            Some(u) => match spec_user_header(u.id) {
                Some(h) => Ok(h),
                None => Err(missing_user_id_message()),
            },
        }
    }
}

/// Reads the login reply: a reply with `success: false` fails with its
/// message; otherwise its `data` must describe a user with an id, whose
/// `New-Api-User` header is returned.
pub fn login_reply(payload: &JsonValue) -> (r: Result<String, RemoteError>)
    ensures
        match (r, spec_login_reply(*payload)) {
            (Ok(h), Ok(g)) => h@ == g,
            (Err(e), Err(m)) => e.message@ == m,
            _ => false,
        },
{
    match payload.get("success") {
        Some(JsonValue::Bool(false)) => {
            let message = match extract_api_message(payload) {
                Some(m) => m,
                None => String::from_str("用户名或密码错误，或用户已被禁用"),
            };
            return Err(RemoteError { message });
        },
        _ => {},
    }
    let user = match normalize_auth_user(payload.get("data")) {
        Some(u) => u,
        None => return Err(RemoteError { message: String::from_str("登录成功，但没有拿到用户信息") }),
    };
    new_api_user_header(&user)
}

/// The headers of the request for the logged-in user at `base`.
pub open spec fn self_headers(base: Seq<char>, user_header: Seq<char>) -> Seq<
    (Seq<char>, Seq<char>),
> {
    seq![
        ("accept"@, json_accept()),
        ("cache-control"@, "no-store"@),
        ("New-Api-User"@, user_header),
        ("referer"@, base + "/sign-in?redirect=%2Fkeys"@),
    ]
}

/// The request that checks the login: `GET /api/user/self` as the user.
pub fn self_request(base_url: &str, user_header: &str) -> (r: HttpRequest)
    ensures
        request_is(r, "GET"@, base_url@ + "/api/user/self"@, self_headers(base_url@, user_header@)),
        r.body is None,
{
    let entries = vec![
        str_pair("accept", "application/json, text/plain, */*"),
        str_pair("cache-control", "no-store"),
        str_pair("New-Api-User", user_header),
        (String::from_str("referer"), concat(base_url, "/sign-in?redirect=%2Fkeys")),
    ];
    assert(headers_view(entries@) =~= self_headers(base_url@, user_header@));
    HttpRequest {
        method: String::from_str("GET"),
        url: concat(base_url, "/api/user/self"),
        headers: build_headers(entries),
        body: None,
    }
}

/// The message when the login cannot be checked and no reply says why.
pub open spec fn unchecked_message() -> Seq<char> {
    "登录校验失败"@
}

/// What the check of a login leads to: the user the check reply describes,
/// or the reason it failed.
pub open spec fn spec_login_check(login: JsonValue, check: JsonValue) -> Result<
    AuthUserView,
    Seq<char>,
> {
    if json_get(check, "success"@) != Some(JsonValue::Bool(true)) || json_get(check, "data"@) is None {
        Err(
            match spec_api_message(check) {
                Some(m) => m,
                None => match spec_api_message(login) {
                    Some(m) => m,
                    None => unchecked_message(),
                },
            },
        )
    } else {
        match spec_auth_user(json_get(check, "data"@)) {
            Some(u) => Ok(u),
            None => Err(no_user_message()),
        }
    }
}

/// Finishes a login from its two replies: a check reply without
/// `success: true` and `data` fails with the first message found; otherwise
/// the login state holds the user the check describes, the cookies and the
/// time.
pub fn login_finish(
    base_url: String,
    login: &JsonValue,
    check: &JsonValue,
    cookies: Vec<StoredCookie>,
    now_ms: u128,
) -> (r: Result<LoginPayload, RemoteError>)
    ensures
        match (r, spec_login_check(*login, *check)) {
            (Ok(p), Ok(u)) => p.auth.login_mode@ == "newApi"@ && p.auth.base_url@ == base_url@
                && p.auth@.user == Some(u) && p.auth@.cookies == cookies_view(cookies@)
                && p.auth.updated_at_ms == now_ms,
            (Err(e), Err(m)) => e.message@ == m,
            _ => false,
        },
{
    let ok = match check.get("success") {
        Some(JsonValue::Bool(true)) => true,
        _ => false,
    };
    if !ok || check.get("data").is_none() {
        let message = match extract_api_message(check) {
            Some(m) => m,
            None => match extract_api_message(login) {
                Some(m) => m,
                None => String::from_str("登录校验失败"),
            },
        };
        return Err(RemoteError { message });
    }
    let user = match normalize_auth_user(check.get("data")) {
        Some(u) => u,
        None => return Err(RemoteError { message: String::from_str("登录成功，但没有拿到用户信息") }),
    };
    Ok(
        LoginPayload {
            auth: AuthState {
                login_mode: String::from_str("newApi"),
                base_url,
                user: Some(user),
                cookies,
                updated_at_ms: now_ms,
            },
        },
    )
}

/// A key search to send: the trimmed keyword and its request.
#[derive(Debug)]
pub struct SearchPlan {
    pub keyword: String,
    pub request: HttpRequest,
}

/// The message when a search is asked for without a login.
pub open spec fn search_login_message() -> Seq<char> {
    "请先登录后再查询远程 KEY"@
}

/// The page a search is made from: the key list, filtered by the keyword
/// when there is one.
pub open spec fn search_referer(base: Seq<char>, keyword: Seq<char>) -> Seq<char> {
    if keyword.len() == 0 {
        base + "/keys"@
    } else {
        base + "/keys?filter="@ + percent_encode(encode_utf8(keyword))
    }
}

/// The headers of a key request as the user with header `user_header`.
pub open spec fn key_headers(user_header: Seq<char>, referer: Seq<char>) -> Seq<
    (Seq<char>, Seq<char>),
> {
    seq![
        ("accept"@, json_accept()),
        ("cache-control"@, "no-store"@),
        ("New-Api-User"@, user_header),
        ("referer"@, referer),
    ]
}

/// Plans a key search: it needs a logged-in user with an id; the keyword is
/// trimmed and sent percent-encoded.
pub fn search_plan(auth: &AuthState, keyword: &str) -> (r: Result<SearchPlan, RemoteError>)
    ensures
        match auth.user {
            None => r matches Err(e) && e.message@ == search_login_message(),
            Some(u) => match spec_user_header(u.id) {
                None => r matches Err(e) && e.message@ == missing_user_id_message(),
                Some(h) => r matches Ok(p) && {
                    let base = spec_auth_base_url(auth.base_url@);
                    let k = trim(keyword@);
                    &&& p.keyword@ == k
                    &&& request_is(
                        p.request,
                        "GET"@,
                        base + "/api/token/search?keyword="@ + percent_encode(encode_utf8(k)),
                        key_headers(h, search_referer(base, k)),
                    )
                    &&& p.request.body is None
                },
            },
        },
{
    let user = match &auth.user {
        Some(u) => u,
        None => return Err(RemoteError { message: String::from_str("请先登录后再查询远程 KEY") }),
    };
    let base_url = normalized_auth_base_url(auth.base_url.as_str());
    let user_header = match new_api_user_header(user) {
        Ok(h) => h,
        Err(e) => return Err(e),
    };
    let keyword = string_of(trim_str(keyword).as_slice());
    let encoded = url_encode(keyword.as_str());
    let b = base_url.as_str();
    let referer = if keyword.unicode_len() == 0 {
        concat(b, "/keys")
    } else {
        concat(concat(b, "/keys?filter=").as_str(), encoded.as_str())
    };
    let ghost rv = referer@;
    let entries = vec![
        str_pair("accept", "application/json, text/plain, */*"),
        str_pair("cache-control", "no-store"),
        (String::from_str("New-Api-User"), user_header),
        (String::from_str("referer"), referer),
    ];
    assert(headers_view(entries@) =~= key_headers(entries@[2].1@, rv));
    let request = HttpRequest {
        method: String::from_str("GET"),
        url: concat(concat(b, "/api/token/search?keyword=").as_str(), encoded.as_str()),
        headers: build_headers(entries),
        body: None,
    };
    Ok(SearchPlan { keyword, request })
}

/// The keys a search reply lists, under the searched keyword.
pub fn search_result(keyword: String, payload: &JsonValue) -> (r: RemoteKeySearchPayload)
    ensures
        r.keyword == keyword,
        tokens_view(r.items@) == spec_tokens(token_list(*payload)),
{
    RemoteKeySearchPayload { keyword, items: normalize_remote_tokens(payload) }
}

/// A key decryption to send: the trimmed key id and its request.
#[derive(Debug)]
pub struct DecryptPlan {
    pub token_id: String,
    pub request: HttpRequest,
}

/// The message when a decryption is asked for without a login.
pub open spec fn decrypt_login_message() -> Seq<char> {
    "请先登录后再解密远程 KEY"@
}

/// The message when no key id is given.
pub open spec fn missing_id_message() -> Seq<char> {
    "缺少远程 KEY ID"@
}

/// Plans a key decryption: it needs a logged-in user, a non-blank key id and
/// a user id; the key id is trimmed and sent percent-encoded.
pub fn decrypt_plan(auth: &AuthState, token_id: &str) -> (r: Result<DecryptPlan, RemoteError>)
    ensures
        match auth.user {
            None => r matches Err(e) && e.message@ == decrypt_login_message(),
            Some(u) => if trim(token_id@).len() == 0 {
                r matches Err(e) && e.message@ == missing_id_message()
            } else {
                match spec_user_header(u.id) {
                    None => r matches Err(e) && e.message@ == missing_user_id_message(),
                    Some(h) => r matches Ok(p) && {
                        let base = spec_auth_base_url(auth.base_url@);
                        let id = trim(token_id@);
                        &&& p.token_id@ == id
                        &&& request_is(
                            p.request,
                            "POST"@,
                            base + "/api/token/"@ + percent_encode(encode_utf8(id)) + "/key"@,
                            seq![
                                ("accept"@, json_accept()),
                                ("cache-control"@, "no-store"@),
                                ("New-Api-User"@, h),
                                ("origin"@, base),
                                ("referer"@, base + "/keys"@),
                            ],
                        )
                        &&& p.request.body is None
                    },
                }
            },
        },
{
    let user = match &auth.user {
        Some(u) => u,
        None => return Err(RemoteError { message: String::from_str("请先登录后再解密远程 KEY") }),
    };
    let token_id = string_of(trim_str(token_id).as_slice());
    if token_id.unicode_len() == 0 {
        return Err(RemoteError { message: String::from_str("缺少远程 KEY ID") });
    }
    let base_url = normalized_auth_base_url(auth.base_url.as_str());
    let user_header = match new_api_user_header(user) {
        Ok(h) => h,
        Err(e) => return Err(e),
    };
    let b = base_url.as_str();
    let encoded = url_encode(token_id.as_str());
    let ghost hv = user_header@;
    let entries = vec![
        str_pair("accept", "application/json, text/plain, */*"),
        str_pair("cache-control", "no-store"),
        (String::from_str("New-Api-User"), user_header),
        (String::from_str("origin"), String::from_str(b)),
        (String::from_str("referer"), concat(b, "/keys")),
    ];
    assert(headers_view(entries@) =~= seq![
        ("accept"@, json_accept()),
        ("cache-control"@, "no-store"@),
        ("New-Api-User"@, hv),
        ("origin"@, b@),
        ("referer"@, b@ + "/keys"@),
    ]);
    let request = HttpRequest {
        method: String::from_str("POST"),
        url: concat(concat(concat(b, "/api/token/").as_str(), encoded.as_str()).as_str(), "/key"),
        headers: build_headers(entries),
        body: None,
    };
    Ok(DecryptPlan { token_id, request })
}

/// The message when a decrypt reply holds no key.
pub open spec fn no_key_message() -> Seq<char> {
    "接口已返回成功，但没有拿到 KEY 内容"@
}

/// The key a decrypt reply gives, normalised, under its key id; an error
/// when the reply holds none.
pub fn decrypt_result(token_id: String, payload: &JsonValue) -> (r: Result<
    RemoteKeyDecryptPayload,
    RemoteError,
>)
    ensures
        match spec_remote_key(*payload) {
            Some(k) => r matches Ok(p) && p.token_id == token_id && p.api_key@
                == spec_normalize_api_key(k),
            None => r matches Err(e) && e.message@ == no_key_message(),
        },
{
    match extract_remote_key_value(payload) {
        Some(k) => {
            let api_key = normalize_api_key(k.as_str());
            Ok(RemoteKeyDecryptPayload { token_id, api_key })
        },
        None => Err(RemoteError { message: String::from_str("接口已返回成功，但没有拿到 KEY 内容") }),
    }
}


/// No two cookies fill the same slot.
pub open spec fn unique_slots(cs: Seq<CookieView>) -> bool {
    forall|i: int, j: int| 0 <= i < j < cs.len() ==> !same_slot(#[trigger] cs[i], #[trigger] cs[j])
}

proof fn lemma_outside_slot(cs: Seq<CookieView>, c: CookieView)
    ensures
        forall|k: int|
            0 <= k < outside_slot(cs, c).len() ==> !same_slot(#[trigger] outside_slot(cs, c)[k], c)
                && exists|j: int| 0 <= j < cs.len() && cs[j] == outside_slot(cs, c)[k],
        unique_slots(cs) ==> unique_slots(outside_slot(cs, c)),
    decreases cs.len(),
{
    if cs.len() > 0 {
        let d = cs.drop_last();
        lemma_outside_slot(d, c);
        let o = outside_slot(cs, c);
        let od = outside_slot(d, c);
        assert forall|k: int| 0 <= k < o.len() implies !same_slot(#[trigger] o[k], c) && exists|j: int|
            0 <= j < cs.len() && cs[j] == o[k] by {
            if k < od.len() {
                let j = choose|j: int| 0 <= j < d.len() && d[j] == od[k];
                assert(cs[j] == o[k]);
            } else {
                assert(cs[cs.len() - 1] == o[k]);
            }
        }
        if unique_slots(cs) && !same_slot(cs.last(), c) {
            assert forall|i: int, j: int| 0 <= i < j < o.len() implies !same_slot(
                #[trigger] o[i],
                #[trigger] o[j],
            ) by {
                if j == o.len() - 1 {
                    let m = choose|m: int| 0 <= m < d.len() && d[m] == od[i];
                    assert(cs[m] == o[i]);
                    assert(!same_slot(cs[m], cs[cs.len() - 1]));
                } else {
                    assert(unique_slots(d));
                }
            }
        } else if unique_slots(cs) {
            assert(unique_slots(d));
        }
    }
}

/// The cookie jar never holds two cookies for one slot: merging the cookies
/// of a reply keeps the slots distinct.
pub proof fn law_merge_unique_slots(cs: Seq<CookieView>, lines: Seq<Seq<char>>, now_ms: u128)
    requires
        unique_slots(cs),
    ensures
        unique_slots(merge_lines(cs, lines, now_ms)),
    decreases lines.len(),
{
    if lines.len() > 0 {
        law_merge_unique_slots(cs, lines.drop_last(), now_ms);
        let prev = merge_lines(cs, lines.drop_last(), now_ms);
        match spec_parse_set_cookie(lines.last(), now_ms) {
            Some(c) => {
                lemma_outside_slot(prev, c);
                let o = outside_slot(prev, c);
                assert forall|i: int, j: int| 0 <= i < j < o.push(c).len() implies !same_slot(
                    #[trigger] o.push(c)[i],
                    #[trigger] o.push(c)[j],
                ) by {
                    if j == o.len() {
                        assert(!same_slot(o[i], c));
                    } else {
                        assert(o.push(c)[i] == o[i] && o.push(c)[j] == o[j]);
                    }
                }
            },
            None => {},
        }
    }
}

/// A reply's last `Set-Cookie` line that sets a cookie decides what its slot
/// holds: that cookie ends the jar.
pub proof fn law_merge_sets_last(cs: Seq<CookieView>, lines: Seq<Seq<char>>, now_ms: u128)
    requires
        lines.len() > 0,
        spec_parse_set_cookie(lines.last(), now_ms) is Some,
    ensures
        merge_lines(cs, lines, now_ms).last() == spec_parse_set_cookie(lines.last(), now_ms)->0,
{
}


/// Each object listed yields a token made from it.
proof fn lemma_listed_object_token(list: Seq<JsonValue>, j: int)
    requires
        0 <= j < list.len(),
        list[j] is Object,
    ensures
        exists|k: int|
            0 <= k < spec_tokens(list).len() && #[trigger] spec_tokens(list)[k] == spec_token(
                list[j],
            ).unwrap(),
    decreases list.len(),
{
    let d = list.drop_last();
    if j == list.len() - 1 {
        assert(list.last() == list[j]);
        let k = spec_tokens(d).len() as int;
        assert(spec_tokens(list)[k] == spec_token(list[j]).unwrap());
    } else {
        assert(d[j] == list[j]);
        lemma_listed_object_token(d, j);
        let k = choose|k: int|
            0 <= k < spec_tokens(d).len() && #[trigger] spec_tokens(d)[k] == spec_token(
                d[j],
            ).unwrap();
        assert(spec_tokens(list)[k] == spec_tokens(d)[k]);
    }
}

/// The key of a listed token is the object's `key` member: for every listed
/// object `j` whose member `key` is a string, some token made from that
/// object carries that string, trimmed, as its key.
pub proof fn law_token_key_is_key_member(payload: JsonValue, j: int, key: String)
    requires
        0 <= j < token_list(payload).len(),
        token_list(payload)[j] is Object,
        json_get(token_list(payload)[j], "key"@) == Some(JsonValue::String(key)),
    ensures
        exists|k: int|
            0 <= k < spec_tokens(token_list(payload)).len() && (#[trigger] spec_tokens(
                token_list(payload),
            )[k]).raw == json_data(token_list(payload)[j]) && spec_tokens(token_list(payload))[k].api_key
                == trim(key@),
{
    let list = token_list(payload);
    lemma_listed_object_token(list, j);
    let o = list[j];
    assert(seq!["key"@, "masked_key"@][0] == "key"@);
    assert(first_member(o, seq!["key"@, "masked_key"@]) == Some(JsonValue::String(key)));
    assert(spec_token(o).unwrap().api_key == trim(key@));
    assert(spec_token(o).unwrap().raw == json_data(o));
}

/// A decrypt reply whose `data` member is an object holding a non-blank
/// string `key` gives that key, trimmed.
pub proof fn law_decrypt_reads_data_key(payload: JsonValue, data: JsonValue, key: String)
    requires
        json_get(payload, "data"@) == Some(data),
        data is Object,
        json_get(data, "key"@) == Some(JsonValue::String(key)),
        trim(key@).len() > 0,
    ensures
        spec_remote_key(payload) == Some(trim(key@)),
{
    let keys = seq!["key"@, "token"@, "value"@, "api_key"@, "apiKey"@];
    assert(keys[0] == "key"@);
    assert(json_str(Some(data)) is None);
    assert(nonblank_str(Some(data)) is None);
    assert(first_nonblank_member(data, keys) == Some(trim(key@)));
    assert(key_in_value(data) == Some(trim(key@)));
    let outer = seq!["data"@, "key"@, "token"@, "value"@, "api_key"@, "apiKey"@];
    assert(outer[0] == "data"@);
}

/// A listed object's other fields: its id is its `id` member, its name its
/// `name` member and its group its `group` member, each a string trimmed;
/// without a `key` member its key is its `masked_key` member, trimmed.
pub proof fn law_token_fields(payload: JsonValue, j: int)
    requires
        0 <= j < token_list(payload).len(),
        token_list(payload)[j] is Object,
    ensures
        exists|k: int|
            0 <= k < spec_tokens(token_list(payload)).len() && (#[trigger] spec_tokens(
                token_list(payload),
            )[k]).raw == json_data(token_list(payload)[j]) && {
                let t = spec_tokens(token_list(payload))[k];
                let o = token_list(payload)[j];
                &&& json_get(o, "id"@) matches Some(JsonValue::String(x)) ==> t.id == trim(x@)
                &&& json_get(o, "name"@) matches Some(JsonValue::String(x)) ==> t.name == trim(x@)
                &&& json_get(o, "group"@) matches Some(JsonValue::String(x)) ==> t.group == trim(
                    x@,
                )
                &&& json_get(o, "key"@) is None ==> (json_get(o, "masked_key"@) matches Some(
                    JsonValue::String(x),
                ) ==> t.api_key == trim(x@))
            },
{
    let list = token_list(payload);
    lemma_listed_object_token(list, j);
    let o = list[j];
    assert(seq!["id"@, "token_id"@, "key_id"@][0] == "id"@);
    assert(seq!["name"@][0] == "name"@);
    assert(seq!["group"@, "token_group"@][0] == "group"@);
    let kk = seq!["key"@, "masked_key"@];
    assert(kk[0] == "key"@);
    let k2 = kk.drop_first();
    assert(k2 =~= seq!["masked_key"@]);
    assert(k2[0] == "masked_key"@);
    assert(k2.drop_first().len() == 0);
    if json_get(o, "key"@) is None {
        assert(first_member(o, kk) == first_member(o, k2));
    }
    let t = spec_token(o).unwrap();
    assert(t.raw == json_data(o));
    let k = choose|k: int|
        0 <= k < spec_tokens(list).len() && #[trigger] spec_tokens(list)[k] == spec_token(
            list[j],
        ).unwrap();
    assert(spec_tokens(list)[k] == t);
}

/// Where the decrypt reply keeps its key: a non-blank string `data` is the
/// key (trimmed); with no `data` member, a non-blank string `key` member is.
pub proof fn law_decrypt_reads_top_level_key(payload: JsonValue, text: String)
    ensures
        json_get(payload, "data"@) == Some(JsonValue::String(text)) && trim(text@).len() > 0
            ==> spec_remote_key(payload) == Some(trim(text@)),
        json_get(payload, "data"@) is None && json_get(payload, "key"@) == Some(
            JsonValue::String(text),
        ) && trim(text@).len() > 0 ==> spec_remote_key(payload) == Some(trim(text@)),
{
    let outer = seq!["data"@, "key"@, "token"@, "value"@, "api_key"@, "apiKey"@];
    assert(outer[0] == "data"@);
    let rest = outer.drop_first();
    assert(rest[0] == "key"@);
    let v = JsonValue::String(text);
    if json_get(payload, "data"@) is None {
        assert(key_in_members(payload, outer) == key_in_members(payload, rest));
    }
    assert(json_str(Some(v)) == Some(text@));
    assert(key_in_value(v) == if trim(text@).len() > 0 {
        Some(trim(text@))
    } else {
        None
    });
}
} // verus!
