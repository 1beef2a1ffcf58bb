use codex_manager_core::json::{JsonNumber, JsonValue};
use codex_manager_core::remote::{
    build_headers, check_reply, cookie_header, decrypt_plan, decrypt_result, default_login_mode,
    extract_api_message, extract_remote_key_value, login_finish, login_reply, login_start,
    merge_set_cookie, new_api_user_header, normalize_auth_user, normalize_remote_tokens,
    normalized_auth_base_url, parse_i64, parse_set_cookie, reply_payload, search_plan,
    search_result, self_request, url_encode, with_cookies, LoginCredentials,
};
use codex_manager_core::settings::{AuthState, AuthUser, StoredCookie};

fn s(v: &str) -> JsonValue {
    JsonValue::String(v.to_string())
}

fn n(v: u64) -> JsonValue {
    JsonValue::Number(JsonNumber { as_u64: Some(v), as_i64: Some(v as i64), text: v.to_string() })
}

fn obj(members: Vec<(&str, JsonValue)>) -> JsonValue {
    JsonValue::Object(members.into_iter().map(|(k, v)| (k.to_string(), v)).collect())
}

#[test]
fn url_encoding_escapes_reserved_and_non_ascii_bytes() {
    assert_eq!(url_encode("a-b_c.d~e"), "a-b_c.d~e");
    assert_eq!(url_encode("a b/?"), "a%20b%2F%3F");
    assert_eq!(url_encode("键"), "%E9%94%AE");
}

#[test]
fn base_url_falls_back_to_default() {
    assert_eq!(normalized_auth_base_url("  "), "https://yiciyuan.one");
    assert_eq!(normalized_auth_base_url(" https://x.test/ "), "https://x.test");
    assert_eq!(default_login_mode(), "newApi");
}

#[test]
fn parses_integers_like_std() {
    let p = |t: &str| parse_i64(&t.chars().collect::<Vec<_>>());
    assert_eq!(p("42"), Some(42));
    assert_eq!(p("+7"), Some(7));
    assert_eq!(p("-9223372036854775808"), Some(i64::MIN));
    assert_eq!(p("9223372036854775808"), None);
    assert_eq!(p("-"), None);
    assert_eq!(p("1a"), None);
    assert_eq!(p(""), None);
}

#[test]
fn parses_set_cookie_lines() {
    let c = parse_set_cookie(
        " session = abc=1 ; Path=/api; Domain= x.test ;Secure; HttpOnly; SameSite=Strict; Max-Age=60",
        5_000,
    )
    .unwrap();
    assert_eq!(c.name, "session");
    assert_eq!(c.value, " abc=1");
    assert_eq!(c.path, "/api");
    assert_eq!(c.domain, "x.test");
    assert!(c.secure && c.http_only);
    assert_eq!(c.same_site, "strict");
    assert_eq!(c.expiration_date, Some(65));
    let d = parse_set_cookie("a=b; max-age=oops", 0).unwrap();
    assert_eq!(d.path, "/");
    assert_eq!(d.same_site, "lax");
    assert_eq!(d.expiration_date, None);
    assert!(parse_set_cookie("novalue", 0).is_none());
    assert!(parse_set_cookie(" ; ", 0).is_none());
}

#[test]
fn merging_cookies_replaces_the_same_slot() {
    let mut jar: Vec<StoredCookie> = Vec::new();
    merge_set_cookie(
        &mut jar,
        &["a=1".to_string(), "b=2".to_string(), "a=3".to_string(), "bad".to_string()],
        0,
    );
    assert_eq!(jar.len(), 2);
    assert_eq!(jar[0].name, "b");
    assert_eq!(jar[1].value, "3");
    assert_eq!(cookie_header(&jar), "b=2; a=3");
    merge_set_cookie(&mut jar, &["a=4; Path=/x".to_string()], 0);
    assert_eq!(jar.len(), 3);
    let headers = with_cookies(Vec::new(), &jar);
    assert_eq!(headers, vec![("Cookie".to_string(), "b=2; a=3; a=4".to_string())]);
    assert!(with_cookies(Vec::new(), &[]).is_empty());
}

#[test]
fn reads_users_from_replies() {
    let data = obj(vec![
        ("id", n(7)),
        ("username", s("  alice ")),
        ("displayName", s("  ")),
        ("group", s(" vip ")),
        ("role", n(1)),
    ]);
    let user = normalize_auth_user(Some(&data)).unwrap();
    assert_eq!(user.id, 7);
    assert_eq!(user.username, "alice");
    assert_eq!(user.display_name, "alice");
    assert_eq!(user.group, "vip");
    assert_eq!(user.role, 1);
    assert_eq!(user.status, 0);
    assert!(normalize_auth_user(Some(&obj(vec![("username", s(" "))]))).is_none());
    assert!(normalize_auth_user(Some(&s("x"))).is_none());
    assert!(normalize_auth_user(None).is_none());
}

fn user(id: u64) -> AuthUser {
    AuthUser {
        id,
        username: "u".to_string(),
        display_name: "u".to_string(),
        group: String::new(),
        role: 0,
        status: 0,
    }
}

#[test]
fn user_header_needs_an_id() {
    assert_eq!(new_api_user_header(&user(42)).unwrap(), "42");
    assert_eq!(
        new_api_user_header(&user(0)).unwrap_err().message,
        "当前登录态缺少用户 ID，无法请求远程 KEY"
    );
}

#[test]
fn messages_and_keys_in_replies() {
    assert_eq!(
        extract_api_message(&obj(vec![("message", s("  ")), ("error", s(" bad "))])).as_deref(),
        Some("bad")
    );
    assert_eq!(extract_api_message(&obj(vec![("message", n(1))])), None);
    assert_eq!(
        extract_remote_key_value(&obj(vec![("data", obj(vec![("token", s(" t "))]))])).as_deref(),
        Some("t")
    );
    assert_eq!(
        extract_remote_key_value(&obj(vec![("data", s(" ")), ("key", s("k"))])).as_deref(),
        Some("k")
    );
    assert_eq!(extract_remote_key_value(&obj(vec![("data", n(1))])), None);
}

#[test]
fn lists_remote_tokens() {
    let payload = obj(vec![(
        "data",
        obj(vec![(
            "items",
            JsonValue::Array(vec![
                obj(vec![
                    ("id", n(5)),
                    ("name", s(" main ")),
                    ("masked_key", s("sk-***")),
                    ("enabled", JsonValue::Bool(true)),
                    ("tags", JsonValue::Array(vec![s("a\"b"), JsonValue::Null])),
                ]),
                s("not an object"),
                obj(vec![("token_id", obj(vec![("x", n(1))]))]),
            ]),
        )]),
    )]);
    let tokens = normalize_remote_tokens(&payload);
    assert_eq!(tokens.len(), 2);
    assert_eq!(tokens[0].id, "5");
    assert_eq!(tokens[0].name, "main");
    assert_eq!(tokens[0].api_key, "sk-***");
    assert!(matches!(tokens[0].status, JsonValue::Bool(true)));
    assert_eq!(tokens[1].id, "{\"x\":1}");
    assert!(matches!(tokens[1].status, JsonValue::Null));
    let found = search_result("kw".to_string(), &obj(vec![("items", JsonValue::Array(vec![]))]));
    assert_eq!(found.keyword, "kw");
    assert!(found.items.is_empty());
}

#[test]
fn reply_payloads_and_failures() {
    assert!(matches!(reply_payload("   "), JsonValue::Null));
    match reply_payload("not json") {
        JsonValue::Object(m) => {
            assert_eq!(m.len(), 1);
            assert_eq!(m[0].0, "message");
            assert!(matches!(&m[0].1, JsonValue::String(t) if t == "not json"));
        }
        other => panic!("unexpected {other:?}"),
    }
    match reply_payload("{\"a\":[1,true]}") {
        JsonValue::Object(m) => assert_eq!(m[0].0, "a"),
        other => panic!("unexpected {other:?}"),
    }
    let err = check_reply(false, "404 Not Found", JsonValue::Null).unwrap_err();
    assert_eq!(err.message, "请求失败：404 Not Found");
    let err = check_reply(false, "500", obj(vec![("message", s("down"))])).unwrap_err();
    assert_eq!(err.message, "down");
    assert!(check_reply(true, "200 OK", JsonValue::Null).is_ok());
}

fn creds(mode: &str, user: &str, pass: &str) -> LoginCredentials {
    LoginCredentials {
        login_mode: mode.to_string(),
        base_url: "https://n.test/".to_string(),
        username: user.to_string(),
        password: pass.to_string(),
    }
}

#[test]
fn login_flow() {
    assert_eq!(
        login_start(&creds("other", "u", "p")).unwrap_err().message,
        "only newApi login mode is supported"
    );
    assert_eq!(login_start(&creds("newApi", " ", "p")).unwrap_err().message, "请输入账号和密码");
    let start = login_start(&creds(" newApi ", " bob ", "pw")).unwrap();
    assert_eq!(start.base_url, "https://n.test");
    assert_eq!(start.username, "bob");
    assert_eq!(start.sign_in.method, "GET");
    assert_eq!(start.sign_in.url, "https://n.test/sign-in");
    assert_eq!(start.login.method, "POST");
    assert_eq!(start.login.url, "https://n.test/api/user/login?turnstile=");
    assert_eq!(start.login.headers.len(), 8);
    assert!(start
        .login
        .headers
        .contains(&("origin".to_string(), "https://n.test".to_string())));

    let refused = obj(vec![("success", JsonValue::Bool(false))]);
    assert_eq!(login_reply(&refused).unwrap_err().message, "用户名或密码错误，或用户已被禁用");
    let ok = obj(vec![
        ("success", JsonValue::Bool(true)),
        ("data", obj(vec![("id", n(9)), ("username", s("bob"))])),
    ]);
    let header = login_reply(&ok).unwrap();
    assert_eq!(header, "9");
    let check = self_request("https://n.test", &header);
    assert_eq!(check.url, "https://n.test/api/user/self");
    assert!(check.headers.contains(&("New-Api-User".to_string(), "9".to_string())));

    let bad = obj(vec![("success", JsonValue::Bool(false))]);
    assert_eq!(
        login_finish("https://n.test".to_string(), &ok, &bad, Vec::new(), 1).unwrap_err().message,
        "登录校验失败"
    );
    let done = login_finish("https://n.test".to_string(), &ok, &ok, Vec::new(), 123).unwrap();
    assert_eq!(done.auth.login_mode, "newApi");
    assert_eq!(done.auth.updated_at_ms, 123);
    assert_eq!(done.auth.user.unwrap().id, 9);
}

fn auth(user_id: Option<u64>) -> AuthState {
    AuthState {
        login_mode: "newApi".to_string(),
        base_url: String::new(),
        user: user_id.map(user),
        cookies: Vec::new(),
        updated_at_ms: 0,
    }
}

#[test]
fn search_and_decrypt_plans() {
    assert_eq!(search_plan(&auth(None), "x").unwrap_err().message, "请先登录后再查询远程 KEY");
    let plan = search_plan(&auth(Some(3)), " a b ").unwrap();
    assert_eq!(plan.keyword, "a b");
    assert_eq!(plan.request.url, "https://yiciyuan.one/api/token/search?keyword=a%20b");
    assert!(plan.request.headers.contains(&(
        "referer".to_string(),
        "https://yiciyuan.one/keys?filter=a%20b".to_string()
    )));
    assert_eq!(decrypt_plan(&auth(Some(3)), "  ").unwrap_err().message, "缺少远程 KEY ID");
    assert_eq!(decrypt_plan(&auth(None), "1").unwrap_err().message, "请先登录后再解密远程 KEY");
    let plan = decrypt_plan(&auth(Some(3)), " 1/2 ").unwrap();
    assert_eq!(plan.token_id, "1/2");
    assert_eq!(plan.request.method, "POST");
    assert_eq!(plan.request.url, "https://yiciyuan.one/api/token/1%2F2/key");
    let key = decrypt_result(plan.token_id, &obj(vec![("data", s(" abc "))])).unwrap();
    assert_eq!(key.api_key, "sk-abc");
    assert_eq!(
        decrypt_result("1".to_string(), &obj(vec![])).unwrap_err().message,
        "接口已返回成功，但没有拿到 KEY 内容"
    );
    assert_eq!(build_headers(Vec::new()).len(), 3);
}
