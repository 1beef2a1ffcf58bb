//! Where Codex is installed: package names, activation ids and versions read
//! from install paths.

use vstd::prelude::*;
use vstd::string::StringExecFns;

use crate::remote::all_digits;
use crate::update::{digits_value, parse_digits};
use crate::text::{
    decimal, decimal_chars,
    chars_of, contains, copy_range, find_char_or_len, find_chars, first_index_of_char, has_infix,
    has_prefix, index_of, lemma_index_of, lower_seq, occurs_at, push_all, same_chars, split_char,
    split_on_char, starts_with, string_of, to_ascii_lower, trim, trim_chars, vecs_view,
};

verus! {

/// Where Codex was found.
#[derive(Debug)]
pub struct CodexPathInfo {
    pub app_dir: String,
    pub executable_path: String,
    pub version: String,
    pub source: String,
    pub app_user_model_id: String,
}

impl Default for CodexPathInfo {
    fn default() -> (r: Self)
        ensures
            r.app_dir@.len() == 0,
            r.executable_path@.len() == 0,
            r.version@.len() == 0,
            r.source@.len() == 0,
            r.app_user_model_id@.len() == 0,
    {
        CodexPathInfo {
            app_dir: String::new(),
            executable_path: String::new(),
            version: String::new(),
            source: String::new(),
            app_user_model_id: String::new(),
        }
    }
}

/// Backslashes turned into slashes.
pub open spec fn forward_slashes(s: Seq<char>) -> Seq<char> {
    s.map_values(|c: char| if c == '\\' { '/' } else { c })
}

fn to_forward_slashes(s: &str) -> (r: Vec<char>)
    ensures
        r@ == forward_slashes(s@),
{
    let v = chars_of(s);
    let mut r: Vec<char> = Vec::new();
    let mut i: usize = 0;
    while i < v.len()
        invariant
            i <= v@.len(),
            r@ == forward_slashes(v@.take(i as int)),
        decreases v@.len() - i,
    {
        r.push(if v[i] == '\\' { '/' } else { v[i] });
        i = i + 1;
        assert(r@ =~= forward_slashes(v@.take(i as int)));
    }
    assert(v@.take(v@.len() as int) =~= v@);
    r
}

/// The pieces that are not empty, in order.
pub open spec fn nonempty_parts(parts: Seq<Seq<char>>) -> Seq<Seq<char>>
    decreases parts.len(),
{
    if parts.len() == 0 {
        seq![]
    } else if parts.last().len() > 0 {
        nonempty_parts(parts.drop_last()).push(parts.last())
    } else {
        nonempty_parts(parts.drop_last())
    }
}

/// `app`, ignoring ASCII case.
pub open spec fn is_app_name(s: Seq<char>) -> bool {
    lower_seq(s) == "app"@
}

/// The package directory's name in a path: its last component, or the one
/// before when the last is `app`.
pub open spec fn spec_package_name_from_app_dir(app_dir: Seq<char>) -> Option<Seq<char>> {
    let parts = nonempty_parts(split_char(forward_slashes(app_dir), '/'));
    if parts.len() == 0 {
        None
    } else if is_app_name(parts.last()) {
        if parts.len() >= 2 {
            Some(parts[parts.len() - 2])
        } else {
            None
        }
    } else {
        Some(parts.last())
    }
}

fn is_app(s: &[char]) -> (r: bool)
    ensures
        r == is_app_name(s@),
{
    let l = to_ascii_lower(s);
    proof {
        reveal_strlit("app");
    }
    let r = l.len() == 3 && l[0] == 'a' && l[1] == 'p' && l[2] == 'p';
    proof {
        if r {
            assert(l@ =~= "app"@);
        } else if l@ == "app"@ {
            assert(l@[0] == 'a' && l@[1] == 'p' && l@[2] == 'p');
        }
    }
    r
}

/// The package name in an install path.
pub fn package_name_from_app_dir(app_dir: &str) -> (r: Option<String>)
    ensures
        match r {
            Some(n) => spec_package_name_from_app_dir(app_dir@) == Some(n@),
            None => spec_package_name_from_app_dir(app_dir@) is None,
        },
{
    let path = to_forward_slashes(app_dir);
    let pieces = split_on_char(path.as_slice(), '/');
    let ghost pv = vecs_view(pieces@);
    let mut parts: Vec<Vec<char>> = Vec::new();
    let mut i: usize = 0;
    while i < pieces.len()
        invariant
            i <= pieces@.len(),
            pv == vecs_view(pieces@),
            vecs_view(parts@) == nonempty_parts(pv.take(i as int)),
        decreases pieces@.len() - i,
    {
        let ghost pre = pv.take(i + 1);
        assert(pre.drop_last() =~= pv.take(i as int));
        assert(pre.last() == pieces@[i as int]@);
        if pieces[i].len() > 0 {
            let ghost before = vecs_view(parts@);
            parts.push(pieces[i].clone());
            assert(vecs_view(parts@) =~= before.push(pieces@[i as int]@));
        }
        i = i + 1;
    }
    assert(pv.take(pieces@.len() as int) =~= pv);
    let n = parts.len();
    if n == 0 {
        return None;
    }
    if is_app(parts[n - 1].as_slice()) {
        if n >= 2 {
            Some(string_of(parts[n - 2].as_slice()))
        } else {
            None
        }
    } else {
        Some(string_of(parts[n - 1].as_slice()))
    }
}

/// The directory name of an `OpenAI.Codex` package.
pub open spec fn spec_is_openai_codex_package_name(name: Seq<char>) -> bool {
    starts_with(name, "OpenAI.Codex_"@) && contains(name, "__"@)
}

/// Whether the name is that of an `OpenAI.Codex` package directory.
pub fn is_openai_codex_package_name(name: &str) -> (r: bool)
    ensures
        r == spec_is_openai_codex_package_name(name@),
{
    let v = chars_of(name);
    has_prefix(v.as_slice(), chars_of("OpenAI.Codex_").as_slice()) && has_infix(
        v.as_slice(),
        chars_of("__").as_slice(),
    )
}

/// The index of the last occurrence of `p` in `s`, or -1.
pub open spec fn last_occurrence(s: Seq<char>, p: Seq<char>) -> int
    decreases s.len(),
{
    if occurs_at(s, p, s.len() - p.len()) {
        s.len() - p.len()
    } else if s.len() == 0 {
        -1
    } else {
        last_occurrence(s.drop_last(), p)
    }
}

/// The index of the last occurrence of `p` in `s`.
fn rfind_chars(s: &[char], p: &[char]) -> (r: Option<usize>)
    ensures
        match r {
            Some(i) => last_occurrence(s@, p@) == i,
            None => last_occurrence(s@, p@) == -1,
        },
{
    let mut n: usize = s.len();
    assert(s@.take(n as int) =~= s@);
    loop
        invariant
            n <= s@.len(),
            last_occurrence(s@, p@) == last_occurrence(s@.take(n as int), p@),
        decreases n,
    {
        let t = copy_range(s, 0, n);
        assert(t@ =~= s@.take(n as int));
        if p.len() <= n {
            let start = n - p.len();
            if crate::text::matches_at(t.as_slice(), p, start) {
                return Some(start);
            }
        }
        if n == 0 {
            return None;
        }
        assert(s@.take(n as int).drop_last() =~= s@.take(n - 1));
        n = n - 1;
    }
}

/// The activation id of a packaged Codex: the package identity (the name up
/// to its first `_`), `_`, the publisher id (after the last `__`), `!App`.
pub open spec fn spec_packaged_app_user_model_id(app_dir: Seq<char>) -> Option<Seq<char>> {
    match spec_package_name_from_app_dir(app_dir) {
        None => None,
        Some(name) => {
            let u = index_of(name, seq!['_']);
            let d = last_occurrence(name, "__"@);
            if !spec_is_openai_codex_package_name(name) || u < 0 || d < 0 {
                None
            } else {
                let publisher = name.skip(d + 2);
                if publisher.len() == 0 {
                    None
                } else {
                    Some(name.take(u) + seq!['_'] + publisher + "!App"@)
                }
            }
        },
    }
}

/// A non-negative `last_occurrence` is an occurrence.
proof fn lemma_last_occurrence(s: Seq<char>, p: Seq<char>)
    ensures
        last_occurrence(s, p) >= 0 ==> occurs_at(s, p, last_occurrence(s, p)),
        last_occurrence(s, p) >= -1,
    decreases s.len(),
{
    if !occurs_at(s, p, s.len() - p.len()) && s.len() > 0 {
        let t = s.drop_last();
        lemma_last_occurrence(t, p);
        let r = last_occurrence(t, p);
        if r >= 0 {
            assert(t.subrange(r, r + p.len()) =~= s.subrange(r, r + p.len()));
        }
    }
}

/// The activation id of a packaged Codex install, from its directory.
pub fn packaged_app_user_model_id(app_dir: &str) -> (r: Option<String>)
    ensures
        match r {
            Some(id) => spec_packaged_app_user_model_id(app_dir@) == Some(id@),
            None => spec_packaged_app_user_model_id(app_dir@) is None,
        },
{
    let name = match package_name_from_app_dir(app_dir) {
        Some(n) => n,
        None => return None,
    };
    if !is_openai_codex_package_name(name.as_str()) {
        return None;
    }
    let v = chars_of(name.as_str());
    let underscore = vec!['_'];
    proof {
        reveal_strlit("__");
        assert(underscore@ =~= seq!['_']);
        lemma_index_of(v@, seq!['_']);
        lemma_last_occurrence(v@, "__"@);
    }
    let u = match find_chars(v.as_slice(), underscore.as_slice()) {
        Some(u) => u,
        None => return None,
    };
    let dd = chars_of("__");
    let d = match rfind_chars(v.as_slice(), dd.as_slice()) {
        Some(d) => d,
        None => return None,
    };
    let n = v.len();
    assert(occurs_at(v@, dd@, d as int));
    let publisher = copy_range(v.as_slice(), d + 2, n);
    if publisher.len() == 0 {
        return None;
    }
    let mut out = copy_range(v.as_slice(), 0, u);
    out.push('_');
    push_all(&mut out, publisher.as_slice());
    push_all(&mut out, chars_of("!App").as_slice());
    proof {
        assert(publisher@ =~= v@.skip(d + 2));
        assert(out@ =~= v@.take(u as int) + seq!['_'] + publisher@ + "!App"@);
    }
    Some(string_of(out.as_slice()))
}

/// The last path component that starts with `OpenAI.Codex_`.
pub open spec fn last_codex_part(parts: Seq<Seq<char>>) -> Option<Seq<char>>
    decreases parts.len(),
{
    if parts.len() == 0 {
        None
    } else if starts_with(parts.last(), "OpenAI.Codex_"@) {
        Some(parts.last())
    } else {
        last_codex_part(parts.drop_last())
    }
}

/// The text before the first `_`, when there is a `_`.
pub open spec fn before_underscore(s: Seq<char>) -> Option<Seq<char>> {
    let i = first_index_of_char(s, '_');
    if i < s.len() {
        Some(s.take(i))
    } else {
        None
    }
}

/// The version in a Codex package path: in the last component named
/// `OpenAI.Codex_<version>_...`, the part before the next `_`, when not empty.
pub open spec fn spec_codex_package_version(package_dir: Seq<char>) -> Option<Seq<char>> {
    match last_codex_part(split_char(forward_slashes(package_dir), '/')) {
        None => None,
        Some(name) => match before_underscore(name.skip(13)) {
            Some(v) => if v.len() > 0 {
                Some(v)
            } else {
                None
            },
            None => None,
        },
    }
}

/// The version of the Codex package installed at `package_dir`.
pub fn codex_package_version(package_dir: &str) -> (r: Option<String>)
    ensures
        match r {
            Some(v) => spec_codex_package_version(package_dir@) == Some(v@),
            None => spec_codex_package_version(package_dir@) is None,
        },
{
    let path = to_forward_slashes(package_dir);
    let parts = split_on_char(path.as_slice(), '/');
    let ghost pv = vecs_view(parts@);
    let prefix = chars_of("OpenAI.Codex_");
    proof {
        reveal_strlit("OpenAI.Codex_");
    }
    let mut n: usize = parts.len();
    assert(pv.take(n as int) =~= pv);
    loop
        invariant
            n <= parts@.len(),
            pv == vecs_view(parts@),
            pv == split_char(forward_slashes(package_dir@), '/'),
            prefix@ == "OpenAI.Codex_"@,
            prefix@.len() == 13,
            last_codex_part(pv) == last_codex_part(pv.take(n as int)),
        decreases n,
    {
        if n == 0 {
            return None;
        }
        let ghost t = pv.take(n as int);
        assert(t.drop_last() =~= pv.take(n - 1));
        assert(t.last() == parts@[n - 1]@);
        if has_prefix(parts[n - 1].as_slice(), prefix.as_slice()) {
            return version_after_prefix(parts[n - 1].as_slice());
        }
        n = n - 1;
    }
}

/// The version in a package name known to start with `OpenAI.Codex_`.
fn version_after_prefix(name: &[char]) -> (r: Option<String>)
    requires
        name@.len() >= 13,
    ensures
        match r {
            Some(v) => before_underscore(name@.skip(13)) == Some(v@) && v@.len() > 0,
            None => match before_underscore(name@.skip(13)) {
                Some(v) => v.len() == 0,
                None => true,
            },
        },
{
    let rest = copy_range(name, 13, name.len());
    assert(rest@ =~= name@.skip(13));
    let i = find_char_or_len(rest.as_slice(), '_');
    if i >= rest.len() || i == 0 {
        return None;
    }
    let v = copy_range(rest.as_slice(), 0, i);
    assert(v@ =~= rest@.take(i as int));
    Some(string_of(v.as_slice()))
}

/// The text of the `<string>` that follows `<key>key</key>` in a property
/// list, trimmed, when not blank.
pub open spec fn spec_plist_string_value(plist: Seq<char>, key: Seq<char>) -> Option<Seq<char>> {
    let pat = "<key>"@ + key + "</key>"@;
    let i = index_of(plist, pat);
    if i < 0 {
        None
    } else {
        let a = plist.skip(i + pat.len());
        let j = index_of(a, "<string>"@);
        if j < 0 {
            None
        } else {
            let b = a.skip(j + 8);
            let k = index_of(b, "</string>"@);
            if k < 0 || trim(b.take(k)).len() == 0 {
                None
            } else {
                Some(trim(b.take(k)))
            }
        }
    }
}

/// The string value of `key` in the text of a property list.
pub fn plist_string_value(plist: &str, key: &str) -> (r: Option<String>)
    ensures
        match r {
            Some(v) => spec_plist_string_value(plist@, key@) == Some(v@),
            None => spec_plist_string_value(plist@, key@) is None,
        },
{
    let text = chars_of(plist);
    let mut pat = chars_of("<key>");
    push_all(&mut pat, chars_of(key).as_slice());
    push_all(&mut pat, chars_of("</key>").as_slice());
    let open_tag = chars_of("<string>");
    let close_tag = chars_of("</string>");
    proof {
        reveal_strlit("<string>");
        lemma_index_of(text@, pat@);
    }
    let tlen = text.len();
    let i = match find_chars(text.as_slice(), pat.as_slice()) {
        Some(i) => i,
        None => return None,
    };
    let a = copy_range(text.as_slice(), i + pat.len(), tlen);
    assert(a@ =~= text@.skip(i + pat@.len()));
    proof {
        lemma_index_of(a@, open_tag@);
    }
    let j = match find_chars(a.as_slice(), open_tag.as_slice()) {
        Some(j) => j,
        None => return None,
    };
    let b = copy_range(a.as_slice(), j + 8, a.len());
    assert(b@ =~= a@.skip(j + 8));
    proof {
        lemma_index_of(b@, close_tag@);
    }
    let k = match find_chars(b.as_slice(), close_tag.as_slice()) {
        Some(k) => k,
        None => return None,
    };
    let inner = copy_range(b.as_slice(), 0, k);
    assert(inner@ =~= b@.take(k as int));
    let v = trim_chars(inner.as_slice());
    if v.len() == 0 {
        return None;
    }
    Some(string_of(v.as_slice()))
}

/// `u32::from_str`: an optional `+`, then at least one ASCII digit, in range.
pub open spec fn spec_parse_u32(s: Seq<char>) -> Option<u32> {
    let d = if s.len() > 0 && s[0] == '+' {
        s.skip(1)
    } else {
        s
    };
    if d.len() == 0 || !all_digits(d) || digits_value(d) > u32::MAX {
        None
    } else {
        Some(digits_value(d) as u32)
    }
}

/// Every part parsed as `u32`, or none when one fails.
pub open spec fn parse_u32_parts(parts: Seq<Seq<char>>) -> Option<Seq<u32>>
    decreases parts.len(),
{
    if parts.len() == 0 {
        Some(seq![])
    } else {
        match (parse_u32_parts(parts.drop_last()), spec_parse_u32(parts.last())) {
            (Some(p), Some(n)) => Some(p.push(n)),
            _ => None,
        }
    }
}

/// The version numbers in the name of a Codex package directory
/// (`OpenAI.Codex_<a.b.c.d>_...`), by which installs are ordered.
pub open spec fn spec_version_tuple(name: Seq<char>) -> Option<Seq<u32>> {
    if !starts_with(name, "OpenAI.Codex_"@) {
        None
    } else {
        match before_underscore(name.skip(13)) {
            None => None,
            Some(v) => parse_u32_parts(split_char(v, '.')),
        }
    }
}

fn parse_u32(s: &[char]) -> (r: Option<u32>)
    ensures
        r == spec_parse_u32(s@),
{
    let d = if s.len() > 0 && s[0] == '+' {
        copy_range(s, 1, s.len())
    } else {
        copy_range(s, 0, s.len())
    };
    proof {
        if s@.len() > 0 && s@[0] == '+' {
            assert(d@ =~= s@.skip(1));
        } else {
            assert(d@ =~= s@);
        }
    }
    if d.len() == 0 {
        return None;
    }
    let mut k: usize = 0;
    while k < d.len()
        invariant
            k <= d@.len(),
            d@ == (if s@.len() > 0 && s@[0] == '+' {
                s@.skip(1)
            } else {
                s@
            }),
            forall|m: int| 0 <= m < k ==> '0' <= #[trigger] d@[m] <= '9',
        decreases d@.len() - k,
    {
        if !('0' <= d[k] && d[k] <= '9') {
            assert(!('0' <= d@[k as int] <= '9'));
            return None;
        }
        k = k + 1;
    }
    match parse_digits(d.as_slice()) {
        Ok(v) => if v <= 4294967295 {
            Some(v as u32)
        } else {
            None
        },
        Err(_) => None,
    }
}

/// The version numbers in the name of a Codex package directory.
pub fn version_tuple(name: &str) -> (r: Option<Vec<u32>>)
    ensures
        match r {
            Some(v) => spec_version_tuple(name@) == Some(v@),
            None => spec_version_tuple(name@) is None,
        },
{
    let v = chars_of(name);
    let prefix = chars_of("OpenAI.Codex_");
    proof {
        reveal_strlit("OpenAI.Codex_");
    }
    if !has_prefix(v.as_slice(), prefix.as_slice()) {
        return None;
    }
    let rest = copy_range(v.as_slice(), 13, v.len());
    assert(rest@ =~= v@.skip(13));
    let i = find_char_or_len(rest.as_slice(), '_');
    if i >= rest.len() {
        return None;
    }
    let version = copy_range(rest.as_slice(), 0, i);
    assert(version@ =~= rest@.take(i as int));
    let parts = split_on_char(version.as_slice(), '.');
    let ghost pv = vecs_view(parts@);
    assert(spec_version_tuple(name@) == parse_u32_parts(pv));
    let mut out: Vec<u32> = Vec::new();
    let mut j: usize = 0;
    while j < parts.len()
        invariant
            j <= parts@.len(),
            pv == vecs_view(parts@),
            spec_version_tuple(name@) == parse_u32_parts(pv),
            parse_u32_parts(pv.take(j as int)) == Some(out@),
        decreases parts@.len() - j,
    {
        let ghost t = pv.take(j + 1);
        assert(t.drop_last() =~= pv.take(j as int));
        assert(t.last() == parts@[j as int]@);
        match parse_u32(parts[j].as_slice()) {
            Some(n) => out.push(n),
            None => {
                proof {
                    lemma_parse_u32_parts_none(pv, j as int);
                }
                return None;
            },
        }
        j = j + 1;
    }
    assert(pv.take(parts@.len() as int) =~= pv);
    Some(out)
}

/// A part that fails makes every longer prefix fail.
proof fn lemma_parse_u32_parts_none(parts: Seq<Seq<char>>, j: int)
    requires
        0 <= j < parts.len(),
        spec_parse_u32(parts[j]) is None,
    ensures
        parse_u32_parts(parts) is None,
    decreases parts.len(),
{
    if j < parts.len() - 1 {
        lemma_parse_u32_parts_none(parts.drop_last(), j);
    }
}

/// The version of an installed package, as the package manager reports it.
#[derive(Clone, Copy, Debug, PartialEq, Eq, Structural)]
pub struct PackageVersion {
    pub major: u16,
    pub minor: u16,
    pub build: u16,
    pub revision: u16,
}

/// `major.minor.build.revision`.
pub open spec fn spec_package_version_string(v: PackageVersion) -> Seq<char> {
    decimal(v.major as nat) + seq!['.'] + decimal(v.minor as nat) + seq!['.'] + decimal(
        v.build as nat,
    ) + seq!['.'] + decimal(v.revision as nat)
}

/// The version written `major.minor.build.revision`.
pub fn package_version_string(v: &PackageVersion) -> (r: String)
    ensures
        r@ == spec_package_version_string(*v),
{
    let mut out = decimal_chars(v.major as u128);
    out.push('.');
    push_all(&mut out, decimal_chars(v.minor as u128).as_slice());
    out.push('.');
    push_all(&mut out, decimal_chars(v.build as u128).as_slice());
    out.push('.');
    push_all(&mut out, decimal_chars(v.revision as u128).as_slice());
    assert(out@ =~= spec_package_version_string(*v));
    string_of(out.as_slice())
}

/// The version as the numbers it is ordered by.
pub fn package_version_tuple(v: &PackageVersion) -> (r: Vec<u32>)
    ensures
        r@ == seq![v.major as u32, v.minor as u32, v.build as u32, v.revision as u32],
{
    let r = vec![v.major as u32, v.minor as u32, v.build as u32, v.revision as u32];
    assert(r@ =~= seq![v.major as u32, v.minor as u32, v.build as u32, v.revision as u32]);
    r
}

/// `a` comes before `b` in the order of `Vec<u32>`: by the first number
/// that differs, a proper prefix first.
pub open spec fn version_lt(a: Seq<u32>, b: Seq<u32>) -> bool
    decreases a.len(),
{
    if a.len() == 0 {
        b.len() > 0
    } else if b.len() == 0 {
        false
    } else if a[0] != b[0] {
        a[0] < b[0]
    } else {
        version_lt(a.drop_first(), b.drop_first())
    }
}

/// The order of `Option<Vec<u32>>`: `None` first, then by the versions.
pub open spec fn key_lt(a: Option<Seq<u32>>, b: Option<Seq<u32>>) -> bool {
    match (a, b) {
        (None, Some(_)) => true,
        (Some(x), Some(y)) => version_lt(x, y),
        _ => false,
    }
}

/// The order of versions is strict and total.
pub proof fn lemma_version_lt_total(a: Seq<u32>, b: Seq<u32>)
    ensures
        !version_lt(a, a),
        version_lt(a, b) ==> !version_lt(b, a),
        a != b ==> version_lt(a, b) || version_lt(b, a),
    decreases a.len(),
{
    if a.len() > 0 && b.len() > 0 {
        lemma_version_lt_total(a.drop_first(), b.drop_first());
        lemma_version_lt_total(a.drop_first(), a.drop_first());
        if a[0] == b[0] && a.drop_first() == b.drop_first() {
            assert(a =~= seq![a[0]] + a.drop_first());
            assert(b =~= seq![b[0]] + b.drop_first());
        }
    } else if a.len() > 0 {
        lemma_version_lt_total(a.drop_first(), a.drop_first());
    } else if b.len() == 0 {
        assert(a =~= b);
    }
}

/// The order of versions is transitive.
pub proof fn lemma_version_lt_trans(a: Seq<u32>, b: Seq<u32>, c: Seq<u32>)
    requires
        version_lt(a, b),
        version_lt(b, c),
    ensures
        version_lt(a, c),
    decreases a.len(),
{
    if a.len() > 0 && b.len() > 0 && c.len() > 0 {
        if a[0] == b[0] && b[0] == c[0] {
            lemma_version_lt_trans(a.drop_first(), b.drop_first(), c.drop_first());
        }
    }
}

/// The order of keys is strict, total and transitive.
pub proof fn lemma_key_lt(a: Option<Seq<u32>>, b: Option<Seq<u32>>, c: Option<Seq<u32>>)
    ensures
        !key_lt(a, a),
        a != b ==> key_lt(a, b) || key_lt(b, a),
        key_lt(a, b) && key_lt(b, c) ==> key_lt(a, c),
{
    match (a, b) {
        (Some(x), Some(y)) => {
            lemma_version_lt_total(x, y);
        },
        (Some(x), None) => {
            lemma_version_lt_total(x, x);
        },
        _ => {},
    }
    if let (Some(x), Some(y), Some(z)) = (a, b, c) {
        if version_lt(x, y) && version_lt(y, z) {
            lemma_version_lt_trans(x, y, z);
        }
    }
}

/// Whether `a` comes before `b` in the order of `Vec<u32>`.
pub fn less_versions(a: &[u32], b: &[u32]) -> (r: bool)
    ensures
        r == version_lt(a@, b@),
{
    let mut i: usize = 0;
    assert(a@.skip(0) =~= a@);
    assert(b@.skip(0) =~= b@);
    while i < a.len() && i < b.len()
        invariant
            i <= a@.len(),
            i <= b@.len(),
            version_lt(a@, b@) == version_lt(a@.skip(i as int), b@.skip(i as int)),
        decreases a@.len() - i,
    {
        assert(a@.skip(i as int)[0] == a@[i as int]);
        assert(b@.skip(i as int)[0] == b@[i as int]);
        assert(a@.skip(i as int).drop_first() =~= a@.skip(i + 1));
        assert(b@.skip(i as int).drop_first() =~= b@.skip(i + 1));
        if a[i] != b[i] {
            return a[i] < b[i];
        }
        i = i + 1;
    }
    i == a.len() && i < b.len()
}

/// The views of optional version lists.
pub open spec fn keys_view(keys: Seq<Option<Vec<u32>>>) -> Seq<Option<Seq<u32>>> {
    keys.map_values(|k: Option<Vec<u32>>| match k {
        Some(v) => Some(v@),
        None => None,
    })
}

/// `i` holds the greatest key, and no later key is as great: the one that
/// `Iterator::max_by` picks, and the one a stable sort puts last.
pub open spec fn is_last_greatest(keys: Seq<Option<Seq<u32>>>, i: int) -> bool {
    &&& 0 <= i < keys.len()
    &&& forall|j: int| 0 <= j < keys.len() ==> !key_lt(keys[i], #[trigger] keys[j])
    &&& forall|j: int| i < j < keys.len() ==> key_lt(#[trigger] keys[j], keys[i])
}

/// Of the candidates ordered by these keys (a missing key first), the index
/// of the last greatest; `None` when there is no candidate.
pub fn last_greatest(keys: &Vec<Option<Vec<u32>>>) -> (r: Option<usize>)
    ensures
        match r {
            Some(i) => is_last_greatest(keys_view(keys@), i as int),
            None => keys@.len() == 0,
        },
{
    if keys.len() == 0 {
        return None;
    }
    let ghost kv = keys_view(keys@);
    let mut best: usize = 0;
    let mut i: usize = 1;
    proof {
        lemma_key_lt(kv[0], kv[0], kv[0]);
    }
    while i < keys.len()
        invariant
            kv == keys_view(keys@),
            0 <= best < i <= keys@.len(),
            forall|j: int| 0 <= j < i ==> !key_lt(kv[best as int], #[trigger] kv[j]),
            forall|j: int| best < j < i ==> key_lt(#[trigger] kv[j], kv[best as int]),
        decreases keys@.len() - i,
    {
        let later = match (&keys[best], &keys[i]) {
            (None, Some(_)) => true,
            (Some(x), Some(y)) => less_versions(x.as_slice(), y.as_slice()),
            _ => false,
        };
        let earlier = match (&keys[i], &keys[best]) {
            (None, Some(_)) => true,
            (Some(x), Some(y)) => less_versions(x.as_slice(), y.as_slice()),
            _ => false,
        };
        assert(later == key_lt(kv[best as int], kv[i as int]));
        assert(earlier == key_lt(kv[i as int], kv[best as int]));
        if !earlier {
            let ghost b = best as int;
            proof {
                lemma_key_lt(kv[b], kv[i as int], kv[i as int]);
                assert forall|j: int| 0 <= j < i + 1 implies !key_lt(
                    kv[i as int],
                    #[trigger] kv[j],
                ) by {
                    lemma_key_lt(kv[i as int], kv[b], kv[j]);
                    lemma_key_lt(kv[b], kv[i as int], kv[j]);
                    lemma_key_lt(kv[j], kv[j], kv[j]);
                    lemma_key_lt(kv[i as int], kv[j], kv[b]);
                    if j < i {
                        assert(!key_lt(kv[b], kv[j]));
                    }
                }
            }
            best = i;
        } else {
            proof {
                lemma_key_lt(kv[best as int], kv[i as int], kv[best as int]);
            }
        }
        i = i + 1;
    }
    Some(best)
}

/// What is known of a Codex install at `app_dir`: its executable, where it
/// was found, its version (empty when unknown) and, for a packaged install,
/// its activation id (else empty).
pub fn info_from_app_dir(
    app_dir: &str,
    executable_path: &str,
    source: &str,
    version: Option<String>,
) -> (r: CodexPathInfo)
    ensures
        r.app_dir@ == app_dir@,
        r.executable_path@ == executable_path@,
        r.source@ == source@,
        r.version@ == match version {
            Some(v) => v@,
            None => Seq::<char>::empty(),
        },
        r.app_user_model_id@ == match spec_packaged_app_user_model_id(app_dir@) {
            Some(id) => id,
            None => Seq::<char>::empty(),
        },
{
    let app_user_model_id = match packaged_app_user_model_id(app_dir) {
        Some(id) => id,
        None => String::new(),
    };
    CodexPathInfo {
        app_dir: String::from_str(app_dir),
        executable_path: String::from_str(executable_path),
        version: match version {
            Some(v) => v,
            None => String::new(),
        },
        source: String::from_str(source),
        app_user_model_id,
    }
}

/// What is known of a directory Codex may live in: its path, whether it is
/// a macOS bundle (`.app`), its last component, its parent, and the text of
/// its `Contents/Info.plist` when it is a bundle and that file was read.
#[derive(Debug)]
pub struct DirFacts {
    pub path: String,
    pub is_app_bundle: bool,
    pub name: Option<String>,
    pub parent: Option<String>,
    pub plist: Option<String>,
}

/// What the file system says of a path given as Codex's location: the path
/// as a directory, its parent and its `app` subdirectory, whether it is a
/// file, and which of the executables Codex may have there exist.
#[derive(Debug)]
pub struct PathFacts {
    pub dir: DirFacts,
    pub is_file: bool,
    pub parent_dir: Option<DirFacts>,
    pub nested_dir: DirFacts,
    pub bundle_executable: String,
    pub bundle_executable_exists: bool,
    pub upper: String,
    pub upper_exists: bool,
    pub lower: String,
    pub lower_exists: bool,
    pub nested_upper: String,
    pub nested_upper_exists: bool,
    pub nested_lower: String,
    pub nested_lower_exists: bool,
}

/// A component equal to `name`, ignoring ASCII case.
pub open spec fn name_is(n: Option<String>, name: Seq<char>) -> bool {
    match n {
        Some(x) => lower_seq(x@) == lower_seq(name),
        None => false,
    }
}

/// The optional text, or nothing.
pub open spec fn opt_view(o: Option<String>) -> Option<Seq<char>> {
    match o {
        Some(x) => Some(x@),
        None => None,
    }
}

/// The version of the Codex in a directory: a bundle's short version (else
/// its version) from its property list; else the version in the name of the
/// package directory (the parent of an `app` directory).
pub open spec fn spec_codex_app_version(d: DirFacts) -> Option<Seq<char>> {
    if d.is_app_bundle {
        match d.plist {
            None => None,
            Some(t) => match spec_plist_string_value(t@, "CFBundleShortVersionString"@) {
                Some(v) => Some(v),
                None => spec_plist_string_value(t@, "CFBundleVersion"@),
            },
        }
    } else if name_is(d.name, "app"@) {
        match d.parent {
            None => None,
            Some(p) => spec_codex_package_version(p@),
        }
    } else {
        spec_codex_package_version(d.path@)
    }
}

/// Whether the component `n` equals `name`, ignoring ASCII case.
fn component_is(n: &Option<String>, name: &str) -> (r: bool)
    ensures
        r == name_is(*n, name@),
{
    match n {
        Some(x) => {
            let a = to_ascii_lower(chars_of(x.as_str()).as_slice());
            let b = to_ascii_lower(chars_of(name).as_slice());
            same_chars(a.as_slice(), b.as_slice())
        },
        None => false,
    }
}

/// The version of the Codex in a directory.
pub fn codex_app_version(d: &DirFacts) -> (r: Option<String>)
    ensures
        opt_view(r) == spec_codex_app_version(*d),
{
    if d.is_app_bundle {
        return match &d.plist {
            None => None,
            Some(t) => match plist_string_value(t.as_str(), "CFBundleShortVersionString") {
                Some(v) => Some(v),
                None => plist_string_value(t.as_str(), "CFBundleVersion"),
            },
        };
    }
    if component_is(&d.name, "app") {
        match &d.parent {
            None => None,
            Some(p) => codex_package_version(p.as_str()),
        }
    } else {
        codex_package_version(d.path.as_str())
    }
}

/// Where Codex is, by the path given for it, in this order: the path is
/// `Codex.exe` (in any case), in its parent; a macOS bundle with its
/// executable; another file, in its parent; a directory holding `Codex.exe`
/// or `codex.exe`; one whose `app` directory holds them; a packaged
/// `OpenAI.Codex` directory (or its `app` directory), with `Codex.exe`
/// unless only `codex.exe` exists.  Nothing for an empty path or none of
/// these.
pub open spec fn spec_locate(f: PathFacts) -> Option<(DirFacts, Seq<char>)> {
    let path = f.dir.path@;
    if path.len() == 0 {
        None
    } else if name_is(f.dir.name, "Codex.exe"@) {
        match f.parent_dir {
            Some(p) => Some((p, path)),
            None => None,
        }
    } else if f.dir.is_app_bundle && f.bundle_executable_exists {
        Some((f.dir, f.bundle_executable@))
    } else if f.is_file {
        match f.parent_dir {
            Some(p) => Some((p, path)),
            None => None,
        }
    } else if f.upper_exists {
        Some((f.dir, f.upper@))
    } else if f.lower_exists {
        Some((f.dir, f.lower@))
    } else if f.nested_upper_exists {
        Some((f.nested_dir, f.nested_upper@))
    } else if f.nested_lower_exists {
        Some((f.nested_dir, f.nested_lower@))
    } else {
        match spec_package_name_from_app_dir(path) {
            Some(n) if spec_is_openai_codex_package_name(n) => if name_is(f.dir.name, "app"@) {
                Some(
                    (
                        f.dir,
                        if !f.upper_exists && f.lower_exists {
                            f.lower@
                        } else {
                            f.upper@
                        },
                    ),
                )
            } else {
                Some(
                    (
                        f.nested_dir,
                        if !f.nested_upper_exists && f.nested_lower_exists {
                            f.nested_lower@
                        } else {
                            f.nested_upper@
                        },
                    ),
                )
            },
            _ => None,
        }
    }
}

/// `r` describes the install found in `d` with executable `exe`.
pub open spec fn describes(r: CodexPathInfo, d: DirFacts, exe: Seq<char>, source: Seq<char>) -> bool {
    &&& r.app_dir@ == d.path@
    &&& r.executable_path@ == exe
    &&& r.source@ == source
    &&& r.version@ == match spec_codex_app_version(d) {
        Some(v) => v,
        None => Seq::<char>::empty(),
    }
    &&& r.app_user_model_id@ == match spec_packaged_app_user_model_id(d.path@) {
        Some(id) => id,
        None => Seq::<char>::empty(),
    }
}

fn info_in(d: &DirFacts, exe: &str, source: &str) -> (r: CodexPathInfo)
    ensures
        describes(r, *d, exe@, source@),
{
    let version = codex_app_version(d);
    info_from_app_dir(d.path.as_str(), exe, source, version)
}

/// Where Codex is, by the path given for it and what the file system says
/// of that path.
pub fn normalize_codex_app_path(f: &PathFacts, source: &str) -> (r: Option<CodexPathInfo>)
    ensures
        match (r, spec_locate(*f)) {
            (Some(info), Some((d, exe))) => describes(info, d, exe, source@),
            (None, None) => true,
            _ => false,
        },
{
    let path = f.dir.path.as_str();
    if f.dir.path.unicode_len() == 0 {
        return None;
    }
    if component_is(&f.dir.name, "Codex.exe") {
        return match &f.parent_dir {
            Some(p) => Some(info_in(p, path, source)),
            None => None,
        };
    }
    if f.dir.is_app_bundle && f.bundle_executable_exists {
        return Some(info_in(&f.dir, f.bundle_executable.as_str(), source));
    }
    if f.is_file {
        return match &f.parent_dir {
            Some(p) => Some(info_in(p, path, source)),
            None => None,
        };
    }
    if f.upper_exists {
        return Some(info_in(&f.dir, f.upper.as_str(), source));
    }
    if f.lower_exists {
        return Some(info_in(&f.dir, f.lower.as_str(), source));
    }
    if f.nested_upper_exists {
        return Some(info_in(&f.nested_dir, f.nested_upper.as_str(), source));
    }
    if f.nested_lower_exists {
        return Some(info_in(&f.nested_dir, f.nested_lower.as_str(), source));
    }
    let name = match package_name_from_app_dir(path) {
        Some(n) => n,
        None => return None,
    };
    if !is_openai_codex_package_name(name.as_str()) {
        return None;
    }
    if component_is(&f.dir.name, "app") {
        let exe = if !f.upper_exists && f.lower_exists {
            f.lower.as_str()
        } else {
            f.upper.as_str()
        };
        Some(info_in(&f.dir, exe, source))
    } else {
        let exe = if !f.nested_upper_exists && f.nested_lower_exists {
            f.nested_lower.as_str()
        } else {
            f.nested_upper.as_str()
        };
        Some(info_in(&f.nested_dir, exe, source))
    }
}


/// The version of a macOS bundle is its short version string: when the
/// property list holds a non-blank `CFBundleShortVersionString`, the version
/// read is that value, whatever `CFBundleVersion` holds.
pub proof fn law_bundle_version_is_short_version(d: DirFacts, plist: String, v: Seq<char>)
    requires
        d.is_app_bundle,
        d.plist == Some(plist),
        spec_plist_string_value(plist@, "CFBundleShortVersionString"@) == Some(v),
    ensures
        spec_codex_app_version(d) == Some(v),
{
}

/// The same, read off the text: a property list that begins with the key
/// `CFBundleShortVersionString` and its string `v` (trimmed, not empty, no
/// `<` in it) gives the version `v`, whatever follows.
pub proof fn law_bundle_version_from_plist_text(d: DirFacts, plist: String, v: Seq<char>, rest: Seq<char>)
    requires
        d.is_app_bundle,
        d.plist == Some(plist),
        plist@ == "<key>CFBundleShortVersionString</key><string>"@ + v + "</string>"@ + rest,
        v.len() > 0,
        trim(v) == v,
        forall|i: int| 0 <= i < v.len() ==> v[i] != '<',
    ensures
        spec_codex_app_version(d) == Some(v),
{
    let t = plist@;
    let key: Seq<char> = "CFBundleShortVersionString"@;
    let pat = "<key>"@ + key + "</key>"@;
    reveal_strlit("<key>");
    reveal_strlit("</key>");
    reveal_strlit("CFBundleShortVersionString");
    reveal_strlit("<key>CFBundleShortVersionString</key><string>");
    reveal_strlit("<string>");
    reveal_strlit("</string>");
    assert(pat.len() == 37);
    assert(t.subrange(0, 37) =~= pat);
    assert(occurs_at(t, pat, 0));
    assert(index_of(t, pat) == 0);
    let a = t.skip(37);
    assert(a =~= "<string>"@ + v + "</string>"@ + rest);
    assert(a.subrange(0, 8) =~= "<string>"@);
    assert(occurs_at(a, "<string>"@, 0));
    assert(index_of(a, "<string>"@) == 0);
    let b = a.skip(8);
    assert(b =~= v + "</string>"@ + rest);
    let n = v.len() as int;
    assert(b.subrange(n, n + 9) =~= "</string>"@);
    assert(occurs_at(b, "</string>"@, n));
    lemma_index_of(b, "</string>"@);
    assert forall|k: int| 0 <= k < n implies !occurs_at(b, "</string>"@, k) by {
        if occurs_at(b, "</string>"@, k) {
            assert(b.subrange(k, k + 9)[0] == b[k]);
            assert(b[k] == v[k]);
        }
    }
    assert(index_of(b, "</string>"@) == n);
    assert(b.take(n) =~= v);
    assert(spec_plist_string_value(t, key) == Some(v));
}

/// Without a short version string, the bundle's version is its
/// `CFBundleVersion`.
pub proof fn law_bundle_version_falls_back(d: DirFacts, plist: String)
    requires
        d.is_app_bundle,
        d.plist == Some(plist),
        spec_plist_string_value(plist@, "CFBundleShortVersionString"@) is None,
    ensures
        spec_codex_app_version(d) == spec_plist_string_value(plist@, "CFBundleVersion"@),
{
}
} // verus!
