//! Release versions, update assets, and the decision whether an update is
//! available.

use vstd::prelude::*;
use vstd::string::StringExecFns;

use crate::json::{first_some, json_array, json_get, json_str, opt_str, or_else, JsonValue};
use crate::text::{
    chars_of, contains, ends_with, first_where, has_infix, has_suffix, is_first, lemma_first_where,
    lemma_split_char_len, lemma_trim_fixed, lemma_ends_with_trans, lemma_first_where_is_first, lower_seq, split_char, split_on_char, string_of, to_ascii_lower, trim,
    trim_str, vecs_view,
};

verus! {

/// Why a version tag cannot be read.
#[derive(Debug, PartialEq, Eq)]
pub enum VersionError {
    /// No digit or dot follows the optional `v` prefix.
    InvalidTag,
    /// A dot-separated part is empty.
    EmptyNumber,
    /// A dot-separated part does not fit in `u64`.
    NumberTooLarge,
}

/// An ASCII digit or a dot.
pub open spec fn is_version_char(c: char) -> bool {
    ('0' <= c <= '9') || c == '.'
}

/// The text with every leading `v` or `V` removed.
pub open spec fn strip_v_prefix(s: Seq<char>) -> Seq<char>
    decreases s.len(),
{
    if s.len() > 0 && (s[0] == 'v' || s[0] == 'V') {
        strip_v_prefix(s.drop_first())
    } else {
        s
    }
}

/// The longest prefix of digits and dots.
pub open spec fn version_prefix(s: Seq<char>) -> Seq<char>
    decreases s.len(),
{
    if s.len() > 0 && is_version_char(s[0]) {
        seq![s[0]] + version_prefix(s.drop_first())
    } else {
        seq![]
    }
}

/// The number written by a string of ASCII digits.
pub open spec fn digits_value(p: Seq<char>) -> nat
    decreases p.len(),
{
    if p.len() == 0 {
        0
    } else {
        digits_value(p.drop_last()) * 10 + ((p.last() as nat) - ('0' as nat)) as nat
    }
}

/// `u64::from_str` on a string of ASCII digits.
pub open spec fn parse_part(p: Seq<char>) -> Result<u64, VersionError> {
    if p.len() == 0 {
        Err(VersionError::EmptyNumber)
    } else if digits_value(p) > u64::MAX {
        Err(VersionError::NumberTooLarge)
    } else {
        Ok(digits_value(p) as u64)
    }
}

/// The numbers of the parts, or the error of the first part that fails.
pub open spec fn parse_parts(parts: Seq<Seq<char>>) -> Result<Seq<u64>, VersionError>
    decreases parts.len(),
{
    if parts.len() == 0 {
        Ok(seq![])
    } else {
        match parse_parts(parts.drop_last()) {
            Err(e) => Err(e),
            Ok(v) => match parse_part(parts.last()) {
                Err(e) => Err(e),
                Ok(n) => Ok(v.push(n)),
            },
        }
    }
}

/// The numbers of a version tag such as `v1.2.3-beta.1`: white space and `v`
/// prefixes removed, the leading run of digits and dots split at the dots.
pub open spec fn spec_parse_version_tag(value: Seq<char>) -> Result<Seq<u64>, VersionError> {
    let digits = version_prefix(strip_v_prefix(trim(value)));
    if digits.len() == 0 {
        Err(VersionError::InvalidTag)
    } else {
        parse_parts(split_char(digits, '.'))
    }
}

/// `u64::from_str` on a string of ASCII digits.
pub fn parse_digits(p: &[char]) -> (r: Result<u64, VersionError>)
    requires
        forall|i: int| 0 <= i < p@.len() ==> '0' <= #[trigger] p@[i] <= '9',
    ensures
        r == parse_part(p@),
{
    if p.len() == 0 {
        return Err(VersionError::EmptyNumber);
    }
    let mut acc: u64 = 0;
    let mut too_large = false;
    let mut i: usize = 0;
    while i < p.len()
        invariant
            i <= p@.len(),
            forall|k: int| 0 <= k < p@.len() ==> '0' <= #[trigger] p@[k] <= '9',
            !too_large ==> acc as nat == digits_value(p@.take(i as int)),
            too_large ==> digits_value(p@.take(i as int)) > u64::MAX,
        decreases p@.len() - i,
    {
        let ghost pre = p@.take(i + 1);
        assert(pre.drop_last() =~= p@.take(i as int));
        assert(pre.last() == p@[i as int]);
        let d = (p[i] as u32 - '0' as u32) as u64;
        assert(d as nat == (p@[i as int] as nat) - ('0' as nat));
        if !too_large {
            if acc > (u64::MAX - d) / 10 {
                too_large = true;
            } else {
                acc = acc * 10 + d;
            }
        }
        i = i + 1;
    }
    assert(p@.take(p@.len() as int) =~= p@);
    if too_large {
        Err(VersionError::NumberTooLarge)
    } else {
        Ok(acc)
    }
}


proof fn lemma_strip_v_step(s: Seq<char>, i: int)
    requires
        0 <= i < s.len(),
        s[i] == 'v' || s[i] == 'V',
    ensures
        strip_v_prefix(s.skip(i)) == strip_v_prefix(s.skip(i + 1)),
{
    assert(s.skip(i).drop_first() =~= s.skip(i + 1));
}

proof fn lemma_version_prefix_all(s: Seq<char>)
    requires
        forall|k: int| 0 <= k < s.len() ==> is_version_char(#[trigger] s[k]),
    ensures
        version_prefix(s) == s,
    decreases s.len(),
{
    if s.len() > 0 {
        lemma_version_prefix_all(s.drop_first());
        assert(seq![s[0]] + s.drop_first() =~= s);
    }
}

proof fn lemma_version_prefix_stop(s: Seq<char>, j: int)
    requires
        0 <= j <= s.len(),
        forall|k: int| 0 <= k < j ==> is_version_char(#[trigger] s[k]),
        j < s.len() ==> !is_version_char(s[j]),
    ensures
        version_prefix(s) == s.take(j),
    decreases j,
{
    if j > 0 {
        lemma_version_prefix_stop(s.drop_first(), j - 1);
        assert(seq![s[0]] + s.drop_first().take(j - 1) =~= s.take(j));
    }
}

/// The digits-and-dots run of a tag, after white space and `v` prefixes.
fn version_digits(value: &str) -> (r: Vec<char>)
    ensures
        r@ == version_prefix(strip_v_prefix(trim(value@))),
        forall|k: int| 0 <= k < r@.len() ==> is_version_char(#[trigger] r@[k]),
{
    let t = trim_str(value);
    let mut i: usize = 0;
    assert(t@.skip(0) =~= t@);
    while i < t.len() && (t[i] == 'v' || t[i] == 'V')
        invariant
            i <= t@.len(),
            strip_v_prefix(t@) == strip_v_prefix(t@.skip(i as int)),
        decreases t@.len() - i,
    {
        proof {
            lemma_strip_v_step(t@, i as int);
        }
        i = i + 1;
    }
    let ghost rest = t@.skip(i as int);
    assert(strip_v_prefix(rest) == rest);
    let mut out: Vec<char> = Vec::new();
    let mut j = i;
    while j < t.len() && (('0' <= t[j] && t[j] <= '9') || t[j] == '.')
        invariant
            i <= j <= t@.len(),
            rest == t@.skip(i as int),
            out@ == rest.take(j - i),
            forall|k: int| 0 <= k < j - i ==> is_version_char(#[trigger] rest[k]),
        decreases t@.len() - j,
    {
        out.push(t[j]);
        j = j + 1;
        assert(out@ =~= rest.take(j - i));
    }
    proof {
        lemma_version_prefix_stop(rest, j - i);
    }
    out
}

/// The numbers of a version tag such as `v1.2.3-beta.1` (here `[1, 2, 3]`):
/// white space and any `v` or `V` prefix are ignored, and the leading run of
/// digits and dots is split at its dots.
pub fn parse_version_tag(value: &str) -> (r: Result<Vec<u64>, VersionError>)
    ensures
        match (r, spec_parse_version_tag(value@)) {
            (Ok(v), Ok(w)) => v@ == w,
            (Err(e), Err(f)) => e == f,
            _ => false,
        },
{
    let digits = version_digits(value);
    if digits.len() == 0 {
        return Err(VersionError::InvalidTag);
    }
    let parts = split_on_char(digits.as_slice(), '.');
    let ghost pv = vecs_view(parts@);
    let mut out: Vec<u64> = Vec::new();
    let mut i: usize = 0;
    while i < parts.len()
        invariant
            i <= parts@.len(),
            pv == vecs_view(parts@),
            pv == split_char(digits@, '.'),
            digits@ == version_prefix(strip_v_prefix(trim(value@))),
            digits@.len() > 0,
            forall|k: int| 0 <= k < digits@.len() ==> is_version_char(#[trigger] digits@[k]),
            parse_parts(pv.take(i as int)) == Ok::<Seq<u64>, VersionError>(out@),
        decreases parts@.len() - i,
    {
        let ghost pre = pv.take(i + 1);
        assert(pre.drop_last() =~= pv.take(i as int));
        assert(pre.last() == parts@[i as int]@);
        proof {
            lemma_parts_digits(digits@, i as int);
        }
        match parse_digits(parts[i].as_slice()) {
            Ok(n) => {
                out.push(n);
            },
            Err(e) => {
                proof {
                    assert(parse_part(pv[i as int]) == Err::<u64, VersionError>(e));
                    assert(parse_parts(pre) == Err::<Seq<u64>, VersionError>(e));
                    lemma_parse_parts_prefix_err(pv, i + 1);
                    assert(parse_parts(pv) == Err::<Seq<u64>, VersionError>(e));
                }
                return Err(e);
            },
        }
        i = i + 1;
    }
    assert(pv.take(parts@.len() as int) =~= pv);
    Ok(out)
}

/// Each piece of a run of digits and dots, split at its dots, holds only
/// digits.
proof fn lemma_parts_digits(s: Seq<char>, i: int)
    requires
        forall|k: int| 0 <= k < s.len() ==> is_version_char(#[trigger] s[k]),
        0 <= i < split_char(s, '.').len(),
    ensures
        forall|k: int|
            0 <= k < split_char(s, '.')[i].len() ==> '0' <= #[trigger] split_char(s, '.')[i][k]
                <= '9',
    decreases s.len(),
{
    if s.len() > 0 {
        let init = s.drop_last();
        lemma_split_char_len(init, '.');
        let p = split_char(init, '.');
        if i < p.len() {
            lemma_parts_digits(init, i);
        }
        if s.last() != '.' && i == p.len() - 1 {
            lemma_parts_digits(init, i);
        }
    }
}

/// Once the first `n` parts fail, so do all parts.
proof fn lemma_parse_parts_prefix_err(parts: Seq<Seq<char>>, n: int)
    requires
        0 <= n <= parts.len(),
        parse_parts(parts.take(n)) is Err,
    ensures
        parse_parts(parts) == parse_parts(parts.take(n)),
    decreases parts.len() - n,
{
    if n < parts.len() {
        assert(parts.take(n + 1).drop_last() =~= parts.take(n));
        lemma_parse_parts_prefix_err(parts, n + 1);
    } else {
        assert(parts.take(n) =~= parts);
    }
}


/// `v` with zeros appended up to length `n`.
pub open spec fn pad_zeros(v: Seq<u64>, n: nat) -> Seq<u64> {
    v + Seq::new((n - v.len()) as nat, |i: int| 0u64)
}

/// Lexicographic order of number sequences, as `Vec<u64>` compares.
pub open spec fn lex_lt(a: Seq<u64>, b: Seq<u64>) -> bool
    decreases a.len(),
{
    if a.len() == 0 {
        b.len() > 0
    } else if b.len() == 0 {
        false
    } else if a[0] < b[0] {
        true
    } else if a[0] > b[0] {
        false
    } else {
        lex_lt(a.drop_first(), b.drop_first())
    }
}

/// The longer of two lengths.
pub open spec fn max_len(a: nat, b: nat) -> nat {
    if a >= b {
        a
    } else {
        b
    }
}

/// Version `a` is newer than `b`: greater, once both are padded with zeros to
/// the same length.
pub open spec fn version_newer(a: Seq<u64>, b: Seq<u64>) -> bool {
    let n = max_len(a.len(), b.len());
    lex_lt(pad_zeros(b, n), pad_zeros(a, n))
}

/// Whether `candidate` is newer than `current`, or the error of the first tag
/// that cannot be read (`candidate` first).
pub open spec fn spec_is_newer_version(candidate: Seq<char>, current: Seq<char>) -> Result<
    bool,
    VersionError,
> {
    match spec_parse_version_tag(candidate) {
        Err(e) => Err(e),
        Ok(l) => match spec_parse_version_tag(current) {
            Err(e) => Err(e),
            Ok(r) => Ok(version_newer(l, r)),
        },
    }
}

/// Equal-length sequences: `lex_lt` decided at their first difference.
proof fn lemma_lex_lt_step(a: Seq<u64>, b: Seq<u64>, i: int)
    requires
        a.len() == b.len(),
        0 <= i < a.len(),
        a.take(i) == b.take(i),
    ensures
        a[i] < b[i] ==> lex_lt(a, b),
        a[i] > b[i] ==> !lex_lt(a, b),
        a[i] == b[i] ==> lex_lt(a, b) == lex_lt(a.skip(i + 1), b.skip(i + 1)),
    decreases i,
{
    if i > 0 {
        assert(a.drop_first().take(i - 1) =~= a.take(i).drop_first());
        assert(b.drop_first().take(i - 1) =~= b.take(i).drop_first());
        assert(a[0] == a.take(i)[0]);
        assert(b[0] == b.take(i)[0]);
        lemma_lex_lt_step(a.drop_first(), b.drop_first(), i - 1);
        assert(a.drop_first().skip(i) =~= a.skip(i + 1));
        assert(b.drop_first().skip(i) =~= b.skip(i + 1));
    } else {
        assert(a.drop_first() =~= a.skip(1));
        assert(b.drop_first() =~= b.skip(1));
    }
}

/// The `i`-th number of `v` padded with zeros.
fn padded_at(v: &Vec<u64>, i: usize) -> (r: u64)
    ensures
        i < v@.len() ==> r == v@[i as int],
        i >= v@.len() ==> r == 0,
{
    if i < v.len() {
        v[i]
    } else {
        0
    }
}

/// Whether `candidate` is newer than `current`: both are read as version tags
/// and compared number by number, the shorter padded with zeros.  The error
/// of the first tag that cannot be read is returned.
pub fn is_newer_version(candidate: &str, current: &str) -> (r: Result<bool, VersionError>)
    ensures
        match (r, spec_is_newer_version(candidate@, current@)) {
            (Ok(x), Ok(y)) => x == y,
            (Err(e), Err(f)) => e == f,
            _ => false,
        },
{
    let left = match parse_version_tag(candidate) {
        Ok(v) => v,
        Err(e) => return Err(e),
    };
    let right = match parse_version_tag(current) {
        Ok(v) => v,
        Err(e) => return Err(e),
    };
    let n = if left.len() >= right.len() {
        left.len()
    } else {
        right.len()
    };
    let ghost a = pad_zeros(right@, n as nat);
    let ghost b = pad_zeros(left@, n as nat);
    assert(spec_is_newer_version(candidate@, current@) == Ok::<bool, VersionError>(
        lex_lt(a, b),
    ));
    let mut i: usize = 0;
    assert(a.skip(0) =~= a);
    assert(b.skip(0) =~= b);
    while i < n
        invariant
            i <= n,
            a.len() == n,
            b.len() == n,
            a == pad_zeros(right@, n as nat),
            b == pad_zeros(left@, n as nat),
            a.take(i as int) == b.take(i as int),
            lex_lt(a, b) == lex_lt(a.skip(i as int), b.skip(i as int)),
            spec_is_newer_version(candidate@, current@) == Ok::<bool, VersionError>(
                lex_lt(a, b),
            ),
        decreases n - i,
    {
        let x = padded_at(&right, i);
        let y = padded_at(&left, i);
        assert(a[i as int] == x);
        assert(b[i as int] == y);
        proof {
            assert(a.skip(i as int).take(0) =~= b.skip(i as int).take(0));
            lemma_lex_lt_step(a.skip(i as int), b.skip(i as int), 0);
            assert(a.skip(i as int)[0] == x);
            assert(b.skip(i as int)[0] == y);
            assert(a.skip(i as int).skip(1) =~= a.skip(i + 1));
            assert(b.skip(i as int).skip(1) =~= b.skip(i + 1));
        }
        if x < y {
            return Ok(true);
        }
        if x > y {
            return Ok(false);
        }
        assert(a.take(i + 1) =~= a.take(i as int).push(x));
        assert(b.take(i + 1) =~= b.take(i as int).push(y));
        i = i + 1;
    }
    assert(a.skip(n as int).len() == 0);
    Ok(false)
}


proof fn lemma_lex_push_same(u: Seq<u64>, v: Seq<u64>, z: u64)
    requires
        u.len() == v.len(),
    ensures
        lex_lt(u.push(z), v.push(z)) == lex_lt(u, v),
    decreases u.len(),
{
    if u.len() > 0 {
        assert(u.push(z).drop_first() =~= u.drop_first().push(z));
        assert(v.push(z).drop_first() =~= v.drop_first().push(z));
        lemma_lex_push_same(u.drop_first(), v.drop_first(), z);
    } else {
        assert(u.push(z).drop_first() =~= u);
        assert(v.push(z).drop_first() =~= v);
    }
}

proof fn lemma_pad_any(x: Seq<u64>, y: Seq<u64>, n: nat, m: nat)
    requires
        x.len() <= n,
        y.len() <= n,
        n <= m,
    ensures
        lex_lt(pad_zeros(x, n), pad_zeros(y, n)) == lex_lt(pad_zeros(x, m), pad_zeros(y, m)),
    decreases m - n,
{
    if n < m {
        lemma_pad_any(x, y, (n + 1) as nat, m);
        assert(pad_zeros(x, (n + 1) as nat) =~= pad_zeros(x, n).push(0u64));
        assert(pad_zeros(y, (n + 1) as nat) =~= pad_zeros(y, n).push(0u64));
        lemma_lex_push_same(pad_zeros(x, n), pad_zeros(y, n), 0u64);
    }
}

proof fn lemma_lex_order(a: Seq<u64>, b: Seq<u64>, c: Seq<u64>)
    requires
        a.len() == b.len(),
        b.len() == c.len(),
    ensures
        !lex_lt(a, a),
        lex_lt(a, b) ==> !lex_lt(b, a),
        lex_lt(a, b) && lex_lt(b, c) ==> lex_lt(a, c),
    decreases a.len(),
{
    if a.len() > 0 {
        lemma_lex_order(a.drop_first(), b.drop_first(), c.drop_first());
    }
}

/// No version is newer than itself.
pub proof fn law_version_newer_irreflexive(a: Seq<u64>)
    ensures
        !version_newer(a, a),
{
    let n = a.len();
    lemma_lex_order(pad_zeros(a, n), pad_zeros(a, n), pad_zeros(a, n));
}

/// Of two versions, at most one is newer than the other.
pub proof fn law_version_newer_asymmetric(a: Seq<u64>, b: Seq<u64>)
    ensures
        version_newer(a, b) ==> !version_newer(b, a),
{
    let n = max_len(a.len(), b.len());
    lemma_lex_order(pad_zeros(b, n), pad_zeros(a, n), pad_zeros(a, n));
}

/// Newer than newer is newer.
pub proof fn law_version_newer_transitive(a: Seq<u64>, b: Seq<u64>, c: Seq<u64>)
    requires
        version_newer(a, b),
        version_newer(b, c),
    ensures
        version_newer(a, c),
{
    let m = max_len(max_len(a.len(), b.len()), c.len());
    lemma_pad_any(b, a, max_len(a.len(), b.len()), m);
    lemma_pad_any(c, b, max_len(b.len(), c.len()), m);
    lemma_pad_any(c, a, max_len(a.len(), c.len()), m);
    lemma_lex_order(pad_zeros(c, m), pad_zeros(b, m), pad_zeros(a, m));
}

/// Trailing zeros do not count: `1.0` and `1.0.0` are the same version.
pub proof fn law_version_trailing_zero(a: Seq<u64>, b: Seq<u64>)
    ensures
        version_newer(a.push(0u64), b) == version_newer(a, b),
        version_newer(b, a.push(0u64)) == version_newer(b, a),
{
    let n = max_len(a.len(), b.len());
    let m = max_len(a.len() + 1, b.len());
    assert(pad_zeros(a.push(0u64), m) =~= pad_zeros(a, m));
    lemma_pad_any(b, a, n, m);
    lemma_pad_any(a, b, n, m);
}


/// A tag is not newer than itself: the comparison of a tag with itself is
/// `Ok(false)`, or the tag's error.
pub proof fn law_tag_not_newer_than_itself(a: Seq<char>)
    ensures
        spec_is_newer_version(a, a) == match spec_parse_version_tag(a) {
            Ok(_) => Ok::<bool, VersionError>(false),
            Err(e) => Err(e),
        },
{
    if let Ok(v) = spec_parse_version_tag(a) {
        law_version_newer_irreflexive(v);
    }
}

/// Of two tags, at most one is newer than the other.
pub proof fn law_tag_newer_asymmetric(a: Seq<char>, b: Seq<char>)
    ensures
        spec_is_newer_version(a, b) == Ok::<bool, VersionError>(true) ==> spec_is_newer_version(
            b,
            a,
        ) == Ok::<bool, VersionError>(false),
{
    if let (Ok(x), Ok(y)) = (spec_parse_version_tag(a), spec_parse_version_tag(b)) {
        law_version_newer_asymmetric(x, y);
    }
}

/// A tag made of digits and dots reads as its parts split at the dots.
proof fn lemma_plain_tag(a: Seq<char>)
    requires
        a.len() > 0,
        forall|i: int| 0 <= i < a.len() ==> is_version_char(#[trigger] a[i]),
    ensures
        spec_parse_version_tag(a) == parse_parts(split_char(a, '.')),
{
    assert(is_version_char(a[0]));
    assert(is_version_char(a[a.len() - 1]));
    lemma_trim_fixed(a);
    assert(strip_v_prefix(a) == a);
    lemma_version_prefix_all(a);
}

/// Trailing zeros do not count in tags either: a tag of digits and dots
/// compares as the same tag with `.0` appended.
pub proof fn law_tag_trailing_zero(a: Seq<char>, b: Seq<char>)
    requires
        a.len() > 0,
        forall|i: int| 0 <= i < a.len() ==> is_version_char(#[trigger] a[i]),
    ensures
        spec_is_newer_version(a + seq!['.', '0'], b) == spec_is_newer_version(a, b),
        spec_is_newer_version(b, a + seq!['.', '0']) == spec_is_newer_version(b, a),
{
    let a2 = a + seq!['.', '0'];
    assert forall|i: int| 0 <= i < a2.len() implies is_version_char(#[trigger] a2[i]) by {
        if i < a.len() {
            assert(a2[i] == a[i]);
        }
    }
    lemma_plain_tag(a);
    lemma_plain_tag(a2);
    assert(a2.drop_last() =~= a.push('.'));
    assert(a.push('.').drop_last() =~= a);
    let parts = split_char(a, '.');
    lemma_split_char_len(a, '.');
    assert(split_char(a.push('.'), '.') == parts.push(seq![]));
    let q = parts.push(seq![]);
    assert(q.update(q.len() - 1, q.last().push('0')) =~= parts.push(seq!['0']));
    assert(split_char(a2, '.') == parts.push(seq!['0']));
    let z = seq!['0'];
    assert(z.drop_last() =~= Seq::<char>::empty());
    assert(z.last() == '0');
    assert(digits_value(z.drop_last()) == 0);
    assert(digits_value(z) == 0);
    assert(parts.push(z).drop_last() =~= parts);
    match parse_parts(parts) {
        Ok(v) => {
            assert(parse_parts(parts.push(z)) == Ok::<Seq<u64>, VersionError>(v.push(0u64)));
            law_version_trailing_zero(v, v);
            if let Ok(w) = spec_parse_version_tag(b) {
                law_version_trailing_zero(v, w);
            }
        },
        Err(e) => {
            assert(parse_parts(parts.push(z)) == Err::<Seq<u64>, VersionError>(e));
        },
    }
}

/// The platform an update is for.
#[derive(Debug, Clone, Copy, PartialEq, Eq, Structural)]
pub enum Platform {
    Windows,
    MacOs,
    Other,
}

/// A lower-cased asset name of a Windows installer of Codex Manager.
pub open spec fn is_windows_installer_asset(name: Seq<char>) -> bool {
    &&& contains(name, "codex"@)
    &&& contains(name, "manager"@)
    &&& {
        ||| ends_with(name, ".msi"@)
        ||| ends_with(name, "-setup.exe"@)
        ||| ends_with(name, "_setup.exe"@)
        ||| ends_with(name, "setup.exe"@)
        ||| ends_with(name, "installer.exe"@)
    }
}

/// A lower-cased asset name of a macOS disk image of Codex Manager.
pub open spec fn is_macos_installer_asset(name: Seq<char>) -> bool {
    contains(name, "codex"@) && contains(name, "manager"@) && ends_with(name, ".dmg"@)
}

/// 0 for the installer of the platform, 2 for anything else.
pub open spec fn spec_platform_asset_rank(platform: Platform, name: Seq<char>) -> u8 {
    if platform == Platform::Windows && is_windows_installer_asset(name) {
        0
    } else if platform == Platform::MacOs && is_macos_installer_asset(name) {
        0
    } else {
        2
    }
}

/// An asset with a name and a URL that are not blank.
pub open spec fn is_named_asset(a: (Seq<char>, Seq<char>)) -> bool {
    trim(a.0).len() > 0 && trim(a.1).len() > 0
}

/// A named asset that installs on the platform.
pub open spec fn is_platform_asset(platform: Platform, a: (Seq<char>, Seq<char>)) -> bool {
    is_named_asset(a) && spec_platform_asset_rank(platform, lower_seq(a.0)) == 0
}

/// The asset to offer: the first named installer for the platform, else the
/// first named asset.
pub open spec fn spec_select_update_asset(assets: Seq<(Seq<char>, Seq<char>)>, platform: Platform) -> Option<
    (Seq<char>, Seq<char>),
> {
    let i = first_where(assets, |a: (Seq<char>, Seq<char>)| is_platform_asset(platform, a));
    let j = first_where(assets, |a: (Seq<char>, Seq<char>)| is_named_asset(a));
    if i < assets.len() {
        Some(assets[i])
    } else if j < assets.len() {
        Some(assets[j])
    } else {
        None
    }
}

/// On Windows an update never offers something else when an MSI of Codex
/// Manager is listed: when asset `i` has a name and a URL, and its
/// lower-cased name holds `codex` and `manager` and ends in `.msi`, the
/// asset chosen is `i` or an earlier one whose lower-cased name holds
/// `codex` and `manager` and ends in `.msi` or `.exe`.
pub proof fn law_windows_update_is_installer(assets: Seq<(Seq<char>, Seq<char>)>, i: int)
    requires
        0 <= i < assets.len(),
        trim(assets[i].0).len() > 0,
        trim(assets[i].1).len() > 0,
        contains(lower_seq(assets[i].0), "codex"@),
        contains(lower_seq(assets[i].0), "manager"@),
        ends_with(lower_seq(assets[i].0), ".msi"@),
    ensures
        exists|k: int|
            0 <= k <= i && spec_select_update_asset(assets, Platform::Windows) == Some(
                #[trigger] assets[k],
            ) && contains(lower_seq(assets[k].0), "codex"@) && contains(
                lower_seq(assets[k].0),
                "manager"@,
            ) && (ends_with(lower_seq(assets[k].0), ".msi"@) || ends_with(
                lower_seq(assets[k].0),
                ".exe"@,
            )),
{
    let pa = |a: (Seq<char>, Seq<char>)| is_platform_asset(Platform::Windows, a);
    assert(pa(assets[i]));
    lemma_first_where_is_first(assets, pa);
    let f = first_where(assets, pa);
    assert(f <= i);
    assert(pa(assets[f]));
    let n = lower_seq(assets[f].0);
    assert(is_windows_installer_asset(n));
    reveal_strlit(".exe");
    reveal_strlit("-setup.exe");
    reveal_strlit("_setup.exe");
    reveal_strlit("setup.exe");
    reveal_strlit("installer.exe");
    if ends_with(n, "-setup.exe"@) {
        assert("-setup.exe"@.skip(6) =~= ".exe"@);
        lemma_ends_with_trans(n, "-setup.exe"@, ".exe"@);
    } else if ends_with(n, "_setup.exe"@) {
        assert("_setup.exe"@.skip(6) =~= ".exe"@);
        lemma_ends_with_trans(n, "_setup.exe"@, ".exe"@);
    } else if ends_with(n, "setup.exe"@) {
        assert("setup.exe"@.skip(5) =~= ".exe"@);
        lemma_ends_with_trans(n, "setup.exe"@, ".exe"@);
    } else if ends_with(n, "installer.exe"@) {
        assert("installer.exe"@.skip(9) =~= ".exe"@);
        lemma_ends_with_trans(n, "installer.exe"@, ".exe"@);
    }
    assert(spec_select_update_asset(assets, Platform::Windows) == Some(assets[f]));
}

/// On macOS an update never offers something else when a disk image of
/// Codex Manager is listed: when asset `i` has a name and a URL, and its
/// lower-cased name holds `codex` and `manager` and ends in `.dmg`, the asset
/// chosen is `i` or an earlier such one.
pub proof fn law_macos_update_is_dmg(assets: Seq<(Seq<char>, Seq<char>)>, i: int)
    requires
        0 <= i < assets.len(),
        trim(assets[i].0).len() > 0,
        trim(assets[i].1).len() > 0,
        contains(lower_seq(assets[i].0), "codex"@),
        contains(lower_seq(assets[i].0), "manager"@),
        ends_with(lower_seq(assets[i].0), ".dmg"@),
    ensures
        exists|k: int|
            0 <= k <= i && spec_select_update_asset(assets, Platform::MacOs) == Some(
                #[trigger] assets[k],
            ) && contains(lower_seq(assets[k].0), "codex"@) && contains(
                lower_seq(assets[k].0),
                "manager"@,
            ) && ends_with(lower_seq(assets[k].0), ".dmg"@),
{
    let pa = |a: (Seq<char>, Seq<char>)| is_platform_asset(Platform::MacOs, a);
    assert(pa(assets[i]));
    lemma_first_where_is_first(assets, pa);
    let f = first_where(assets, pa);
    assert(pa(assets[f]));
    assert(spec_select_update_asset(assets, Platform::MacOs) == Some(assets[f]));
}

/// Without an installer for the platform, the first asset with a name and a
/// URL is offered; with none at all, nothing is.
pub proof fn law_update_falls_back_to_first_named(
    assets: Seq<(Seq<char>, Seq<char>)>,
    platform: Platform,
)
    requires
        forall|k: int| 0 <= k < assets.len() ==> !is_platform_asset(platform, #[trigger] assets[k]),
    ensures
        forall|j: int|
            0 <= j < assets.len() && trim(assets[j].0).len() > 0 && trim(assets[j].1).len() > 0
                && (forall|m: int| 0 <= m < j ==> !(trim((#[trigger] assets[m]).0).len() > 0 && trim(
                assets[m].1,
            ).len() > 0)) ==> spec_select_update_asset(assets, platform) == Some(
                #[trigger] assets[j],
            ),
        (forall|m: int|
            0 <= m < assets.len() ==> !(trim((#[trigger] assets[m]).0).len() > 0 && trim(
                assets[m].1,
            ).len() > 0)) ==> spec_select_update_asset(assets, platform) is None,
{
    let pa = |a: (Seq<char>, Seq<char>)| is_platform_asset(platform, a);
    let na = |a: (Seq<char>, Seq<char>)| is_named_asset(a);
    lemma_first_where_is_first(assets, pa);
    lemma_first_where_is_first(assets, na);
    let f = first_where(assets, pa);
    if f < assets.len() {
        assert(pa(assets[f]));
    }
    let g = first_where(assets, na);
    assert forall|j: int|
        0 <= j < assets.len() && trim(assets[j].0).len() > 0 && trim(assets[j].1).len() > 0
            && (forall|m: int| 0 <= m < j ==> !(trim((#[trigger] assets[m]).0).len() > 0 && trim(
            assets[m].1,
        ).len() > 0)) implies spec_select_update_asset(assets, platform) == Some(
        #[trigger] assets[j],
    ) by {
        assert(na(assets[j]));
        if g < j {
            assert(na(assets[g]));
        }
        if j < g {
            assert(!na(assets[j]));
        }
    }
    if forall|m: int|
        0 <= m < assets.len() ==> !(trim((#[trigger] assets[m]).0).len() > 0 && trim(
            assets[m].1,
        ).len() > 0) {
        if g < assets.len() {
            assert(na(assets[g]));
        }
    }
}

/// The views of name and URL pairs.
pub open spec fn pairs_view(v: Seq<(String, String)>) -> Seq<(Seq<char>, Seq<char>)> {
    v.map_values(|a: (String, String)| (a.0@, a.1@))
}

/// Whether the lower-cased `name` is a Windows installer of Codex Manager.
fn windows_installer_asset(name: &[char]) -> (r: bool)
    ensures
        r == is_windows_installer_asset(name@),
{
    has_infix(name, chars_of("codex").as_slice()) && has_infix(name, chars_of("manager").as_slice())
        && (has_suffix(name, chars_of(".msi").as_slice()) || has_suffix(
        name,
        chars_of("-setup.exe").as_slice(),
    ) || has_suffix(name, chars_of("_setup.exe").as_slice()) || has_suffix(
        name,
        chars_of("setup.exe").as_slice(),
    ) || has_suffix(name, chars_of("installer.exe").as_slice()))
}

/// Whether the lower-cased `name` is a macOS disk image of Codex Manager.
fn macos_installer_asset(name: &[char]) -> (r: bool)
    ensures
        r == is_macos_installer_asset(name@),
{
    has_infix(name, chars_of("codex").as_slice()) && has_infix(name, chars_of("manager").as_slice())
        && has_suffix(name, chars_of(".dmg").as_slice())
}

/// 0 when the lower-cased `name` is the platform's installer, else 2.
pub fn platform_asset_rank(platform: Platform, name: &[char]) -> (r: u8)
    ensures
        r == spec_platform_asset_rank(platform, name@),
{
    if platform == Platform::Windows && windows_installer_asset(name) {
        return 0;
    }
    if platform == Platform::MacOs && macos_installer_asset(name) {
        return 0;
    }
    2
}

/// Whether the asset has a name and a URL that are not blank.
fn named_asset(a: &(String, String)) -> (r: bool)
    ensures
        r == is_named_asset((a.0@, a.1@)),
{
    trim_str(a.0.as_str()).len() > 0 && trim_str(a.1.as_str()).len() > 0
}

/// The asset to download: the first named installer for `platform`, else the
/// first named asset; `None` when no asset has both a name and a URL.
pub fn select_update_asset(assets: &[(String, String)], platform: Platform) -> (r: Option<
    (String, String),
>)
    ensures
        match r {
            Some(a) => spec_select_update_asset(pairs_view(assets@), platform) == Some(
                (a.0@, a.1@),
            ),
            None => spec_select_update_asset(pairs_view(assets@), platform) is None,
        },
{
    let ghost av = pairs_view(assets@);
    let ghost plat = |a: (Seq<char>, Seq<char>)| is_platform_asset(platform, a);
    let ghost named = |a: (Seq<char>, Seq<char>)| is_named_asset(a);
    let mut first_named: Option<usize> = None;
    let mut i: usize = 0;
    while i < assets.len()
        invariant
            i <= assets@.len(),
            av == pairs_view(assets@),
            plat == (|a: (Seq<char>, Seq<char>)| is_platform_asset(platform, a)),
            named == (|a: (Seq<char>, Seq<char>)| is_named_asset(a)),
            forall|k: int| 0 <= k < i ==> !plat(#[trigger] av[k]),
            match first_named {
                Some(j) => j < i && is_first(av, named, j as int),
                None => forall|k: int| 0 <= k < i ==> !named(#[trigger] av[k]),
            },
        decreases assets@.len() - i,
    {
        assert(av[i as int] == (assets@[i as int].0@, assets@[i as int].1@));
        if named_asset(&assets[i]) {
            let lower = to_ascii_lower(chars_of(assets[i].0.as_str()).as_slice());
            if platform_asset_rank(platform, lower.as_slice()) == 0 {
                proof {
                    lemma_first_where(av, plat, i as int);
                }
                return Some((assets[i].0.clone(), assets[i].1.clone()));
            }
            if first_named.is_none() {
                first_named = Some(i);
            }
        }
        i = i + 1;
    }
    proof {
        lemma_first_where(av, plat, av.len() as int);
    }
    match first_named {
        Some(j) => {
            proof {
                lemma_first_where(av, named, j as int);
            }
            assert(av[j as int] == (assets@[j as int].0@, assets@[j as int].1@));
            Some((assets[j].0.clone(), assets[j].1.clone()))
        },
        None => {
            proof {
                lemma_first_where(av, named, av.len() as int);
            }
            None
        },
    }
}


/// A release as the update source describes it.
#[derive(Debug)]
pub struct Release {
    pub version: String,
    pub url: String,
    pub body: String,
    pub asset_name: Option<String>,
    pub asset_url: Option<String>,
}

/// The mathematical value of a [`Release`]; `asset` pairs the asset's name
/// and URL, which are both there or both missing.
pub struct ReleaseView {
    pub version: Seq<char>,
    pub url: Seq<char>,
    pub body: Seq<char>,
    pub asset: Option<(Seq<char>, Seq<char>)>,
}

impl View for Release {
    type V = ReleaseView;

    open spec fn view(&self) -> ReleaseView {
        ReleaseView {
            version: self.version@,
            url: self.url@,
            body: self.body@,
            asset: match (self.asset_name, self.asset_url) {
                (Some(n), Some(u)) => Some((n@, u@)),
                _ => None,
            },
        }
    }
}

impl Release {
    /// The asset's name and URL are both there or both missing.
    pub open spec fn asset_paired(&self) -> bool {
        self.asset_name is None <==> self.asset_url is None
    }
}

impl Default for Release {
    fn default() -> (r: Self)
        ensures
            r.version@.len() == 0,
            r.url@.len() == 0,
            r.body@.len() == 0,
            r.asset_name is None,
            r.asset_url is None,
    {
        Release {
            version: String::new(),
            url: String::new(),
            body: String::new(),
            asset_name: None,
            asset_url: None,
        }
    }
}

/// Why a release payload cannot be read.
#[derive(Debug, PartialEq, Eq)]
pub enum ReleaseError {
    /// `latest.json` has neither a `version` nor a `tag_name` string.
    MissingVersion,
    /// The GitHub release has no `tag_name` string.
    MissingTagName,
}

impl ReleaseError {
    /// The message shown for this error.
    pub fn message(&self) -> (r: String)
        ensures
            r@ == match self {
                ReleaseError::MissingVersion => "latest.json missing version"@,
                ReleaseError::MissingTagName => "release payload missing tag_name"@,
            },
    {
        match self {
            ReleaseError::MissingVersion => String::from_str("latest.json missing version"),
            ReleaseError::MissingTagName => String::from_str("release payload missing tag_name"),
        }
    }
}

/// The name and URL of an asset of `latest.json`: `name`, and `url` or else
/// `browser_download_url`, both strings.
pub open spec fn latest_json_asset(a: JsonValue) -> Option<(Seq<char>, Seq<char>)> {
    match (
        json_str(json_get(a, "name"@)),
        json_str(or_else(json_get(a, "url"@), json_get(a, "browser_download_url"@))),
    ) {
        (Some(n), Some(u)) => Some((n, u)),
        _ => None,
    }
}

/// The name and URL of an asset of a GitHub release: `name` and
/// `browser_download_url`, both strings.
pub open spec fn github_asset(a: JsonValue) -> Option<(Seq<char>, Seq<char>)> {
    match (json_str(json_get(a, "name"@)), json_str(json_get(a, "browser_download_url"@))) {
        (Some(n), Some(u)) => Some((n, u)),
        _ => None,
    }
}

/// The assets that `read` can read, in order.
pub open spec fn readable_assets(
    items: Seq<JsonValue>,
    read: spec_fn(JsonValue) -> Option<(Seq<char>, Seq<char>)>,
) -> Seq<(Seq<char>, Seq<char>)>
    decreases items.len(),
{
    if items.len() == 0 {
        seq![]
    } else {
        let rest = readable_assets(items.drop_last(), read);
        match read(items.last()) {
            Some(a) => rest.push(a),
            None => rest,
        }
    }
}

/// The readable assets of the payload's `assets` array (none when it has
/// none).
pub open spec fn payload_assets(
    payload: JsonValue,
    read: spec_fn(JsonValue) -> Option<(Seq<char>, Seq<char>)>,
) -> Seq<(Seq<char>, Seq<char>)> {
    match json_array(json_get(payload, "assets"@)) {
        Some(items) => readable_assets(items, read),
        None => seq![],
    }
}

/// A string or the empty string.
pub open spec fn or_empty(s: Option<Seq<char>>) -> Seq<char> {
    match s {
        Some(x) => x,
        None => seq![],
    }
}

/// The release that a `latest.json` payload describes, for `platform`.
pub open spec fn spec_release_from_latest_json(payload: JsonValue, platform: Platform) -> Result<
    ReleaseView,
    ReleaseError,
> {
    match latest_json_version(payload) {
        None => Err(ReleaseError::MissingVersion),
        Some(version) => Ok(
            ReleaseView {
                version,
                url: or_empty(
                    json_str(or_else(json_get(payload, "url"@), json_get(payload, "html_url"@))),
                ),
                body: or_empty(
                    json_str(
                        or_else(
                            json_get(payload, "body"@),
                            or_else(
                                json_get(payload, "release_summary"@),
                                json_get(payload, "notes"@),
                            ),
                        ),
                    ),
                ),
                asset: spec_select_update_asset(
                    payload_assets(payload, |a: JsonValue| latest_json_asset(a)),
                    platform,
                ),
            },
        ),
    }
}

/// The release that a GitHub release payload describes, for `platform`.
pub open spec fn spec_release_from_github(payload: JsonValue, platform: Platform) -> Result<
    ReleaseView,
    ReleaseError,
> {
    match json_str(json_get(payload, "tag_name"@)) {
        None => Err(ReleaseError::MissingTagName),
        Some(version) => Ok(
            ReleaseView {
                version,
                url: or_empty(json_str(json_get(payload, "html_url"@))),
                body: or_empty(json_str(json_get(payload, "body"@))),
                asset: spec_select_update_asset(
                    payload_assets(payload, |a: JsonValue| github_asset(a)),
                    platform,
                ),
            },
        ),
    }
}

/// `o` holds a string with view `s`.
pub open spec fn opt_string_is(o: Option<String>, s: Seq<char>) -> bool {
    match o {
        Some(x) => x@ == s,
        None => false,
    }
}

/// The version of `latest.json`: `version`, or `tag_name` when there is no
/// `version` member.
pub open spec fn latest_json_version(payload: JsonValue) -> Option<Seq<char>> {
    json_str(or_else(json_get(payload, "version"@), json_get(payload, "tag_name"@)))
}

/// Reads the assets that `latest.json` lists.
fn latest_json_assets(payload: &JsonValue) -> (r: Vec<(String, String)>)
    ensures
        pairs_view(r@) == payload_assets(*payload, |a: JsonValue| latest_json_asset(a)),
{
    let mut out: Vec<(String, String)> = Vec::new();
    match first_some(payload.get("assets"), None) {
        Some(v) => match v.as_array() {
            Some(items) => {
                let mut i: usize = 0;
                while i < items.len()
                    invariant
                        i <= items@.len(),
                        json_array(json_get(*payload, "assets"@)) == Some(items@),
                        pairs_view(out@) == readable_assets(
                            items@.take(i as int),
                            |a: JsonValue| latest_json_asset(a),
                        ),
                    decreases items@.len() - i,
                {
                    let ghost pre = items@.take(i + 1);
                    assert(pre.drop_last() =~= items@.take(i as int));
                    assert(pre.last() == items@[i as int]);
                    let a = &items[i];
                    let name = opt_str(a.get("name"));
                    let url = opt_str(first_some(a.get("url"), a.get("browser_download_url")));
                    match (name, url) {
                        (Some(n), Some(u)) => {
                            let ghost before = pairs_view(out@);
                            out.push((n.clone(), u.clone()));
                            assert(pairs_view(out@) =~= before.push((n@, u@)));
                        },
                        _ => {},
                    }
                    i = i + 1;
                }
                assert(items@.take(items@.len() as int) =~= items@);
            },
            None => {},
        },
        None => {},
    }
    out
}

/// Reads the assets that a GitHub release lists.
fn github_assets(payload: &JsonValue) -> (r: Vec<(String, String)>)
    ensures
        pairs_view(r@) == payload_assets(*payload, |a: JsonValue| github_asset(a)),
{
    let mut out: Vec<(String, String)> = Vec::new();
    match first_some(payload.get("assets"), None) {
        Some(v) => match v.as_array() {
            Some(items) => {
                let mut i: usize = 0;
                while i < items.len()
                    invariant
                        i <= items@.len(),
                        json_array(json_get(*payload, "assets"@)) == Some(items@),
                        pairs_view(out@) == readable_assets(
                            items@.take(i as int),
                            |a: JsonValue| github_asset(a),
                        ),
                    decreases items@.len() - i,
                {
                    let ghost pre = items@.take(i + 1);
                    assert(pre.drop_last() =~= items@.take(i as int));
                    assert(pre.last() == items@[i as int]);
                    let a = &items[i];
                    let name = opt_str(a.get("name"));
                    let url = opt_str(a.get("browser_download_url"));
                    match (name, url) {
                        (Some(n), Some(u)) => {
                            let ghost before = pairs_view(out@);
                            out.push((n.clone(), u.clone()));
                            assert(pairs_view(out@) =~= before.push((n@, u@)));
                        },
                        _ => {},
                    }
                    i = i + 1;
                }
                assert(items@.take(items@.len() as int) =~= items@);
            },
            None => {},
        },
        None => {},
    }
    out
}

/// A string copied out of an optional reference, or the empty string.
fn string_or_empty(s: Option<&String>) -> (r: String)
    ensures
        r@ == match s {
            Some(x) => x@,
            None => seq![],
        },
{
    match s {
        Some(x) => x.clone(),
        None => String::new(),
    }
}

/// The release that a `latest.json` payload describes: its version
/// (`version`, else `tag_name`), page (`url`, else `html_url`), notes
/// (`body`, else `release_summary`, else `notes`) and the asset chosen for
/// `platform`.  Without a version the payload is refused.
pub fn release_from_latest_json_payload(payload: &JsonValue, platform: Platform) -> (r: Result<
    Release,
    ReleaseError,
>)
    ensures
        match (r, spec_release_from_latest_json(*payload, platform)) {
            (Ok(x), Ok(y)) => x@ == y && x.asset_paired(),
            (Err(e), Err(f)) => e == f,
            _ => false,
        },
{
    let version = match opt_str(first_some(payload.get("version"), payload.get("tag_name"))) {
        Some(v) => v.clone(),
        None => return Err(ReleaseError::MissingVersion),
    };
    let assets = latest_json_assets(payload);
    let selected = select_update_asset(assets.as_slice(), platform);
    let url = string_or_empty(opt_str(first_some(payload.get("url"), payload.get("html_url"))));
    let body = string_or_empty(
        opt_str(
            first_some(
                payload.get("body"),
                first_some(payload.get("release_summary"), payload.get("notes")),
            ),
        ),
    );
    let (asset_name, asset_url) = match selected {
        Some((n, u)) => (Some(n), Some(u)),
        None => (None, None),
    };
    Ok(Release { version, url, body, asset_name, asset_url })
}

/// The release that a GitHub release payload describes: `tag_name`,
/// `html_url`, `body` and the asset chosen for `platform`.  Without a tag the
/// payload is refused.
pub fn release_from_github_payload(payload: &JsonValue, platform: Platform) -> (r: Result<
    Release,
    ReleaseError,
>)
    ensures
        match (r, spec_release_from_github(*payload, platform)) {
            (Ok(x), Ok(y)) => x@ == y && x.asset_paired(),
            (Err(e), Err(f)) => e == f,
            _ => false,
        },
{
    let version = match opt_str(payload.get("tag_name")) {
        Some(v) => v.clone(),
        None => return Err(ReleaseError::MissingTagName),
    };
    let assets = github_assets(payload);
    let selected = select_update_asset(assets.as_slice(), platform);
    let url = string_or_empty(opt_str(payload.get("html_url")));
    let body = string_or_empty(opt_str(payload.get("body")));
    let (asset_name, asset_url) = match selected {
        Some((n, u)) => (Some(n), Some(u)),
        None => (None, None),
    };
    Ok(Release { version, url, body, asset_name, asset_url })
}


pub const DEFAULT_REPOSITORY: &'static str = "mocheng998/codex-manager";

pub const DEFAULT_LATEST_JSON_URL: &'static str =
    "https://github.com/mocheng998/codex-manager/releases/latest/download/latest.json";

pub const DEFAULT_GITHUB_RELEASE_URL: &'static str =
    "https://api.github.com/repos/mocheng998/codex-manager/releases/latest";

/// The answer to an update check.
#[derive(Debug)]
pub struct UpdateCheck {
    pub current_version: String,
    pub latest_version: Option<String>,
    pub release_summary: String,
    pub asset_name: Option<String>,
    pub asset_url: Option<String>,
    pub update_available: bool,
}

impl Default for UpdateCheck {
    fn default() -> (r: Self)
        ensures
            r.current_version@.len() == 0,
            r.latest_version is None,
            r.release_summary@.len() == 0,
            r.asset_name is None,
            r.asset_url is None,
            !r.update_available,
    {
        UpdateCheck {
            current_version: String::new(),
            latest_version: None,
            release_summary: String::new(),
            asset_name: None,
            asset_url: None,
            update_available: false,
        }
    }
}

/// The check's answer for `release`: its version, notes and asset, and
/// whether its version is newer than `current_version`.
pub open spec fn check_matches(c: UpdateCheck, current_version: Seq<char>, release: ReleaseView, available: bool) -> bool {
    &&& c.current_version@ == current_version
    &&& opt_string_is(c.latest_version, release.version)
    &&& c.release_summary@ == release.body
    &&& match release.asset {
        Some(a) => opt_string_is(c.asset_name, a.0) && opt_string_is(c.asset_url, a.1),
        None => c.asset_name is None && c.asset_url is None,
    }
    &&& c.update_available == available
}

/// The answer for `release`: an update is available when its version is newer
/// than `current_version`.  A version that cannot be read is an error.
pub fn update_check_from_release(current_version: &str, release: Release) -> (r: Result<
    UpdateCheck,
    VersionError,
>)
    ensures
        match (r, spec_is_newer_version(release@.version, current_version@)) {
            (Ok(c), Ok(b)) => check_matches(c, current_version@, release@, b),
            (Err(e), Err(f)) => e == f,
            _ => false,
        },
{
    let update_available = match is_newer_version(release.version.as_str(), current_version) {
        Ok(b) => b,
        Err(e) => return Err(e),
    };
    let ghost rv = release@;
    let (asset_name, asset_url) = match (release.asset_name, release.asset_url) {
        (Some(n), Some(u)) => (Some(n), Some(u)),
        _ => (None, None),
    };
    Ok(
        UpdateCheck {
            current_version: String::from_str(current_version),
            latest_version: Some(release.version),
            release_summary: release.body,
            asset_name,
            asset_url,
            update_available,
        },
    )
}

/// Where the release is read from.
#[derive(Debug)]
pub enum UpdateSource {
    /// A `latest.json` at a URL the user configured.
    Manifest(String),
    /// The project's `latest.json`.
    LatestJson,
    /// The project's latest GitHub release.
    GithubRelease,
}

/// Why a release could not be read from a source.
#[derive(Debug)]
pub enum FetchFailure {
    /// The request failed; the message says why.
    Request(String),
    /// The payload describes no release.
    Release(ReleaseError),
}

impl FetchFailure {
    /// The message of the failure.
    pub fn message(&self) -> (r: String)
        ensures
            r@ == spec_fetch_failure_message(*self),
    {
        match self {
            FetchFailure::Request(m) => m.clone(),
            FetchFailure::Release(e) => e.message(),
        }
    }
}

/// The message of a fetch failure.
pub open spec fn spec_fetch_failure_message(f: FetchFailure) -> Seq<char> {
    match f {
        FetchFailure::Request(m) => m@,
        FetchFailure::Release(ReleaseError::MissingVersion) => "latest.json missing version"@,
        FetchFailure::Release(ReleaseError::MissingTagName) => "release payload missing tag_name"@,
    }
}

/// Why an update check failed.
#[derive(Debug)]
pub enum UpdateError {
    /// The configured manifest could not be read.
    Fetch(FetchFailure),
    /// Neither the project's `latest.json` nor its GitHub release could be
    /// read; the message names both failures.
    BothSources(String),
    /// A version could not be read.
    Version(VersionError),
}

/// An update check under way: the version running, the source to read next,
/// and the failure of `latest.json` once the GitHub release is tried.
#[derive(Debug)]
pub struct UpdateFlow {
    pub current_version: String,
    pub source: UpdateSource,
    pub latest_json_error: String,
}

/// What to do next in an update check.
#[derive(Debug)]
pub enum UpdateStep {
    /// Fetch the JSON at the flow's source and pass it to `next_update_step`.
    Fetch(UpdateFlow),
    /// The check is over.
    Done(Result<UpdateCheck, UpdateError>),
}

/// Starts an update check of `current_version`: from the configured manifest
/// when its URL is not blank, else from the project's `latest.json`.
pub fn check_for_update_with_url(current_version: &str, update_manifest_url: &str) -> (r: UpdateFlow)
    ensures
        r.current_version@ == current_version@,
        r.latest_json_error@.len() == 0,
        trim(update_manifest_url@).len() > 0 ==> (r.source matches UpdateSource::Manifest(u) && u@
            == trim(update_manifest_url@)),
        trim(update_manifest_url@).len() == 0 ==> r.source is LatestJson,
{
    let custom = trim_str(update_manifest_url);
    let source = if custom.len() > 0 {
        UpdateSource::Manifest(string_of(custom.as_slice()))
    } else {
        UpdateSource::LatestJson
    };
    UpdateFlow {
        current_version: String::from_str(current_version),
        source,
        latest_json_error: String::new(),
    }
}

/// Starts an update check of `current_version` from the project's release
/// feeds.
pub fn check_for_update(current_version: &str) -> (r: UpdateFlow)
    ensures
        r.current_version@ == current_version@,
        r.latest_json_error@.len() == 0,
        r.source is LatestJson,
{
    proof {
        reveal_strlit("");
    }
    check_for_update_with_url(current_version, "")
}

impl UpdateFlow {
    /// The URL to fetch next.
    pub fn url(&self) -> (r: String)
        ensures
            r@ == match self.source {
                UpdateSource::Manifest(u) => u@,
                UpdateSource::LatestJson => DEFAULT_LATEST_JSON_URL@,
                UpdateSource::GithubRelease => DEFAULT_GITHUB_RELEASE_URL@,
            },
    {
        match &self.source {
            UpdateSource::Manifest(u) => u.clone(),
            UpdateSource::LatestJson => String::from_str(DEFAULT_LATEST_JSON_URL),
            UpdateSource::GithubRelease => String::from_str(DEFAULT_GITHUB_RELEASE_URL),
        }
    }

    /// Whether the next source is the GitHub API, which wants its own media
    /// type and payload.
    pub fn wants_github_payload(&self) -> (r: bool)
        ensures
            r == self.source is GithubRelease,
    {
        match &self.source {
            UpdateSource::GithubRelease => true,
            _ => false,
        }
    }
}

/// The combined message when both release feeds fail.
pub open spec fn both_sources_message(latest: Seq<char>, github: Seq<char>) -> Seq<char> {
    "latest.json: "@ + latest + "; GitHub API: "@ + github
}

/// The release a fetched payload gives at a source, or why it gives none.
pub open spec fn fetched_release(
    source: UpdateSource,
    fetched: Result<JsonValue, String>,
    platform: Platform,
) -> Result<ReleaseView, FetchFailure> {
    match fetched {
        Err(m) => Err(FetchFailure::Request(m)),
        Ok(p) => match source {
            UpdateSource::GithubRelease => match spec_release_from_github(p, platform) {
                Ok(r) => Ok(r),
                Err(e) => Err(FetchFailure::Release(e)),
            },
            _ => match spec_release_from_latest_json(p, platform) {
                Ok(r) => Ok(r),
                Err(e) => Err(FetchFailure::Release(e)),
            },
        },
    }
}

/// Reads the release out of what was fetched at the flow's source.
fn read_release(source: &UpdateSource, fetched: Result<JsonValue, String>, platform: Platform) -> (r: Result<
    Release,
    FetchFailure,
>)
    ensures
        match (r, fetched_release(*source, fetched, platform)) {
            (Ok(x), Ok(y)) => x@ == y,
            (Err(e), Err(f)) => e == f,
            _ => false,
        },
{
    match fetched {
        Err(m) => Err(FetchFailure::Request(m)),
        Ok(p) => {
            let parsed = match source {
                UpdateSource::GithubRelease => release_from_github_payload(&p, platform),
                _ => release_from_latest_json_payload(&p, platform),
            };
            match parsed {
                Ok(r) => Ok(r),
                Err(e) => Err(FetchFailure::Release(e)),
            }
        },
    }
}

/// Takes the JSON fetched at the flow's source (or the request's failure)
/// and decides the next step: a release read from `latest.json` or the
/// manifest ends the check; a failure of the project's `latest.json` moves on
/// to its GitHub release; any other failure ends the check with an error.
pub fn next_update_step(flow: UpdateFlow, fetched: Result<JsonValue, String>, platform: Platform) -> (r: UpdateStep)
    ensures
        match fetched_release(flow.source, fetched, platform) {
            Ok(rel) => r matches UpdateStep::Done(res) && match (
                res,
                spec_is_newer_version(rel.version, flow.current_version@),
            ) {
                (Ok(c), Ok(b)) => check_matches(c, flow.current_version@, rel, b),
                (Err(UpdateError::Version(e)), Err(f)) => e == f,
                _ => false,
            },
            Err(f) => match flow.source {
                UpdateSource::LatestJson => r matches UpdateStep::Fetch(next) && next.source is GithubRelease
                    && next.current_version == flow.current_version && next.latest_json_error@
                    == spec_fetch_failure_message(f),
                UpdateSource::GithubRelease => r matches UpdateStep::Done(Err(UpdateError::BothSources(m)))
                    && m@ == both_sources_message(flow.latest_json_error@, spec_fetch_failure_message(f)),
                UpdateSource::Manifest(_) => r matches UpdateStep::Done(Err(UpdateError::Fetch(g)))
                    && g == f,
            },
        },
{
    match read_release(&flow.source, fetched, platform) {
        Ok(rel) => match update_check_from_release(flow.current_version.as_str(), rel) {
            Ok(c) => UpdateStep::Done(Ok(c)),
            Err(e) => UpdateStep::Done(Err(UpdateError::Version(e))),
        },
        Err(f) => match flow.source {
            UpdateSource::LatestJson => {
                let msg = f.message();
                UpdateStep::Fetch(
                    UpdateFlow {
                        current_version: flow.current_version,
                        source: UpdateSource::GithubRelease,
                        latest_json_error: msg,
                    },
                )
            },
            UpdateSource::GithubRelease => {
                let mut m = String::from_str("latest.json: ");
                m.append(flow.latest_json_error.as_str());
                m.append("; GitHub API: ");
                m.append(f.message().as_str());
                UpdateStep::Done(Err(UpdateError::BothSources(m)))
            },
            UpdateSource::Manifest(_) => UpdateStep::Done(Err(UpdateError::Fetch(f))),
        },
    }
}

} // verus!
