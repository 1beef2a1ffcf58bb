//! Character classes and string helpers over `Seq<char>`, with executable
//! counterparts on `Vec<char>`, `&str` and `String`.

use vstd::prelude::*;

verus! {

/// Unicode `White_Space`, the class that `char::is_whitespace` and `str::trim` use.
pub open spec fn is_ws(c: char) -> bool {
    let u = c as u32;
    ||| 0x09 <= u <= 0x0d
    ||| u == 0x20
    ||| u == 0x85
    ||| u == 0xa0
    ||| u == 0x1680
    ||| 0x2000 <= u <= 0x200a
    ||| u == 0x2028
    ||| u == 0x2029
    ||| u == 0x202f
    ||| u == 0x205f
    ||| u == 0x3000
}

pub fn is_whitespace(c: char) -> (r: bool)
    ensures
        r == is_ws(c),
{
    let u = c as u32;
    (0x09 <= u && u <= 0x0d) || u == 0x20 || u == 0x85 || u == 0xa0 || u == 0x1680 || (0x2000
        <= u && u <= 0x200a) || u == 0x2028 || u == 0x2029 || u == 0x202f || u == 0x205f || u
        == 0x3000
}

/// Leading white space removed.
pub open spec fn trim_start(s: Seq<char>) -> Seq<char>
    decreases s.len(),
{
    if s.len() > 0 && is_ws(s[0]) {
        trim_start(s.drop_first())
    } else {
        s
    }
}

/// Trailing white space removed.
pub open spec fn trim_end(s: Seq<char>) -> Seq<char>
    decreases s.len(),
{
    if s.len() > 0 && is_ws(s.last()) {
        trim_end(s.drop_last())
    } else {
        s
    }
}

/// `str::trim`: white space removed at both ends.
pub open spec fn trim(s: Seq<char>) -> Seq<char> {
    trim_end(trim_start(s))
}

/// Appends one character to a `String`.
#[verifier::external_body]
fn push_char(s: &mut String, c: char)
    ensures
        final(s)@ == old(s)@.push(c),
{
    s.push(c);
}

/// The characters of a string slice, in order.
pub fn chars_of(s: &str) -> (r: Vec<char>)
    ensures
        r@ == s@,
{
    let n = s.unicode_len();
    let mut r: Vec<char> = Vec::new();
    let mut i: usize = 0;
    while i < n
        invariant
            n == s@.len(),
            i <= n,
            r@ == s@.take(i as int),
        decreases n - i,
    {
        let c = s.get_char(i);
        r.push(c);
        i = i + 1;
        assert(r@ =~= s@.take(i as int));
    }
    assert(r@ =~= s@);
    r
}

/// A `String` holding the given characters.
pub fn string_of(v: &[char]) -> (r: String)
    ensures
        r@ == v@,
{
    let mut r = String::new();
    let mut i: usize = 0;
    while i < v.len()
        invariant
            i <= v@.len(),
            r@ == v@.take(i as int),
        decreases v@.len() - i,
    {
        push_char(&mut r, v[i]);
        i = i + 1;
        assert(r@ =~= v@.take(i as int));
    }
    assert(r@ =~= v@);
    r
}


/// The characters `s[from..to]` as a new vector.
pub fn copy_range(s: &[char], from: usize, to: usize) -> (r: Vec<char>)
    requires
        from <= to <= s@.len(),
    ensures
        r@ == s@.subrange(from as int, to as int),
{
    let mut r: Vec<char> = Vec::new();
    let mut i = from;
    while i < to
        invariant
            from <= i <= to <= s@.len(),
            r@ == s@.subrange(from as int, i as int),
        decreases to - i,
    {
        r.push(s[i]);
        i = i + 1;
        assert(r@ =~= s@.subrange(from as int, i as int));
    }
    r
}

proof fn lemma_trim_start_step(s: Seq<char>, i: int)
    requires
        0 <= i < s.len(),
        is_ws(s[i]),
    ensures
        trim_start(s.skip(i)) == trim_start(s.skip(i + 1)),
{
    assert(s.skip(i).drop_first() =~= s.skip(i + 1));
}

proof fn lemma_trim_end_step(s: Seq<char>, j: int)
    requires
        0 < j <= s.len(),
        is_ws(s[j - 1]),
    ensures
        trim_end(s.take(j)) == trim_end(s.take(j - 1)),
{
    assert(s.take(j).drop_last() =~= s.take(j - 1));
}

/// Index of the first character that is not white space (or the length).
pub fn trim_start_index(s: &[char]) -> (i: usize)
    ensures
        i <= s@.len(),
        trim_start(s@) == s@.skip(i as int),
{
    let mut i: usize = 0;
    assert(s@.skip(0) =~= s@);
    while i < s.len() && is_whitespace(s[i])
        invariant
            i <= s@.len(),
            trim_start(s@) == trim_start(s@.skip(i as int)),
        decreases s@.len() - i,
    {
        proof {
            lemma_trim_start_step(s@, i as int);
        }
        i = i + 1;
    }
    i
}

/// `s.trim_start()`.
pub fn trim_start_chars(s: &[char]) -> (r: Vec<char>)
    ensures
        r@ == trim_start(s@),
{
    let i = trim_start_index(s);
    copy_range(s, i, s.len())
}

/// `s.trim_end()`.
pub fn trim_end_chars(s: &[char]) -> (r: Vec<char>)
    ensures
        r@ == trim_end(s@),
{
    let mut j: usize = s.len();
    assert(s@.take(s@.len() as int) =~= s@);
    while j > 0 && is_whitespace(s[j - 1])
        invariant
            j <= s@.len(),
            trim_end(s@) == trim_end(s@.take(j as int)),
        decreases j,
    {
        proof {
            lemma_trim_end_step(s@, j as int);
        }
        j = j - 1;
    }
    copy_range(s, 0, j)
}

/// `s.trim()`.
pub fn trim_chars(s: &[char]) -> (r: Vec<char>)
    ensures
        r@ == trim(s@),
{
    let t = trim_start_chars(s);
    trim_end_chars(t.as_slice())
}

/// `s.trim()` on a string slice.
pub fn trim_str(s: &str) -> (r: Vec<char>)
    ensures
        r@ == trim(s@),
{
    let v = chars_of(s);
    trim_chars(v.as_slice())
}

/// `s` begins with `p`.
pub open spec fn starts_with(s: Seq<char>, p: Seq<char>) -> bool {
    p.len() <= s.len() && s.take(p.len() as int) == p
}

/// `s` ends with `p`.
pub open spec fn ends_with(s: Seq<char>, p: Seq<char>) -> bool {
    p.len() <= s.len() && s.skip(s.len() - p.len()) == p
}

/// `p` occurs in `s` starting at index `i`.
pub open spec fn occurs_at(s: Seq<char>, p: Seq<char>, i: int) -> bool {
    0 <= i && i + p.len() <= s.len() && s.subrange(i, i + p.len()) == p
}

/// `s` contains `p` as a contiguous part.
pub open spec fn contains(s: Seq<char>, p: Seq<char>) -> bool {
    exists|i: int| occurs_at(s, p, i)
}

/// Whether `p` occurs in `s` at index `i`.
pub fn matches_at(s: &[char], p: &[char], i: usize) -> (r: bool)
    ensures
        r == occurs_at(s@, p@, i as int),
{
    if i > s.len() || p.len() > s.len() - i {
        return false;
    }
    let mut k: usize = 0;
    while k < p.len()
        invariant
            i + p@.len() <= s@.len(),
            s@.len() == s.len(),
            k <= p@.len(),
            forall|m: int| 0 <= m < k ==> s@[i + m] == p@[m],
        decreases p@.len() - k,
    {
        assert(i + k < s@.len());
        if s[i + k] != p[k] {
            assert(s@.subrange(i as int, i + p@.len())[k as int] != p@[k as int]);
            return false;
        }
        k = k + 1;
    }
    assert(s@.subrange(i as int, i + p@.len()) =~= p@);
    true
}

/// `s.starts_with(p)`.
pub fn has_prefix(s: &[char], p: &[char]) -> (r: bool)
    ensures
        r == starts_with(s@, p@),
{
    let r = matches_at(s, p, 0);
    proof {
        if p@.len() <= s@.len() {
            assert(s@.subrange(0, p@.len() as int) =~= s@.take(p@.len() as int));
        }
    }
    r
}

/// `s.ends_with(p)`.
pub fn has_suffix(s: &[char], p: &[char]) -> (r: bool)
    ensures
        r == ends_with(s@, p@),
{
    if p.len() > s.len() {
        return false;
    }
    let r = matches_at(s, p, s.len() - p.len());
    proof {
        assert(s@.subrange(s@.len() - p@.len(), s@.len() as int) =~= s@.skip(
            s@.len() - p@.len(),
        ));
    }
    r
}

/// The first index at or after `from` where `p` occurs in `s`.
pub open spec fn first_occurrence_from(s: Seq<char>, p: Seq<char>, from: int, i: int) -> bool {
    &&& from <= i
    &&& occurs_at(s, p, i)
    &&& forall|k: int| from <= k < i ==> !occurs_at(s, p, k)
}

/// `s[from..].find(p)`, as an index into `s`.
pub fn find_from(s: &[char], p: &[char], from: usize) -> (r: Option<usize>)
    requires
        from <= s@.len(),
    ensures
        match r {
            Some(i) => first_occurrence_from(s@, p@, from as int, i as int),
            None => forall|k: int| from <= k ==> !occurs_at(s@, p@, k),
        },
{
    let mut i = from;
    while i < s.len()
        invariant
            from <= i <= s@.len(),
            forall|k: int| from <= k < i ==> !occurs_at(s@, p@, k),
        decreases s@.len() - i,
    {
        if matches_at(s, p, i) {
            return Some(i);
        }
        i = i + 1;
    }
    if matches_at(s, p, i) {
        return Some(i);
    }
    None
}

/// `s.contains(p)`.
pub fn has_infix(s: &[char], p: &[char]) -> (r: bool)
    ensures
        r == contains(s@, p@),
{
    match find_from(s, p, 0) {
        Some(i) => true,
        None => {
            assert(forall|k: int| !occurs_at(s@, p@, k));
            false
        },
    }
}


/// `s.trim_end_matches(c)`: every trailing `c` removed.
pub open spec fn trim_end_char(s: Seq<char>, c: char) -> Seq<char>
    decreases s.len(),
{
    if s.len() > 0 && s.last() == c {
        trim_end_char(s.drop_last(), c)
    } else {
        s
    }
}

/// `s.trim_start_matches(c)`: every leading `c` removed.
pub open spec fn trim_start_char(s: Seq<char>, c: char) -> Seq<char>
    decreases s.len(),
{
    if s.len() > 0 && s[0] == c {
        trim_start_char(s.drop_first(), c)
    } else {
        s
    }
}

/// `s.trim_end_matches(c)`.
pub fn trim_end_char_chars(s: &[char], c: char) -> (r: Vec<char>)
    ensures
        r@ == trim_end_char(s@, c),
{
    let mut j: usize = s.len();
    assert(s@.take(s@.len() as int) =~= s@);
    while j > 0 && s[j - 1] == c
        invariant
            j <= s@.len(),
            trim_end_char(s@, c) == trim_end_char(s@.take(j as int), c),
        decreases j,
    {
        assert(s@.take(j as int).drop_last() =~= s@.take(j - 1));
        j = j - 1;
    }
    copy_range(s, 0, j)
}


/// Appends the characters of `t` to `out`.
pub fn push_all(out: &mut Vec<char>, t: &[char])
    ensures
        final(out)@ == old(out)@ + t@,
{
    let ghost start = out@;
    let mut i: usize = 0;
    while i < t.len()
        invariant
            i <= t@.len(),
            out@ == start + t@.take(i as int),
        decreases t@.len() - i,
    {
        out.push(t[i]);
        i = i + 1;
        assert(out@ =~= start + t@.take(i as int));
    }
    assert(t@.take(t@.len() as int) =~= t@);
}


/// `trim_start(s)` is a suffix of `s` that does not begin with white space.
pub proof fn lemma_trim_start_shape(s: Seq<char>)
    ensures
        trim_start(s).len() <= s.len(),
        trim_start(s) == s.skip(s.len() - trim_start(s).len()),
        trim_start(s).len() > 0 ==> !is_ws(trim_start(s)[0]),
    decreases s.len(),
{
    if s.len() > 0 && is_ws(s[0]) {
        lemma_trim_start_shape(s.drop_first());
        assert(s.drop_first().skip(s.drop_first().len() - trim_start(s).len()) =~= s.skip(
            s.len() - trim_start(s).len(),
        ));
    } else {
        assert(s.skip(0) =~= s);
    }
}

/// `trim_end(s)` is a prefix of `s` that does not end with white space.
pub proof fn lemma_trim_end_shape(s: Seq<char>)
    ensures
        trim_end(s).len() <= s.len(),
        trim_end(s) == s.take(trim_end(s).len() as int),
        trim_end(s).len() > 0 ==> !is_ws(trim_end(s).last()),
    decreases s.len(),
{
    if s.len() > 0 && is_ws(s.last()) {
        lemma_trim_end_shape(s.drop_last());
        assert(s.drop_last().take(trim_end(s).len() as int) =~= s.take(trim_end(s).len() as int));
    } else {
        assert(s.take(s.len() as int) =~= s);
    }
}

/// A sequence that neither begins nor ends with white space is its own trim.
pub proof fn lemma_trim_fixed(s: Seq<char>)
    requires
        s.len() > 0 ==> !is_ws(s[0]) && !is_ws(s.last()),
    ensures
        trim(s) == s,
        trim_start(s) == s,
        trim_end(s) == s,
{
}

/// `trim(s)` neither begins nor ends with white space.
pub proof fn lemma_trim_shape(s: Seq<char>)
    ensures
        trim(s).len() > 0 ==> !is_ws(trim(s)[0]) && !is_ws(trim(s).last()),
        trim(s).len() <= s.len(),
{
    lemma_trim_start_shape(s);
    lemma_trim_end_shape(trim_start(s));
    let t = trim_start(s);
    if trim(s).len() > 0 {
        assert(trim(s)[0] == t[0]);
    }
}

/// Trimming twice is trimming once.
pub proof fn lemma_trim_idempotent(s: Seq<char>)
    ensures
        trim(trim(s)) == trim(s),
{
    lemma_trim_shape(s);
    lemma_trim_fixed(trim(s));
}

/// Trimming a sequence whose ends are not white space changes nothing, also
/// after a prefix without white space at its start is put in front.
pub proof fn lemma_trim_prefixed(p: Seq<char>, s: Seq<char>)
    requires
        p.len() > 0,
        !is_ws(p[0]),
        s.len() > 0,
        !is_ws(s.last()),
    ensures
        trim(p + s) == p + s,
{
    let t = p + s;
    assert(t[0] == p[0]);
    assert(t.last() == s.last());
    lemma_trim_fixed(t);
}


/// A line with one trailing carriage return removed.
pub open spec fn strip_cr(l: Seq<char>) -> Seq<char> {
    if l.len() > 0 && l.last() == '\r' {
        l.drop_last()
    } else {
        l
    }
}

/// The lines ended so far and the line still open, reading `s` from the
/// start.
pub open spec fn lines_state(s: Seq<char>) -> (Seq<Seq<char>>, Seq<char>)
    decreases s.len(),
{
    if s.len() == 0 {
        (seq![], seq![])
    } else {
        let (done, cur) = lines_state(s.drop_last());
        if s.last() == '\n' {
            (done.push(strip_cr(cur)), seq![])
        } else {
            (done, cur.push(s.last()))
        }
    }
}

/// `str::lines`: the text split at `\n`, a `\r` before it dropped, and no
/// empty line after a final `\n`.
pub open spec fn lines(s: Seq<char>) -> Seq<Seq<char>> {
    let (done, cur) = lines_state(s);
    if cur.len() > 0 {
        done.push(cur)
    } else {
        done
    }
}

/// `parts.join(sep)`.
pub open spec fn join(parts: Seq<Seq<char>>, sep: Seq<char>) -> Seq<char>
    decreases parts.len(),
{
    if parts.len() == 0 {
        seq![]
    } else if parts.len() == 1 {
        parts[0]
    } else {
        join(parts.drop_last(), sep) + sep + parts.last()
    }
}

/// The views of a list of character vectors.
pub open spec fn vecs_view(v: Seq<Vec<char>>) -> Seq<Seq<char>> {
    v.map_values(|x: Vec<char>| x@)
}

/// A line with one trailing carriage return removed.
pub fn strip_cr_chars(l: Vec<char>) -> (r: Vec<char>)
    ensures
        r@ == strip_cr(l@),
{
    let mut l = l;
    if l.len() > 0 && l[l.len() - 1] == '\r' {
        l.pop();
    }
    l
}

/// `s.lines()`, each line as a vector of characters.
pub fn split_lines(s: &[char]) -> (r: Vec<Vec<char>>)
    ensures
        vecs_view(r@) == lines(s@),
{
    let mut done: Vec<Vec<char>> = Vec::new();
    let mut cur: Vec<char> = Vec::new();
    let mut i: usize = 0;
    while i < s.len()
        invariant
            i <= s@.len(),
            (vecs_view(done@), cur@) == lines_state(s@.take(i as int)),
        decreases s@.len() - i,
    {
        assert(s@.take(i + 1).drop_last() =~= s@.take(i as int));
        assert(s@.take(i + 1).last() == s@[i as int]);
        if s[i] == '\n' {
            let line = strip_cr_chars(cur);
            done.push(line);
            cur = Vec::new();
            assert(vecs_view(done@) =~= lines_state(s@.take(i + 1)).0);
            assert(cur@ =~= lines_state(s@.take(i + 1)).1);
        } else {
            cur.push(s[i]);
        }
        i = i + 1;
    }
    assert(s@.take(s@.len() as int) =~= s@);
    if cur.len() > 0 {
        done.push(cur);
        assert(vecs_view(done@) =~= lines(s@));
    }
    done
}

/// `parts.join(sep)` as characters.
pub fn join_chars(parts: &Vec<Vec<char>>, sep: &[char]) -> (r: Vec<char>)
    ensures
        r@ == join(vecs_view(parts@), sep@),
{
    let ghost pv = vecs_view(parts@);
    let mut out: Vec<char> = Vec::new();
    let mut i: usize = 0;
    while i < parts.len()
        invariant
            i <= parts@.len(),
            pv == vecs_view(parts@),
            out@ == join(pv.take(i as int), sep@),
        decreases parts@.len() - i,
    {
        assert(pv.take(i + 1).drop_last() =~= pv.take(i as int));
        assert(pv.take(i + 1).last() == parts@[i as int]@);
        if i > 0 {
            push_all(&mut out, sep);
        } else {
            assert(pv.take(1)[0] == parts@[0]@);
        }
        push_all(&mut out, parts[i].as_slice());
        i = i + 1;
    }
    assert(pv.take(parts@.len() as int) =~= pv);
    out
}


/// Whether two character slices hold the same characters.
pub fn same_chars(a: &[char], b: &[char]) -> (r: bool)
    ensures
        r == (a@ == b@),
{
    if a.len() != b.len() {
        return false;
    }
    let r = matches_at(a, b, 0);
    assert(a@.subrange(0, b@.len() as int) =~= a@);
    r
}

/// `s.starts_with(c)` for one character.
pub open spec fn starts_with_char(s: Seq<char>, c: char) -> bool {
    s.len() > 0 && s[0] == c
}

/// `s.ends_with(c)` for one character.
pub open spec fn ends_with_char(s: Seq<char>, c: char) -> bool {
    s.len() > 0 && s.last() == c
}


/// The decimal digit for `d` (taken modulo ten).
pub open spec fn digit_char(d: nat) -> char {
    let d = d % 10;
    if d == 0 {
        '0'
    } else if d == 1 {
        '1'
    } else if d == 2 {
        '2'
    } else if d == 3 {
        '3'
    } else if d == 4 {
        '4'
    } else if d == 5 {
        '5'
    } else if d == 6 {
        '6'
    } else if d == 7 {
        '7'
    } else if d == 8 {
        '8'
    } else {
        '9'
    }
}

/// The decimal form of `n`, without leading zeros.
pub open spec fn decimal(n: nat) -> Seq<char>
    decreases n,
{
    if n < 10 {
        seq![digit_char(n)]
    } else {
        decimal(n / 10).push(digit_char(n % 10))
    }
}

fn digit_of(d: u128) -> (c: char)
    requires
        d < 10,
    ensures
        c == digit_char(d as nat),
{
    if d == 0 {
        '0'
    } else if d == 1 {
        '1'
    } else if d == 2 {
        '2'
    } else if d == 3 {
        '3'
    } else if d == 4 {
        '4'
    } else if d == 5 {
        '5'
    } else if d == 6 {
        '6'
    } else if d == 7 {
        '7'
    } else if d == 8 {
        '8'
    } else {
        '9'
    }
}

/// The decimal digits of `n`, as `to_string` writes them.
pub fn decimal_chars(n: u128) -> (r: Vec<char>)
    ensures
        r@ == decimal(n as nat),
    decreases n,
{
    if n < 10 {
        let mut v = Vec::new();
        v.push(digit_of(n));
        v
    } else {
        let mut v = decimal_chars(n / 10);
        v.push(digit_of(n % 10));
        v
    }
}


/// `a` comes before `b` in the order of `str`: by code points, a proper
/// prefix first.  On UTF-8 bytes this is the byte order of the encodings.
pub open spec fn chars_lt(a: Seq<char>, b: Seq<char>) -> bool
    decreases a.len(),
{
    if a.len() == 0 {
        b.len() > 0
    } else if b.len() == 0 {
        false
    } else if a[0] < b[0] {
        true
    } else if a[0] > b[0] {
        false
    } else {
        chars_lt(a.drop_first(), b.drop_first())
    }
}

/// The order is strict and total.
pub proof fn lemma_chars_lt_total(a: Seq<char>, b: Seq<char>)
    ensures
        !chars_lt(a, a),
        chars_lt(a, b) ==> !chars_lt(b, a),
        a != b ==> chars_lt(a, b) || chars_lt(b, a),
    decreases a.len(),
{
    if a.len() > 0 && b.len() > 0 {
        lemma_chars_lt_total(a.drop_first(), b.drop_first());
        lemma_chars_lt_total(a.drop_first(), a.drop_first());
        if a[0] == b[0] && a.drop_first() == b.drop_first() {
            assert(a =~= seq![a[0]] + a.drop_first());
            assert(b =~= seq![b[0]] + b.drop_first());
        }
    } else if a.len() > 0 {
        lemma_chars_lt_total(a.drop_first(), a.drop_first());
    } else if b.len() == 0 {
        assert(a =~= b);
    }
}

/// The order is transitive.
pub proof fn lemma_chars_lt_trans(a: Seq<char>, b: Seq<char>, c: Seq<char>)
    requires
        chars_lt(a, b),
        chars_lt(b, c),
    ensures
        chars_lt(a, c),
    decreases a.len(),
{
    if a.len() > 0 && b.len() > 0 && c.len() > 0 {
        if a[0] == b[0] && b[0] == c[0] {
            lemma_chars_lt_trans(a.drop_first(), b.drop_first(), c.drop_first());
        }
    }
}

/// Whether `a` comes before `b` in the order of `str`.
pub fn less_chars(a: &[char], b: &[char]) -> (r: bool)
    ensures
        r == chars_lt(a@, b@),
{
    let mut i: usize = 0;
    assert(a@.skip(0) =~= a@);
    assert(b@.skip(0) =~= b@);
    while i < a.len() && i < b.len()
        invariant
            i <= a@.len(),
            i <= b@.len(),
            chars_lt(a@, b@) == chars_lt(a@.skip(i as int), b@.skip(i as int)),
        decreases a@.len() - i,
    {
        assert(a@.skip(i as int)[0] == a@[i as int]);
        assert(b@.skip(i as int)[0] == b@[i as int]);
        assert(a@.skip(i as int).drop_first() =~= a@.skip(i + 1));
        assert(b@.skip(i as int).drop_first() =~= b@.skip(i + 1));
        if a[i] < b[i] {
            return true;
        }
        if a[i] > b[i] {
            return false;
        }
        i = i + 1;
    }
    i == a.len() && i < b.len()
}


/// `s.split(c)`: the pieces between the occurrences of `c`; one empty piece
/// for an empty `s`.
pub open spec fn split_char(s: Seq<char>, c: char) -> Seq<Seq<char>>
    decreases s.len(),
{
    if s.len() == 0 {
        seq![seq![]]
    } else {
        let p = split_char(s.drop_last(), c);
        if s.last() == c {
            p.push(seq![])
        } else {
            p.update(p.len() - 1, p.last().push(s.last()))
        }
    }
}

/// `split_char` has at least one piece.
pub proof fn lemma_split_char_len(s: Seq<char>, c: char)
    ensures
        split_char(s, c).len() > 0,
    decreases s.len(),
{
    if s.len() > 0 {
        lemma_split_char_len(s.drop_last(), c);
    }
}

/// `s.split(c)`, each piece as a vector of characters.
pub fn split_on_char(s: &[char], c: char) -> (r: Vec<Vec<char>>)
    ensures
        vecs_view(r@) == split_char(s@, c),
        r@.len() > 0,
{
    let mut done: Vec<Vec<char>> = Vec::new();
    let mut cur: Vec<char> = Vec::new();
    let mut i: usize = 0;
    assert(s@.take(0) =~= seq![]);
    while i < s.len()
        invariant
            i <= s@.len(),
            vecs_view(done@).push(cur@) == split_char(s@.take(i as int), c),
        decreases s@.len() - i,
    {
        let ghost pre = s@.take(i + 1);
        assert(pre.drop_last() =~= s@.take(i as int));
        assert(pre.last() == s@[i as int]);
        proof {
            lemma_split_char_len(s@.take(i as int), c);
        }
        if s[i] == c {
            let ghost before = vecs_view(done@);
            done.push(cur);
            cur = Vec::new();
            assert(vecs_view(done@) =~= before.push(vecs_view(done@).last()));
            assert(vecs_view(done@).push(cur@) =~= split_char(pre, c));
        } else {
            let ghost before = vecs_view(done@).push(cur@);
            cur.push(s[i]);
            assert(vecs_view(done@).push(cur@) =~= before.update(
                before.len() - 1,
                before.last().push(s@[i as int]),
            ));
        }
        i = i + 1;
    }
    assert(s@.take(s@.len() as int) =~= s@);
    let ghost before = vecs_view(done@);
    done.push(cur);
    assert(vecs_view(done@) =~= before.push(cur@));
    done
}

/// `c.to_ascii_lowercase()`.
pub open spec fn ascii_lower(c: char) -> char {
    if 'A' <= c <= 'Z' {
        ((c as u8) + 32) as char
    } else {
        c
    }
}

/// `s.to_ascii_lowercase()`.
pub open spec fn lower_seq(s: Seq<char>) -> Seq<char> {
    s.map_values(|c: char| ascii_lower(c))
}

/// `s.to_ascii_lowercase()`.
pub fn to_ascii_lower(s: &[char]) -> (r: Vec<char>)
    ensures
        r@ == lower_seq(s@),
{
    let mut r: Vec<char> = Vec::new();
    let mut i: usize = 0;
    while i < s.len()
        invariant
            i <= s@.len(),
            r@ == lower_seq(s@.take(i as int)),
        decreases s@.len() - i,
    {
        let c = s[i];
        let l = if 'A' <= c && c <= 'Z' {
            ((c as u8) + 32) as char
        } else {
            c
        };
        r.push(l);
        i = i + 1;
        assert(r@ =~= lower_seq(s@.take(i as int)));
    }
    assert(s@.take(s@.len() as int) =~= s@);
    r
}


/// The index of the first element with property `p`, or the length.
pub open spec fn first_where<T>(s: Seq<T>, p: spec_fn(T) -> bool) -> int
    decreases s.len(),
{
    if s.len() == 0 {
        0
    } else if p(s[0]) {
        0
    } else {
        1 + first_where(s.drop_first(), p)
    }
}

/// `i` is the first element with property `p`, or the length when none has it.
pub open spec fn is_first<T>(s: Seq<T>, p: spec_fn(T) -> bool, i: int) -> bool {
    &&& 0 <= i <= s.len()
    &&& i < s.len() ==> p(s[i])
    &&& forall|k: int| 0 <= k < i ==> !p(#[trigger] s[k])
}

/// `first_where` is the first such element.
pub proof fn lemma_first_where<T>(s: Seq<T>, p: spec_fn(T) -> bool, i: int)
    requires
        is_first(s, p, i),
    ensures
        first_where(s, p) == i,
    decreases s.len(),
{
    if s.len() > 0 && !p(s[0]) {
        let rest = s.drop_first();
        assert forall|k: int| 0 <= k < i - 1 implies !p(#[trigger] rest[k]) by {
            assert(rest[k] == s[k + 1]);
        }
        if i < s.len() {
            assert(rest[i - 1] == s[i]);
        }
        lemma_first_where(rest, p, i - 1);
    }
}


/// The index of the first occurrence of `p` in `s`, or -1.
pub open spec fn index_of(s: Seq<char>, p: Seq<char>) -> int
    decreases s.len(),
{
    if occurs_at(s, p, 0) {
        0
    } else if s.len() == 0 {
        -1
    } else {
        let r = index_of(s.drop_first(), p);
        if r < 0 {
            -1
        } else {
            r + 1
        }
    }
}

/// `index_of` finds the first occurrence, or reports that there is none.
pub proof fn lemma_index_of(s: Seq<char>, p: Seq<char>)
    ensures
        index_of(s, p) >= 0 ==> first_occurrence_from(s, p, 0, index_of(s, p)),
        index_of(s, p) < 0 ==> index_of(s, p) == -1 && forall|k: int| !occurs_at(s, p, k),
    decreases s.len(),
{
    if !occurs_at(s, p, 0) && s.len() > 0 {
        let t = s.drop_first();
        lemma_index_of(t, p);
        assert forall|k: int| 1 <= k implies occurs_at(s, p, k) == occurs_at(t, p, k - 1) by {
            if 0 <= k - 1 && k - 1 + p.len() <= t.len() {
                assert(s.subrange(k, k + p.len()) =~= t.subrange(k - 1, k - 1 + p.len()));
            }
        }
    } else if !occurs_at(s, p, 0) {
        assert forall|k: int| !occurs_at(s, p, k) by {
            if occurs_at(s, p, k) {
                assert(k == 0);
            }
        }
    }
}

/// The first index where `p` occurs in `s`.
pub fn find_chars(s: &[char], p: &[char]) -> (r: Option<usize>)
    ensures
        match r {
            Some(i) => index_of(s@, p@) == i,
            None => index_of(s@, p@) == -1,
        },
{
    proof {
        lemma_index_of(s@, p@);
    }
    match find_from(s, p, 0) {
        Some(i) => {
            Some(i)
        },
        None => None,
    }
}

/// The index of the last `c` in `s`, or -1.
pub open spec fn last_index_of(s: Seq<char>, c: char) -> int
    decreases s.len(),
{
    if s.len() == 0 {
        -1
    } else if s.last() == c {
        s.len() - 1
    } else {
        last_index_of(s.drop_last(), c)
    }
}

/// The index of the last `c` in `s`.
pub fn rfind_char(s: &[char], c: char) -> (r: Option<usize>)
    ensures
        match r {
            Some(i) => last_index_of(s@, c) == i,
            None => last_index_of(s@, c) == -1,
        },
{
    let mut j: usize = s.len();
    assert(s@.take(s@.len() as int) =~= s@);
    while j > 0
        invariant
            j <= s@.len(),
            last_index_of(s@, c) == last_index_of(s@.take(j as int), c),
        decreases j,
    {
        assert(s@.take(j as int).last() == s@[j - 1]);
        if s[j - 1] == c {
            return Some(j - 1);
        }
        assert(s@.take(j as int).drop_last() =~= s@.take(j - 1));
        j = j - 1;
    }
    None
}

/// The index of the first `c` in `s`, or the length.
pub open spec fn first_index_of_char(s: Seq<char>, c: char) -> int
    decreases s.len(),
{
    if s.len() == 0 {
        0
    } else if s[0] == c {
        0
    } else {
        1 + first_index_of_char(s.drop_first(), c)
    }
}

/// The index of the first `c` in `s`, or the length.
pub fn find_char_or_len(s: &[char], c: char) -> (r: usize)
    ensures
        r == first_index_of_char(s@, c),
        r <= s@.len(),
{
    let mut i: usize = 0;
    assert(s@.skip(0) =~= s@);
    while i < s.len() && s[i] != c
        invariant
            i <= s@.len(),
            first_index_of_char(s@, c) == i + first_index_of_char(s@.skip(i as int), c),
        decreases s@.len() - i,
    {
        assert(s@.skip(i as int).drop_first() =~= s@.skip(i + 1));
        i = i + 1;
    }
    i
}


/// `s` holds no line break.
pub open spec fn no_newline(s: Seq<char>) -> bool {
    forall|i: int| 0 <= i < s.len() ==> s[i] != '\n'
}

/// Without its last character, a text loses at most that character of its
/// leading-white-space-free part.
pub proof fn lemma_trim_start_drop_last(s: Seq<char>)
    requires
        s.len() > 0,
    ensures
        trim_start(s.drop_last()) == if trim_start(s).len() > 0 {
            trim_start(s).drop_last()
        } else {
            Seq::<char>::empty()
        },
    decreases s.len(),
{
    if s.len() == 1 {
        assert(s.drop_last() =~= Seq::<char>::empty());
        assert(s.drop_first() =~= Seq::<char>::empty());
        assert(trim_start(Seq::<char>::empty()) =~= Seq::<char>::empty());
        if !is_ws(s[0]) {
            assert(trim_start(s).drop_last() =~= Seq::<char>::empty());
        }
    } else if is_ws(s[0]) {
        lemma_trim_start_drop_last(s.drop_first());
        assert(s.drop_last().drop_first() =~= s.drop_first().drop_last());
        assert(s.drop_last()[0] == s[0]);
        assert(trim_start(s.drop_last()) == trim_start(s.drop_last().drop_first()));
    } else {
        assert(s.drop_last()[0] == s[0]);
        assert(trim_start(s.drop_last()) == s.drop_last());
    }
}

/// Dropping trailing white space leaves the trim as it was.
pub proof fn lemma_trim_drop_ws_last(x: Seq<char>)
    requires
        x.len() > 0,
        is_ws(x.last()),
    ensures
        trim(x.drop_last()) == trim(x),
{
    lemma_trim_start_drop_last(x);
    lemma_trim_start_shape(x);
    let t = trim_start(x);
    if t.len() > 0 {
        assert(t.last() == x.last());
    }
}

/// The trim of a text without its trailing white space is the trim of the
/// text.
pub proof fn lemma_trim_of_trim_end(x: Seq<char>)
    ensures
        trim(trim_end(x)) == trim(x),
    decreases x.len(),
{
    if x.len() > 0 && is_ws(x.last()) {
        lemma_trim_of_trim_end(x.drop_last());
        lemma_trim_drop_ws_last(x);
    }
}

/// The trim of a line without its carriage return is the trim of the line.
pub proof fn lemma_trim_of_strip_cr(x: Seq<char>)
    ensures
        trim(strip_cr(x)) == trim(x),
{
    if x.len() > 0 && x.last() == '\r' {
        lemma_trim_drop_ws_last(x);
    }
}

/// Reading text without a line break extends the open line.
pub proof fn lemma_lines_state_append(a: Seq<char>, b: Seq<char>)
    requires
        no_newline(b),
    ensures
        lines_state(a + b) == (lines_state(a).0, lines_state(a).1 + b),
    decreases b.len(),
{
    if b.len() == 0 {
        assert(a + b =~= a);
        assert(lines_state(a).1 + b =~= lines_state(a).1);
    } else {
        let d = b.drop_last();
        lemma_lines_state_append(a, d);
        assert((a + b).drop_last() =~= a + d);
        assert((a + b).last() == b.last());
        assert(b.last() != '\n');
        assert(lines_state(a).1 + d + seq![b.last()] =~= lines_state(a).1 + b);
        assert((lines_state(a).1 + d).push(b.last()) =~= lines_state(a).1 + b);
    }
}

/// Reading parts joined by line breaks: each part but the last is a
/// finished line (its carriage return dropped), the last is still open.
pub proof fn lemma_lines_state_join(parts: Seq<Seq<char>>)
    requires
        parts.len() > 0,
        forall|i: int| 0 <= i < parts.len() ==> no_newline(#[trigger] parts[i]),
    ensures
        lines_state(join(parts, seq!['\n'])).0.len() == parts.len() - 1,
        forall|i: int|
            0 <= i < parts.len() - 1 ==> #[trigger] lines_state(join(parts, seq!['\n'])).0[i]
                == strip_cr(parts[i]),
        lines_state(join(parts, seq!['\n'])).1 == parts.last(),
    decreases parts.len(),
{
    let nl = seq!['\n'];
    if parts.len() == 1 {
        lemma_lines_state_append(Seq::<char>::empty(), parts[0]);
        assert(Seq::<char>::empty() + parts[0] =~= parts[0]);
        assert(Seq::<char>::empty() + parts[0] =~= parts[0]);
    } else {
        let p = parts.drop_last();
        lemma_lines_state_join(p);
        let j = join(p, nl);
        assert(join(parts, nl) == j + nl + parts.last());
        assert(j + nl =~= j.push('\n'));
        assert((j.push('\n')).drop_last() =~= j);
        lemma_lines_state_append(j.push('\n'), parts.last());
        assert(Seq::<char>::empty() + parts.last() =~= parts.last());
    }
}

/// The parts joined by line breaks, without the white space at the end.
pub open spec fn trimmed_join(parts: Seq<Seq<char>>) -> Seq<char>
    decreases parts.len(),
{
    if parts.len() == 0 {
        seq![]
    } else if parts.len() == 1 {
        trim_end(parts[0])
    } else if trim_end(parts.last()).len() > 0 {
        join(parts.drop_last(), seq!['\n']) + seq!['\n'] + trim_end(parts.last())
    } else {
        trimmed_join(parts.drop_last())
    }
}

proof fn lemma_trim_end_after_break(a: Seq<char>, b: Seq<char>)
    ensures
        trim_end(a + seq!['\n'] + b) == if trim_end(b).len() > 0 {
            a + seq!['\n'] + trim_end(b)
        } else {
            trim_end(a)
        },
    decreases b.len(),
{
    let t = a + seq!['\n'] + b;
    if b.len() == 0 {
        assert(t.drop_last() =~= a);
        assert(is_ws(t.last()));
    } else if is_ws(b.last()) {
        lemma_trim_end_after_break(a, b.drop_last());
        assert(t.drop_last() =~= a + seq!['\n'] + b.drop_last());
    } else {
        assert(t.last() == b.last());
    }
}

/// The joined parts without trailing white space.
pub proof fn lemma_trim_end_join(parts: Seq<Seq<char>>)
    ensures
        trim_end(join(parts, seq!['\n'])) == trimmed_join(parts),
    decreases parts.len(),
{
    if parts.len() >= 2 {
        lemma_trim_end_join(parts.drop_last());
        lemma_trim_end_after_break(join(parts.drop_last(), seq!['\n']), parts.last());
    }
}

/// The parts joined by line breaks without trailing white space are parts
/// joined by line breaks: a prefix of the parts, the last one of them with
/// its trailing white space removed.
pub proof fn lemma_trimmed_join_parts(parts: Seq<Seq<char>>) -> (q: Seq<Seq<char>>)
    ensures
        trimmed_join(parts) == join(q, seq!['\n']),
        q.len() <= parts.len(),
        forall|i: int| 0 <= i < q.len() - 1 ==> #[trigger] q[i] == parts[i],
        q.len() > 0 ==> q.last() == trim_end(parts[q.len() - 1]),
    decreases parts.len(),
{
    if parts.len() == 0 {
        seq![]
    } else if parts.len() == 1 {
        let q = seq![trim_end(parts[0])];
        assert(join(q, seq!['\n']) == q[0]);
        q
    } else if trim_end(parts.last()).len() > 0 {
        let q = parts.drop_last().push(trim_end(parts.last()));
        assert(q.drop_last() =~= parts.drop_last());
        assert(join(q, seq!['\n']) == join(q.drop_last(), seq!['\n']) + seq!['\n'] + q.last());
        q
    } else {
        let q = lemma_trimmed_join_parts(parts.drop_last());
        assert forall|i: int| 0 <= i < q.len() - 1 implies #[trigger] q[i] == parts[i] by {
            assert(parts.drop_last()[i] == parts[i]);
        }
        if q.len() > 0 {
            assert(parts.drop_last()[q.len() - 1] == parts[q.len() - 1]);
        }
        q
    }
}

/// A prefix of a text without line breaks has none.
pub proof fn lemma_trim_end_no_newline(s: Seq<char>)
    requires
        no_newline(s),
    ensures
        no_newline(trim_end(s)),
{
    lemma_trim_end_shape(s);
    let t = trim_end(s);
    assert forall|i: int| 0 <= i < t.len() implies t[i] != '\n' by {
        assert(t[i] == s[i]);
    }
}

/// No line of a text holds a line break.
pub proof fn lemma_lines_state_no_newline(s: Seq<char>)
    ensures
        forall|i: int| 0 <= i < lines_state(s).0.len() ==> no_newline(#[trigger] lines_state(s).0[i]),
        no_newline(lines_state(s).1),
    decreases s.len(),
{
    if s.len() > 0 {
        lemma_lines_state_no_newline(s.drop_last());
    }
}

/// No line of a text holds a line break.
pub proof fn lemma_lines_no_newline(s: Seq<char>)
    ensures
        forall|i: int| 0 <= i < lines(s).len() ==> no_newline(#[trigger] lines(s)[i]),
{
    lemma_lines_state_no_newline(s);
}


/// `s` holds no carriage return.
pub open spec fn no_cr(s: Seq<char>) -> bool {
    forall|i: int| 0 <= i < s.len() ==> s[i] != '\r'
}

/// A text without carriage returns has none in its lines.
pub proof fn lemma_lines_state_no_cr(s: Seq<char>)
    requires
        no_cr(s),
    ensures
        forall|i: int| 0 <= i < lines_state(s).0.len() ==> no_cr(#[trigger] lines_state(s).0[i]),
        no_cr(lines_state(s).1),
    decreases s.len(),
{
    if s.len() > 0 {
        let d = s.drop_last();
        assert forall|i: int| 0 <= i < d.len() implies d[i] != '\r' by {
            assert(d[i] == s[i]);
        }
        lemma_lines_state_no_cr(d);
        let (done, cur) = lines_state(d);
        assert(s.last() == s[s.len() - 1]);
        if s.last() != '\n' {
            let c2 = cur.push(s.last());
            assert forall|i: int| 0 <= i < c2.len() implies c2[i] != '\r' by {
                if i < cur.len() {
                    assert(c2[i] == cur[i]);
                }
            }
        } else {
            let sc = strip_cr(cur);
            assert(sc == cur);
            let d2 = done.push(sc);
            assert forall|i: int| 0 <= i < d2.len() implies no_cr(#[trigger] d2[i]) by {
                if i < done.len() {
                    assert(d2[i] == done[i]);
                }
            }
        }
    }
}

/// A text without carriage returns has none in its lines.
pub proof fn lemma_lines_no_cr(s: Seq<char>)
    requires
        no_cr(s),
    ensures
        forall|i: int| 0 <= i < lines(s).len() ==> no_cr(#[trigger] lines(s)[i]),
{
    lemma_lines_state_no_cr(s);
}

/// Removing trailing white space twice is removing it once.
pub proof fn lemma_trim_end_idempotent(s: Seq<char>)
    ensures
        trim_end(trim_end(s)) == trim_end(s),
{
    lemma_trim_end_shape(s);
}

/// A prefix of a text without carriage returns has none.
pub proof fn lemma_trim_end_no_cr(s: Seq<char>)
    requires
        no_cr(s),
    ensures
        no_cr(trim_end(s)),
{
    lemma_trim_end_shape(s);
    let t = trim_end(s);
    assert forall|i: int| 0 <= i < t.len() implies t[i] != '\r' by {
        assert(t[i] == s[i]);
    }
}


/// `first_where` is the first index with the property, or the length.
pub proof fn lemma_first_where_is_first<T>(s: Seq<T>, p: spec_fn(T) -> bool)
    ensures
        is_first(s, p, first_where(s, p)),
    decreases s.len(),
{
    if s.len() > 0 && !p(s[0]) {
        let rest = s.drop_first();
        lemma_first_where_is_first(rest, p);
        let f = first_where(rest, p);
        assert forall|k: int| 0 <= k < f + 1 implies !p(#[trigger] s[k]) by {
            if k > 0 {
                assert(s[k] == rest[k - 1]);
            }
        }
        if f < rest.len() {
            assert(s[f + 1] == rest[f]);
        }
    }
}

/// An ending of an ending is an ending.
pub proof fn lemma_ends_with_trans(s: Seq<char>, p: Seq<char>, q: Seq<char>)
    requires
        ends_with(s, p),
        ends_with(p, q),
    ensures
        ends_with(s, q),
{
    assert(s.skip(s.len() - q.len()) =~= p.skip(p.len() - q.len()));
}

/// `parts` joined around `sep`, split into two non-empty runs.
pub proof fn lemma_join_append(a: Seq<Seq<char>>, b: Seq<Seq<char>>, sep: Seq<char>)
    requires
        a.len() > 0,
        b.len() > 0,
    ensures
        join(a + b, sep) == join(a, sep) + sep + join(b, sep),
    decreases b.len(),
{
    let ab = a + b;
    if b.len() == 1 {
        assert(ab.drop_last() =~= a);
        assert(ab.last() == b[0]);
    } else {
        lemma_join_append(a, b.drop_last(), sep);
        assert(ab.drop_last() =~= a + b.drop_last());
        assert(ab.last() == b.last());
        assert(join(a, sep) + sep + join(b.drop_last(), sep) + sep + b.last() =~= join(a, sep)
            + sep + (join(b.drop_last(), sep) + sep + b.last()));
    }
}

/// Reading on keeps the lines already ended.
pub proof fn lemma_lines_state_prefix(a: Seq<char>, c: Seq<char>)
    ensures
        lines_state(a).0.len() <= lines_state(a + c).0.len(),
        forall|k: int|
            0 <= k < lines_state(a).0.len() ==> #[trigger] lines_state(a + c).0[k]
                == lines_state(a).0[k],
    decreases c.len(),
{
    if c.len() == 0 {
        assert(a + c =~= a);
    } else {
        lemma_lines_state_prefix(a, c.drop_last());
        assert((a + c).drop_last() =~= a + c.drop_last());
        let p = lines_state(a + c.drop_last()).0;
        let q = lines_state(a + c).0;
        assert forall|k: int| 0 <= k < lines_state(a).0.len() implies #[trigger] q[k]
            == lines_state(a).0[k] by {
            assert(p[k] == lines_state(a).0[k]);
            assert(q[k] == p[k]);
        }
    }
}
} // verus!
