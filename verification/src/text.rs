//! String primitives with exact specifications over `Seq<char>`.
//!
//! These follow the behaviour that the standard library documents for
//! `char::is_whitespace`, `str::trim`, `str::starts_with`,
//! `str::ends_with`, `str::contains`, `str::strip_prefix` and
//! `str::replace`.

use vstd::prelude::*;

verus! {

/// The characters with the Unicode `White_Space` property, which is what
/// `char::is_whitespace` tests.
pub open spec fn is_ws(c: char) -> bool {
    ||| ('\u{9}' <= c && c <= '\u{d}')
    ||| c == ' '
    ||| c == '\u{85}'
    ||| c == '\u{a0}'
    ||| c == '\u{1680}'
    ||| ('\u{2000}' <= c && c <= '\u{200a}')
    ||| c == '\u{2028}'
    ||| c == '\u{2029}'
    ||| c == '\u{202f}'
    ||| c == '\u{205f}'
    ||| c == '\u{3000}'
}

/// Tests whether `c` is white space, as `char::is_whitespace` does.
pub fn is_whitespace(c: char) -> (res: bool)
    ensures
        res == is_ws(c),
{
    ('\u{9}' <= c && c <= '\u{d}') || c == ' ' || c == '\u{85}' || c == '\u{a0}' || c == '\u{1680}'
        || ('\u{2000}' <= c && c <= '\u{200a}') || c == '\u{2028}' || c == '\u{2029}' || c
        == '\u{202f}' || c == '\u{205f}' || c == '\u{3000}'
}

/// `s` with its leading white space removed.
pub open spec fn trim_front(s: Seq<char>) -> Seq<char>
    decreases s.len(),
{
    if s.len() > 0 && is_ws(s[0]) {
        trim_front(s.drop_first())
    } else {
        s
    }
}

/// `s` with its trailing white space removed.
pub open spec fn trim_back(s: Seq<char>) -> Seq<char>
    decreases s.len(),
{
    if s.len() > 0 && is_ws(s.last()) {
        trim_back(s.drop_last())
    } else {
        s
    }
}

/// `s` with leading and trailing white space removed, as `str::trim` does.
pub open spec fn trimmed(s: Seq<char>) -> Seq<char> {
    trim_back(trim_front(s))
}

/// Whether `p` is a prefix of `s`.
pub open spec fn has_prefix(s: Seq<char>, p: Seq<char>) -> bool {
    p.len() <= s.len() && s.subrange(0, p.len() as int) == p
}

/// Whether `p` is a suffix of `s`.
pub open spec fn has_suffix(s: Seq<char>, p: Seq<char>) -> bool {
    p.len() <= s.len() && s.subrange(s.len() - p.len(), s.len() as int) == p
}

/// Whether `p` occurs in `s` at position `i`.
pub open spec fn occurs_at(s: Seq<char>, p: Seq<char>, i: int) -> bool {
    0 <= i && i + p.len() <= s.len() && s.subrange(i, i + p.len()) == p
}

/// Whether `p` occurs anywhere in `s`.
pub open spec fn has_infix(s: Seq<char>, p: Seq<char>) -> bool {
    exists|i: int| occurs_at(s, p, i)
}

proof fn lemma_trim_front_skip(s: Seq<char>, i: int)
    requires
        0 <= i < s.len(),
        is_ws(s[i]),
    ensures
        trim_front(s.skip(i)) == trim_front(s.skip(i + 1)),
{
    assert(s.skip(i).drop_first() =~= s.skip(i + 1));
}

proof fn lemma_trim_back_take(s: Seq<char>, j: int)
    requires
        0 < j <= s.len(),
        is_ws(s[j - 1]),
    ensures
        trim_back(s.take(j)) == trim_back(s.take(j - 1)),
{
    assert(s.take(j).drop_last() =~= s.take(j - 1));
}

/// Removes leading and trailing white space, as `str::trim` does.
pub fn trim(s: &str) -> (res: String)
    ensures
        res@ == trimmed(s@),
{
    let n = s.unicode_len();
    let mut i: usize = 0;
    assert(s@.skip(0) =~= s@);
    while i < n && is_whitespace(s.get_char(i))
        invariant
            n == s@.len(),
            i <= n,
            trim_front(s@) == trim_front(s@.skip(i as int)),
        decreases n - i,
    {
        proof {
            lemma_trim_front_skip(s@, i as int);
        }
        i = i + 1;
    }
    assert(trim_front(s@.skip(i as int)) == s@.skip(i as int));
    let front = s.substring_char(i, n);
    assert(front@ =~= s@.skip(i as int));
    let m = front.unicode_len();
    let mut j: usize = m;
    assert(front@.take(m as int) =~= front@);
    while j > 0 && is_whitespace(front.get_char(j - 1))
        invariant
            m == front@.len(),
            j <= m,
            trim_back(front@) == trim_back(front@.take(j as int)),
        decreases j,
    {
        proof {
            lemma_trim_back_take(front@, j as int);
        }
        j = j - 1;
    }
    assert(trim_back(front@.take(j as int)) == front@.take(j as int));
    let out = front.substring_char(0, j);
    assert(out@ =~= front@.take(j as int));
    String::from_str(out)
}


/// `s` with every occurrence of `from` replaced by `to`, scanning from the
/// left without overlaps; an empty `from` matches before every character
/// and at the end. This is what `str::replace` computes.
pub open spec fn replaced(s: Seq<char>, from: Seq<char>, to: Seq<char>) -> Seq<char>
    decreases s.len(),
{
    if from.len() == 0 {
        if s.len() == 0 {
            to
        } else {
            to + seq![s[0]] + replaced(s.drop_first(), from, to)
        }
    } else if s.len() < from.len() {
        s
    } else if s.take(from.len() as int) == from {
        to + replaced(s.skip(from.len() as int), from, to)
    } else {
        seq![s[0]] + replaced(s.drop_first(), from, to)
    }
}

/// Whether `c` is an ASCII decimal digit.
pub open spec fn is_digit(c: char) -> bool {
    '0' <= c && c <= '9'
}

/// Whether every character of `s` is an ASCII decimal digit.
pub open spec fn all_digits(s: Seq<char>) -> bool {
    forall|i: int| 0 <= i < s.len() ==> is_digit(#[trigger] s[i])
}

/// The value of a string of decimal digits.
pub open spec fn digits_value(s: Seq<char>) -> int
    decreases s.len(),
{
    if s.len() == 0 {
        0
    } else {
        digits_value(s.drop_last()) * 10 + (s.last() as int - '0' as int)
    }
}

/// A numeral without its sign, if it has one.
pub open spec fn numeral_digits(s: Seq<char>) -> Seq<char> {
    if s.len() > 0 && (s[0] == '-' || s[0] == '+') {
        s.drop_first()
    } else {
        s
    }
}

/// The integer that a decimal numeral denotes: an optional `+` or `-`
/// followed by at least one ASCII digit.
pub open spec fn numeral_value(s: Seq<char>) -> Option<int> {
    let neg = s.len() > 0 && s[0] == '-';
    let body = numeral_digits(s);
    if body.len() > 0 && all_digits(body) {
        Some(if neg { -digits_value(body) } else { digits_value(body) })
    } else {
        None
    }
}

/// What `str::parse::<i32>` returns: the value of the numeral when it is
/// one and fits in an `i32`.
pub open spec fn parsed_i32(s: Seq<char>) -> Option<i32> {
    match numeral_value(s) {
        Some(v) => if i32::MIN <= v <= i32::MAX {
            Some(v as i32)
        } else {
            None
        },
        None => None,
    }
}

/// Whether `a` and `b` hold the same characters.
pub fn str_eq(a: &str, b: &str) -> (res: bool)
    ensures
        res == (a@ == b@),
{
    let n = a.unicode_len();
    if n != b.unicode_len() {
        return false;
    }
    let mut i: usize = 0;
    while i < n
        invariant
            n == a@.len(),
            n == b@.len(),
            i <= n,
            forall|j: int| 0 <= j < i ==> a@[j] == b@[j],
        decreases n - i,
    {
        if a.get_char(i) != b.get_char(i) {
            return false;
        }
        i = i + 1;
    }
    assert(a@ =~= b@);
    true
}

/// Whether `p` occurs in `s` at character position `i`.
pub fn matches_at(s: &str, p: &str, i: usize) -> (res: bool)
    ensures
        res == occurs_at(s@, p@, i as int),
{
    let n = s.unicode_len();
    let m = p.unicode_len();
    if i > n || m > n - i {
        return false;
    }
    let mut k: usize = 0;
    while k < m
        invariant
            n == s@.len(),
            m == p@.len(),
            i + m <= n,
            k <= m,
            forall|j: int| 0 <= j < k ==> s@[i + j] == p@[j],
        decreases m - k,
    {
        if s.get_char(i + k) != p.get_char(k) {
            assert(s@.subrange(i as int, i + m)[k as int] != p@[k as int]);
            return false;
        }
        k = k + 1;
    }
    assert(s@.subrange(i as int, i + m) =~= p@);
    true
}

/// Whether `s` starts with `p`, as `str::starts_with` tests.
pub fn starts_with(s: &str, p: &str) -> (res: bool)
    ensures
        res == has_prefix(s@, p@),
{
    matches_at(s, p, 0)
}

/// Whether `s` ends with `p`, as `str::ends_with` tests.
pub fn ends_with(s: &str, p: &str) -> (res: bool)
    ensures
        res == has_suffix(s@, p@),
{
    let n = s.unicode_len();
    let m = p.unicode_len();
    if m > n {
        return false;
    }
    matches_at(s, p, n - m)
}

/// Whether `p` occurs in `s`, as `str::contains` tests.
pub fn contains(s: &str, p: &str) -> (res: bool)
    ensures
        res == has_infix(s@, p@),
{
    let n = s.unicode_len();
    let m = p.unicode_len();
    if m > n {
        assert forall|i: int| !occurs_at(s@, p@, i) by {}
        return false;
    }
    let mut i: usize = 0;
    loop
        invariant
            n == s@.len(),
            m == p@.len(),
            m <= n,
            i <= n - m,
            forall|j: int| 0 <= j < i ==> !occurs_at(s@, p@, j),
        ensures
            forall|j: int| 0 <= j <= n - m ==> !occurs_at(s@, p@, j),
        decreases n - m - i,
    {
        if matches_at(s, p, i) {
            return true;
        }
        if i == n - m {
            break;
        }
        i = i + 1;
    }
    assert forall|j: int| !occurs_at(s@, p@, j) by {
        if 0 <= j && j <= n - m {
        }
    }
    false
}

/// `a` followed by `b`.
pub fn concat_str(a: &str, b: &str) -> (res: String)
    ensures
        res@ == a@ + b@,
{
    let mut out = String::from_str(a);
    out.append(b);
    out
}

/// The rest of `s` after the prefix `p`, if `s` starts with `p`, as
/// `str::strip_prefix` returns it.
pub fn strip_prefix(s: &str, p: &str) -> (res: Option<String>)
    ensures
        res matches Some(r) ==> has_prefix(s@, p@) && r@ == s@.skip(p@.len() as int),
        res is None ==> !has_prefix(s@, p@),
{
    if starts_with(s, p) {
        let n = s.unicode_len();
        let m = p.unicode_len();
        let rest = s.substring_char(m, n);
        assert(rest@ =~= s@.skip(m as int));
        Some(String::from_str(rest))
    } else {
        None
    }
}

/// `s` with every occurrence of `from` replaced by `to`, as
/// `str::replace` computes it.
pub fn replace(s: &str, from: &str, to: &str) -> (res: String)
    ensures
        res@ == replaced(s@, from@, to@),
{
    let n = s.unicode_len();
    let m = from.unicode_len();
    let mut out = String::new();
    let mut i: usize = 0;
    assert(s@.skip(0) =~= s@);
    while i < n
        invariant
            n == s@.len(),
            m == from@.len(),
            i <= n,
            replaced(s@, from@, to@) == out@ + replaced(s@.skip(i as int), from@, to@),
        decreases n - i,
    {
        let ghost rest = s@.skip(i as int);
        if m == 0 {
            out.append(to);
            let c = s.substring_char(i, i + 1);
            assert(c@ =~= seq![rest[0]]);
            out.append(c);
            assert(rest.drop_first() =~= s@.skip(i + 1));
            i = i + 1;
        } else if m > n - i {
            let tail = s.substring_char(i, n);
            assert(tail@ =~= rest);
            out.append(tail);
            assert(s@.skip(n as int) =~= Seq::<char>::empty());
            i = n;
        } else if matches_at(s, from, i) {
            assert(rest.take(m as int) =~= s@.subrange(i as int, i + m));
            out.append(to);
            assert(rest.skip(m as int) =~= s@.skip(i + m));
            i = i + m;
        } else {
            assert(rest.take(m as int) =~= s@.subrange(i as int, i + m));
            let c = s.substring_char(i, i + 1);
            assert(c@ =~= seq![rest[0]]);
            out.append(c);
            assert(rest.drop_first() =~= s@.skip(i + 1));
            i = i + 1;
        }
    }
    assert(s@.skip(n as int) =~= Seq::<char>::empty());
    if m == 0 {
        out.append(to);
    }
    out
}

proof fn lemma_digits_value_nonneg(s: Seq<char>)
    requires
        all_digits(s),
    ensures
        digits_value(s) >= 0,
    decreases s.len(),
{
    if s.len() > 0 {
        assert(is_digit(s[s.len() - 1]));
        lemma_digits_value_nonneg(s.drop_last());
    }
}

proof fn lemma_digits_value_prefix(s: Seq<char>, k: int)
    requires
        all_digits(s),
        0 <= k <= s.len(),
    ensures
        digits_value(s.take(k)) <= digits_value(s),
    decreases s.len(),
{
    if k < s.len() {
        assert(is_digit(s[s.len() - 1]));
        lemma_digits_value_prefix(s.drop_last(), k);
        assert(s.drop_last().take(k) =~= s.take(k));
        lemma_digits_value_nonneg(s.drop_last());
    } else {
        assert(s.take(k) =~= s);
    }
}

/// Parses a decimal `i32`, as `str::parse::<i32>` does.
pub fn parse_i32(s: &str) -> (res: Option<i32>)
    ensures
        res == parsed_i32(s@),
{
    let n = s.unicode_len();
    if n == 0 {
        return None;
    }
    let first = s.get_char(0);
    let neg = first == '-';
    let start: usize = if first == '-' || first == '+' { 1 } else { 0 };
    let ghost body = if first == '-' || first == '+' { s@.drop_first() } else { s@ };
    assert(body =~= s@.subrange(start as int, n as int));
    assert(body == numeral_digits(s@));
    if start == n {
        return None;
    }
    let mut acc: i64 = 0;
    let mut i: usize = start;
    assert(body.take(0) =~= Seq::<char>::empty());
    while i < n
        invariant
            n == s@.len(),
            start <= i <= n,
            body == s@.subrange(start as int, n as int),
            body == numeral_digits(s@),
            all_digits(body.take(i - start)),
            acc == digits_value(body.take(i - start)),
            0 <= acc <= 2147483648,
        decreases n - i,
    {
        let c = s.get_char(i);
        if !('0' <= c && c <= '9') {
            assert(!is_digit(body[i - start]));
            assert(!all_digits(body));
            assert(numeral_value(s@) is None);
            return None;
        }
        let d = (c as u32 - '0' as u32) as i64;
        let ghost pre = body.take(i - start);
        let ghost next_pre = body.take(i + 1 - start);
        assert(next_pre.drop_last() =~= pre);
        assert(all_digits(next_pre));
        let next = acc * 10 + d;
        if next > 2147483648 {
            proof {
                if all_digits(body) {
                    lemma_digits_value_prefix(body, i + 1 - start);
                    assert(digits_value(body) > 2147483648);
                }
                assert(parsed_i32(s@) is None);
            }
            return None;
        }
        acc = next;
        i = i + 1;
    }
    assert(body.take(n - start) =~= body);
    if neg {
        Some((0 - acc) as i32)
    } else if acc <= 2147483647 {
        Some(acc as i32)
    } else {
        None
    }
}


proof fn lemma_trim_front_shape(s: Seq<char>) -> (k: int)
    ensures
        0 <= k <= s.len(),
        trim_front(s) == s.skip(k),
        trim_front(s).len() == 0 || !is_ws(trim_front(s)[0]),
        forall|j: int| 0 <= j < k ==> is_ws(#[trigger] s[j]),
    decreases s.len(),
{
    if s.len() > 0 && is_ws(s[0]) {
        let k0 = lemma_trim_front_shape(s.drop_first());
        assert(s.drop_first().skip(k0) =~= s.skip(k0 + 1));
        assert forall|j: int| 0 <= j < k0 + 1 implies is_ws(#[trigger] s[j]) by {
            if j > 0 {
                assert(s[j] == s.drop_first()[j - 1]);
            }
        }
        k0 + 1
    } else {
        assert(s.skip(0) =~= s);
        0
    }
}

proof fn lemma_trim_back_shape(s: Seq<char>) -> (k: int)
    ensures
        0 <= k <= s.len(),
        trim_back(s) == s.take(k),
        trim_back(s).len() == 0 || !is_ws(trim_back(s).last()),
        forall|j: int| k <= j < s.len() ==> is_ws(#[trigger] s[j]),
    decreases s.len(),
{
    if s.len() > 0 && is_ws(s.last()) {
        let k0 = lemma_trim_back_shape(s.drop_last());
        assert(s.drop_last().take(k0) =~= s.take(k0));
        assert forall|j: int| k0 <= j < s.len() implies is_ws(#[trigger] s[j]) by {
            if j < s.len() - 1 {
                assert(s[j] == s.drop_last()[j]);
            }
        }
        k0
    } else {
        assert(s.take(s.len() as int) =~= s);
        s.len() as int
    }
}

/// Trimming leaves a piece of the text that neither starts nor ends with
/// white space, and removes only white space around it.
pub proof fn lemma_trimmed_edges(s: Seq<char>)
    ensures
        exists|i: int, j: int|
            0 <= i <= j <= s.len() && trimmed(s) == s.subrange(i, j) && (forall|k: int|
                0 <= k < i ==> is_ws(#[trigger] s[k])) && (forall|k: int| j <= k < s.len() ==> is_ws(#[trigger] s[k])),
        trimmed(s).len() == 0 || (!is_ws(trimmed(s)[0]) && !is_ws(trimmed(s).last())),
{
    let i = lemma_trim_front_shape(s);
    let u = trim_front(s);
    let k = lemma_trim_back_shape(u);
    assert(u.take(k) =~= s.subrange(i, i + k));
    assert forall|m: int| i + k <= m < s.len() implies is_ws(#[trigger] s[m]) by {
        assert(u[m - i] == s[m]);
    }
    if trimmed(s).len() > 0 {
        assert(trimmed(s)[0] == u[0]);
    }
}

/// A piece of text that neither starts nor ends with white space, and
/// occurs in `s`, still occurs in `s` trimmed.
pub proof fn lemma_trimmed_keeps_infix(s: Seq<char>, x: Seq<char>)
    requires
        x.len() > 0,
        !is_ws(x[0]),
        !is_ws(x.last()),
        has_infix(s, x),
    ensures
        has_infix(trimmed(s), x),
{
    let i = choose|i: int| occurs_at(s, x, i);
    let a = lemma_trim_front_shape(s);
    let u = trim_front(s);
    let b = lemma_trim_back_shape(u);
    let n = x.len() as int;
    assert(s[i] == x[0]) by {
        assert(s.subrange(i, i + n)[0] == s[i]);
    }
    assert(s[i + n - 1] == x.last()) by {
        assert(s.subrange(i, i + n)[n - 1] == s[i + n - 1]);
    }
    assert(a <= i);
    assert(u[i + n - 1 - a] == s[i + n - 1]);
    assert(i + n - 1 - a < b);
    let t = trimmed(s);
    assert(t == u.take(b));
    assert(t.subrange(i - a, i - a + n) =~= s.subrange(i, i + n));
    assert(occurs_at(t, x, i - a));
}

/// Trimming twice is trimming once.
pub proof fn lemma_trimmed_idempotent(s: Seq<char>)
    ensures
        trimmed(trimmed(s)) == trimmed(s),
{
    lemma_trim_front_shape(s);
    let u = trim_front(s);
    lemma_trim_back_shape(u);
    let t = trim_back(u);
    if t.len() > 0 {
        assert(t[0] == u[0]);
    }
    assert(trim_front(t) == t);
    lemma_trim_back_shape(t);
    assert(trim_back(t) == t) by {
        if t.len() > 0 {
            assert(!is_ws(t.last()));
        }
    }
}

/// Replacing a text by itself changes nothing.
pub proof fn lemma_replace_by_itself(s: Seq<char>, p: Seq<char>)
    ensures
        replaced(s, p, p) == s,
    decreases s.len(),
{
    if p.len() == 0 {
        if s.len() > 0 {
            lemma_replace_by_itself(s.drop_first(), p);
            assert(p + seq![s[0]] + s.drop_first() =~= s);
        } else {
            assert(p =~= s);
        }
    } else if s.len() >= p.len() {
        if s.take(p.len() as int) == p {
            lemma_replace_by_itself(s.skip(p.len() as int), p);
            assert(p + s.skip(p.len() as int) =~= s);
        } else {
            lemma_replace_by_itself(s.drop_first(), p);
            assert(seq![s[0]] + s.drop_first() =~= s);
        }
    }
}


/// Where the first occurrence of a non-empty `from` starts after `x`,
/// the replacement keeps `x`, puts `to` in place of that occurrence and
/// goes on replacing in the rest: every occurrence is replaced, not only
/// the first.
pub proof fn lemma_replace_first_occurrence(x: Seq<char>, from: Seq<char>, to: Seq<char>, y: Seq<char>)
    requires
        from.len() > 0,
        forall|i: int| 0 <= i < x.len() ==> !occurs_at(#[trigger] (x + from + y), from, i),
    ensures
        replaced(x + from + y, from, to) == x + to + replaced(y, from, to),
    decreases x.len(),
{
    let s = x + from + y;
    if x.len() == 0 {
        assert(s =~= from + y);
        assert(s.take(from.len() as int) =~= from);
        assert(s.skip(from.len() as int) =~= y);
        assert(x + to =~= to);
    } else {
        assert(!occurs_at(s, from, 0));
        assert(s.take(from.len() as int) =~= s.subrange(0, from.len() as int));
        let x1 = x.drop_first();
        assert(s.drop_first() =~= x1 + from + y);
        assert forall|i: int| 0 <= i < x1.len() implies !occurs_at(#[trigger] (x1 + from + y), from, i) by {
            assert(!occurs_at(s, from, i + 1));
            assert((x1 + from + y).subrange(i, i + from.len()) =~= s.subrange(i + 1, i + 1 + from.len()));
        }
        lemma_replace_first_occurrence(x1, from, to, y);
        assert(seq![s[0]] + (x1 + to + replaced(y, from, to)) =~= x + to + replaced(y, from, to));
    }
}

/// Replacing a non-empty text that does not occur changes nothing.
pub proof fn lemma_replace_absent(s: Seq<char>, from: Seq<char>, to: Seq<char>)
    requires
        from.len() > 0,
        !has_infix(s, from),
    ensures
        replaced(s, from, to) == s,
    decreases s.len(),
{
    if s.len() >= from.len() {
        assert(s.take(from.len() as int) =~= s.subrange(0, from.len() as int));
        assert(!occurs_at(s, from, 0));
        let rest = s.drop_first();
        assert forall|i: int| !occurs_at(rest, from, i) by {
            if occurs_at(rest, from, i) {
                assert(rest.subrange(i, i + from.len()) =~= s.subrange(i + 1, i + 1 + from.len()));
                assert(occurs_at(s, from, i + 1));
            }
        }
        lemma_replace_absent(rest, from, to);
        assert(seq![s[0]] + rest =~= s);
    }
}

} // verus!
