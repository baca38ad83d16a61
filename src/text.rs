//! Character-level text handling: whitespace, trimming, splitting and
//! decimal numbers, each stated over the characters of the text.
use vstd::prelude::*;

verus! {

/// Whether `c` has the Unicode `White_Space` property, as `char::is_whitespace` reads it.
pub open spec fn is_white(c: char) -> bool {
    let u = c as u32;
    (0x9 <= u <= 0xd) || u == 0x20 || u == 0x85 || u == 0xa0 || u == 0x1680 || (0x2000 <= u
        <= 0x200a) || u == 0x2028 || u == 0x2029 || u == 0x202f || u == 0x205f || u == 0x3000
}

/// Executable form of [`is_white`].
pub fn char_is_white(c: char) -> (r: bool)
    ensures
        r == is_white(c),
{
    let u = c as u32;
    (0x9 <= u && u <= 0xd) || u == 0x20 || u == 0x85 || u == 0xa0 || u == 0x1680 || (0x2000 <= u
        && u <= 0x200a) || u == 0x2028 || u == 0x2029 || u == 0x202f || u == 0x205f || u == 0x3000
}

/// `s` without its leading whitespace.
pub open spec fn trim_start(s: Seq<char>) -> Seq<char>
    decreases s.len(),
{
    if s.len() > 0 && is_white(s[0]) {
        trim_start(s.drop_first())
    } else {
        s
    }
}

/// `s` without its trailing whitespace.
pub open spec fn trim_end(s: Seq<char>) -> Seq<char>
    decreases s.len(),
{
    if s.len() > 0 && is_white(s.last()) {
        trim_end(s.drop_last())
    } else {
        s
    }
}

/// `s` without leading and trailing whitespace.
pub open spec fn trimmed(s: Seq<char>) -> Seq<char> {
    trim_end(trim_start(s))
}

/// `s` without the copies of `c` at its end.
pub open spec fn strip_trailing(s: Seq<char>, c: char) -> Seq<char>
    decreases s.len(),
{
    if s.len() > 0 && s.last() == c {
        strip_trailing(s.drop_last(), c)
    } else {
        s
    }
}

/// Index of the first character of `s` at or after `i` that is not whitespace (or the end).
fn skip_white(s: &str, n: usize, i: usize) -> (r: usize)
    requires
        n == s@.len(),
        i <= n,
    ensures
        i <= r <= n,
        trim_start(s@.subrange(i as int, n as int)) == s@.subrange(r as int, n as int),
{
    let mut k: usize = i;
    while k < n && char_is_white(s.get_char(k))
        invariant
            i <= k <= n,
            n == s@.len(),
            trim_start(s@.subrange(i as int, n as int)) == trim_start(
                s@.subrange(k as int, n as int),
            ),
        decreases n - k,
    {
        assert(s@.subrange(k as int + 1, n as int) =~= s@.subrange(k as int, n as int).drop_first());
        k = k + 1;
    }
    k
}

/// Copy of `s` without leading and trailing whitespace.
pub fn trim(s: &str) -> (r: String)
    ensures
        r@ == trimmed(s@),
{
    let n = s.unicode_len();
    let i = skip_white(s, n, 0);
    assert(s@.subrange(0, n as int) =~= s@);
    let mut j: usize = n;
    while j > i && char_is_white(s.get_char(j - 1))
        invariant
            i <= j <= n,
            n == s@.len(),
            trim_end(s@.subrange(i as int, n as int)) == trim_end(s@.subrange(i as int, j as int)),
        decreases j,
    {
        assert(s@.subrange(i as int, j - 1) =~= s@.subrange(i as int, j as int).drop_last());
        j = j - 1;
    }
    s.substring_char(i, j).to_owned()
}

/// Copy of `s` without the copies of `c` at its end.
pub fn strip_trailing_char(s: &str, c: char) -> (r: String)
    ensures
        r@ == strip_trailing(s@, c),
{
    let n = s.unicode_len();
    let mut j: usize = n;
    assert(s@.subrange(0, n as int) =~= s@);
    while j > 0 && s.get_char(j - 1) == c
        invariant
            j <= n,
            n == s@.len(),
            strip_trailing(s@, c) == strip_trailing(s@.subrange(0, j as int), c),
        decreases j,
    {
        assert(s@.subrange(0, j - 1) =~= s@.subrange(0, j as int).drop_last());
        j = j - 1;
    }
    s.substring_char(0, j).to_owned()
}

/// The fields of `s` between the copies of `sep`, as `str::split` yields them:
/// `n` separators give `n + 1` fields, empty ones included.
pub open spec fn fields(s: Seq<char>, sep: char) -> Seq<Seq<char>>
    decreases s.len(),
{
    if s.len() == 0 {
        seq![Seq::empty()]
    } else {
        let f = fields(s.drop_last(), sep);
        if s.last() == sep {
            f.push(Seq::empty())
        } else {
            f.update(f.len() - 1, f.last().push(s.last()))
        }
    }
}

/// Field `k` of `s` split at `sep`, if there is one.
pub open spec fn nth_field(s: Seq<char>, sep: char, k: int) -> Option<Seq<char>> {
    if 0 <= k < fields(s, sep).len() {
        Some(fields(s, sep)[k])
    } else {
        None
    }
}

proof fn lemma_fields_nonempty(s: Seq<char>, sep: char)
    ensures
        fields(s, sep).len() >= 1,
    decreases s.len(),
{
    if s.len() > 0 {
        lemma_fields_nonempty(s.drop_last(), sep);
    }
}

/// Once a separator closes a field, longer prefixes keep that field.
proof fn lemma_fields_stable(s: Seq<char>, sep: char, i: int, j: int, m: int)
    requires
        0 <= i <= j <= s.len(),
        0 <= m < fields(s.subrange(0, i), sep).len() - 1,
    ensures
        fields(s.subrange(0, i), sep).len() <= fields(s.subrange(0, j), sep).len(),
        fields(s.subrange(0, j), sep)[m] == fields(s.subrange(0, i), sep)[m],
    decreases j - i,
{
    if j > i {
        lemma_fields_stable(s, sep, i, j - 1, m);
        assert(s.subrange(0, j).drop_last() =~= s.subrange(0, j - 1));
        lemma_fields_nonempty(s.subrange(0, j - 1), sep);
    }
}

/// Field `k` of `s` split at `sep` (`s.split(sep).nth(k)`).
pub fn split_field(s: &str, sep: char, k: usize) -> (r: Option<String>)
    ensures
        match r {
            Some(t) => nth_field(s@, sep, k as int) == Some(t@),
            None => nth_field(s@, sep, k as int) is None,
        },
{
    let n = s.unicode_len();
    let mut i: usize = 0;
    let mut count: usize = 0;
    let mut start: usize = 0;
    assert(s@.subrange(0, 0) =~= Seq::<char>::empty());
    while i < n
        invariant
            i <= n,
            n == s@.len(),
            count <= k,
            start <= i,
            count <= i,
            fields(s@.subrange(0, i as int), sep).len() == count + 1,
            fields(s@.subrange(0, i as int), sep)[count as int] == s@.subrange(
                start as int,
                i as int,
            ),
        decreases n - i,
    {
        let c = s.get_char(i);
        let ghost p = s@.subrange(0, i as int);
        assert(s@.subrange(0, i + 1).drop_last() =~= p);
        if c == sep {
            if count == k {
                proof {
                    lemma_fields_stable(s@, sep, i + 1, n as int, count as int);
                    assert(s@.subrange(0, n as int) =~= s@);
                }
                return Some(s.substring_char(start, i).to_owned());
            }
            count = count + 1;
            start = i + 1;
            assert(s@.subrange(start as int, i + 1) =~= Seq::<char>::empty());
        } else {
            assert(s@.subrange(start as int, i + 1) =~= s@.subrange(start as int, i as int).push(
                c,
            ));
        }
        i = i + 1;
    }
    assert(s@.subrange(0, n as int) =~= s@);
    if count == k {
        Some(s.substring_char(start, n).to_owned())
    } else {
        None
    }
}

/// The words of `s`: its maximal runs of non-whitespace characters, in order,
/// as `str::split_whitespace` yields them.
pub open spec fn words(s: Seq<char>) -> Seq<Seq<char>>
    decreases s.len(),
{
    if s.len() == 0 {
        Seq::empty()
    } else {
        let w = words(s.drop_last());
        let c = s.last();
        if is_white(c) {
            w
        } else if s.len() > 1 && !is_white(s[s.len() - 2]) {
            w.update(w.len() - 1, w.last().push(c))
        } else {
            w.push(seq![c])
        }
    }
}

/// The two words of `s`, when it has exactly two.
pub fn two_words(s: &str) -> (r: Option<(String, String)>)
    ensures
        match r {
            Some((a, b)) => words(s@).len() == 2 && a@ == words(s@)[0] && b@ == words(s@)[1],
            None => words(s@).len() != 2,
        },
{
    let n = s.unicode_len();
    let mut i: usize = 0;
    let mut count: usize = 0;
    let mut in_word = false;
    let mut a0: usize = 0;
    let mut e0: usize = 0;
    let mut a1: usize = 0;
    let mut e1: usize = 0;
    assert(s@.subrange(0, 0) =~= Seq::<char>::empty());
    while i < n
        invariant
            i <= n,
            n == s@.len(),
            count <= i,
            a0 <= e0 <= i,
            a1 <= e1 <= i,
            words(s@.subrange(0, i as int)).len() == count,
            in_word == (i > 0 && !is_white(s@[i - 1])),
            in_word ==> count >= 1,
            count >= 1 ==> words(s@.subrange(0, i as int))[0] == s@.subrange(a0 as int, e0 as int),
            count == 1 && in_word ==> e0 == i,
            count >= 2 ==> words(s@.subrange(0, i as int))[1] == s@.subrange(a1 as int, e1 as int),
            count == 2 && in_word ==> e1 == i,
        decreases n - i,
    {
        let c = s.get_char(i);
        let white = char_is_white(c);
        let ghost p = s@.subrange(0, i + 1);
        assert(p.drop_last() =~= s@.subrange(0, i as int));
        assert(p.last() == c);
        assert(i > 0 ==> p[p.len() - 2] == s@[i - 1]);
        if white {
            in_word = false;
        } else if in_word {
            if count == 1 {
                assert(s@.subrange(a0 as int, i + 1) =~= s@.subrange(a0 as int, i as int).push(c));
                e0 = i + 1;
            } else if count == 2 {
                assert(s@.subrange(a1 as int, i + 1) =~= s@.subrange(a1 as int, i as int).push(c));
                e1 = i + 1;
            }
        } else {
            count = count + 1;
            if count == 1 {
                a0 = i;
                e0 = i + 1;
                assert(s@.subrange(a0 as int, e0 as int) =~= seq![c]);
            } else if count == 2 {
                a1 = i;
                e1 = i + 1;
                assert(s@.subrange(a1 as int, e1 as int) =~= seq![c]);
            }
            in_word = true;
        }
        i = i + 1;
    }
    assert(s@.subrange(0, n as int) =~= s@);
    if count == 2 {
        Some((s.substring_char(a0, e0).to_owned(), s.substring_char(a1, e1).to_owned()))
    } else {
        None
    }
}

/// Whether `c` is an ASCII decimal digit.
pub open spec fn is_digit(c: char) -> bool {
    '0' <= c <= '9'
}

/// The value of the ASCII digit `c`.
pub open spec fn digit_value(c: char) -> int {
    (c as u32) as int - 48
}

/// Whether `s` is a non-empty run of ASCII digits.
pub open spec fn all_digits(s: Seq<char>) -> bool {
    s.len() > 0 && forall|i: int| 0 <= i < s.len() ==> is_digit(#[trigger] s[i])
}

/// The value of the decimal numeral `s`.
pub open spec fn digits_value(s: Seq<char>) -> int
    decreases s.len(),
{
    if s.len() == 0 {
        0
    } else {
        digits_value(s.drop_last()) * 10 + digit_value(s.last())
    }
}

/// The number that `str::parse` reads from `s` for an unsigned integer type
/// wide enough: an optional `+`, then one or more ASCII digits.
pub open spec fn unsigned_value(s: Seq<char>) -> Option<int> {
    let body = if s.len() > 0 && s[0] == '+' {
        s.drop_first()
    } else {
        s
    };
    if all_digits(body) {
        Some(digits_value(body))
    } else {
        None
    }
}

/// The number that `str::parse` reads from `s` for a signed integer type wide
/// enough: as [`unsigned_value`], or `-` followed by one or more ASCII digits.
pub open spec fn signed_value(s: Seq<char>) -> Option<int> {
    if s.len() > 0 && s[0] == '-' {
        if all_digits(s.drop_first()) {
            Some(-digits_value(s.drop_first()))
        } else {
            None
        }
    } else {
        unsigned_value(s)
    }
}

/// `v` when it lies in `lo..=hi`.
pub open spec fn within(v: Option<int>, lo: int, hi: int) -> Option<int> {
    match v {
        Some(x) => if lo <= x <= hi {
            Some(x)
        } else {
            None
        },
        None => None,
    }
}

proof fn lemma_digits_prefix_grows(s: Seq<char>, j: int, k: int)
    requires
        0 <= j <= k <= s.len(),
        forall|i: int| 0 <= i < s.len() ==> is_digit(#[trigger] s[i]),
    ensures
        0 <= digits_value(s.subrange(0, j)) <= digits_value(s.subrange(0, k)),
    decreases k,
{
    if k > 0 {
        assert(s.subrange(0, k).drop_last() =~= s.subrange(0, k - 1));
        if j < k {
            lemma_digits_prefix_grows(s, j, k - 1);
        } else {
            lemma_digits_prefix_grows(s, k - 1, k - 1);
        }
        assert(is_digit(s[k - 1]));
    }
}

proof fn lemma_unsigned_nonneg(s: Seq<char>)
    ensures
        unsigned_value(s) matches Some(x) ==> x >= 0,
{
    let body = if s.len() > 0 && s[0] == '+' {
        s.drop_first()
    } else {
        s
    };
    if all_digits(body) {
        lemma_digits_prefix_grows(body, 0, body.len() as int);
        assert(body.subrange(0, body.len() as int) =~= body);
    }
}

/// The value of the digits of `s` from index `from` on, when they are one or
/// more ASCII digits and their value is at most `max`.
fn parse_digits_from(s: &str, from: usize, max: u64) -> (r: Option<u64>)
    requires
        from <= s@.len(),
    ensures
        r == (if all_digits(s@.subrange(from as int, s@.len() as int)) && digits_value(
            s@.subrange(from as int, s@.len() as int),
        ) <= max {
            Some(digits_value(s@.subrange(from as int, s@.len() as int)) as u64)
        } else {
            None::<u64>
        }),
{
    let n = s.unicode_len();
    let ghost body = s@.subrange(from as int, n as int);
    if from == n {
        return None;
    }
    let mut i: usize = from;
    let mut acc: u64 = 0;
    assert(body.subrange(0, 0) =~= Seq::<char>::empty());
    while i < n
        invariant
            from <= i <= n,
            n == s@.len(),
            body == s@.subrange(from as int, n as int),
            acc <= max,
            acc == digits_value(body.subrange(0, i - from)),
            forall|t: int| 0 <= t < i - from ==> is_digit(#[trigger] body[t]),
        decreases n - i,
    {
        let c = s.get_char(i);
        assert(body[i - from] == c);
        if !('0' <= c && c <= '9') {
            return None;
        }
        let d: u64 = (c as u32 - 48) as u64;
        assert(body.subrange(0, i - from + 1).drop_last() =~= body.subrange(0, i - from));
        if d > max || acc > (max - d) / 10 {
            proof {
                assert(acc * 10 + d > max) by (nonlinear_arith)
                    requires
                        d > max || acc > (max - d) / 10,
                        d <= max ==> (max - d) / 10 * 10 <= max - d,
                        acc >= 0,
                ;
                if all_digits(body) {
                    lemma_digits_prefix_grows(body, i - from + 1, body.len() as int);
                    assert(body.subrange(0, body.len() as int) =~= body);
                }
            }
            return None;
        }
        assert(acc * 10 + d <= max) by (nonlinear_arith)
            requires
                acc <= (max - d) / 10,
                d <= max,
        ;
        acc = acc * 10 + d;
        i = i + 1;
    }
    assert(body.subrange(0, n - from) =~= body);
    Some(acc)
}

/// The unsigned number written in `s`, when `str::parse` reads one and it is
/// at most `max`.
pub fn parse_unsigned(s: &str, max: u64) -> (r: Option<u64>)
    ensures
        match r {
            Some(v) => within(unsigned_value(s@), 0, max as int) == Some(v as int),
            None => within(unsigned_value(s@), 0, max as int) is None,
        },
{
    let n = s.unicode_len();
    let from: usize = if n > 0 && s.get_char(0) == '+' {
        1
    } else {
        0
    };
    assert(s@.subrange(0, n as int) =~= s@);
    assert(n > 0 ==> s@.subrange(1, n as int) =~= s@.drop_first());
    let r = parse_digits_from(s, from, max);
    proof {
        let body = s@.subrange(from as int, n as int);
        if all_digits(body) {
            lemma_digits_prefix_grows(body, 0, body.len() as int);
            assert(body.subrange(0, body.len() as int) =~= body);
        }
    }
    r
}

/// The `i64` written in `s`, when `str::parse::<i64>` reads one.
pub fn parse_i64(s: &str) -> (r: Option<i64>)
    ensures
        match r {
            Some(v) => within(signed_value(s@), i64::MIN as int, i64::MAX as int) == Some(
                v as int,
            ),
            None => within(signed_value(s@), i64::MIN as int, i64::MAX as int) is None,
        },
{
    let n = s.unicode_len();
    if n > 0 && s.get_char(0) == '-' {
        assert(s@.subrange(1, n as int) =~= s@.drop_first());
        let magnitude = parse_digits_from(s, 1, 0x8000_0000_0000_0000u64);
        proof {
            let body = s@.drop_first();
            if all_digits(body) {
                lemma_digits_prefix_grows(body, 0, body.len() as int);
                assert(body.subrange(0, body.len() as int) =~= body);
            }
        }
        match magnitude {
            Some(m) => {
                if m == 0x8000_0000_0000_0000u64 {
                    Some(i64::MIN)
                } else {
                    Some(-(m as i64))
                }
            },
            None => None,
        }
    } else {
        proof {
            lemma_unsigned_nonneg(s@);
        }
        match parse_unsigned(s, i64::MAX as u64) {
            Some(v) => Some(v as i64),
            None => None,
        }
    }
}

} // verus!
