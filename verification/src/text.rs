//! Text as sequences of characters: the few operations on lines and fields
//! that the loaders need, each stated over `Seq<char>`.

use vstd::prelude::*;
use vstd::string::*;

verus! {

/// The characters of `s`, in order.
pub fn chars_of(s: &str) -> (r: Vec<char>)
    ensures
        r@ == s@,
{
    let mut out: Vec<char> = Vec::new();
    for c in it: s.chars()
        invariant
            it.seq() == s@,
            out@ =~= s@.take(it.index() as int),
    {
        out.push(c);
    }
    assert(s@.take(s@.len() as int) =~= s@);
    out
}

/// The characters with the Unicode property `White_Space`.
pub open spec fn white_space(c: char) -> bool {
    let u = c as u32;
    ||| 0x09 <= u <= 0x0d
    ||| u == 0x20
    ||| u == 0x85
    ||| u == 0xa0
    ||| u == 0x1680
    ||| 0x2000 <= u <= 0x200a
    ||| u == 0x2028
    ||| u == 0x2029
    ||| u == 0x202f
    ||| u == 0x205f
    ||| u == 0x3000
}

/// Whether `c` is white space.
pub fn is_space(c: char) -> (r: bool)
    ensures
        r == white_space(c),
{
    let u: u32 = c as u32;
    (0x09 <= u && u <= 0x0d) || u == 0x20 || u == 0x85 || u == 0xa0 || u == 0x1680 || (0x2000 <= u
        && u <= 0x200a) || u == 0x2028 || u == 0x2029 || u == 0x202f || u == 0x205f || u == 0x3000
}

/// The number of white-space characters that `s` begins with.
pub open spec fn leading_space(s: Seq<char>) -> nat
    decreases s.len(),
{
    if s.len() > 0 && white_space(s[0]) {
        1 + leading_space(s.drop_first())
    } else {
        0
    }
}

/// The number of white-space characters that `s` ends with.
pub open spec fn trailing_space(s: Seq<char>) -> nat
    decreases s.len(),
{
    if s.len() > 0 && white_space(s.last()) {
        1 + trailing_space(s.drop_last())
    } else {
        0
    }
}

/// `s` without the white space that it begins and ends with.
pub open spec fn trimmed(s: Seq<char>) -> Seq<char> {
    let rest = s.skip(leading_space(s) as int);
    rest.take(rest.len() - trailing_space(rest))
}

/// A run of white space at the start of `s`, ended by another character or by
/// the end of `s`, is all the white space that `s` begins with.
pub proof fn lemma_leading_space_is(s: Seq<char>, n: int)
    requires
        0 <= n <= s.len(),
        forall|i: int| 0 <= i < n ==> white_space(#[trigger] s[i]),
        n < s.len() ==> !white_space(s[n]),
    ensures
        leading_space(s) == n,
    decreases s.len(),
{
    if n > 0 {
        let rest = s.drop_first();
        assert forall|i: int| 0 <= i < n - 1 implies white_space(#[trigger] rest[i]) by {
            assert(rest[i] == s[i + 1]);
        }
        lemma_leading_space_is(rest, n - 1);
    }
}

/// A run of white space at the end of `s`, begun after another character or at
/// the start of `s`, is all the white space that `s` ends with.
pub proof fn lemma_trailing_space_is(s: Seq<char>, n: int)
    requires
        0 <= n <= s.len(),
        forall|i: int| s.len() - n <= i < s.len() ==> white_space(#[trigger] s[i]),
        n < s.len() ==> !white_space(s[s.len() - n - 1]),
    ensures
        trailing_space(s) == n,
    decreases s.len(),
{
    if n > 0 {
        let rest = s.drop_last();
        assert forall|i: int| rest.len() - (n - 1) <= i < rest.len() implies white_space(
            #[trigger] rest[i],
        ) by {
            assert(rest[i] == s[i]);
        }
        lemma_trailing_space_is(rest, n - 1);
    }
}

/// Where the trimmed text lies in `chars`: it is `chars[from..to]`.
pub fn trim_bounds(chars: &Vec<char>) -> (r: (usize, usize))
    ensures
        r.0 <= r.1 <= chars@.len(),
        trimmed(chars@) == chars@.subrange(r.0 as int, r.1 as int),
        forall|i: int| 0 <= i < r.0 || r.1 <= i < chars@.len() ==> white_space(#[trigger] chars@[i]),
        r.0 < r.1 ==> !white_space(chars@[r.0 as int]) && !white_space(chars@[r.1 - 1]),
{
    let n: usize = chars.len();
    let mut from: usize = 0;
    while from < n && is_space(chars[from])
        invariant
            from <= n == chars@.len(),
            forall|i: int| 0 <= i < from ==> white_space(#[trigger] chars@[i]),
        decreases n - from,
    {
        from = from + 1;
    }
    let mut to: usize = n;
    while to > from && is_space(chars[to - 1])
        invariant
            from <= to <= n == chars@.len(),
            forall|i: int| to <= i < n ==> white_space(#[trigger] chars@[i]),
        decreases to,
    {
        to = to - 1;
    }
    proof {
        lemma_leading_space_is(chars@, from as int);
        let rest = chars@.skip(from as int);
        assert forall|i: int| rest.len() - (n - to) <= i < rest.len() implies white_space(
            #[trigger] rest[i],
        ) by {
            assert(rest[i] == chars@[i + from]);
        }
        if n - to < rest.len() {
            assert(rest[rest.len() - (n - to) - 1] == chars@[to - 1]);
        }
        lemma_trailing_space_is(rest, (n - to) as int);
        assert(rest.take(rest.len() - (n - to)) =~= chars@.subrange(from as int, to as int));
    }
    (from, to)
}

/// `s` without the white space around it.
pub fn trim(s: &str) -> (r: &str)
    ensures
        r@ == trimmed(s@),
{
    let chars = chars_of(s);
    let (from, to) = trim_bounds(&chars);
    s.substring_char(from, to)
}

/// Whether `s` holds nothing but white space.
pub fn is_blank(s: &str) -> (r: bool)
    ensures
        r == (trimmed(s@).len() == 0),
{
    let chars = chars_of(s);
    let (from, to) = trim_bounds(&chars);
    from == to
}

/// The place of the first `c` in `s`, or the length of `s` where it has none.
pub open spec fn first_index_of(s: Seq<char>, c: char) -> int
    decreases s.len(),
{
    if s.len() == 0 || s[0] == c {
        0
    } else {
        1 + first_index_of(s.drop_first(), c)
    }
}

/// `first_index_of(s, c)` is `k` where no character before place `k` is `c`
/// and either `s` ends there or `c` stands there.
pub proof fn lemma_first_index_is(s: Seq<char>, c: char, k: int)
    requires
        0 <= k <= s.len(),
        forall|i: int| 0 <= i < k ==> #[trigger] s[i] != c,
        k < s.len() ==> s[k] == c,
    ensures
        first_index_of(s, c) == k,
    decreases s.len(),
{
    if k > 0 {
        let rest = s.drop_first();
        assert forall|i: int| 0 <= i < k - 1 implies #[trigger] rest[i] != c by {
            assert(rest[i] == s[i + 1]);
        }
        lemma_first_index_is(rest, c, k - 1);
    }
}

/// `line` without the carriage return that it ends with, if it ends with one.
pub open spec fn without_return(line: Seq<char>) -> Seq<char> {
    if line.len() > 0 && line.last() == '\r' {
        line.drop_last()
    } else {
        line
    }
}

/// The lines of `s`. A line ends with a line feed, or with a carriage return
/// and a line feed, neither of which belongs to it; the last line may end with
/// the text instead. Text that ends with a line ending has no empty line after
/// it, and empty text has no line.
pub open spec fn lines_of(s: Seq<char>) -> Seq<Seq<char>>
    decreases s.len(),
{
    if s.len() == 0 {
        Seq::empty()
    } else {
        let end = first_index_of(s, '\n');
        if end < 0 || end >= s.len() {
            seq![s]
        } else {
            seq![without_return(s.take(end))] + lines_of(s.skip(end + 1))
        }
    }
}

/// What each string of `v` holds.
pub open spec fn texts(v: Seq<String>) -> Seq<Seq<char>> {
    Seq::new(v.len(), |i: int| v[i]@)
}

/// The lines of `s`, each as a string of its own.
pub fn lines(s: &str) -> (r: Vec<String>)
    ensures
        texts(r@) == lines_of(s@),
{
    let chars = chars_of(s);
    let n: usize = chars.len();
    let mut out: Vec<String> = Vec::new();
    let mut start: usize = 0;
    let mut i: usize = 0;
    proof {
        assert(s@.skip(0) =~= s@);
        assert(texts(out@) + lines_of(s@) =~= lines_of(s@));
    }
    while i < n
        invariant
            start <= i <= n == chars@.len(),
            chars@ == s@,
            forall|j: int| start <= j < i ==> #[trigger] chars@[j] != '\n',
            lines_of(s@) == texts(out@) + lines_of(s@.skip(start as int)),
        decreases n - i,
    {
        if chars[i] == '\n' {
            let end: usize = if i > start && chars[i - 1] == '\r' {
                i - 1
            } else {
                i
            };
            let line = s.substring_char(start, end).to_owned();
            proof {
                let rest = s@.skip(start as int);
                assert forall|j: int| 0 <= j < i - start implies #[trigger] rest[j] != '\n' by {
                    assert(rest[j] == chars@[j + start]);
                }
                lemma_first_index_is(rest, '\n', i - start);
                assert(without_return(rest.take(i - start)) =~= s@.subrange(
                    start as int,
                    end as int,
                ));
                assert(rest.skip(i - start + 1) =~= s@.skip(i + 1));
                assert(texts(out@.push(line)) =~= texts(out@) + seq![line@]);
                assert(texts(out@) + (seq![line@] + lines_of(s@.skip(i + 1))) =~= (texts(out@)
                    + seq![line@]) + lines_of(s@.skip(i + 1)));
            }
            out.push(line);
            start = i + 1;
        }
        i = i + 1;
    }
    if start < n {
        let line = s.substring_char(start, n).to_owned();
        proof {
            let rest = s@.skip(start as int);
            assert forall|j: int| 0 <= j < n - start implies #[trigger] rest[j] != '\n' by {
                assert(rest[j] == chars@[j + start]);
            }
            lemma_first_index_is(rest, '\n', n - start);
            assert(rest =~= s@.subrange(start as int, n as int));
            assert(texts(out@.push(line)) =~= texts(out@) + seq![line@]);
        }
        out.push(line);
    } else {
        assert(texts(out@) + Seq::<Seq<char>>::empty() =~= texts(out@));
    }
    out
}

/// `needle` stands in `hay` at place `at`.
pub open spec fn occurs_at(hay: Seq<char>, needle: Seq<char>, at: int) -> bool {
    &&& 0 <= at
    &&& at + needle.len() <= hay.len()
    &&& hay.subrange(at, at + needle.len()) == needle
}

/// The first place at or after `from` where `needle` stands in `hay`.
pub open spec fn first_occurrence(hay: Seq<char>, needle: Seq<char>, from: int) -> Option<int>
    decreases hay.len() + 1 - from,
{
    if from < 0 || from + needle.len() > hay.len() {
        None
    } else if occurs_at(hay, needle, from) {
        Some(from)
    } else {
        first_occurrence(hay, needle, from + 1)
    }
}

/// `first_occurrence` finds a place where `needle` stands, and the earliest
/// there is from `from` on; it finds none only where there is none.
pub proof fn lemma_first_occurrence(hay: Seq<char>, needle: Seq<char>, from: int)
    requires
        0 <= from,
    ensures
        match first_occurrence(hay, needle, from) {
            Some(at) => {
                &&& from <= at
                &&& occurs_at(hay, needle, at)
                &&& forall|k: int| from <= k < at ==> !occurs_at(hay, needle, k)
            },
            None => forall|k: int| from <= k ==> !occurs_at(hay, needle, k),
        },
    decreases hay.len() + 1 - from,
{
    if from + needle.len() <= hay.len() && !occurs_at(hay, needle, from) {
        lemma_first_occurrence(hay, needle, from + 1);
    }
}

/// Whether `needle` stands in `hay` at place `at`.
pub fn matches_at(hay: &Vec<char>, needle: &Vec<char>, at: usize) -> (r: bool)
    ensures
        r == occurs_at(hay@, needle@, at as int),
{
    let m: usize = needle.len();
    if at > hay.len() || m > hay.len() - at {
        return false;
    }
    let mut j: usize = 0;
    while j < m
        invariant
            j <= m == needle@.len(),
            at + m <= hay.len(),
            forall|k: int| 0 <= k < j ==> hay@[at + k] == needle@[k],
        decreases m - j,
    {
        if hay[at + j] != needle[j] {
            proof {
                assert(hay@.subrange(at as int, at + m)[j as int] == hay@[at + j]);
            }
            return false;
        }
        j = j + 1;
    }
    assert(hay@.subrange(at as int, at + m) =~= needle@);
    true
}

/// The first place at or after `from` where `needle` stands in `hay`.
pub fn find_from(hay: &Vec<char>, needle: &Vec<char>, from: usize) -> (r: Option<usize>)
    ensures
        r is Some <==> first_occurrence(hay@, needle@, from as int) is Some,
        r is Some ==> r->0 == first_occurrence(hay@, needle@, from as int)->0,
        match r {
            Some(at) => {
                &&& from <= at
                &&& occurs_at(hay@, needle@, at as int)
                &&& forall|k: int| from <= k < at ==> !occurs_at(hay@, needle@, k)
            },
            None => forall|k: int| from <= k ==> !occurs_at(hay@, needle@, k),
        },
{
    proof {
        lemma_first_occurrence(hay@, needle@, from as int);
    }
    let n: usize = hay.len();
    let m: usize = needle.len();
    if m > n || from > n - m {
        return None;
    }
    let last: usize = n - m;
    let mut at: usize = from;
    loop
        invariant
            from <= at <= last,
            last + m == hay@.len(),
            m == needle@.len(),
            first_occurrence(hay@, needle@, from as int) == first_occurrence(
                hay@,
                needle@,
                at as int,
            ),
        decreases last - at,
    {
        if matches_at(hay, needle, at) {
            proof {
                lemma_first_occurrence(hay@, needle@, from as int);
            }
            return Some(at);
        }
        if at == last {
            proof {
                assert(first_occurrence(hay@, needle@, at + 1) is None);
                lemma_first_occurrence(hay@, needle@, from as int);
            }
            return None;
        }
        at = at + 1;
    }
}

/// Whether `a` and `b` hold the same characters.
pub fn same_text(a: &str, b: &str) -> (r: bool)
    ensures
        r == (a@ == b@),
{
    let x = chars_of(a);
    let y = chars_of(b);
    if x.len() != y.len() {
        return false;
    }
    let r = matches_at(&x, &y, 0);
    proof {
        assert(x@.subrange(0, x@.len() as int) =~= x@);
    }
    r
}

/// The character that writes the digit `d`.
pub open spec fn digit_of(d: nat) -> char {
    ((0x30 + d) as u8) as char
}

/// `n` written in decimal, without sign or leading zeros.
pub open spec fn decimal(n: nat) -> Seq<char>
    decreases n,
{
    if n < 10 {
        seq![digit_of(n)]
    } else {
        decimal(n / 10).push(digit_of(n % 10))
    }
}

/// The digit `d` as text.
fn digit_text(d: u32) -> (r: &'static str)
    requires
        d < 10,
    ensures
        r@ == seq![digit_of(d as nat)],
{
    proof {
        reveal_strlit("0");
        reveal_strlit("1");
        reveal_strlit("2");
        reveal_strlit("3");
        reveal_strlit("4");
        reveal_strlit("5");
        reveal_strlit("6");
        reveal_strlit("7");
        reveal_strlit("8");
        reveal_strlit("9");
    }
    let r = match d {
        0 => "0",
        1 => "1",
        2 => "2",
        3 => "3",
        4 => "4",
        5 => "5",
        6 => "6",
        7 => "7",
        8 => "8",
        _ => "9",
    };
    assert(r@ =~= seq![digit_of(d as nat)]);
    r
}

/// `n` written in decimal.
pub fn decimal_text(n: u32) -> (r: String)
    ensures
        r@ == decimal(n as nat),
    decreases n,
{
    let last = digit_text(n % 10);
    if n < 10 {
        last.to_owned()
    } else {
        let mut text = decimal_text(n / 10);
        text.append(last);
        assert(text@ =~= decimal((n / 10) as nat).push(digit_of((n % 10) as nat)));
        text
    }
}

/// Whether `c` is one of the ten digits.
pub open spec fn is_digit(c: char) -> bool {
    0x30 <= c as u32 <= 0x39
}

/// The number that the digits `s` write in decimal.
pub open spec fn digits_value(s: Seq<char>) -> nat
    decreases s.len(),
{
    if s.len() == 0 {
        0
    } else {
        (digits_value(s.drop_last()) * 10 + (s.last() as u32 - 0x30)) as nat
    }
}

/// Whether `s` holds digits and nothing else.
pub open spec fn all_digits(s: Seq<char>) -> bool {
    forall|i: int| 0 <= i < s.len() ==> is_digit(#[trigger] s[i])
}

/// The number that `s` writes as an unsigned 32-bit integer: an optional plus
/// sign and then one or more digits, whose value fits. Anything else writes no
/// number.
pub open spec fn parsed_u32(s: Seq<char>) -> Option<u32> {
    let digits = if s.len() > 0 && s[0] == '+' {
        s.drop_first()
    } else {
        s
    };
    if digits.len() > 0 && all_digits(digits) && digits_value(digits) <= u32::MAX {
        Some(digits_value(digits) as u32)
    } else {
        None
    }
}

/// More digits never write a smaller number.
pub proof fn lemma_digits_value_grows(s: Seq<char>, n: int)
    requires
        0 <= n <= s.len(),
        all_digits(s),
    ensures
        digits_value(s.take(n)) <= digits_value(s),
    decreases s.len() - n,
{
    if n < s.len() {
        lemma_digits_value_grows(s, n + 1);
        assert(s.take(n + 1).drop_last() =~= s.take(n));
        assert(s.take(n + 1).last() == s[n]);
    } else {
        assert(s.take(n) =~= s);
    }
}

/// The unsigned 32-bit integer that `s` writes, if it writes one.
pub fn parse_u32(s: &str) -> (r: Option<u32>)
    ensures
        r == parsed_u32(s@),
{
    let chars = chars_of(s);
    let n: usize = chars.len();
    let first: usize = if n > 0 && chars[0] == '+' {
        1
    } else {
        0
    };
    if first == n {
        return None;
    }
    let ghost digits = if s@[0] == '+' {
        s@.drop_first()
    } else {
        s@
    };
    proof {
        assert(digits =~= s@.skip(first as int));
    }
    let mut value: u64 = 0;
    let mut i: usize = first;
    while i < n
        invariant
            first <= i <= n == chars@.len(),
            chars@ == s@,
            s@.len() > 0,
            digits == s@.skip(first as int),
            digits == if s@[0] == '+' {
                s@.drop_first()
            } else {
                s@
            },
            forall|k: int| 0 <= k < i - first ==> is_digit(#[trigger] digits[k]),
            value == digits_value(digits.take(i - first)),
            value <= u32::MAX,
        decreases n - i,
    {
        let c: char = chars[i];
        let u: u32 = c as u32;
        if u < 0x30 || u > 0x39 {
            assert(digits[i - first] == c);
            return None;
        }
        let next: u64 = value * 10 + (u - 0x30) as u64;
        proof {
            assert(digits[i - first] == c);
            assert(digits.take(i - first + 1).drop_last() =~= digits.take(i - first));
            assert(digits.take(i - first + 1).last() == c);
            assert(next == digits_value(digits.take(i - first + 1)));
        }
        if next > 0xffff_ffff {
            proof {
                if all_digits(digits) {
                    lemma_digits_value_grows(digits, i - first + 1);
                }
            }
            return None;
        }
        value = next;
        i = i + 1;
    }
    proof {
        assert(digits.take(n - first) =~= digits);
    }
    Some(value as u32)
}

/// The place of the first `c` in `chars` at or after `from`, or the length of
/// `chars` where there is none.
pub fn index_of_from(chars: &Vec<char>, c: char, from: usize) -> (r: usize)
    requires
        from <= chars@.len(),
    ensures
        from <= r <= chars@.len(),
        r - from == first_index_of(chars@.skip(from as int), c),
{
    let n: usize = chars.len();
    let mut i: usize = from;
    while i < n && chars[i] != c
        invariant
            from <= i <= n == chars@.len(),
            forall|k: int| from <= k < i ==> #[trigger] chars@[k] != c,
        decreases n - i,
    {
        i = i + 1;
    }
    proof {
        let rest = chars@.skip(from as int);
        assert forall|k: int| 0 <= k < i - from implies #[trigger] rest[k] != c by {
            assert(rest[k] == chars@[k + from]);
        }
        lemma_first_index_is(rest, c, i - from);
    }
    i
}

/// The text that follows the first `key` in `text` and runs up to the first
/// `closer` after it, where `text` holds both.
pub open spec fn field_after(text: Seq<char>, key: Seq<char>, closer: char) -> Option<Seq<char>> {
    match first_occurrence(text, key, 0) {
        Some(at) => {
            let rest = text.skip(at + key.len());
            let end = first_index_of(rest, closer);
            if 0 <= end < rest.len() {
                Some(rest.take(end))
            } else {
                None
            }
        },
        None => None,
    }
}

/// Where in `chars` the text of `field_after` lies.
pub fn field_bounds(chars: &Vec<char>, key: &str, closer: char) -> (r: Option<(usize, usize)>)
    ensures
        match r {
            Some((from, to)) => {
                &&& from <= to <= chars@.len()
                &&& field_after(chars@, key@, closer) == Some(
                    chars@.subrange(from as int, to as int),
                )
            },
            None => field_after(chars@, key@, closer) is None,
        },
{
    let needle = chars_of(key);
    match find_from(chars, &needle, 0) {
        None => None,
        Some(at) => {
            let n: usize = chars.len();
            assert(at + needle@.len() <= n);
            let from: usize = at + needle.len();
            let to: usize = index_of_from(chars, closer, from);
            if to < chars.len() {
                proof {
                    assert(chars@.skip(from as int).take(to - from) =~= chars@.subrange(
                        from as int,
                        to as int,
                    ));
                }
                Some((from, to))
            } else {
                None
            }
        },
    }
}

/// `c` is the lower-case ASCII letter `letter`, or the same letter in upper
/// case.
pub open spec fn is_letter(c: char, letter: char) -> bool {
    c == letter || (0x41 <= c as u32 <= 0x5a && c as u32 + 0x20 == letter as u32)
}

/// `s` spells `word`, which is written in lower case, in whatever case the
/// ASCII letters of `s` are written.
pub open spec fn spells(s: Seq<char>, word: Seq<char>) -> bool {
    &&& s.len() == word.len()
    &&& forall|i: int| 0 <= i < s.len() ==> is_letter(#[trigger] s[i], word[i])
}

/// The place after the digits that stand in `s` from place `from` on.
pub open spec fn digits_end(s: Seq<char>, from: int) -> int
    decreases s.len() - from,
{
    if 0 <= from < s.len() && is_digit(s[from]) {
        digits_end(s, from + 1)
    } else {
        from
    }
}

/// Whether `c` is a plus or a minus sign.
pub open spec fn is_sign(c: char) -> bool {
    c == '+' || c == '-'
}

/// `s` is an exponent: the letter `e` in either case, an optional sign, and
/// one or more digits up to the end.
pub open spec fn exponent_text(s: Seq<char>) -> bool {
    &&& s.len() > 0
    &&& (s[0] == 'e' || s[0] == 'E')
    &&& {
        let from: int = if s.len() > 1 && is_sign(s[1]) {
            2
        } else {
            1
        };
        from < s.len() && digits_end(s, from) == s.len()
    }
}

/// `s` is an unsigned decimal number: digits with an optional point among
/// them, before them or after them, at least one digit in all, and an
/// optional exponent.
pub open spec fn unsigned_number(s: Seq<char>) -> bool {
    let whole = digits_end(s, 0);
    let after = if whole < s.len() && s[whole] == '.' {
        digits_end(s, whole + 1)
    } else {
        whole
    };
    let digits = if after > whole {
        after - 1
    } else {
        after
    };
    &&& digits > 0
    &&& (after == s.len() || exponent_text(s.skip(after)))
}

/// `s` writes a floating-point number: an optional sign, and then `inf`,
/// `infinity` or `nan` in any case, or a decimal number.
pub open spec fn float_text(s: Seq<char>) -> bool {
    let body = if s.len() > 0 && is_sign(s[0]) {
        s.drop_first()
    } else {
        s
    };
    ||| spells(body, "inf"@)
    ||| spells(body, "infinity"@)
    ||| spells(body, "nan"@)
    ||| unsigned_number(body)
}

/// `digits_end` looks at the text from `from` on and at nothing before it.
pub proof fn lemma_digits_end_skip(s: Seq<char>, cut: int, from: int)
    requires
        0 <= cut <= s.len(),
        0 <= from,
    ensures
        digits_end(s.skip(cut), from) + cut == digits_end(s, from + cut),
    decreases s.len() - cut - from,
{
    let rest = s.skip(cut);
    if from < rest.len() && is_digit(rest[from]) {
        lemma_digits_end_skip(s, cut, from + 1);
    }
}

/// Whether `chars[from..]` spells `word`, which is written in lower case.
fn spells_from(chars: &Vec<char>, from: usize, word: &str) -> (r: bool)
    requires
        from <= chars@.len(),
    ensures
        r == spells(chars@.skip(from as int), word@),
{
    let letters = chars_of(word);
    let n: usize = chars.len();
    if n - from != letters.len() {
        return false;
    }
    let ghost rest = chars@.skip(from as int);
    let mut i: usize = 0;
    while i < letters.len()
        invariant
            from <= n == chars@.len(),
            n - from == letters@.len(),
            i <= letters@.len(),
            letters@ == word@,
            rest == chars@.skip(from as int),
            forall|k: int| 0 <= k < i ==> is_letter(#[trigger] rest[k], word@[k]),
        decreases letters.len() - i,
    {
        let c: char = chars[from + i];
        let u: u32 = c as u32;
        let letter: char = letters[i];
        assert(rest[i as int] == c);
        if !(c == letter || (0x41 <= u && u <= 0x5a && u + 0x20 == letter as u32)) {
            return false;
        }
        i = i + 1;
    }
    true
}

/// The place after the digits that stand in `chars` from place `from` on.
fn skip_digits(chars: &Vec<char>, from: usize) -> (r: usize)
    requires
        from <= chars@.len(),
    ensures
        from <= r <= chars@.len(),
        r == digits_end(chars@, from as int),
{
    let n: usize = chars.len();
    let mut i: usize = from;
    while i < n && 0x30 <= chars[i] as u32 && chars[i] as u32 <= 0x39
        invariant
            from <= i <= n == chars@.len(),
            digits_end(chars@, from as int) == digits_end(chars@, i as int),
        decreases n - i,
    {
        i = i + 1;
    }
    i
}

/// Whether `chars[from..]` is an exponent.
fn is_exponent_from(chars: &Vec<char>, from: usize) -> (r: bool)
    requires
        from <= chars@.len(),
    ensures
        r == exponent_text(chars@.skip(from as int)),
{
    let n: usize = chars.len();
    let ghost tail = chars@.skip(from as int);
    if from == n {
        return false;
    }
    assert(tail[0] == chars@[from as int]);
    if chars[from] != 'e' && chars[from] != 'E' {
        return false;
    }
    let digits: usize = if n - from > 1 && (chars[from + 1] == '+' || chars[from + 1] == '-') {
        from + 2
    } else {
        from + 1
    };
    proof {
        if n - from > 1 {
            assert(tail[1] == chars@[from + 1]);
        }
    }
    if digits >= n {
        return false;
    }
    let end: usize = skip_digits(chars, digits);
    proof {
        lemma_digits_end_skip(chars@, from as int, digits - from);
    }
    end == n
}

/// Whether `chars[from..]` is an unsigned decimal number.
fn is_number_from(chars: &Vec<char>, from: usize) -> (r: bool)
    requires
        from <= chars@.len(),
    ensures
        r == unsigned_number(chars@.skip(from as int)),
{
    let n: usize = chars.len();
    let ghost body = chars@.skip(from as int);
    let whole: usize = skip_digits(chars, from);
    let after: usize = if whole < n && chars[whole] == '.' {
        skip_digits(chars, whole + 1)
    } else {
        whole
    };
    proof {
        lemma_digits_end_skip(chars@, from as int, 0);
        if whole < n {
            assert(body[whole - from] == chars@[whole as int]);
            lemma_digits_end_skip(chars@, from as int, whole - from + 1);
        }
        assert(body.skip(after - from) =~= chars@.skip(after as int));
    }
    let digits: usize = if after > whole {
        after - 1 - from
    } else {
        after - from
    };
    if digits == 0 {
        return false;
    }
    after == n || is_exponent_from(chars, after)
}

/// Whether `s` writes a floating-point number.
pub fn is_float_text(s: &str) -> (r: bool)
    ensures
        r == float_text(s@),
{
    let chars = chars_of(s);
    let n: usize = chars.len();
    let start: usize = if n > 0 && (chars[0] == '+' || chars[0] == '-') {
        1
    } else {
        0
    };
    proof {
        assert(start == 1 ==> s@.drop_first() =~= chars@.skip(1));
        assert(start == 0 ==> s@ =~= chars@.skip(0));
    }
    spells_from(&chars, start, "inf") || spells_from(&chars, start, "infinity") || spells_from(
        &chars,
        start,
        "nan",
    ) || is_number_from(&chars, start)
}

/// What `str::to_uppercase` makes of the text `s`.
pub uninterp spec fn uppercase_of(s: Seq<char>) -> Seq<char>;

/// `str::to_uppercase` of std: the text with every character replaced by its
/// Unicode upper-case mapping. The mapping is a table of the standard library
/// and is not written out here; the contract only gives its result a name,
/// which depends on nothing but the text.
#[verifier::external_body]
pub(crate) fn to_uppercase(s: &str) -> (r: String)
    ensures
        r@ == uppercase_of(s@),
{
    s.to_uppercase()
}

} // verus!
