//! Text as sequences of characters: trimming, splitting, replacing, decimal numerals.

use vstd::prelude::*;

verus! {

broadcast use vstd::string::group_string_axioms;

/// Whether a character has the Unicode `White_Space` property: those from tab to carriage
/// return, the space, next line, the no-break spaces, the ogham space mark, the spaces of
/// the general punctuation, the line and paragraph separators, the medium mathematical
/// space and the ideographic space.
pub open spec fn white_space(c: char) -> bool {
    let point = c as int;
    ||| 0x9 <= point <= 0xd
    ||| point == 0x20
    ||| point == 0x85
    ||| point == 0xa0
    ||| point == 0x1680
    ||| 0x2000 <= point <= 0x200a
    ||| point == 0x2028
    ||| point == 0x2029
    ||| point == 0x202f
    ||| point == 0x205f
    ||| point == 0x3000
}

/// `char::is_whitespace`: whether the character has the Unicode `White_Space` property,
/// which holds of the characters that `white_space` lists and of no others.
pub assume_specification[ char::is_whitespace ](c: char) -> (blank: bool)
    ensures
        blank == white_space(c),
;

/// `String::push`: appends one character.
pub assume_specification[ std::string::String::push ](text: &mut std::string::String, c: char)
    ensures
        final(text)@ == old(text)@.push(c),
;

/// What is left of `s` without its leading white space.
pub open spec fn trim_start(s: Seq<char>) -> Seq<char>
    decreases s.len(),
{
    if s.len() > 0 && white_space(s[0]) {
        trim_start(s.drop_first())
    } else {
        s
    }
}

/// What is left of `s` without its trailing white space.
pub open spec fn trim_end(s: Seq<char>) -> Seq<char>
    decreases s.len(),
{
    if s.len() > 0 && white_space(s.last()) {
        trim_end(s.drop_last())
    } else {
        s
    }
}

/// `s` without white space at either end.
pub open spec fn trimmed(s: Seq<char>) -> Seq<char> {
    trim_end(trim_start(s))
}

/// `s` without the run of `c` at its end.
pub open spec fn without_trailing(s: Seq<char>, c: char) -> Seq<char>
    decreases s.len(),
{
    if s.len() > 0 && s.last() == c {
        without_trailing(s.drop_last(), c)
    } else {
        s
    }
}

/// The position of the first `c` in `s`, or the length of `s` where it has none.
pub open spec fn position(s: Seq<char>, c: char) -> nat
    decreases s.len(),
{
    if s.len() == 0 || s[0] == c {
        0
    } else {
        1 + position(s.drop_first(), c)
    }
}

/// The part of `s` that precedes the first `c`; all of `s` where it has none.
pub open spec fn before(s: Seq<char>, c: char) -> Seq<char> {
    s.take(position(s, c) as int)
}

/// The parts of `s` between the occurrences of `c`, in order.
pub open spec fn split(s: Seq<char>, c: char) -> Seq<Seq<char>>
    decreases s.len(),
{
    if position(s, c) < s.len() {
        seq![before(s, c)] + split(s.skip(position(s, c) as int + 1), c)
    } else {
        seq![s]
    }
}

/// `p` stands in `s` at position `i`.
pub open spec fn occurs_at(s: Seq<char>, p: Seq<char>, i: int) -> bool {
    &&& 0 <= i
    &&& i + p.len() <= s.len()
    &&& s.subrange(i, i + p.len()) == p
}

/// `p` stands somewhere in `s`.
pub open spec fn holds(s: Seq<char>, p: Seq<char>) -> bool {
    exists|i: int| occurs_at(s, p, i)
}

/// What follows the first occurrence of `p` in `s`, if there is one.
pub open spec fn after_first(s: Seq<char>, p: Seq<char>) -> Option<Seq<char>>
    decreases s.len(),
{
    if occurs_at(s, p, 0) {
        Some(s.skip(p.len() as int))
    } else if s.len() == 0 {
        None
    } else {
        after_first(s.drop_first(), p)
    }
}

/// `to` before every character of `s` and at its end.
pub open spec fn interleaved(s: Seq<char>, to: Seq<char>) -> Seq<char>
    decreases s.len(),
{
    if s.len() == 0 {
        to
    } else {
        to + seq![s[0]] + interleaved(s.drop_first(), to)
    }
}

/// `s` with the occurrences of `from`, taken from the left and without overlap,
/// replaced by `to`. The empty text occurs before every character and at the end.
pub open spec fn replaced(s: Seq<char>, from: Seq<char>, to: Seq<char>) -> Seq<char>
    decreases s.len(),
{
    if from.len() == 0 {
        interleaved(s, to)
    } else if s.len() < from.len() {
        s
    } else if occurs_at(s, from, 0) {
        to + replaced(s.skip(from.len() as int), from, to)
    } else {
        seq![s[0]] + replaced(s.drop_first(), from, to)
    }
}

/// The decimal digit of a number below ten.
pub open spec fn digit(d: nat) -> char {
    (('0' as int) + d) as char
}

/// The decimal numeral of `n`.
pub open spec fn decimal(n: nat) -> Seq<char>
    decreases n,
{
    if n < 10 {
        seq![digit(n)]
    } else {
        decimal(n / 10).push(digit(n % 10))
    }
}

/// The first `n` characters of `s`, or all of it where it is shorter.
pub open spec fn first_chars(s: Seq<char>, n: int) -> Seq<char> {
    if s.len() <= n {
        s
    } else {
        s.take(n)
    }
}

/// The texts that a vector of strings holds.
pub open spec fn texts(strings: Seq<String>) -> Seq<Seq<char>> {
    strings.map_values(|s: String| s@)
}

/// The text that an optional string holds.
pub open spec fn text_of(string: Option<String>) -> Option<Seq<char>> {
    match string {
        Some(s) => Some(s@),
        None => None,
    }
}

/// The characters of a text.
pub fn chars_of(s: &str) -> (chars: Vec<char>)
    ensures
        chars@ == s@,
{
    let mut chars: Vec<char> = Vec::new();
    for c in iter: s.chars()
        invariant
            iter.seq() == s@,
            chars@ == s@.take(iter.index() as int),
    {
        chars.push(c);
    }
    chars
}

/// Whether two texts hold the same characters.
pub fn same_text(a: &str, b: &str) -> (same: bool)
    ensures
        same == (a@ == b@),
{
    a.to_owned() == b.to_owned()
}

/// The text without white space at either end.
pub fn trim(s: &str) -> (t: &str)
    ensures
        t@ == trimmed(s@),
{
    let chars = chars_of(s);
    let mut start: usize = 0;
    assert(s@.skip(0) =~= s@);
    while start < chars.len() && chars[start].is_whitespace()
        invariant
            start <= chars.len(),
            chars@ == s@,
            trim_start(s@) == trim_start(s@.skip(start as int)),
        decreases chars.len() - start,
    {
        assert(s@.skip(start as int).drop_first() =~= s@.skip(start + 1));
        start = start + 1;
    }
    assert(trim_start(s@) == s@.skip(start as int));
    let mut end: usize = chars.len();
    assert(s@.skip(start as int) =~= s@.subrange(start as int, end as int));
    while start < end && chars[end - 1].is_whitespace()
        invariant
            start <= end <= chars.len(),
            chars@ == s@,
            trimmed(s@) == trim_end(s@.subrange(start as int, end as int)),
        decreases end,
    {
        assert(s@.subrange(start as int, end as int).drop_last() =~= s@.subrange(
            start as int,
            end - 1,
        ));
        end = end - 1;
    }
    s.substring_char(start, end)
}

/// The text without the run of `c` at its end.
pub fn trim_end_matches(s: &str, c: char) -> (t: &str)
    ensures
        t@ == without_trailing(s@, c),
{
    let chars = chars_of(s);
    let mut end: usize = chars.len();
    assert(s@ =~= s@.take(end as int));
    while 0 < end && chars[end - 1] == c
        invariant
            end <= chars.len(),
            chars@ == s@,
            without_trailing(s@, c) == without_trailing(s@.take(end as int), c),
        decreases end,
    {
        assert(s@.take(end as int).drop_last() =~= s@.take(end - 1));
        end = end - 1;
    }
    assert(s@.take(end as int) =~= s@.subrange(0, end as int));
    s.substring_char(0, end)
}

/// The first position of `c` at or after `from`, or the length where there is none.
fn find_char(chars: &Vec<char>, c: char, from: usize) -> (at: usize)
    requires
        from <= chars.len(),
    ensures
        from <= at <= chars.len(),
        at == from + position(chars@.skip(from as int), c),
{
    let mut at: usize = from;
    while at < chars.len() && chars[at] != c
        invariant
            from <= at <= chars.len(),
            from + position(chars@.skip(from as int), c) == at + position(
                chars@.skip(at as int),
                c,
            ),
        decreases chars.len() - at,
    {
        assert(chars@.skip(at as int).drop_first() =~= chars@.skip(at + 1));
        at = at + 1;
    }
    at
}

/// Whether the text holds the character.
pub fn contains_char(s: &str, c: char) -> (found: bool)
    ensures
        found == s@.contains(c),
{
    let chars = chars_of(s);
    for i in 0..chars.len()
        invariant
            chars@ == s@,
            forall|j: int| 0 <= j < i ==> s@[j] != c,
    {
        if chars[i] == c {
            assert(s@[i as int] == c);
            return true;
        }
    }
    false
}

/// The part of the text that precedes the first `c`.
pub fn before_char(s: &str, c: char) -> (t: &str)
    ensures
        t@ == before(s@, c),
{
    let chars = chars_of(s);
    let at = find_char(&chars, c, 0);
    assert(s@.skip(0) =~= s@);
    assert(s@.take(at as int) =~= s@.subrange(0, at as int));
    s.substring_char(0, at)
}

/// The parts of the text between the occurrences of `c`.
pub fn split_char(s: &str, c: char) -> (parts: Vec<String>)
    ensures
        texts(parts@) == split(s@, c),
{
    let chars = chars_of(s);
    let mut parts: Vec<String> = Vec::new();
    let mut from: usize = 0;
    assert(s@.skip(0) =~= s@);
    let mut at: usize = find_char(&chars, c, 0);
    assert(texts(parts@) + split(s@, c) =~= split(s@, c));
    while at < chars.len()
        invariant
            from <= at <= chars.len(),
            chars@ == s@,
            at == from + position(s@.skip(from as int), c),
            texts(parts@) + split(s@.skip(from as int), c) == split(s@, c),
        decreases chars.len() - from,
    {
        let part = s.substring_char(from, at).to_owned();
        proof {
            let rest = s@.skip(from as int);
            assert(before(rest, c) =~= part@);
            assert(rest.skip(position(rest, c) as int + 1) =~= s@.skip(at + 1));
            assert(texts(parts@.push(part)) =~= texts(parts@).push(part@));
            assert(texts(parts@).push(part@) + split(s@.skip(at + 1), c) =~= texts(parts@) + split(
                rest,
                c,
            ));
        }
        parts.push(part);
        from = at + 1;
        at = find_char(&chars, c, from);
    }
    let part = s.substring_char(from, at).to_owned();
    proof {
        let rest = s@.skip(from as int);
        assert(part@ =~= rest);
        assert(texts(parts@.push(part)) =~= texts(parts@) + split(rest, c));
    }
    parts.push(part);
    parts
}

/// Whether `pattern` stands in `chars` at position `at`.
fn matches_at(chars: &Vec<char>, pattern: &Vec<char>, at: usize) -> (found: bool)
    requires
        at <= chars.len(),
    ensures
        found == occurs_at(chars@.skip(at as int), pattern@, 0),
{
    let ghost rest = chars@.skip(at as int);
    if pattern.len() > chars.len() - at {
        return false;
    }
    for k in 0..pattern.len()
        invariant
            rest == chars@.skip(at as int),
            at + pattern.len() <= chars.len(),
            forall|j: int| 0 <= j < k ==> chars@[at + j] == pattern@[j],
    {
        if chars[at + k] != pattern[k] {
            assert(rest.subrange(0, pattern@.len() as int)[k as int] != pattern@[k as int]);
            return false;
        }
    }
    assert(rest.subrange(0, pattern@.len() as int) =~= pattern@);
    true
}

/// What follows the first occurrence of `pattern`, if there is one.
pub fn after_first_match<'a>(s: &'a str, pattern: &str) -> (rest: Option<&'a str>)
    ensures
        (match rest {
            Some(t) => after_first(s@, pattern@) == Some(t@),
            None => after_first(s@, pattern@) is None,
        }),
{
    let chars = chars_of(s);
    let wanted = chars_of(pattern);
    let mut at: usize = 0;
    assert(s@.skip(0) =~= s@);
    loop
        invariant
            at <= chars.len(),
            chars@ == s@,
            wanted@ == pattern@,
            after_first(s@, pattern@) == after_first(s@.skip(at as int), pattern@),
        decreases chars.len() - at,
    {
        if matches_at(&chars, &wanted, at) {
            let rest = s.substring_char(at + wanted.len(), chars.len());
            assert(rest@ =~= s@.skip(at as int).skip(pattern@.len() as int));
            return Some(rest);
        }
        if at == chars.len() {
            return None;
        }
        assert(s@.skip(at as int).drop_first() =~= s@.skip(at + 1));
        at = at + 1;
    }
}

/// The text with every occurrence of `from` replaced by `to`.
pub fn replace(s: &str, from: &str, to: &str) -> (t: String)
    ensures
        t@ == replaced(s@, from@, to@),
{
    let chars = chars_of(s);
    let wanted = chars_of(from);
    let mut out = String::new();
    let mut at: usize = 0;
    assert(s@.skip(0) =~= s@);
    assert(out@ + replaced(s@, from@, to@) =~= replaced(s@, from@, to@));
    while at < chars.len()
        invariant
            at <= chars.len(),
            chars@ == s@,
            wanted@ == from@,
            out@ + replaced(s@.skip(at as int), from@, to@) == replaced(s@, from@, to@),
        decreases chars.len() - at,
    {
        let ghost rest = s@.skip(at as int);
        assert(rest.drop_first() =~= s@.skip(at + 1));
        if wanted.len() == 0 {
            let ghost done = out@;
            out.append(to);
            out.push(chars[at]);
            assert(out@ + interleaved(s@.skip(at + 1), to@) =~= done + interleaved(rest, to@));
            at = at + 1;
        } else if matches_at(&chars, &wanted, at) {
            let ghost done = out@;
            out.append(to);
            assert(rest.skip(from@.len() as int) =~= s@.skip(at + from@.len()));
            assert(out@ + replaced(s@.skip(at + from@.len()), from@, to@) =~= done + replaced(
                rest,
                from@,
                to@,
            ));
            at = at + wanted.len();
        } else {
            let ghost done = out@;
            out.push(chars[at]);
            assert(done + replaced(rest, from@, to@) =~= out@ + replaced(
                s@.skip(at + 1),
                from@,
                to@,
            ));
            at = at + 1;
        }
    }
    if wanted.len() == 0 {
        out.append(to);
    }
    assert(out@ =~= replaced(s@, from@, to@));
    out
}

/// The decimal numeral of a number.
pub fn decimal_text(n: u128) -> (text: String)
    ensures
        text@ == decimal(n as nat),
    decreases n,
{
    let last: u8 = (n % 10) as u8;
    let mut text = if n < 10 {
        String::new()
    } else {
        decimal_text(n / 10)
    };
    text.push((48u8 + last) as char);
    assert(n < 10 ==> text@ =~= seq![digit(n as nat)]);
    text
}

/// The first `n` characters of the text.
pub fn leading(s: &str, n: usize) -> (t: &str)
    ensures
        t@ == first_chars(s@, n as int),
{
    let len = s.unicode_len();
    if len <= n {
        s
    } else {
        assert(s@.take(n as int) =~= s@.subrange(0, n as int));
        s.substring_char(0, n)
    }
}

/// `p` cannot take in a piece of an inserted `to`: neither holds the other, and no
/// proper end of `to` is a beginning of `p`, nor a proper beginning of `to` an end
/// of `p`.
pub open spec fn separable(p: Seq<char>, to: Seq<char>) -> bool {
    &&& p.len() > 0
    &&& !holds(p, to)
    &&& !holds(to, p)
    &&& forall|k: int|
        0 < k < to.len() && k < p.len() ==> #[trigger] to.skip(to.len() - k) != p.take(k)
    &&& forall|k: int|
        0 < k < to.len() && k < p.len() ==> #[trigger] to.take(k) != p.skip(p.len() - k)
}

/// An end of `p` that begins a text in which `to` was inserted begins the text
/// without the insertions too.
proof fn lemma_tail_untouched(
    s: Seq<char>,
    from: Seq<char>,
    to: Seq<char>,
    p: Seq<char>,
    j: int,
)
    requires
        from.len() > 0,
        separable(p, to),
        0 < j <= p.len(),
        occurs_at(replaced(s, from, to), p.skip(j), 0),
    ensures
        occurs_at(s, p.skip(j), 0),
    decreases s.len(),
{
    let q = p.skip(j);
    let r = replaced(s, from, to);
    if q.len() == 0 {
        assert(s.subrange(0, 0) =~= q);
    } else if s.len() < from.len() {
    } else if occurs_at(s, from, 0) {
        assert forall|k: int| 0 <= k < q.len() implies q[k] == r[k] by {
            assert(r.subrange(0, q.len() as int)[k] == r[k]);
        }
        if to.len() == 0 {
            assert(occurs_at(p, to, 0)) by {
                assert(p.subrange(0, 0) =~= to);
            }
        } else if q.len() < to.len() {
            assert(to.take(q.len() as int) =~= p.skip(p.len() - q.len()));
        } else {
            assert(p.subrange(j, j + to.len()) =~= to);
            assert(occurs_at(p, to, j));
        }
    } else {
        let rest = s.drop_first();
        assert(r.subrange(0, q.len() as int)[0] == r[0]);
        assert(replaced(rest, from, to).subrange(0, q.len() - 1) =~= r.subrange(
            0,
            q.len() as int,
        ).drop_first());
        assert(p.skip(j + 1) =~= q.drop_first());
        lemma_tail_untouched(rest, from, to, p, j + 1);
        assert(s.subrange(0, q.len() as int) =~= q) by {
            assert forall|k: int| 0 <= k < q.len() implies s.subrange(0, q.len() as int)[k]
                == q[k] by {
                if k > 0 {
                    assert(rest.subrange(0, q.len() - 1)[k - 1] == p.skip(j + 1)[k - 1]);
                }
            }
        }
    }
}

/// `p` cannot begin inside an inserted `to` at the front of a text.
proof fn lemma_not_in_front(to: Seq<char>, tail: Seq<char>, p: Seq<char>, i: int)
    requires
        separable(p, to),
        0 <= i < to.len(),
    ensures
        !occurs_at(to + tail, p, i),
{
    let r = to + tail;
    if occurs_at(r, p, i) {
        assert forall|k: int| 0 <= k < p.len() implies p[k] == r[i + k] by {
            assert(r.subrange(i, i + p.len())[k] == r[i + k]);
        }
        if i + p.len() <= to.len() {
            assert(to.subrange(i, i + p.len()) =~= p);
            assert(occurs_at(to, p, i));
        } else if i == 0 {
            assert(p.subrange(0, to.len() as int) =~= to);
            assert(occurs_at(p, to, 0));
        } else {
            assert(to.skip(to.len() - (to.len() - i)) =~= p.take(to.len() - i));
        }
    }
}

/// A text that stands behind the first character of `s` stands in `s`.
proof fn lemma_holds_behind(s: Seq<char>, n: int, p: Seq<char>)
    requires
        0 <= n <= s.len(),
        holds(s.skip(n), p),
    ensures
        holds(s, p),
{
    let i = choose|i: int| occurs_at(s.skip(n), p, i);
    assert(s.subrange(n + i, n + i + p.len()) =~= s.skip(n).subrange(i, i + p.len()));
    assert(occurs_at(s, p, n + i));
}

/// Replacing brings no `p` about: what holds `p` afterwards held it before.
pub proof fn lemma_replacing_creates_nothing(
    s: Seq<char>,
    from: Seq<char>,
    to: Seq<char>,
    p: Seq<char>,
)
    requires
        from.len() > 0,
        separable(p, to),
        holds(replaced(s, from, to), p),
    ensures
        holds(s, p),
    decreases s.len(),
{
    let r = replaced(s, from, to);
    let i = choose|i: int| occurs_at(r, p, i);
    if s.len() < from.len() {
    } else if occurs_at(s, from, 0) {
        let n = from.len() as int;
        let tail = replaced(s.skip(n), from, to);
        if i < to.len() {
            lemma_not_in_front(to, tail, p, i);
        }
        assert(tail.subrange(i - to.len(), i - to.len() + p.len()) =~= r.subrange(i, i + p.len()));
        assert(occurs_at(tail, p, i - to.len()));
        lemma_replacing_creates_nothing(s.skip(n), from, to, p);
        lemma_holds_behind(s, n, p);
    } else {
        let tail = replaced(s.drop_first(), from, to);
        if i == 0 {
            lemma_front_untouched(s, from, to, p);
        } else {
            assert(tail.subrange(i - 1, i - 1 + p.len()) =~= r.subrange(i, i + p.len()));
            assert(occurs_at(tail, p, i - 1));
            lemma_replacing_creates_nothing(s.drop_first(), from, to, p);
            assert(s.drop_first() =~= s.skip(1));
            lemma_holds_behind(s, 1, p);
        }
    }
}

/// Where `from` is not at the front, a `p` at the front of the result was there before.
proof fn lemma_front_untouched(s: Seq<char>, from: Seq<char>, to: Seq<char>, p: Seq<char>)
    requires
        0 < from.len() <= s.len(),
        !occurs_at(s, from, 0),
        separable(p, to),
        occurs_at(replaced(s, from, to), p, 0),
    ensures
        occurs_at(s, p, 0),
{
    let r = replaced(s, from, to);
    let rest = s.drop_first();
    let tail = replaced(rest, from, to);
    assert(p[0] == r.subrange(0, p.len() as int)[0]);
    assert(tail.subrange(0, p.len() - 1) =~= r.subrange(0, p.len() as int).drop_first());
    assert(p.skip(1) =~= p.drop_first());
    lemma_tail_untouched(rest, from, to, p, 1);
    assert(s.subrange(0, p.len() as int) =~= p) by {
        assert forall|k: int| 0 <= k < p.len() implies s.subrange(0, p.len() as int)[k] == p[k] by {
            if k > 0 {
                assert(rest.subrange(0, p.len() - 1)[k - 1] == p.skip(1)[k - 1]);
            }
        }
    }
}

/// Replacing a text by one from which it is separable leaves no occurrence of it.
pub proof fn lemma_replacing_erases(s: Seq<char>, from: Seq<char>, to: Seq<char>)
    requires
        separable(from, to),
    ensures
        !holds(replaced(s, from, to), from),
    decreases s.len(),
{
    let r = replaced(s, from, to);
    if holds(r, from) {
        let i = choose|i: int| occurs_at(r, from, i);
        if s.len() < from.len() {
        } else if occurs_at(s, from, 0) {
            let n = from.len() as int;
            let tail = replaced(s.skip(n), from, to);
            if i < to.len() {
                lemma_not_in_front(to, tail, from, i);
            }
            assert(tail.subrange(i - to.len(), i - to.len() + n) =~= r.subrange(i, i + n));
            assert(occurs_at(tail, from, i - to.len()));
            lemma_replacing_erases(s.skip(n), from, to);
        } else {
            let n = from.len() as int;
            let tail = replaced(s.drop_first(), from, to);
            if i == 0 {
                lemma_front_untouched(s, from, to, from);
            } else {
                assert(tail.subrange(i - 1, i - 1 + n) =~= r.subrange(i, i + n));
                assert(occurs_at(tail, from, i - 1));
                lemma_replacing_erases(s.drop_first(), from, to);
            }
        }
    }
}

proof fn lemma_trim_start_front(s: Seq<char>)
    ensures
        trim_start(s).len() > 0 ==> !white_space(trim_start(s)[0]),
    decreases s.len(),
{
    if s.len() > 0 && white_space(s[0]) {
        lemma_trim_start_front(s.drop_first());
    }
}

proof fn lemma_trim_end_shape(s: Seq<char>)
    ensures
        trim_end(s).len() <= s.len(),
        trim_end(s) == s.take(trim_end(s).len() as int),
        trim_end(s).len() > 0 ==> !white_space(trim_end(s).last()),
    decreases s.len(),
{
    if s.len() > 0 && white_space(s.last()) {
        lemma_trim_end_shape(s.drop_last());
        let n = trim_end(s).len() as int;
        assert(s.drop_last().take(n) =~= s.take(n));
    } else {
        assert(s.take(s.len() as int) =~= s);
    }
}

/// Trimming a trimmed text changes nothing.
pub proof fn lemma_trimmed_once(s: Seq<char>)
    ensures
        trimmed(trimmed(s)) == trimmed(s),
{
    let front = trim_start(s);
    let t = trimmed(s);
    lemma_trim_start_front(s);
    lemma_trim_end_shape(front);
    if t.len() > 0 {
        assert(t[0] == front[0]);
    }
}

} // verus!
