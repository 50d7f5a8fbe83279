//! What trimming, cutting, splitting, replacing and counting do to a text, in terms of
//! how the text is put together.

use crate::secrecy::{lemma_before, lemma_nothing_to_replace};
use crate::text::{
    after_first, before, decimal, digit, first_chars, holds, occurs_at, replaced, split, trim_end,
    trim_start, trimmed, white_space, without_trailing,
};
use vstd::prelude::*;

verus! {

/// All of the text is white space.
pub open spec fn blank(s: Seq<char>) -> bool {
    forall|i: int| 0 <= i < s.len() ==> white_space(#[trigger] s[i])
}

/// The text neither begins nor ends with white space.
pub open spec fn bare(s: Seq<char>) -> bool {
    s.len() > 0 ==> !white_space(s[0]) && !white_space(s.last())
}

/// A run of one character.
pub open spec fn repeated(c: char, n: nat) -> Seq<char> {
    Seq::new(n, |i: int| c)
}

/// White space are the control characters from tab to carriage return and next line, the
/// space, and the spaces and separators beyond ASCII that Unicode counts as such.
pub proof fn law_white_space_is_what_unicode_says(c: char)
    ensures
        white_space(c) <==> {
            ||| '\t' <= c <= '\r'
            ||| c == ' '
            ||| c == '\u{85}'
            ||| c == '\u{a0}'
            ||| c == '\u{1680}'
            ||| '\u{2000}' <= c <= '\u{200a}'
            ||| '\u{2028}' <= c <= '\u{2029}'
            ||| c == '\u{202f}'
            ||| c == '\u{205f}'
            ||| c == '\u{3000}'
        },
{
}

proof fn lemma_trim_start_of(front: Seq<char>, rest: Seq<char>)
    requires
        blank(front),
        rest.len() > 0 ==> !white_space(rest[0]),
    ensures
        trim_start(front + rest) == rest,
    decreases front.len(),
{
    if front.len() == 0 {
        assert(front + rest =~= rest);
    } else {
        let tail = front.drop_first();
        assert(white_space(front[0]));
        assert forall|i: int| 0 <= i < tail.len() implies white_space(#[trigger] tail[i]) by {
            assert(tail[i] == front[i + 1]);
        }
        assert((front + rest).drop_first() =~= tail + rest);
        lemma_trim_start_of(tail, rest);
    }
}

proof fn lemma_trim_end_of(rest: Seq<char>, back: Seq<char>)
    requires
        blank(back),
        rest.len() > 0 ==> !white_space(rest.last()),
    ensures
        trim_end(rest + back) == rest,
    decreases back.len(),
{
    if back.len() == 0 {
        assert(rest + back =~= rest);
    } else {
        let head = back.drop_last();
        assert(white_space(back[back.len() - 1]));
        assert forall|i: int| 0 <= i < head.len() implies white_space(#[trigger] head[i]) by {
            assert(head[i] == back[i]);
        }
        assert((rest + back).drop_last() =~= rest + head);
        lemma_trim_end_of(rest, head);
    }
}

/// Trimming takes the white space off both ends of a text, all of it and nothing else.
pub proof fn law_trimming_takes_the_white_space_around(
    front: Seq<char>,
    core: Seq<char>,
    back: Seq<char>,
)
    requires
        blank(front),
        bare(core),
        blank(back),
    ensures
        trimmed(front + core + back) == core,
{
    if core.len() == 0 {
        let all = front + core + back;
        assert forall|i: int| 0 <= i < all.len() implies white_space(#[trigger] all[i]) by {
            if i < front.len() {
                assert(all[i] == front[i]);
            } else {
                assert(all[i] == back[i - front.len()]);
            }
        }
        lemma_trim_start_of(all, Seq::empty());
        assert(all + Seq::<char>::empty() =~= all);
        assert(core =~= Seq::empty());
    } else {
        assert(front + core + back =~= front + (core + back));
        lemma_trim_start_of(front, core + back);
        lemma_trim_end_of(core, back);
    }
}

/// A bare text is its own trimmed text.
pub proof fn law_a_bare_text_is_not_trimmed(core: Seq<char>)
    requires
        bare(core),
    ensures
        trimmed(core) == core,
{
    let none = Seq::<char>::empty();
    law_trimming_takes_the_white_space_around(none, core, none);
    assert(none + core + none =~= core);
}

/// Taking a character off the end of a text takes the whole run of it, and no more.
pub proof fn law_a_trailing_run_is_taken_off(s: Seq<char>, c: char, n: nat)
    requires
        s.len() > 0 ==> s.last() != c,
    ensures
        without_trailing(s + repeated(c, n), c) == s,
    decreases n,
{
    if n == 0 {
        assert(s + repeated(c, n) =~= s);
    } else {
        let less = (n - 1) as nat;
        assert((s + repeated(c, n)).last() == c);
        assert((s + repeated(c, n)).drop_last() =~= s + repeated(c, less));
        law_a_trailing_run_is_taken_off(s, c, less);
    }
}

/// Cutting a text at a character leaves what stands before the first one, and splitting
/// it there goes on with what stands behind. A text without the character is left whole.
pub proof fn law_texts_are_cut_at_the_first_place(s: Seq<char>, c: char, rest: Seq<char>)
    requires
        !s.contains(c),
    ensures
        before(s + seq![c] + rest, c) == s,
        before(s, c) == s,
        split(s + seq![c] + rest, c) == seq![s] + split(rest, c),
        split(s, c) == seq![s],
{
    lemma_before(s, c, rest);
    let whole = s + seq![c] + rest;
    assert(whole.skip(s.len() as int + 1) =~= rest);
}

proof fn lemma_after_first_at(s: Seq<char>, p: Seq<char>, at: int)
    requires
        occurs_at(s, p, at),
        forall|i: int| 0 <= i < at ==> !#[trigger] occurs_at(s, p, i),
    ensures
        after_first(s, p) == Some(s.skip(at + p.len())),
    decreases at,
{
    if at > 0 {
        let tail = s.drop_first();
        assert(!occurs_at(s, p, 0));
        assert forall|i: int| 0 <= i < at - 1 implies !#[trigger] occurs_at(tail, p, i) by {
            if occurs_at(tail, p, i) {
                assert(s.subrange(i + 1, i + 1 + p.len()) =~= tail.subrange(i, i + p.len()));
                assert(occurs_at(s, p, i + 1));
            }
        }
        assert(tail.subrange(at - 1, at - 1 + p.len()) =~= s.subrange(at, at + p.len()));
        lemma_after_first_at(tail, p, at - 1);
        assert(tail.skip(at - 1 + p.len()) =~= s.skip(at + p.len()));
    }
}

proof fn lemma_after_none(s: Seq<char>, p: Seq<char>)
    requires
        !holds(s, p),
    ensures
        after_first(s, p) is None,
    decreases s.len(),
{
    assert(!occurs_at(s, p, 0));
    if s.len() > 0 {
        let tail = s.drop_first();
        assert forall|i: int| !occurs_at(tail, p, i) by {
            if occurs_at(tail, p, i) {
                assert(s.subrange(i + 1, i + 1 + p.len()) =~= tail.subrange(i, i + p.len()));
                assert(occurs_at(s, p, i + 1));
            }
        }
        lemma_after_none(tail, p);
    }
}

/// What follows the first `p` of a text is all that stands behind it; where the text
/// holds no `p`, nothing does.
pub proof fn law_what_follows_the_first_place(a: Seq<char>, p: Seq<char>, b: Seq<char>, s: Seq<char>)
    requires
        forall|i: int| 0 <= i < a.len() ==> !#[trigger] occurs_at(a + p + b, p, i),
    ensures
        after_first(a + p + b, p) == Some(b),
        !holds(s, p) ==> after_first(s, p) is None,
{
    let whole = a + p + b;
    assert(whole.subrange(a.len() as int, (a.len() + p.len()) as int) =~= p);
    lemma_after_first_at(whole, p, a.len() as int);
    assert(whole.skip((a.len() + p.len()) as int) =~= b);
    if !holds(s, p) {
        lemma_after_none(s, p);
    }
}

/// A text holds `p` just where it can be put together with `p` in it.
pub proof fn law_holding_is_being_put_together(a: Seq<char>, p: Seq<char>, b: Seq<char>, s: Seq<char>)
    ensures
        holds(a + p + b, p),
        holds(s, p) ==> exists|x: Seq<char>, y: Seq<char>| s == #[trigger] (x + p + y),
{
    let whole = a + p + b;
    assert(whole.subrange(a.len() as int, (a.len() + p.len()) as int) =~= p);
    assert(occurs_at(whole, p, a.len() as int));
    if holds(s, p) {
        let i = choose|i: int| occurs_at(s, p, i);
        let x = s.take(i);
        let y = s.skip(i + p.len());
        assert(s =~= x + p + y) by {
            assert forall|k: int| 0 <= k < s.len() implies s[k] == (x + p + y)[k] by {
                if i <= k < i + p.len() {
                    assert(s.subrange(i, i + p.len())[k - i] == s[k]);
                }
            }
        }
    }
}

/// Replacing puts `to` in the place of the first `from`, keeps what stands before it, and
/// goes on behind it. A text without `from` stays as it is.
pub proof fn law_replacing_takes_the_places_in_order(
    a: Seq<char>,
    from: Seq<char>,
    b: Seq<char>,
    to: Seq<char>,
    s: Seq<char>,
)
    requires
        from.len() > 0,
        forall|i: int| 0 <= i < a.len() ==> !#[trigger] occurs_at(a + from + b, from, i),
    ensures
        replaced(a + from + b, from, to) == a + to + replaced(b, from, to),
        !holds(s, from) ==> replaced(s, from, to) == s,
    decreases a.len(),
{
    if !holds(s, from) {
        lemma_nothing_to_replace(s, from, to);
    }
    let whole = a + from + b;
    if a.len() == 0 {
        assert(whole.subrange(0, from.len() as int) =~= from);
        assert(occurs_at(whole, from, 0));
        assert(whole.skip(from.len() as int) =~= b);
        assert(a + to + replaced(b, from, to) =~= to + replaced(b, from, to));
    } else {
        let tail = a.drop_first();
        assert(!occurs_at(whole, from, 0));
        assert(whole.drop_first() =~= tail + from + b);
        assert forall|i: int| 0 <= i < tail.len() implies !#[trigger] occurs_at(
            tail + from + b,
            from,
            i,
        ) by {
            if occurs_at(tail + from + b, from, i) {
                assert(whole.subrange(i + 1, i + 1 + from.len()) =~= (tail + from + b).subrange(
                    i,
                    i + from.len(),
                ));
                assert(occurs_at(whole, from, i + 1));
            }
        }
        law_replacing_takes_the_places_in_order(tail, from, b, to, s);
        assert(a + to + replaced(b, from, to) =~= seq![whole[0]] + (tail + to + replaced(
            b,
            from,
            to,
        )));
    }
}

/// The empty text stands before every character and at the end.
pub proof fn law_the_empty_text_is_everywhere(c: char, s: Seq<char>, to: Seq<char>)
    ensures
        replaced(Seq::empty(), Seq::empty(), to) == to,
        replaced(seq![c] + s, Seq::empty(), to) == to + seq![c] + replaced(s, Seq::empty(), to),
{
    assert((seq![c] + s).drop_first() =~= s);
}

/// The number that decimal digits stand for.
pub open spec fn number_of(digits: Seq<char>) -> int
    decreases digits.len(),
{
    if digits.len() == 0 {
        0
    } else {
        10 * number_of(digits.drop_last()) + (digits.last() as int - '0' as int)
    }
}

/// The decimal numeral of a number is made of digits, stands for the number, and does not
/// begin with a zero unless it is the zero.
pub proof fn law_numerals_stand_for_their_numbers(n: nat)
    ensures
        number_of(decimal(n)) == n,
        decimal(n).len() > 0,
        forall|i: int| 0 <= i < decimal(n).len() ==> '0' <= #[trigger] decimal(n)[i] <= '9',
        n > 0 ==> decimal(n)[0] != '0',
        n == 0 ==> decimal(n) == seq!['0'],
    decreases n,
{
    reveal_with_fuel(number_of, 2);
    if n < 10 {
        assert(decimal(n).drop_last() =~= Seq::empty());
        assert(digit(n) as int == '0' as int + n);
    } else {
        law_numerals_stand_for_their_numbers(n / 10);
        assert(decimal(n).drop_last() =~= decimal(n / 10));
        assert(digit(n % 10) as int == '0' as int + n % 10);
        assert(decimal(n)[0] == decimal(n / 10)[0]);
    }
}

/// The first characters of a text are a beginning of it, as long as asked for where the
/// text is that long.
pub proof fn law_first_characters(s: Seq<char>, n: nat)
    ensures
        first_chars(s, n as int).is_prefix_of(s),
        first_chars(s, n as int).len() == if s.len() < n {
            s.len()
        } else {
            n
        },
{
}

} // verus!
