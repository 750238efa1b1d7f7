//! Text helpers: trimming, splitting, prefix removal and decimal numerals.

use vstd::arithmetic::div_mod::lemma_div_denominator;
use vstd::arithmetic::power::{lemma_pow0, lemma_pow1, lemma_pow_positive, pow};
use vstd::prelude::*;
use vstd::string::*;

verus! {

/// The characters with the Unicode property White_Space.
pub open spec fn is_white_space(c: char) -> bool {
    let n = c as int;
    ||| 0x9 <= n <= 0xd
    ||| n == 0x20
    ||| n == 0x85
    ||| n == 0xa0
    ||| n == 0x1680
    ||| 0x2000 <= n <= 0x200a
    ||| n == 0x2028
    ||| n == 0x2029
    ||| n == 0x202f
    ||| n == 0x205f
    ||| n == 0x3000
}

/// `char::is_whitespace` holds of exactly the characters that the Unicode Character Database
/// lists under White_Space.
pub assume_specification[ char::is_whitespace ](c: char) -> (r: bool)
    ensures
        r == is_white_space(c),
;

/// `s` without the white space it starts with.
pub open spec fn trim_start(s: Seq<char>) -> Seq<char>
    decreases s.len(),
{
    if s.len() > 0 && is_white_space(s.first()) {
        trim_start(s.skip(1))
    } else {
        s
    }
}

/// `s` without the white space it ends with.
pub open spec fn trim_end(s: Seq<char>) -> Seq<char>
    decreases s.len(),
{
    if s.len() > 0 && is_white_space(s.last()) {
        trim_end(s.drop_last())
    } else {
        s
    }
}

/// `s` without the white space around it.
pub open spec fn trimmed(s: Seq<char>) -> Seq<char> {
    trim_end(trim_start(s))
}

proof fn lemma_trim_start(s: Seq<char>)
    ensures
        trim_start(s).len() <= s.len(),
        trim_start(s).len() > 0 ==> !is_white_space(trim_start(s).first()) && trim_start(s).last()
            == s.last(),
    decreases s.len(),
{
    if s.len() > 0 && is_white_space(s.first()) {
        lemma_trim_start(s.skip(1));
    }
}

proof fn lemma_trim_end(s: Seq<char>)
    ensures
        trim_end(s).len() <= s.len(),
        trim_end(s).len() > 0 ==> !is_white_space(trim_end(s).last()) && trim_end(s).first()
            == s.first(),
    decreases s.len(),
{
    if s.len() > 0 && is_white_space(s.last()) {
        lemma_trim_end(s.drop_last());
    }
}

/// Trimmed text starts and ends with something other than white space.
pub proof fn lemma_trimmed_ends(s: Seq<char>)
    ensures
        trimmed(s).len() > 0 ==> !is_white_space(trimmed(s).first()) && !is_white_space(
            trimmed(s).last(),
        ),
{
    lemma_trim_start(s);
    lemma_trim_end(trim_start(s));
}

/// Trimming trimmed text changes nothing.
pub proof fn lemma_trimmed_once(s: Seq<char>)
    ensures
        trimmed(trimmed(s)) == trimmed(s),
{
    lemma_trimmed_ends(s);
}

/// White space are the tab to the carriage return, the space, the next-line character, the
/// no-break spaces and the other spaces and separators of Unicode, and nothing else.
pub proof fn law_white_space(c: char)
    ensures
        is_white_space(c) <==> {
            ||| '\u{9}' <= c <= '\u{d}'
            ||| c == ' '
            ||| c == '\u{85}'
            ||| c == '\u{a0}'
            ||| c == '\u{1680}'
            ||| '\u{2000}' <= c <= '\u{200a}'
            ||| '\u{2028}' <= c <= '\u{2029}'
            ||| c == '\u{202f}'
            ||| c == '\u{205f}'
            ||| c == '\u{3000}'
        },
{
}

proof fn lemma_trim_start_of(space: Seq<char>, rest: Seq<char>)
    requires
        forall|i: int| 0 <= i < space.len() ==> is_white_space(#[trigger] space[i]),
    ensures
        trim_start(space + rest) == trim_start(rest),
    decreases space.len(),
{
    if space.len() == 0 {
        assert(space + rest =~= rest);
    } else {
        assert((space + rest).first() == space[0]);
        assert((space + rest).skip(1) =~= space.skip(1) + rest);
        lemma_trim_start_of(space.skip(1), rest);
    }
}

proof fn lemma_trim_end_of(rest: Seq<char>, space: Seq<char>)
    requires
        forall|i: int| 0 <= i < space.len() ==> is_white_space(#[trigger] space[i]),
    ensures
        trim_end(rest + space) == trim_end(rest),
    decreases space.len(),
{
    if space.len() == 0 {
        assert(rest + space =~= rest);
    } else {
        assert((rest + space).last() == space[space.len() - 1]);
        assert((rest + space).drop_last() =~= rest + space.drop_last());
        lemma_trim_end_of(rest, space.drop_last());
    }
}

/// Trimming takes away the white space around a text and nothing else: what stands between stays
/// as it is, white space inside it included.
pub proof fn law_trim_takes_the_white_space_around(
    before: Seq<char>,
    text: Seq<char>,
    after: Seq<char>,
)
    requires
        forall|i: int| 0 <= i < before.len() ==> is_white_space(#[trigger] before[i]),
        forall|i: int| 0 <= i < after.len() ==> is_white_space(#[trigger] after[i]),
        text.len() > 0 ==> !is_white_space(text[0]) && !is_white_space(text[text.len() - 1]),
    ensures
        trimmed(before + text + after) == text,
{
    assert(before + text + after =~= before + (text + after));
    lemma_trim_start_of(before, text + after);
    if text.len() == 0 {
        assert(text + after =~= after + Seq::<char>::empty());
        lemma_trim_start_of(after, Seq::<char>::empty());
        assert(trimmed(before + text + after) =~= text);
    } else {
        assert((text + after).first() == text[0]);
        lemma_trim_end_of(text, after);
    }
}

/// Every text is white space, its trimmed form and white space again, one after the other.
pub proof fn law_trimmed_stands_in_the_text(s: Seq<char>) -> (ends: (int, int))
    ensures
        0 <= ends.0 <= ends.1 <= s.len(),
        trimmed(s) == s.subrange(ends.0, ends.1),
        forall|i: int| 0 <= i < ends.0 ==> is_white_space(#[trigger] s[i]),
        forall|i: int| ends.1 <= i < s.len() ==> is_white_space(#[trigger] s[i]),
{
    let lo = lemma_trim_start_place(s);
    let hi = lemma_trim_end_place(trim_start(s));
    assert(trimmed(s) =~= s.subrange(lo, lo + hi));
    assert forall|i: int| lo + hi <= i < s.len() implies is_white_space(#[trigger] s[i]) by {
        assert(trim_start(s)[i - lo] == s[i]);
    }
    (lo, lo + hi)
}

proof fn lemma_trim_start_place(s: Seq<char>) -> (lo: int)
    ensures
        0 <= lo <= s.len(),
        trim_start(s) == s.skip(lo),
        forall|i: int| 0 <= i < lo ==> is_white_space(#[trigger] s[i]),
    decreases s.len(),
{
    if s.len() > 0 && is_white_space(s.first()) {
        let lo = lemma_trim_start_place(s.skip(1));
        assert(s.skip(1).skip(lo) =~= s.skip(lo + 1));
        assert forall|i: int| 0 <= i < lo + 1 implies is_white_space(#[trigger] s[i]) by {
            if i > 0 {
                assert(s.skip(1)[i - 1] == s[i]);
            }
        }
        lo + 1
    } else {
        assert(s.skip(0) =~= s);
        0
    }
}

proof fn lemma_trim_end_place(s: Seq<char>) -> (hi: int)
    ensures
        0 <= hi <= s.len(),
        trim_end(s) == s.take(hi),
        forall|i: int| hi <= i < s.len() ==> is_white_space(#[trigger] s[i]),
    decreases s.len(),
{
    if s.len() > 0 && is_white_space(s.last()) {
        let hi = lemma_trim_end_place(s.drop_last());
        assert(s.drop_last().take(hi) =~= s.take(hi));
        assert forall|i: int| hi <= i < s.len() implies is_white_space(#[trigger] s[i]) by {
            if i < s.len() - 1 {
                assert(s.drop_last()[i] == s[i]);
            }
        }
        hi
    } else {
        assert(s.take(s.len() as int) =~= s);
        s.len() as int
    }
}

/// The part of `s` between its leading and trailing white space.
pub fn trim(s: &str) -> (res: &str)
    ensures
        res@ == trimmed(s@),
{
    let n: usize = s.unicode_len();
    let mut lo: usize = 0;
    assert(s@.skip(0) =~= s@);
    while lo < n && s.get_char(lo).is_whitespace()
        invariant
            n == s@.len(),
            lo <= n,
            trim_start(s@) == trim_start(s@.skip(lo as int)),
        decreases n - lo,
    {
        assert(s@.skip(lo as int).skip(1) =~= s@.skip(lo + 1));
        lo = lo + 1;
    }
    let mut hi: usize = n;
    assert(s@.subrange(lo as int, n as int) =~= s@.skip(lo as int));
    while lo < hi && s.get_char(hi - 1).is_whitespace()
        invariant
            n == s@.len(),
            lo <= hi <= n,
            trim_end(s@.skip(lo as int)) == trim_end(s@.subrange(lo as int, hi as int)),
        decreases hi,
    {
        assert(s@.subrange(lo as int, hi as int).drop_last() =~= s@.subrange(
            lo as int,
            hi - 1,
        ));
        hi = hi - 1;
    }
    s.substring_char(lo, hi)
}

/// The two sides of the first `c` in `s`, if there is one.
pub open spec fn split_at_first(s: Seq<char>, c: char) -> Option<(Seq<char>, Seq<char>)> {
    match s.index_of_first(c) {
        Some(i) => Some((s.take(i), s.skip(i + 1))),
        None => None,
    }
}

/// A text is split at its first `c` into what stands before and what stands after it; a `c` on the
/// right side is left there. A text without `c` is not split.
pub proof fn law_split_at_the_first(left: Seq<char>, c: char, right: Seq<char>)
    requires
        forall|i: int| 0 <= i < left.len() ==> #[trigger] left[i] != c,
    ensures
        split_at_first(left + seq![c] + right, c) == Some((left, right)),
        split_at_first(left, c) is None,
{
    let s = left + seq![c] + right;
    let n = left.len() as int;
    assert(s[n] == c);
    s.index_of_first_ensures(c);
    let i = s.index_of_first(c).unwrap();
    if i < n {
        assert(left[i] == c);
    }
    assert(s.take(n) =~= left);
    assert(s.skip(n + 1) =~= right);
    left.index_of_first_ensures(c);
}

/// Splits `s` at the first `c`, which belongs to neither side.
pub fn split_once<'a>(s: &'a str, c: char) -> (res: Option<(&'a str, &'a str)>)
    ensures
        match res {
            Some((left, right)) => split_at_first(s@, c) == Some((left@, right@)),
            None => split_at_first(s@, c) is None,
        },
{
    let n: usize = s.unicode_len();
    let mut i: usize = 0;
    while i < n
        invariant
            n == s@.len(),
            i <= n,
            forall|j: int| 0 <= j < i ==> s@[j] != c,
        decreases n - i,
    {
        if s.get_char(i) == c {
            proof {
                s@.index_of_first_ensures(c);
                let k = s@.index_of_first(c).unwrap();
                assert(s@[i as int] == c);
                assert(k == i);
                assert(s@.take(k) =~= s@.subrange(0, k));
                assert(s@.skip(k + 1) =~= s@.subrange(k + 1, n as int));
            }
            return Some((s.substring_char(0, i), s.substring_char(i + 1, n)));
        }
        i = i + 1;
    }
    proof {
        s@.index_of_first_ensures(c);
    }
    None
}

/// `s` without a leading `0x`.
pub open spec fn without_0x(s: Seq<char>) -> Seq<char> {
    if s.len() >= 2 && s[0] == '0' && s[1] == 'x' {
        s.skip(2)
    } else {
        s
    }
}

/// One leading `0x` is dropped, and a text that does not start with it stays as it is.
pub proof fn law_one_0x_is_dropped(text: Seq<char>)
    ensures
        without_0x(seq!['0', 'x'] + text) == text,
        !(text.len() >= 2 && text[0] == '0' && text[1] == 'x') ==> without_0x(text) == text,
{
    assert((seq!['0', 'x'] + text).skip(2) =~= text);
}

/// Drops one leading `0x`, if `s` starts with it.
pub fn strip_0x(s: &str) -> (res: &str)
    ensures
        res@ == without_0x(s@),
{
    let n: usize = s.unicode_len();
    if n >= 2 && s.get_char(0) == '0' && s.get_char(1) == 'x' {
        assert(s@.skip(2) =~= s@.subrange(2, n as int));
        s.substring_char(2, n)
    } else {
        s
    }
}

/// The decimal digit `d`.
pub open spec fn digit(d: nat) -> char
    recommends
        d < 10,
{
    (('0' as int) + d) as char
}

/// `n` as a decimal numeral without leading zeros.
pub open spec fn decimal(n: nat) -> Seq<char>
    decreases n,
{
    if n < 10 {
        seq![digit(n)]
    } else {
        decimal(n / 10).push(digit(n % 10))
    }
}

/// A numeral is made of the decimal digits of its number, each in its place, and of no more digits
/// than the number has.
pub proof fn law_decimal_has_the_digits(n: nat)
    ensures
        decimal(n).len() > 0,
        n == 0 ==> decimal(n).len() == 1,
        n > 0 ==> pow(10, (decimal(n).len() - 1) as nat) <= n,
        n < pow(10, decimal(n).len()),
        forall|i: int|
            0 <= i < decimal(n).len() ==> #[trigger] decimal(n)[decimal(n).len() - 1 - i]
                == "0123456789"@[(n as int / pow(10, i as nat)) % 10],
    decreases n,
{
    reveal_strlit("0123456789");
    let s = decimal(n);
    lemma_pow0(10);
    lemma_pow1(10);
    if n >= 10 {
        let m = n / 10;
        let t = decimal(m);
        law_decimal_has_the_digits(m);
        reveal_with_fuel(pow, 2);
        assert(pow(10, s.len()) == 10 * pow(10, t.len()));
        assert(pow(10, (s.len() - 1) as nat) == 10 * pow(10, (t.len() - 1) as nat));
        assert forall|i: int| 0 <= i < s.len() implies #[trigger] s[s.len() - 1 - i]
            == "0123456789"@[(n as int / pow(10, i as nat)) % 10] by {
            if i > 0 {
                let p = pow(10, (i - 1) as nat);
                lemma_pow_positive(10, (i - 1) as nat);
                assert(pow(10, i as nat) == 10 * p);
                lemma_div_denominator(n as int, 10, p);
                assert(t[t.len() - 1 - (i - 1)] == s[s.len() - 1 - i]);
            }
        }
    }
}

/// Different numbers have different numerals.
pub proof fn law_decimal_is_unique(a: nat, b: nat)
    ensures
        decimal(a) == decimal(b) <==> a == b,
    decreases a,
{
    if decimal(a) == decimal(b) {
        let s = decimal(a);
        if a >= 10 && b >= 10 {
            assert(s.drop_last() =~= decimal(a / 10));
            assert(s.drop_last() =~= decimal(b / 10));
            law_decimal_is_unique(a / 10, b / 10);
            assert(s.last() == digit(a % 10) && s.last() == digit(b % 10));
        } else if a >= 10 {
            law_decimal_has_the_digits(a / 10);
        } else if b >= 10 {
            law_decimal_has_the_digits(b / 10);
        } else {
            assert(s[0] == digit(a) && s[0] == digit(b));
        }
    }
}

fn digit_text(d: u64) -> (res: &'static str)
    requires
        d < 10,
    ensures
        res@ == seq![digit(d as nat)],
{
    proof {
        reveal_strlit("0");
        reveal_strlit("1");
        reveal_strlit("2");
        reveal_strlit("3");
        reveal_strlit("4");
        reveal_strlit("5");
        reveal_strlit("6");
        reveal_strlit("7");
        reveal_strlit("8");
        reveal_strlit("9");
    }
    let res = match d {
        0 => "0",
        1 => "1",
        2 => "2",
        3 => "3",
        4 => "4",
        5 => "5",
        6 => "6",
        7 => "7",
        8 => "8",
        _ => "9",
    };
    assert(res@ =~= seq![digit(d as nat)]);
    res
}

/// Writes `n` in decimal.
pub fn decimal_text(n: u64) -> (res: String)
    ensures
        res@ == decimal(n as nat),
    decreases n,
{
    if n < 10 {
        digit_text(n).to_owned()
    } else {
        let mut res = decimal_text(n / 10);
        res.append(digit_text(n % 10));
        assert(res@ =~= decimal((n / 10) as nat).push(digit((n % 10) as nat)));
        res
    }
}

} // verus!
