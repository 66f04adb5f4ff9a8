//! Characters, words and decimal numbers.
use crate::split::{
    kept, lemma_kept_concat, lemma_split_around, lemma_split_plain, lemma_strip_end,
    lemma_strip_start, law_strip_end, law_strip_start, split, strip_end, strip_start,
};
use vstd::prelude::*;
use vstd::string::*;

verus! {

/// The characters of each string of a list.
pub open spec fn texts(list: Seq<String>) -> Seq<Seq<char>> {
    list.map_values(|s: String| s@)
}

/// Tells whether two strings hold the same characters.
pub fn same_text(a: &str, b: &str) -> (r: bool)
    ensures
        r == (a@ == b@),
{
    a.to_owned() == b.to_owned()
}

/// The characters of a string, in order.
pub fn chars_of(s: &str) -> (r: Vec<char>)
    ensures
        r@ == s@,
{
    let mut r: Vec<char> = Vec::new();
    for c in it: s.chars()
        invariant
            it.seq() == s@,
            r@ == s@.take(it.index() as int),
    {
        r.push(c);
    }
    assert(s@.take(s@.len() as int) == s@);
    r
}

// ---------------------------------------------------------------------------------------------
// Words
// ---------------------------------------------------------------------------------------------
/// The characters with the Unicode property `White_Space`.
pub open spec fn is_whitespace(c: char) -> bool {
    ||| '\u{9}' <= c <= '\u{d}'
    ||| c == '\u{20}'
    ||| c == '\u{85}'
    ||| c == '\u{a0}'
    ||| c == '\u{1680}'
    ||| '\u{2000}' <= c <= '\u{200a}'
    ||| '\u{2028}' <= c <= '\u{2029}'
    ||| c == '\u{202f}'
    ||| c == '\u{205f}'
    ||| c == '\u{3000}'
}

/// [`is_whitespace`] as a predicate that can be handed on.
pub open spec fn whitespace() -> spec_fn(char) -> bool {
    |c: char| is_whitespace(c)
}

/// Holds for a piece with at least one character.
pub open spec fn some_text() -> spec_fn(Seq<char>) -> bool {
    |w: Seq<char>| w.len() > 0
}

/// The maximal runs of characters that are not white space, in order.
pub open spec fn words(s: Seq<char>) -> Seq<Seq<char>> {
    kept(split(s, whitespace()), some_text())
}

/// `s` without white space at its two ends.
pub open spec fn trimmed(s: Seq<char>) -> Seq<char> {
    strip_end(strip_start(s, whitespace()), whitespace())
}

/// Tells whether a character is white space.
pub fn whitespace_char(c: char) -> (r: bool)
    ensures
        r == is_whitespace(c),
{
    ('\u{9}' <= c && c <= '\u{d}') || c == '\u{20}' || c == '\u{85}' || c == '\u{a0}' || c
        == '\u{1680}' || ('\u{2000}' <= c && c <= '\u{200a}') || ('\u{2028}' <= c && c
        <= '\u{2029}') || c == '\u{202f}' || c == '\u{205f}' || c == '\u{3000}'
}

/// Cuts a line into its words.
pub fn split_words(line: &str) -> (r: Vec<String>)
    ensures
        texts(r@) == words(line@),
{
    let cs = chars_of(line);
    let mut r: Vec<String> = Vec::new();
    let mut start: usize = 0;
    let mut i: usize = 0;
    let ghost sep = whitespace();
    assert(cs@.take(0) == Seq::<char>::empty());
    assert(split(cs@.take(0), sep).drop_last() =~= Seq::<Seq<char>>::empty());
    assert(texts(r@) =~= Seq::<Seq<char>>::empty());
    while i < cs.len()
        invariant
            cs@ == line@,
            sep == whitespace(),
            start <= i <= cs@.len(),
            split(cs@.take(i as int), sep).len() >= 1,
            split(cs@.take(i as int), sep).last() == cs@.subrange(start as int, i as int),
            texts(r@) == kept(split(cs@.take(i as int), sep).drop_last(), some_text()),
        decreases cs@.len() - i,
    {
        let ghost before = split(cs@.take(i as int), sep);
        assert(cs@.take(i + 1).drop_last() == cs@.take(i as int));
        assert(cs@.take(i + 1).last() == cs@[i as int]);
        if whitespace_char(cs[i]) {
            proof {
                assert(split(cs@.take(i + 1), sep) == before.push(Seq::<char>::empty()));
                assert(split(cs@.take(i + 1), sep).drop_last() == before);
            }
            if start < i {
                let word = line.substring_char(start, i).to_owned();
                let ghost old_r = r@;
                r.push(word);
                assert(texts(r@) =~= texts(old_r).push(before.last()));
            }
            start = i + 1;
            assert(cs@.subrange(start as int, i + 1) == Seq::<char>::empty());
        } else {
            proof {
                let after = split(cs@.take(i + 1), sep);
                assert(after == before.drop_last().push(before.last().push(cs@[i as int])));
                assert(after.drop_last() == before.drop_last());
                assert(before.last().push(cs@[i as int]) == cs@.subrange(start as int, i + 1));
            }
        }
        i += 1;
    }
    assert(cs@.take(cs@.len() as int) == line@);
    if start < i {
        let word = line.substring_char(start, i).to_owned();
        let ghost old_r = r@;
        r.push(word);
        assert(texts(r@) =~= texts(old_r).push(split(line@, sep).last()));
    }
    r
}

/// A line without white space at its two ends.
pub fn trim(line: &str) -> (r: &str)
    ensures
        r@ == trimmed(line@),
{
    let cs = chars_of(line);
    let mut from: usize = 0;
    while from < cs.len() && whitespace_char(cs[from])
        invariant
            cs@ == line@,
            from <= cs@.len(),
            forall|j: int| 0 <= j < from ==> whitespace()(#[trigger] cs@[j]),
        decreases cs@.len() - from,
    {
        from += 1;
    }
    proof {
        lemma_strip_start(line@, whitespace(), from as int);
    }
    let ghost rest = line@.skip(from as int);
    let mut to: usize = cs.len();
    while to > from && whitespace_char(cs[to - 1])
        invariant
            cs@ == line@,
            from <= to <= cs@.len(),
            forall|j: int| to <= j < cs@.len() ==> whitespace()(#[trigger] cs@[j]),
        decreases to,
    {
        to -= 1;
    }
    proof {
        assert forall|j: int| to - from <= j < rest.len() implies whitespace()(
            #[trigger] rest[j],
        ) by {
            assert(rest[j] == cs@[j + from]);
        }
        lemma_strip_end(rest, whitespace(), to - from);
        assert(rest.take(to - from) == line@.subrange(from as int, to as int));
    }
    line.substring_char(from, to)
}

// ---------------------------------------------------------------------------------------------
// Decimal numbers
// ---------------------------------------------------------------------------------------------
/// The decimal digit with the value `d`.
pub open spec fn digit(d: nat) -> char
    recommends
        d < 10,
{
    ('0' as int + d) as char
}

/// The decimal digits of `n`, without leading zeros.
pub open spec fn decimal(n: nat) -> Seq<char>
    decreases n,
{
    if n < 10 {
        seq![digit(n)]
    } else {
        decimal(n / 10).push(digit(n % 10))
    }
}

/// Why a text is not a number in range.
#[derive(Clone, Copy, PartialEq, Eq, Debug, Structural)]
pub enum NumberError {
    /// There is nothing to read.
    Empty,
    /// A character is not a digit.
    InvalidDigit,
    /// The number is over the limit.
    TooLarge,
}

/// The value of a run of digits that may not pass `max`, or what is wrong at the first character
/// at which something is.
pub open spec fn digits_value(s: Seq<char>, max: nat) -> Result<nat, NumberError>
    decreases s.len(),
{
    if s.len() == 0 {
        Ok(0)
    } else {
        match digits_value(s.drop_last(), max) {
            Err(e) => Err(e),
            Ok(v) => if !('0' <= s.last() <= '9') {
                Err(NumberError::InvalidDigit)
            } else if v * 10 + (s.last() as int - '0' as int) > max {
                Err(NumberError::TooLarge)
            } else {
                Ok((v * 10 + (s.last() as int - '0' as int)) as nat)
            },
        }
    }
}

/// The number that `s` writes, at most `max`: digits, at least one, with an optional `+` before
/// them.
pub open spec fn number(s: Seq<char>, max: nat) -> Result<nat, NumberError> {
    if s.len() == 0 {
        Err(NumberError::Empty)
    } else if s[0] == '+' {
        if s.len() == 1 {
            Err(NumberError::InvalidDigit)
        } else {
            digits_value(s.skip(1), max)
        }
    } else {
        digits_value(s, max)
    }
}

/// The words for a [`NumberError`].
pub open spec fn number_error(e: NumberError) -> Seq<char> {
    match e {
        NumberError::Empty => "cannot parse integer from empty string"@,
        NumberError::InvalidDigit => "invalid digit found in string"@,
        NumberError::TooLarge => "number too large to fit in target type"@,
    }
}

impl NumberError {
    /// The words for this error.
    pub fn text(&self) -> (r: &'static str)
        ensures
            r@ == number_error(*self),
    {
        match self {
            NumberError::Empty => "cannot parse integer from empty string",
            NumberError::InvalidDigit => "invalid digit found in string",
            NumberError::TooLarge => "number too large to fit in target type",
        }
    }
}

/// One decimal digit as a text.
fn digit_text(d: u64) -> (r: &'static str)
    requires
        d < 10,
    ensures
        r@ == seq![digit(d as nat)],
{
    proof {
        reveal_strlit("0");
        reveal_strlit("1");
        reveal_strlit("2");
        reveal_strlit("3");
        reveal_strlit("4");
        reveal_strlit("5");
        reveal_strlit("6");
        reveal_strlit("7");
        reveal_strlit("8");
        reveal_strlit("9");
    }
    match d {
        0 => "0",
        1 => "1",
        2 => "2",
        3 => "3",
        4 => "4",
        5 => "5",
        6 => "6",
        7 => "7",
        8 => "8",
        _ => "9",
    }
}

/// Writes a number in decimal.
pub fn to_decimal(n: u64) -> (r: String)
    ensures
        r@ == decimal(n as nat),
    decreases n,
{
    if n < 10 {
        digit_text(n).to_owned()
    } else {
        let mut r = to_decimal(n / 10);
        r.append(digit_text(n % 10));
        assert(r@ =~= decimal(n as nat));
        r
    }
}

/// Reads a decimal number that is at most `max`.
pub fn parse_number(s: &str, max: u64) -> (r: Result<u64, NumberError>)
    ensures
        match number(s@, max as nat) {
            Ok(v) => r == Ok::<u64, NumberError>(v as u64) && v <= max,
            Err(e) => r == Err::<u64, NumberError>(e),
        },
{
    let cs = chars_of(s);
    if cs.len() == 0 {
        return Err(NumberError::Empty);
    }
    let mut i: usize = 0;
    if cs[0] == '+' {
        if cs.len() == 1 {
            return Err(NumberError::InvalidDigit);
        }
        i = 1;
    }
    let ghost ds = if s@[0] == '+' {
        s@.skip(1)
    } else {
        s@
    };
    let ghost first = i as int;
    let mut v: u64 = 0;
    assert(ds.take(0) == Seq::<char>::empty());
    while i < cs.len()
        invariant
            cs@ == s@,
            0 <= first <= i <= cs@.len(),
            first <= 1,
            ds == s@.skip(first),
            ds.len() == s@.len() - first,
            number(s@, max as nat) == digits_value(ds, max as nat),
            v <= max,
            digits_value(ds.take(i - first), max as nat) == Ok::<nat, NumberError>(v as nat),
        decreases cs@.len() - i,
    {
        let c = cs[i];
        proof {
            assert(ds.take(i - first + 1).drop_last() == ds.take(i - first));
            assert(ds.take(i - first + 1).last() == c);
        }
        if c < '0' || c > '9' {
            proof {
                lemma_digits_error(ds, max as nat, i - first + 1);
            }
            return Err(NumberError::InvalidDigit);
        }
        let d: u64 = c as u64 - '0' as u64;
        if d > max || v > (max - d) / 10 {
            proof {
                lemma_digits_error(ds, max as nat, i - first + 1);
            }
            return Err(NumberError::TooLarge);
        }
        v = v * 10 + d;
        i += 1;
    }
    assert(ds.take(ds.len() as int) == ds);
    Ok(v)
}

/// What is wrong with the beginning of a run of digits is wrong with all of it.
proof fn lemma_digits_error(s: Seq<char>, max: nat, n: int)
    requires
        0 <= n <= s.len(),
        digits_value(s.take(n), max) is Err,
    ensures
        digits_value(s, max) == digits_value(s.take(n), max),
    decreases s.len() - n,
{
    if n < s.len() {
        assert(s.take(n + 1).drop_last() == s.take(n));
        lemma_digits_error(s, max, n + 1);
    } else {
        assert(s.take(n) == s);
    }
}

// ---------------------------------------------------------------------------------------------
// Laws
// ---------------------------------------------------------------------------------------------
/// Two texts with white space between them have the words of both.
pub proof fn law_words_of_two_texts(a: Seq<char>, x: char, b: Seq<char>)
    requires
        is_whitespace(x),
    ensures
        words(a.push(x) + b) == words(a) + words(b),
{
    lemma_split_around(a, x, b, whitespace());
    lemma_kept_concat(split(a, whitespace()), split(b, whitespace()), some_text());
}

/// A text without white space is one word.
pub proof fn law_word_is_itself(w: Seq<char>)
    requires
        w.len() > 0,
        forall|i: int| 0 <= i < w.len() ==> !is_whitespace(#[trigger] w[i]),
    ensures
        words(w) == seq![w],
{
    assert forall|i: int| 0 <= i < w.len() implies !whitespace()(#[trigger] w[i]) by {
        assert(!is_whitespace(w[i]));
    }
    lemma_split_plain(w, whitespace());
    reveal_with_fuel(kept, 2);
    assert(seq![w].drop_last() =~= Seq::<Seq<char>>::empty());
    assert(words(w) =~= seq![w]);
}

/// The empty text has no words.
pub proof fn lemma_no_words()
    ensures
        words(Seq::<char>::empty()) == Seq::<Seq<char>>::empty(),
{
    reveal_with_fuel(kept, 2);
    assert(words(Seq::<char>::empty()) =~= Seq::<Seq<char>>::empty());
}

proof fn lemma_strip_start_keeps_words(s: Seq<char>)
    ensures
        words(strip_start(s, whitespace())) == words(s),
    decreases s.len(),
{
    if s.len() > 0 && is_whitespace(s[0]) {
        let none = Seq::<char>::empty();
        lemma_strip_start_keeps_words(s.skip(1));
        law_words_of_two_texts(none, s[0], s.skip(1));
        lemma_no_words();
        assert(none.push(s[0]) + s.skip(1) =~= s);
        assert(words(none) + words(s.skip(1)) =~= words(s.skip(1)));
    }
}

proof fn lemma_strip_end_keeps_words(s: Seq<char>)
    ensures
        words(strip_end(s, whitespace())) == words(s),
    decreases s.len(),
{
    if s.len() > 0 && is_whitespace(s.last()) {
        let none = Seq::<char>::empty();
        lemma_strip_end_keeps_words(s.drop_last());
        law_words_of_two_texts(s.drop_last(), s.last(), none);
        lemma_no_words();
        assert(s.drop_last().push(s.last()) + none =~= s);
        assert(words(s.drop_last()) + words(none) =~= words(s.drop_last()));
    }
}

/// White space at the ends of a text makes no difference to its words.
pub proof fn law_trimming_keeps_words(s: Seq<char>)
    ensures
        words(trimmed(s)) == words(s),
{
    lemma_strip_start_keeps_words(s);
    lemma_strip_end_keeps_words(strip_start(s, whitespace()));
}

proof fn lemma_decimal_value(n: nat, max: nat)
    requires
        n <= max,
    ensures
        digits_value(decimal(n), max) == Ok::<nat, NumberError>(n),
        decimal(n).len() > 0,
        '0' <= decimal(n)[0] <= '9',
    decreases n,
{
    if n < 10 {
        let s = seq![digit(n)];
        assert(s.drop_last() =~= Seq::<char>::empty());
        assert(digits_value(s.drop_last(), max) == Ok::<nat, NumberError>(0));
        assert(s.last() as int == '0' as int + n);
    } else {
        lemma_decimal_value(n / 10, max);
        assert(decimal(n).drop_last() =~= decimal(n / 10));
        assert(decimal(n).last() as int == '0' as int + n % 10);
        assert(decimal(n)[0] == decimal(n / 10)[0]);
    }
}

/// A number that is written in decimal is read back, if it is in range.
pub proof fn law_decimal_is_read_back(n: nat, max: nat)
    requires
        n <= max,
    ensures
        number(decimal(n), max) == Ok::<nat, NumberError>(n),
{
    lemma_decimal_value(n, max);
}

/// A number that was read is in range.
pub proof fn law_number_is_in_range(s: Seq<char>, max: nat)
    ensures
        number(s, max) matches Ok(n) ==> n <= max,
{
    lemma_digits_in_range(s, max);
    if s.len() > 0 {
        lemma_digits_in_range(s.skip(1), max);
    }
}

proof fn lemma_digits_in_range(s: Seq<char>, max: nat)
    ensures
        digits_value(s, max) matches Ok(n) ==> n <= max,
    decreases s.len(),
{
    if s.len() > 0 {
        lemma_digits_in_range(s.drop_last(), max);
    }
}

/// Trimming takes away white space at the two ends, all of it and nothing else.
pub proof fn law_trimming_takes_white_space(s: Seq<char>) -> (ends: (int, int))
    ensures
        0 <= ends.0 <= ends.1 <= s.len(),
        trimmed(s) == s.subrange(ends.0, ends.1),
        forall|i: int|
            (0 <= i < ends.0 || ends.1 <= i < s.len()) ==> is_whitespace(#[trigger] s[i]),
        ends.0 < ends.1 ==> !is_whitespace(s[ends.0]) && !is_whitespace(s[ends.1 - 1]),
{
    let from = law_strip_start(s, whitespace());
    let rest = s.skip(from);
    let n = law_strip_end(rest, whitespace());
    assert(rest.take(n) =~= s.subrange(from, from + n));
    assert forall|i: int| (0 <= i < from || from + n <= i < s.len()) implies is_whitespace(
        #[trigger] s[i],
    ) by {
        if i < from {
            assert(whitespace()(s[i]));
        } else {
            assert(whitespace()(rest[i - from]));
        }
    }
    if n > 0 {
        assert(rest[n - 1] == s[from + n - 1]);
        assert(rest[0] == s[from]);
    }
    (from, from + n)
}

/// The empty text is no number, and one character is one if it is a digit, with the value of the
/// digit.
pub proof fn law_number_of_one_character(c: char, max: nat)
    ensures
        number(Seq::empty(), max) == Err::<nat, NumberError>(NumberError::Empty),
        number(seq![c], max) == if !('0' <= c <= '9') {
            Err::<nat, NumberError>(NumberError::InvalidDigit)
        } else if c as int - '0' as int > max {
            Err(NumberError::TooLarge)
        } else {
            Ok((c as int - '0' as int) as nat)
        },
{
    let s = seq![c];
    reveal_with_fuel(digits_value, 2);
    assert(s.drop_last() =~= Seq::<char>::empty());
}

/// One more character behind a number is a digit that counts for itself, the rest ten times; what
/// is wrong at the front stays wrong.
pub proof fn law_number_grows_by_a_digit(s: Seq<char>, c: char, max: nat)
    requires
        s.len() > 0,
        s != seq!['+'],
    ensures
        number(s.push(c), max) == match number(s, max) {
            Err(e) => Err::<nat, NumberError>(e),
            Ok(v) => if !('0' <= c <= '9') {
                Err(NumberError::InvalidDigit)
            } else if 10 * v + (c as int - '0' as int) > max {
                Err(NumberError::TooLarge)
            } else {
                Ok((10 * v + (c as int - '0' as int)) as nat)
            },
        },
{
    let all = s.push(c);
    assert(all.drop_last() =~= s);
    assert(all[0] == s[0]);
    if s[0] == '+' {
        if s.len() == 1 {
            assert(s =~= seq!['+']);
        }
        assert(all.skip(1).drop_last() =~= s.skip(1));
        assert(all.skip(1).last() == c);
    }
}

/// A plus sign before a number makes no difference, and it does not stand for a digit.
pub proof fn law_plus_makes_no_difference(s: Seq<char>, max: nat)
    ensures
        s.len() > 0 && s[0] != '+' ==> number(seq!['+'] + s, max) == number(s, max),
        s.len() == 0 || s[0] == '+' ==> number(seq!['+'] + s, max) == Err::<nat, NumberError>(
            NumberError::InvalidDigit,
        ),
{
    let all = seq!['+'] + s;
    assert(all.skip(1) =~= s);
    if s.len() > 0 && s[0] == '+' {
        assert(s.take(1).drop_last() =~= Seq::<char>::empty());
        assert(s.take(1).last() == '+');
        reveal_with_fuel(digits_value, 2);
        lemma_digits_error(s, max, 1);
    }
}

/// A number in decimal is made of digits alone, and begins with a zero only if it is zero.
pub proof fn law_decimal_has_no_leading_zeros(n: nat)
    ensures
        decimal(n).len() > 0,
        forall|i: int| 0 <= i < decimal(n).len() ==> '0' <= #[trigger] decimal(n)[i] <= '9',
        decimal(n)[0] == '0' ==> n == 0 && decimal(n).len() == 1,
    decreases n,
{
    if n >= 10 {
        law_decimal_has_no_leading_zeros(n / 10);
        assert(decimal(n)[0] == decimal(n / 10)[0]);
        assert('0' <= digit(n % 10) <= '9');
    } else {
        assert(digit(n) as int == '0' as int + n);
    }
}

// ---------------------------------------------------------------------------------------------
// Fixed texts with gaps
// ---------------------------------------------------------------------------------------------
/// Holds for a text with one gap: the same words stand before and behind it, whatever fills it.
pub open spec fn has_one_gap(f: spec_fn(Seq<char>) -> Seq<char>) -> bool {
    exists|a: Seq<char>, b: Seq<char>| #[trigger] is_one_gap(f, a, b)
}

/// The words around the gap of a text.
pub open spec fn is_one_gap(
    f: spec_fn(Seq<char>) -> Seq<char>,
    a: Seq<char>,
    b: Seq<char>,
) -> bool {
    forall|x: Seq<char>| #[trigger] f(x) == a + x + b
}

/// Holds for a text with two gaps: the same words stand before, between and behind them, whatever
/// fills them.
pub open spec fn has_two_gaps(f: spec_fn(Seq<char>, Seq<char>) -> Seq<char>) -> bool {
    exists|a: Seq<char>, b: Seq<char>, c: Seq<char>| #[trigger] is_two_gaps(f, a, b, c)
}

/// The words around the two gaps of a text.
pub open spec fn is_two_gaps(
    f: spec_fn(Seq<char>, Seq<char>) -> Seq<char>,
    a: Seq<char>,
    b: Seq<char>,
    c: Seq<char>,
) -> bool {
    forall|x: Seq<char>, y: Seq<char>| #[trigger] f(x, y) == a + x + b + y + c
}

/// Holds for a text with three gaps: the same words stand before, between and behind them, whatever
/// fills them.
pub open spec fn has_three_gaps(f: spec_fn(Seq<char>, Seq<char>, Seq<char>) -> Seq<char>) -> bool {
    exists|a: Seq<char>, b: Seq<char>, c: Seq<char>, d: Seq<char>|
        #[trigger] is_three_gaps(f, a, b, c, d)
}

/// The words around the three gaps of a text.
pub open spec fn is_three_gaps(
    f: spec_fn(Seq<char>, Seq<char>, Seq<char>) -> Seq<char>,
    a: Seq<char>,
    b: Seq<char>,
    c: Seq<char>,
    d: Seq<char>,
) -> bool {
    forall|x: Seq<char>, y: Seq<char>, z: Seq<char>|
        #[trigger] f(x, y, z) == a + x + b + y + c + z + d
}

/// Tells whether a text holds another one at a given place.
pub open spec fn mentions_at(text: Seq<char>, part: Seq<char>, i: int) -> bool {
    0 <= i && i + part.len() <= text.len() && text.subrange(i, i + part.len()) == part
}

/// Tells whether a text holds another one.
pub open spec fn mentions(text: Seq<char>, part: Seq<char>) -> bool {
    exists|i: int| #[trigger] mentions_at(text, part, i)
}

/// A text holds what stands between two others.
pub proof fn lemma_mentions(a: Seq<char>, part: Seq<char>, b: Seq<char>)
    ensures
        mentions(a + part + b, part),
        mentions(a + part, part),
{
    assert((a + part + b).subrange(a.len() as int, (a.len() + part.len()) as int) =~= part);
    assert(mentions_at(a + part + b, part, a.len() as int));
    assert((a + part).subrange(a.len() as int, (a.len() + part.len()) as int) =~= part);
    assert(mentions_at(a + part, part, a.len() as int));
}

/// The texts of a list are the characters of its strings, each in its place.
pub proof fn law_texts(list: Seq<String>)
    ensures
        texts(list).len() == list.len(),
        forall|i: int| 0 <= i < list.len() ==> #[trigger] texts(list)[i] == list[i]@,
{
}

} // verus!
