//! Character-level reading of text lines: classes of characters, splitting
//! into words and fields, and the two kinds of number that a mesh file holds.

use vstd::prelude::*;
use vstd::std_specs::iter::IteratorSpec;

verus! {

/// The characters with the Unicode property `White_Space`.
pub open spec fn is_space(c: char) -> bool {
    let n = c as u32;
    ||| 0x09 <= n <= 0x0D
    ||| n == 0x20
    ||| n == 0x85
    ||| n == 0xA0
    ||| n == 0x1680
    ||| 0x2000 <= n <= 0x200A
    ||| n == 0x2028
    ||| n == 0x2029
    ||| n == 0x202F
    ||| n == 0x205F
    ||| n == 0x3000
}

/// The ten ASCII decimal digits.
pub open spec fn is_digit(c: char) -> bool {
    '0' <= c <= '9'
}

/// The value of a decimal digit.
pub open spec fn digit_value(c: char) -> nat
    recommends
        is_digit(c),
{
    (c as u32 - '0' as u32) as nat
}

/// `+` or `-`.
pub open spec fn is_sign(c: char) -> bool {
    c == '+' || c == '-'
}

/// Whether every character of `s` is a decimal digit.
pub open spec fn all_digits(s: Seq<char>) -> bool {
    forall|i: int| 0 <= i < s.len() ==> is_digit(#[trigger] s[i])
}

/// A set of characters that a run may be made of.
#[derive(Clone, Copy, Debug)]
pub enum CharClass {
    /// Every character that is not blank.
    NonBlank,
    /// The decimal digits.
    Digit,
    /// The decimal digits and the decimal point.
    DigitOrDot,
    /// Every character but the given one.
    Except(char),
}

impl CharClass {
    /// Whether `c` belongs to the class.
    pub open spec fn has(self, c: char) -> bool {
        match self {
            CharClass::NonBlank => !is_space(c),
            CharClass::Digit => is_digit(c),
            CharClass::DigitOrDot => is_digit(c) || c == '.',
            CharClass::Except(x) => c != x,
        }
    }

    /// Whether `c` belongs to the class.
    pub fn contains(&self, c: char) -> (b: bool)
        ensures
            b == self.has(c),
    {
        match self {
            CharClass::NonBlank => !char_is_space(c),
            CharClass::Digit => char_is_digit(c),
            CharClass::DigitOrDot => char_is_digit(c) || c == '.',
            CharClass::Except(x) => c != *x,
        }
    }
}

/// Length of the longest prefix of `s` made of characters of `class`.
pub open spec fn run_len(s: Seq<char>, class: CharClass) -> nat
    decreases s.len(),
{
    if s.len() == 0 || !class.has(s[0]) {
        0
    } else {
        1 + run_len(s.drop_first(), class)
    }
}

/// The maximal runs of non-blank characters of `s`, in order.
pub open spec fn words(s: Seq<char>) -> Seq<Seq<char>>
    decreases s.len(),
{
    let n = run_len(s, CharClass::NonBlank);
    if s.len() == 0 {
        Seq::empty()
    } else if n == 0 {
        words(s.drop_first())
    } else {
        proof {
            lemma_run_len(s, CharClass::NonBlank);
        }
        seq![s.take(n as int)].add(words(s.skip(n as int)))
    }
}

/// The pieces of `s` between occurrences of `sep`. There is always at least
/// one piece, and a piece may be empty.
pub open spec fn fields(s: Seq<char>, sep: char) -> Seq<Seq<char>>
    decreases s.len(),
{
    let n = run_len(s, CharClass::Except(sep));
    if n >= s.len() {
        seq![s]
    } else {
        proof {
            lemma_run_len(s, CharClass::Except(sep));
        }
        seq![s.take(n as int)].add(fields(s.skip(n as int + 1), sep))
    }
}

/// The subsequences of `s` that the index pairs of `r` delimit.
pub open spec fn slices(s: Seq<char>, r: Seq<(usize, usize)>) -> Seq<Seq<char>> {
    Seq::new(r.len(), |k: int| s.subrange(r[k].0 as int, r[k].1 as int))
}

/// Whether each pair of `r` is a range between `lo` and `hi`.
pub open spec fn ranges_within(r: Seq<(usize, usize)>, lo: int, hi: int) -> bool {
    forall|k: int| 0 <= k < r.len() ==> lo <= (#[trigger] r[k]).0 <= r[k].1 <= hi
}

/// The number that a string of decimal digits writes.
pub open spec fn decimal_value(s: Seq<char>) -> nat
    decreases s.len(),
{
    if s.len() == 0 {
        0
    } else {
        10 * decimal_value(s.drop_last()) + digit_value(s.last())
    }
}

/// The unsigned integer that `s` writes: an optional `+`, then one or more
/// decimal digits and nothing else. `None` for any other text.
pub open spec fn parse_unsigned(s: Seq<char>) -> Option<nat> {
    let body = if s.len() > 0 && s[0] == '+' {
        s.skip(1)
    } else {
        s
    };
    if body.len() > 0 && all_digits(body) {
        Some(decimal_value(body))
    } else {
        None
    }
}

/// The index that `s` writes, or 0 where `s` writes no unsigned integer or
/// one that `usize` cannot hold.
pub open spec fn index_or_zero(s: Seq<char>) -> nat {
    match parse_unsigned(s) {
        Some(v) => if v <= usize::MAX {
            v
        } else {
            0
        },
        None => 0,
    }
}

/// The code of `c`, with the code of the lower-case letter for an ASCII
/// capital.
pub open spec fn folded(c: char) -> u32 {
    if 'A' <= c <= 'Z' {
        (c as u32 + 32) as u32
    } else {
        c as u32
    }
}

/// Whether `s` is the lower-case word `w`, up to the case of its letters.
pub open spec fn is_word(s: Seq<char>, w: Seq<char>) -> bool {
    &&& s.len() == w.len()
    &&& forall|i: int| 0 <= i < s.len() ==> folded(#[trigger] s[i]) == w[i] as u32
}

/// Digits around at most one decimal point, with a digit on at least one
/// side of it.
pub open spec fn is_mantissa(s: Seq<char>) -> bool {
    let k = run_len(s, CharClass::Digit) as int;
    if k >= s.len() {
        s.len() > 0
    } else {
        s[k] == '.' && s.len() >= 2 && all_digits(s.skip(k + 1))
    }
}

/// `e` or `E`, an optional sign, and one or more digits.
pub open spec fn is_exponent(s: Seq<char>) -> bool {
    &&& s.len() >= 2
    &&& (s[0] == 'e' || s[0] == 'E')
    &&& {
        let d = if is_sign(s[1]) {
            s.skip(2)
        } else {
            s.skip(1)
        };
        d.len() > 0 && all_digits(d)
    }
}

/// A mantissa, and an exponent or nothing after it.
pub open spec fn is_decimal(s: Seq<char>) -> bool {
    let m = run_len(s, CharClass::DigitOrDot) as int;
    is_mantissa(s.take(m)) && (m >= s.len() || is_exponent(s.skip(m)))
}

/// `inf`, `infinity` or `nan`, in any case of the letters.
pub open spec fn is_special(s: Seq<char>) -> bool {
    ||| is_word(s, seq!['i', 'n', 'f'])
    ||| is_word(s, seq!['i', 'n', 'f', 'i', 'n', 'i', 't', 'y'])
    ||| is_word(s, seq!['n', 'a', 'n'])
}

/// Whether `s` writes a real number: an optional sign, then a decimal
/// number with an optional exponent, or one of the words for infinity and
/// for "not a number".
pub open spec fn is_number(s: Seq<char>) -> bool {
    let body = if s.len() > 0 && is_sign(s[0]) {
        s.skip(1)
    } else {
        s
    };
    is_special(body) || is_decimal(body)
}

/// A run is a prefix, its characters are of the class, and the character
/// after it, if any, is not.
pub proof fn lemma_run_len(s: Seq<char>, class: CharClass)
    ensures
        0 <= run_len(s, class) <= s.len(),
        forall|i: int| 0 <= i < run_len(s, class) ==> class.has(#[trigger] s[i]),
        run_len(s, class) < s.len() ==> !class.has(s[run_len(s, class) as int]),
    decreases s.len(),
{
    if s.len() == 0 || !class.has(s[0]) {
    } else {
        let t = s.drop_first();
        lemma_run_len(t, class);
        assert forall|i: int| 0 <= i < run_len(s, class) implies class.has(#[trigger] s[i]) by {
            if i > 0 {
                assert(s[i] == t[i - 1]);
            }
        }
        if run_len(s, class) < s.len() {
            assert(s[run_len(s, class) as int] == t[run_len(t, class) as int]);
        }
    }
}

/// A prefix of `n` characters of the class, followed by the end of the text
/// or by a character outside the class, is the run.
pub proof fn lemma_run_len_is(s: Seq<char>, class: CharClass, n: int)
    requires
        0 <= n <= s.len(),
        forall|i: int| 0 <= i < n ==> class.has(#[trigger] s[i]),
        n < s.len() ==> !class.has(s[n]),
    ensures
        run_len(s, class) == n,
    decreases n,
{
    if n == 0 {
    } else {
        let t = s.drop_first();
        assert forall|i: int| 0 <= i < n - 1 implies class.has(#[trigger] t[i]) by {
            assert(t[i] == s[i + 1]);
        }
        if n - 1 < t.len() {
            assert(t[n - 1] == s[n]);
        }
        lemma_run_len_is(t, class, n - 1);
    }
}

/// Digits written after a number multiply it by ten each, so a prefix of a
/// digit string writes no more than the whole.
pub proof fn lemma_decimal_prefix(s: Seq<char>, k: int)
    requires
        0 <= k <= s.len(),
    ensures
        decimal_value(s.take(k)) <= decimal_value(s),
    decreases s.len() - k,
{
    if k == s.len() {
        assert(s.take(k) == s);
    } else {
        lemma_decimal_prefix(s.drop_last(), k);
        assert(s.drop_last().take(k) == s.take(k));
    }
}

/// Whether `c` is a blank character.
pub fn char_is_space(c: char) -> (b: bool)
    ensures
        b == is_space(c),
{
    let n: u32 = c as u32;
    (0x09 <= n && n <= 0x0D) || n == 0x20 || n == 0x85 || n == 0xA0 || n == 0x1680 || (0x2000 <= n
        && n <= 0x200A) || n == 0x2028 || n == 0x2029 || n == 0x202F || n == 0x205F || n == 0x3000
}

/// Whether `c` is a decimal digit.
pub fn char_is_digit(c: char) -> (b: bool)
    ensures
        b == is_digit(c),
{
    '0' <= c && c <= '9'
}

/// The characters of `s`, in order.
pub fn chars_of(s: &str) -> (v: Vec<char>)
    ensures
        v@ == s@,
{
    let mut v: Vec<char> = Vec::new();
    let chars = s.chars();
    proof {
        broadcast use vstd::string::group_string_axioms;
    }
    for c in it: chars
        invariant
            it.seq() == s@,
            v@ == s@.take(it.index() as int),
    {
        v.push(c);
    }
    assert(v@ == s@);
    v
}

/// One past the last character of the run of `class` that starts at `from`
/// in the part of `s` that ends before `to`.
pub fn run_end(s: &Vec<char>, from: usize, to: usize, class: CharClass) -> (end: usize)
    requires
        from <= to <= s.len(),
    ensures
        from <= end <= to,
        end - from == run_len(s@.subrange(from as int, to as int), class),
{
    let mut j: usize = from;
    while j < to && class.contains(s[j])
        invariant
            from <= j <= to <= s.len(),
            forall|i: int| from <= i < j ==> class.has(#[trigger] s@[i]),
        decreases to - j,
    {
        j += 1;
    }
    proof {
        let t = s@.subrange(from as int, to as int);
        assert forall|i: int| 0 <= i < j - from implies class.has(#[trigger] t[i]) by {
            assert(t[i] == s@[from + i]);
        }
        lemma_run_len_is(t, class, j - from);
    }
    j
}

/// Splits a line into its words: the positions of the maximal runs of
/// non-blank characters.
pub fn split_words(s: &Vec<char>) -> (r: Vec<(usize, usize)>)
    ensures
        ranges_within(r@, 0, s@.len() as int),
        slices(s@, r@) == words(s@),
{
    let mut r: Vec<(usize, usize)> = Vec::new();
    let mut i: usize = 0;
    let n = s.len();
    assert(s@.skip(0) == s@);
    while i < n
        invariant
            i <= n == s.len(),
            ranges_within(r@, 0, s@.len() as int),
            slices(s@, r@).add(words(s@.skip(i as int))) == words(s@),
        decreases n - i,
    {
        let ghost rest = s@.skip(i as int);
        assert(rest == s@.subrange(i as int, n as int));
        let j = run_end(s, i, n, CharClass::NonBlank);
        if j == i {
            assert(rest.drop_first() == s@.skip(i + 1));
            i += 1;
        } else {
            proof {
                assert(rest.take(j - i) == s@.subrange(i as int, j as int));
                assert(rest.skip(j - i) == s@.skip(j as int));
                assert(slices(s@, r@.push((i, j))) == slices(s@, r@).push(
                    s@.subrange(i as int, j as int),
                ));
                assert(slices(s@, r@).add(seq![rest.take(j - i)].add(words(rest.skip(j - i))))
                    == slices(s@, r@.push((i, j))).add(words(s@.skip(j as int))));
            }
            r.push((i, j));
            i = j;
        }
    }
    assert(slices(s@, r@).add(Seq::empty()) == slices(s@, r@));
    r
}

/// Splits the part of `s` from `from` up to `to` at each `sep`: the
/// positions of the pieces between the separators.
pub fn split_fields(s: &Vec<char>, from: usize, to: usize, sep: char) -> (r: Vec<(usize, usize)>)
    requires
        from <= to <= s.len(),
    ensures
        ranges_within(r@, from as int, to as int),
        slices(s@, r@) == fields(s@.subrange(from as int, to as int), sep),
        r@.len() >= 1,
{
    let mut r: Vec<(usize, usize)> = Vec::new();
    let mut i: usize = from;
    let ghost whole = s@.subrange(from as int, to as int);
    loop
        invariant_except_break
            slices(s@, r@).add(fields(s@.subrange(i as int, to as int), sep)) == fields(whole, sep),
        invariant
            from <= i <= to <= s.len(),
            whole == s@.subrange(from as int, to as int),
            ranges_within(r@, from as int, to as int),
        ensures
            ranges_within(r@, from as int, to as int),
            slices(s@, r@) == fields(whole, sep),
            r@.len() >= 1,
        decreases to - i,
    {
        let ghost rest = s@.subrange(i as int, to as int);
        let ghost before = slices(s@, r@);
        let j = run_end(s, i, to, CharClass::Except(sep));
        proof {
            assert(slices(s@, r@.push((i, j))) == before.push(s@.subrange(i as int, j as int)));
            assert(rest.take(j - i) == s@.subrange(i as int, j as int));
        }
        r.push((i, j));
        if j == to {
            proof {
                assert(rest.take(j - i) == rest);
                assert(before.add(seq![rest]) == slices(s@, r@));
            }
            break ;
        }
        proof {
            assert(rest.skip(j - i + 1) == s@.subrange(j + 1, to as int));
            assert(before.push(rest.take(j - i)).add(fields(rest.skip(j - i + 1), sep))
                == before.add(seq![rest.take(j - i)].add(fields(rest.skip(j - i + 1), sep))));
        }
        i = j + 1;
    }
    r
}

/// Reads the digits of `s` from `from` up to `to` as a decimal number that
/// fits `usize`.
fn digits_at(s: &Vec<char>, from: usize, to: usize) -> (r: Option<usize>)
    requires
        from <= to <= s.len(),
    ensures
        r == ({
            let d = s@.subrange(from as int, to as int);
            if all_digits(d) && decimal_value(d) <= usize::MAX {
                Some(decimal_value(d) as usize)
            } else {
                None
            }
        }),
{
    let ghost d = s@.subrange(from as int, to as int);
    let mut acc: usize = 0;
    let mut i: usize = from;
    assert(d.take(0) == Seq::<char>::empty());
    while i < to
        invariant
            from <= i <= to <= s.len(),
            d == s@.subrange(from as int, to as int),
            all_digits(d.take(i - from)),
            acc == decimal_value(d.take(i - from)),
        decreases to - i,
    {
        let c = s[i];
        assert(c == d[i - from]);
        if !char_is_digit(c) {
            return None;
        }
        let v: usize = (c as u32 - '0' as u32) as usize;
        proof {
            let pre = d.take(i - from + 1);
            assert(pre.drop_last() == d.take(i - from));
            assert(pre.last() == c);
            assert(decimal_value(pre) == 10 * acc + v);
            lemma_decimal_prefix(d, i - from + 1);
            assert forall|k: int| 0 <= k < pre.len() implies is_digit(#[trigger] pre[k]) by {
                if k < i - from {
                    assert(pre[k] == d.take(i - from)[k]);
                }
            }
        }
        if acc > (usize::MAX - v) / 10 {
            return None;
        }
        acc = acc * 10 + v;
        i += 1;
    }
    assert(d.take(to - from) == d);
    Some(acc)
}

/// The index written in `s` from `from` up to `to`, or 0 where that text
/// writes none.
pub fn index_at(s: &Vec<char>, from: usize, to: usize) -> (r: usize)
    requires
        from <= to <= s.len(),
    ensures
        r == index_or_zero(s@.subrange(from as int, to as int)),
{
    let ghost t = s@.subrange(from as int, to as int);
    let start: usize = if from < to && s[from] == '+' {
        from + 1
    } else {
        from
    };
    proof {
        if start > from {
            assert(t[0] == s@[from as int]);
            assert(t.skip(1) == s@.subrange(start as int, to as int));
        } else if from < to {
            assert(t[0] == s@[from as int]);
        }
    }
    if start == to {
        return 0;
    }
    match digits_at(s, start, to) {
        Some(v) => v,
        None => 0,
    }
}

/// A text is made of digits exactly when its run of digits is the whole of
/// it.
pub proof fn lemma_all_digits_run(s: Seq<char>)
    ensures
        all_digits(s) <==> run_len(s, CharClass::Digit) == s.len(),
{
    lemma_run_len(s, CharClass::Digit);
}

/// Whether the part of `s` from `from` up to `to` is made of digits only.
fn digits_only(s: &Vec<char>, from: usize, to: usize) -> (b: bool)
    requires
        from <= to <= s.len(),
    ensures
        b == all_digits(s@.subrange(from as int, to as int)),
{
    let end = run_end(s, from, to, CharClass::Digit);
    proof {
        lemma_all_digits_run(s@.subrange(from as int, to as int));
    }
    end == to
}

/// Whether `c` is the lower-case ASCII letter `l` or its capital.
fn is_letter(c: char, l: char) -> (b: bool)
    requires
        'a' <= l <= 'z',
    ensures
        b == (folded(c) == l as u32),
{
    let n: u32 = c as u32;
    let f: u32 = if 65 <= n && n <= 90 {
        n + 32
    } else {
        n
    };
    f == l as u32
}

/// Whether the part of `s` from `from` up to `to` is one of the words for
/// infinity and for "not a number".
fn special_at(s: &Vec<char>, from: usize, to: usize) -> (b: bool)
    requires
        from <= to <= s.len(),
    ensures
        b == is_special(s@.subrange(from as int, to as int)),
{
    let ghost t = s@.subrange(from as int, to as int);
    let n = to - from;
    if n == 3 {
        assert(t[0] == s@[from + 0] && t[1] == s@[from + 1] && t[2] == s@[from + 2]);
        (is_letter(s[from], 'i') && is_letter(s[from + 1], 'n') && is_letter(s[from + 2], 'f'))
            || (is_letter(s[from], 'n') && is_letter(s[from + 1], 'a') && is_letter(
            s[from + 2],
            'n',
        ))
    } else if n == 8 {
        assert(t[0] == s@[from + 0] && t[1] == s@[from + 1] && t[2] == s@[from + 2] && t[3] == s@[from
            + 3] && t[4] == s@[from + 4] && t[5] == s@[from + 5] && t[6] == s@[from + 6] && t[7]
            == s@[from + 7]);
        is_letter(s[from], 'i') && is_letter(s[from + 1], 'n') && is_letter(s[from + 2], 'f')
            && is_letter(s[from + 3], 'i') && is_letter(s[from + 4], 'n') && is_letter(
            s[from + 5],
            'i',
        ) && is_letter(s[from + 6], 't') && is_letter(s[from + 7], 'y')
    } else {
        false
    }
}

/// Whether the part of `s` from `from` up to `to` is a mantissa.
fn mantissa_at(s: &Vec<char>, from: usize, to: usize) -> (b: bool)
    requires
        from <= to <= s.len(),
    ensures
        b == is_mantissa(s@.subrange(from as int, to as int)),
{
    let ghost t = s@.subrange(from as int, to as int);
    let k = run_end(s, from, to, CharClass::Digit);
    if k == to {
        to > from
    } else {
        assert(t[k - from] == s@[k as int]);
        assert(t.skip(k - from + 1) == s@.subrange(k + 1, to as int));
        s[k] == '.' && to - from >= 2 && digits_only(s, k + 1, to)
    }
}

/// Whether the part of `s` from `from` up to `to` is an exponent.
fn exponent_at(s: &Vec<char>, from: usize, to: usize) -> (b: bool)
    requires
        from <= to <= s.len(),
    ensures
        b == is_exponent(s@.subrange(from as int, to as int)),
{
    let ghost t = s@.subrange(from as int, to as int);
    if to - from < 2 {
        return false;
    }
    assert(t[0] == s@[from + 0] && t[1] == s@[from + 1]);
    if !(s[from] == 'e' || s[from] == 'E') {
        return false;
    }
    let start: usize = if s[from + 1] == '+' || s[from + 1] == '-' {
        from + 2
    } else {
        from + 1
    };
    assert(t.skip(start - from) == s@.subrange(start as int, to as int));
    start < to && digits_only(s, start, to)
}

/// Whether the part of `s` from `from` up to `to` is a decimal number.
fn decimal_at(s: &Vec<char>, from: usize, to: usize) -> (b: bool)
    requires
        from <= to <= s.len(),
    ensures
        b == is_decimal(s@.subrange(from as int, to as int)),
{
    let ghost t = s@.subrange(from as int, to as int);
    let m = run_end(s, from, to, CharClass::DigitOrDot);
    assert(t.take(m - from) == s@.subrange(from as int, m as int));
    assert(t.skip(m - from) == s@.subrange(m as int, to as int));
    mantissa_at(s, from, m) && (m == to || exponent_at(s, m, to))
}

/// Whether the part of `s` from `from` up to `to` writes a real number.
pub fn number_at(s: &Vec<char>, from: usize, to: usize) -> (b: bool)
    requires
        from <= to <= s.len(),
    ensures
        b == is_number(s@.subrange(from as int, to as int)),
{
    let ghost t = s@.subrange(from as int, to as int);
    let start: usize = if from < to && (s[from] == '+' || s[from] == '-') {
        from + 1
    } else {
        from
    };
    proof {
        if from < to {
            assert(t[0] == s@[from as int]);
        }
        assert(t.skip(start - from) == s@.subrange(start as int, to as int));
        assert(t.skip(0) == t);
    }
    special_at(s, start, to) || decimal_at(s, start, to)
}

} // verus!
