use vstd::prelude::*;
use vstd::std_specs::iter::IteratorSpec;

verus! {

/// Unicode white space (the `White_Space` property), which separates the
/// fields of a palette line.
pub open spec fn is_white_space(c: char) -> bool {
    ||| '\u{9}' <= c <= '\u{d}'
    ||| c == ' '
    ||| c == '\u{85}'
    ||| c == '\u{a0}'
    ||| c == '\u{1680}'
    ||| '\u{2000}' <= c <= '\u{200a}'
    ||| c == '\u{2028}'
    ||| c == '\u{2029}'
    ||| c == '\u{202f}'
    ||| c == '\u{205f}'
    ||| c == '\u{3000}'
}

pub(crate) fn white_space(c: char) -> (r: bool)
    ensures
        r == is_white_space(c),
{
    ('\u{9}' <= c && c <= '\u{d}') || c == ' ' || c == '\u{85}' || c == '\u{a0}' || c == '\u{1680}' || ('\u{2000}'
        <= c && c <= '\u{200a}') || c == '\u{2028}' || c == '\u{2029}' || c == '\u{202f}' || c == '\u{205f}' || c
        == '\u{3000}'
}

/// The first position at or after `i` that is not white space (or the end).
pub open spec fn word_start(s: Seq<char>, i: int) -> int
    decreases s.len() - i,
{
    if i >= s.len() {
        s.len() as int
    } else if is_white_space(s[i]) {
        word_start(s, i + 1)
    } else {
        i
    }
}

/// The first position at or after `i` that is white space (or the end).
pub open spec fn word_end(s: Seq<char>, i: int) -> int
    decreases s.len() - i,
{
    if i >= s.len() {
        s.len() as int
    } else if is_white_space(s[i]) {
        i
    } else {
        word_end(s, i + 1)
    }
}

/// The value of a string of decimal digits.
pub open spec fn decimal_value(d: Seq<char>) -> int
    decreases d.len(),
{
    if d.len() == 0 {
        0
    } else {
        decimal_value(d.drop_last()) * 10 + (d.last() as int - '0' as int)
    }
}

pub open spec fn all_digits(d: Seq<char>) -> bool {
    forall|i: int| 0 <= i < d.len() ==> '0' <= #[trigger] d[i] <= '9'
}

pub(crate) fn chars_of(s: &str) -> (r: Vec<char>)
    ensures
        r@ == s@,
{
    broadcast use vstd::string::axiom_spec_iter, vstd::string::next_postcondition;

    let mut out: Vec<char> = Vec::new();
    let mut it = s.chars();
    loop
        invariant
            out@ + it.remaining() == s@,
            it.obeys_prophetic_iter_laws(),
            it.decrease() is Some,
        ensures
            out@ == s@,
        decreases it.decrease()->0,
    {
        match it.next() {
            Some(c) => {
                out.push(c);
            },
            None => {
                break;
            },
        }
    }
    out
}

pub(crate) fn skip_white_space(s: &Vec<char>, i: usize) -> (r: usize)
    requires
        i <= s@.len(),
    ensures
        r == word_start(s@, i as int),
{
    let mut j = i;
    while j < s.len() && white_space(s[j])
        invariant
            i <= j <= s@.len(),
            word_start(s@, i as int) == word_start(s@, j as int),
        decreases s@.len() - j,
    {
        j = j + 1;
    }
    j
}

pub(crate) fn skip_word(s: &Vec<char>, i: usize) -> (r: usize)
    requires
        i <= s@.len(),
    ensures
        r == word_end(s@, i as int),
{
    let mut j = i;
    while j < s.len() && !white_space(s[j])
        invariant
            i <= j <= s@.len(),
            word_end(s@, i as int) == word_end(s@, j as int),
        decreases s@.len() - j,
    {
        j = j + 1;
    }
    j
}

pub proof fn lemma_word_bounds(s: Seq<char>, i: int)
    requires
        0 <= i <= s.len(),
    ensures
        i <= word_start(s, i) <= s.len(),
        i <= word_end(s, i) <= s.len(),
    decreases s.len() - i,
{
    if i < s.len() {
        lemma_word_bounds(s, i + 1);
    }
}

pub(crate) proof fn lemma_decimal_prefix(d: Seq<char>, k: int)
    requires
        0 <= k < d.len(),
    ensures
        decimal_value(d.subrange(0, k + 1)) == decimal_value(d.subrange(0, k)) * 10 + (d[k] as int - '0' as int),
{
    assert(d.subrange(0, k + 1).drop_last() =~= d.subrange(0, k));
}

pub(crate) proof fn lemma_decimal_grows(d: Seq<char>, k: int, m: int)
    requires
        0 <= k <= m <= d.len(),
        all_digits(d.subrange(0, m)),
    ensures
        0 <= decimal_value(d.subrange(0, k)) <= decimal_value(d.subrange(0, m)),
    decreases m,
{
    if k == m && k > 0 {
        lemma_decimal_grows(d, k - 1, m - 1);
        lemma_decimal_prefix(d, m - 1);
        assert(d.subrange(0, m)[m - 1] == d[m - 1]);
    }
    if k < m {
        lemma_decimal_grows(d, k, m - 1);
        lemma_decimal_prefix(d, m - 1);
        assert(d.subrange(0, m)[m - 1] == d[m - 1]);
    }
}

pub proof fn lemma_word_start_in_word(s: Seq<char>, i: int)
    requires
        0 <= i <= s.len(),
        word_start(s, i) < s.len(),
    ensures
        !is_white_space(s[word_start(s, i)]),
    decreases s.len() - i,
{
    if i < s.len() && is_white_space(s[i]) {
        lemma_word_start_in_word(s, i + 1);
    }
}

/// The white-space separated words of `line` from position `i` on.
pub open spec fn words_from(line: Seq<char>, i: int) -> Seq<Seq<char>>
    decreases line.len() - i,
    when 0 <= i <= line.len()
{
    let a = word_start(line, i);
    if a >= line.len() {
        Seq::empty()
    } else {
        let b = word_end(line, a);
        proof {
            lemma_word_bounds(line, i);
            lemma_word_start_in_word(line, i);
            lemma_word_bounds(line, a + 1);
        }
        seq![line.subrange(a, b)] + words_from(line, b)
    }
}

/// The white-space separated words of a line.
pub open spec fn line_words(line: Seq<char>) -> Seq<Seq<char>> {
    words_from(line, 0)
}

/// The position of the first line feed at or after `i` (or the end).
pub open spec fn line_end(s: Seq<char>, i: int) -> int
    decreases s.len() - i,
{
    if i >= s.len() {
        s.len() as int
    } else if s[i] == '\n' {
        i
    } else {
        line_end(s, i + 1)
    }
}

pub proof fn lemma_line_end_bounds(s: Seq<char>, i: int)
    requires
        0 <= i <= s.len(),
    ensures
        i <= line_end(s, i) <= s.len(),
        line_end(s, i) < s.len() ==> s[line_end(s, i)] == '\n',
    decreases s.len() - i,
{
    if i < s.len() && s[i] != '\n' {
        lemma_line_end_bounds(s, i + 1);
    }
}

/// The lines of `s` from position `i` on: the runs between line feeds, where
/// a final line feed ends the last line rather than starting an empty one.
pub open spec fn lines_from(s: Seq<char>, i: int) -> Seq<Seq<char>>
    decreases s.len() + 1 - i,
    when 0 <= i
{
    if i >= s.len() {
        Seq::empty()
    } else {
        let e = line_end(s, i);
        proof {
            lemma_line_end_bounds(s, i);
        }
        seq![s.subrange(i, e)] + lines_from(s, e + 1)
    }
}

/// The lines of a text.
pub open spec fn text_lines(s: Seq<char>) -> Seq<Seq<char>> {
    lines_from(s, 0)
}

/// The texts of a list of words.
pub open spec fn word_views(words: Seq<Vec<char>>) -> Seq<Seq<char>> {
    words.map_values(|w: Vec<char>| w@)
}

/// A copy of `s[from..to]`.
pub(crate) fn copy_range(s: &Vec<char>, from: usize, to: usize) -> (r: Vec<char>)
    requires
        from <= to <= s@.len(),
    ensures
        r@ == s@.subrange(from as int, to as int),
{
    let mut out: Vec<char> = Vec::new();
    let mut i = from;
    while i < to
        invariant
            from <= i <= to <= s@.len(),
            out@ == s@.subrange(from as int, i as int),
        decreases to - i,
    {
        out.push(s[i]);
        i = i + 1;
    }
    out
}

/// The white-space separated words of a line, in order.
pub(crate) fn split_words(line: &Vec<char>) -> (r: Vec<Vec<char>>)
    ensures
        word_views(r@) == line_words(line@),
{
    let mut out: Vec<Vec<char>> = Vec::new();
    let mut i: usize = 0;
    loop
        invariant
            i <= line@.len(),
            word_views(out@) + words_from(line@, i as int) == line_words(line@),
        decreases line@.len() - i,
    {
        let a = skip_white_space(line, i);
        proof {
            lemma_word_bounds(line@, i as int);
        }
        if a >= line.len() {
            proof {
                assert(word_views(out@) + Seq::<Seq<char>>::empty() =~= word_views(out@));
            }
            return out;
        }
        let b = skip_word(line, a);
        proof {
            lemma_word_start_in_word(line@, i as int);
            lemma_word_bounds(line@, a as int + 1);
        }
        let word = copy_range(line, a, b);
        let ghost before = word_views(out@);
        out.push(word);
        proof {
            assert(word_views(out@) =~= before.push(word@));
            assert(words_from(line@, i as int) == seq![line@.subrange(a as int, b as int)] + words_from(line@, b as int));
            assert(word_views(out@) + words_from(line@, b as int) =~= before + words_from(line@, i as int));
        }
        i = b;
    }
}

} // verus!
