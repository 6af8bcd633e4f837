use vstd::prelude::*;
use crate::words::{
    all_digits, chars_of, decimal_value, lemma_decimal_grows, lemma_decimal_prefix, lemma_word_bounds, skip_white_space,
    skip_word, word_end, word_start, is_white_space,
};

verus! {

/// What a word reads as an 8-bit number: an optional `+` and then one or
/// more decimal digits whose value is at most 255.
pub open spec fn u8_text_value(w: Seq<char>) -> Option<u8> {
    let d = if w.len() > 0 && w[0] == '+' {
        w.drop_first()
    } else {
        w
    };
    if d.len() > 0 && all_digits(d) && decimal_value(d) <= 255 {
        Some(decimal_value(d) as u8)
    } else {
        None
    }
}

/// A palette line that names the palette.
pub open spec fn is_name_line(line: Seq<char>) -> bool {
    line.len() >= 6 && line.subrange(0, 6) == "Name: "@
}

/// The color that a palette line gives: its first three white-space
/// separated words read as 8-bit numbers, when there are three and all read.
pub open spec fn line_color(line: Seq<char>) -> Option<(u8, u8, u8)> {
    let a0 = word_start(line, 0);
    let a1 = word_end(line, a0);
    let b0 = word_start(line, a1);
    let b1 = word_end(line, b0);
    let c0 = word_start(line, b1);
    let c1 = word_end(line, c0);
    if is_name_line(line) || c0 >= line.len() {
        None
    } else {
        match (
            u8_text_value(line.subrange(a0, a1)),
            u8_text_value(line.subrange(b0, b1)),
            u8_text_value(line.subrange(c0, c1)),
        ) {
            (Some(r), Some(g), Some(b)) => Some((r, g, b)),
            _ => None,
        }
    }
}

/// The colors of lines 1 to `n - 1`, in order.
pub open spec fn palette_colors(lines: Seq<Seq<char>>, n: int) -> Seq<(u8, u8, u8)>
    decreases n,
{
    if n <= 1 {
        Seq::empty()
    } else {
        palette_colors(lines, n - 1) + match line_color(lines[n - 1]) {
            Some(c) => seq![c],
            None => Seq::empty(),
        }
    }
}

/// The name that lines 1 to `n - 1` give: that of the last name line, or
/// empty.
pub open spec fn palette_name(lines: Seq<Seq<char>>, n: int) -> Seq<char>
    decreases n,
{
    if n <= 1 {
        Seq::empty()
    } else if is_name_line(lines[n - 1]) {
        lines[n - 1].subrange(6, lines[n - 1].len() as int)
    } else {
        palette_name(lines, n - 1)
    }
}

/// The first line that could not be read among lines 0 to `n - 1`.
pub open spec fn first_read_error(lines: Seq<Result<String, String>>, n: int) -> Option<int>
    decreases n,
{
    if n <= 0 {
        None
    } else {
        match first_read_error(lines, n - 1) {
            Some(i) => Some(i),
            None => if lines[n - 1] is Err {
                Some(n - 1)
            } else {
                None
            },
        }
    }
}

/// The text of the lines that were read.
pub open spec fn line_texts(lines: Seq<Result<String, String>>) -> Seq<Seq<char>> {
    lines.map_values(|l: Result<String, String>| l.unwrap()@)
}

/// A palette read from GIMP palette text, with 8-bit color channels.
pub struct GplPalette {
    pub name: String,
    pub colors: Vec<(u8, u8, u8)>,
}

/// What `s[from..to]` reads as an 8-bit number.
fn parse_u8(s: &Vec<char>, from: usize, to: usize) -> (r: Option<u8>)
    requires
        from <= to <= s@.len(),
    ensures
        r == u8_text_value(s@.subrange(from as int, to as int)),
{
    let ghost w = s@.subrange(from as int, to as int);
    let mut start = from;
    if from < to && s[from] == '+' {
        start = from + 1;
    }
    let ghost d = s@.subrange(start as int, to as int);
    proof {
        assert(w.len() > 0 ==> w[0] == s@[from as int]);
        if from < to && s@[from as int] == '+' {
            assert(d =~= w.drop_first());
        } else {
            assert(d =~= w);
        }
    }
    if start == to {
        return None;
    }
    let mut value: u32 = 0;
    let mut i = start;
    while i < to
        invariant
            from <= start < to <= s@.len(),
            start <= i <= to,
            d == s@.subrange(start as int, to as int),
            w == s@.subrange(from as int, to as int),
            d == (if w.len() > 0 && w[0] == '+' { w.drop_first() } else { w }),
            all_digits(d.subrange(0, i - start)),
            value == decimal_value(d.subrange(0, i - start)),
            value <= 255,
        decreases to - i,
    {
        let c = s[i];
        if !('0' <= c && c <= '9') {
            proof {
                assert(d[i - start] == c);
                assert(!all_digits(d));
            }
            return None;
        }
        let digit = (c as u32) - ('0' as u32);
        proof {
            lemma_decimal_prefix(d, i - start);
            assert(d[i - start] == c);
            assert(all_digits(d.subrange(0, i - start + 1)));
        }
        let next = value * 10 + digit;
        if next > 255 {
            proof {
                assert(d.subrange(0, i - start + 1) =~= d.subrange(0, i + 1 - start));
                if all_digits(d) {
                    lemma_decimal_grows(d, i + 1 - start, d.len() as int);
                    assert(d.subrange(0, d.len() as int) =~= d);
                }
            }
            return None;
        }
        value = next;
        i = i + 1;
    }
    proof {
        assert(d.subrange(0, i - start) =~= d);
    }
    Some(value as u8)
}

fn is_name_prefixed(s: &Vec<char>) -> (r: bool)
    ensures
        r == is_name_line(s@),
{
    if s.len() < 6 {
        return false;
    }
    let r = s[0] == 'N' && s[1] == 'a' && s[2] == 'm' && s[3] == 'e' && s[4] == ':' && s[5] == ' ';
    proof {
        reveal_strlit("Name: ");
        if r {
            assert(s@.subrange(0, 6) =~= "Name: "@);
        } else {
            if s@.subrange(0, 6) == "Name: "@ {
                assert(s@.subrange(0, 6)[0] == s@[0]);
                assert(s@.subrange(0, 6)[1] == s@[1]);
                assert(s@.subrange(0, 6)[2] == s@[2]);
                assert(s@.subrange(0, 6)[3] == s@[3]);
                assert(s@.subrange(0, 6)[4] == s@[4]);
                assert(s@.subrange(0, 6)[5] == s@[5]);
            }
        }
    }
    r
}

/// The color that a palette line gives, if any.
fn read_line_color(s: &Vec<char>) -> (r: Option<(u8, u8, u8)>)
    ensures
        r == line_color(s@),
{
    if is_name_prefixed(s) {
        return None;
    }
    let a0 = skip_white_space(s, 0);
    proof {
        lemma_word_bounds(s@, 0);
    }
    let a1 = skip_word(s, a0);
    proof {
        lemma_word_bounds(s@, a0 as int);
    }
    let b0 = skip_white_space(s, a1);
    proof {
        lemma_word_bounds(s@, a1 as int);
    }
    let b1 = skip_word(s, b0);
    proof {
        lemma_word_bounds(s@, b0 as int);
    }
    let c0 = skip_white_space(s, b1);
    proof {
        lemma_word_bounds(s@, b1 as int);
    }
    if c0 >= s.len() {
        return None;
    }
    let c1 = skip_word(s, c0);
    proof {
        lemma_word_bounds(s@, c0 as int);
    }
    let r = parse_u8(s, a0, a1);
    let g = parse_u8(s, b0, b1);
    let b = parse_u8(s, c0, c1);
    match (r, g, b) {
        (Some(r), Some(g), Some(b)) => Some((r, g, b)),
        _ => None,
    }
}

/// Reads a GIMP palette from its lines, each read or failed: the first line
/// must be `GIMP Palette`; after it, `Name: ` lines name the palette and
/// lines starting with three 8-bit numbers give colors, in order. Reading
/// stops at the first line that failed, whose error is returned.
pub fn parse_gpl(lines: &Vec<Result<String, String>>) -> (r: Result<GplPalette, String>)
    ensures
        lines@.len() == 0 ==> (r matches Err(e) && e@ == "first line of palette must be 'GIMP Palette'"@),
        (lines@.len() > 0 && lines@[0] is Err) ==> r == Err::<GplPalette, String>(lines@[0]->Err_0),
        (lines@.len() > 0 && lines@[0] is Ok && lines@[0]->Ok_0@ != "GIMP Palette"@) ==> (r matches Err(e)
            && e@ == "first line of palette must be 'GIMP Palette'"@),
        (lines@.len() > 0 && lines@[0] is Ok && lines@[0]->Ok_0@ == "GIMP Palette"@) ==> match first_read_error(
            lines@,
            lines@.len() as int,
        ) {
            Some(i) => r == Err::<GplPalette, String>(lines@[i]->Err_0),
            None => (r matches Ok(p) && p.name@ == palette_name(line_texts(lines@), lines@.len() as int)
                && p.colors@ == palette_colors(line_texts(lines@), lines@.len() as int)),
        },
{
    let first_line_error = "first line of palette must be 'GIMP Palette'";
    if lines.len() == 0 {
        return Err(first_line_error.to_owned());
    }
    match &lines[0] {
        Err(e) => {
            return Err(e.clone());
        },
        Ok(first) => {
            if !(first.as_str().to_owned() == "GIMP Palette".to_owned()) {
                return Err(first_line_error.to_owned());
            }
        },
    }
    let ghost texts = line_texts(lines@);
    let mut name = String::new();
    let mut colors: Vec<(u8, u8, u8)> = Vec::new();
    let mut i: usize = 1;
    assert(first_read_error(lines@, 0) is None);
    while i < lines.len()
        invariant
            1 <= i <= lines@.len(),
            texts == line_texts(lines@),
            lines@[0] is Ok,
            lines@[0]->Ok_0@ == "GIMP Palette"@,
            first_read_error(lines@, i as int) is None,
            name@ == palette_name(texts, i as int),
            colors@ == palette_colors(texts, i as int),
        decreases lines@.len() - i,
    {
        let line = match &lines[i] {
            Err(e) => {
                proof {
                    lemma_first_read_error_grows(lines@, i as int + 1, lines@.len() as int);
                }
                return Err(e.clone());
            },
            Ok(line) => line,
        };
        let chars = chars_of(line.as_str());
        proof {
            assert(texts[i as int] == line@);
        }
        if is_name_prefixed(&chars) {
            name = line.as_str().substring_char(6, chars.len()).to_owned();
        } else {
            match read_line_color(&chars) {
                Some(color) => {
                    colors.push(color);
                },
                None => {},
            }
        }
        proof {
            assert(palette_colors(texts, i as int + 1) == palette_colors(texts, i as int) + match line_color(
                texts[i as int],
            ) {
                Some(c) => seq![c],
                None => Seq::<(u8, u8, u8)>::empty(),
            });
            if !is_name_line(line@) {
                match line_color(line@) {
                    Some(c) => {},
                    None => {
                        assert(colors@ =~= palette_colors(texts, i as int) + Seq::<(u8, u8, u8)>::empty());
                    },
                }
            } else {
                assert(colors@ =~= palette_colors(texts, i as int) + Seq::<(u8, u8, u8)>::empty());
            }
        }
        i = i + 1;
    }
    Ok(GplPalette { name, colors })
}

proof fn lemma_first_read_error_grows(lines: Seq<Result<String, String>>, n: int, m: int)
    requires
        0 < n <= m,
        first_read_error(lines, n - 1) is None,
        lines[n - 1] is Err,
    ensures
        first_read_error(lines, m) == Some(n - 1),
    decreases m - n,
{
    if m > n {
        lemma_first_read_error_grows(lines, n, m - 1);
    }
}

/// A palette's name is the whole text after `Name: ` on the last line from
/// line 1 on that starts with it, spaces and all: putting `Name: ` back in
/// front of the name gives that line again. With no such line the name is
/// empty.
pub proof fn law_palette_name(lines: Seq<Seq<char>>, n: int, k: int)
    requires
        1 <= k < n <= lines.len(),
        lines[k].len() >= 6,
        lines[k].take(6) == "Name: "@,
        forall|j: int| k < j < n ==> !(#[trigger] lines[j].len() >= 6 && lines[j].take(6) == "Name: "@),
    ensures
        "Name: "@ + palette_name(lines, n) == lines[k],
    decreases n,
{
    if n - 1 > k {
        assert(!(lines[n - 1].len() >= 6 && lines[n - 1].take(6) == "Name: "@));
        assert(lines[n - 1].len() >= 6 ==> lines[n - 1].subrange(0, 6) == lines[n - 1].take(6));
        law_palette_name(lines, n - 1, k);
    } else {
        assert(lines[k].subrange(0, 6) =~= lines[k].take(6));
        assert("Name: "@ + lines[k].subrange(6, lines[k].len() as int) =~= lines[k]);
    }
}

/// With no line from line 1 on starting with `Name: `, the palette has no
/// name.
pub proof fn law_palette_without_name(lines: Seq<Seq<char>>, n: int)
    requires
        n <= lines.len(),
        forall|j: int| 1 <= j < n ==> !(#[trigger] lines[j].len() >= 6 && lines[j].take(6) == "Name: "@),
    ensures
        palette_name(lines, n).len() == 0,
    decreases n,
{
    if n > 1 {
        assert(!(lines[n - 1].len() >= 6 && lines[n - 1].take(6) == "Name: "@));
        assert(lines[n - 1].len() >= 6 ==> lines[n - 1].subrange(0, 6) == lines[n - 1].take(6));
        law_palette_without_name(lines, n - 1);
    }
}

proof fn lemma_word_end_run(s: Seq<char>, i: int, n: int)
    requires
        0 <= i,
        0 <= n,
        i + n <= s.len(),
        forall|j: int| i <= j < i + n ==> !is_white_space(#[trigger] s[j]),
        i + n == s.len() || is_white_space(s[i + n]),
    ensures
        word_end(s, i) == i + n,
    decreases n,
{
    if n > 0 {
        lemma_word_end_run(s, i + 1, n - 1);
        assert(!is_white_space(s[i]));
    }
}

/// A palette line that starts with three numbers from 0 to 255 written in
/// decimal digits, each followed by a space (the last one may end the
/// line), gives the color with those red, green and blue channels, in that
/// order.
pub proof fn law_line_color(r: Seq<char>, g: Seq<char>, b: Seq<char>, rest: Seq<char>)
    requires
        r.len() > 0 && all_digits(r) && decimal_value(r) <= 255,
        g.len() > 0 && all_digits(g) && decimal_value(g) <= 255,
        b.len() > 0 && all_digits(b) && decimal_value(b) <= 255,
        rest.len() == 0 || is_white_space(rest[0]),
    ensures
        line_color(r + seq![' '] + g + seq![' '] + b + rest) == Some(
            (decimal_value(r) as u8, decimal_value(g) as u8, decimal_value(b) as u8),
        ),
{
    let line = r + seq![' '] + g + seq![' '] + b + rest;
    let lr = r.len() as int;
    let lg = g.len() as int;
    let lb = b.len() as int;
    let g0 = lr + 1;
    let b0 = lr + lg + 2;
    assert forall|j: int| 0 <= j < lr implies !is_white_space(#[trigger] line[j]) by {
        assert(line[j] == r[j]);
    }
    assert forall|j: int| g0 <= j < g0 + lg implies !is_white_space(#[trigger] line[j]) by {
        assert(line[j] == g[j - g0]);
    }
    assert forall|j: int| b0 <= j < b0 + lb implies !is_white_space(#[trigger] line[j]) by {
        assert(line[j] == b[j - b0]);
    }
    assert(line[lr] == ' ');
    assert(line[g0 + lg] == ' ');
    if rest.len() > 0 {
        assert(line[b0 + lb] == rest[0]);
    }
    assert(!is_white_space(line[0]));
    assert(word_start(line, 0) == 0);
    lemma_word_end_run(line, 0, lr);
    assert(!is_white_space(line[g0]));
    assert(word_start(line, g0) == g0);
    assert(word_start(line, lr) == g0);
    lemma_word_end_run(line, g0, lg);
    assert(!is_white_space(line[b0]));
    assert(word_start(line, b0) == b0);
    assert(word_start(line, g0 + lg) == b0);
    lemma_word_end_run(line, b0, lb);
    assert(line.subrange(0, lr) =~= r);
    assert(line.subrange(g0, g0 + lg) =~= g);
    assert(line.subrange(b0, b0 + lb) =~= b);
    reveal_strlit("Name: ");
    if line.len() >= 6 {
        assert(line.subrange(0, 6)[0] == line[0]);
        assert(line.subrange(0, 6) != "Name: "@);
    }
    assert(r[0] != '+');
    assert(g[0] != '+');
    assert(b[0] != '+');
}

} // verus!
