//! Heading inference for loosely-typed document paragraphs.
//!
//! Signals are consulted in a fixed precedence: an explicit style name
//! always outranks font size, which outranks the bold-text heuristic.

use vstd::prelude::*;
use crate::text::{
    chars_contain, chars_of_str, chars_start_with, contains_sub, digits_or_default, lower,
    lower_chars, parse_digits_or, spec_trim, starts_with, string_from_chars, trim_chars,
};

verus! {

/// What `char::is_alphabetic` holds of a character; the result depends on
/// the character alone.
pub uninterp spec fn alphabetic(c: char) -> bool;

/// Relies on `char::is_alphabetic`, Unicode letter classification.
#[verifier::external_body]
fn is_alphabetic_char(c: char) -> (r: bool)
    ensures
        r == alphabetic(c),
{
    c.is_alphabetic()
}

/// Whether some character of `s` is a letter.
pub open spec fn has_alphabetic(s: Seq<char>) -> bool {
    exists|i: int| 0 <= i < s.len() && alphabetic(#[trigger] s[i])
}

fn any_alphabetic(v: &Vec<char>) -> (r: bool)
    ensures
        r == has_alphabetic(v@),
{
    let mut i: usize = 0;
    while i < v.len()
        invariant
            0 <= i <= v@.len(),
            forall|j: int| 0 <= j < i ==> !alphabetic(#[trigger] v@[j]),
        decreases v@.len() - i,
    {
        if is_alphabetic_char(v[i]) {
            return true;
        }
        i = i + 1;
    }
    false
}

/// Whether the last character of `s` is `c`.
pub open spec fn ends_in(s: Seq<char>, c: char) -> bool {
    s.len() > 0 && s.last() == c
}

/// Whether `c` occurs in `s`.
pub open spec fn has_char(s: Seq<char>, c: char) -> bool {
    exists|i: int| 0 <= i < s.len() && #[trigger] s[i] == c
}

fn contains_char(v: &Vec<char>, c: char) -> (r: bool)
    ensures
        r == has_char(v@, c),
{
    let mut i: usize = 0;
    while i < v.len()
        invariant
            0 <= i <= v@.len(),
            forall|j: int| 0 <= j < i ==> #[trigger] v@[j] != c,
        decreases v@.len() - i,
    {
        if v[i] == c {
            return true;
        }
        i = i + 1;
    }
    false
}

/// The classification an explicit style name yields: `Some((true, level))`
/// for heading-like names, `None` when the style says nothing.
pub open spec fn spec_check_style(name: Seq<char>) -> Option<(bool, usize)> {
    let low = lower(name);
    if starts_with(low, "heading"@) || starts_with(low, "title"@) {
        Some((true, digits_or_default(name, 1)))
    } else if low == "title"@ {
        Some((true, 1usize))
    } else if contains_sub(low, "subtitle"@) {
        Some((true, 2usize))
    } else if contains_sub(low, "header"@) {
        Some((true, digits_or_default(name, 3)))
    } else {
        None
    }
}

/// Classifies an explicit paragraph style name: heading- and title-like
/// names map to the level named by their digits (with the documented
/// defaults), subtitle forces level two, and header-like names default to
/// level three.
pub fn check_style_for_heading(style_name: &str) -> (r: Option<(bool, usize)>)
    ensures
        r == spec_check_style(style_name@),
{
    let chars = chars_of_str(style_name);
    let low = lower_chars(&chars);
    if chars_start_with(&low, "heading") || chars_start_with(&low, "title") {
        return Some((true, parse_digits_or(&chars, 1)));
    }
    if chars_start_with(&low, "title") && low.len() == 5 {
        proof {
            reveal_strlit("title");
            assert(low@ =~= "title"@);
        }
        return Some((true, 1));
    }
    proof {
        reveal_strlit("title");
        if low@ == "title"@ {
            assert(starts_with(low@, "title"@)) by {
                assert(low@.subrange(0, 5) =~= low@);
            }
        }
    }
    if chars_contain(&low, "subtitle") {
        return Some((true, 2));
    }
    if chars_contain(&low, "header") {
        return Some((true, parse_digits_or(&chars, 3)));
    }
    None
}

/// The heading level a font size in half-points maps to, or `None` when the
/// size signals ordinary text.
pub open spec fn size_level(half_points: int) -> Option<usize> {
    if half_points >= 36 {
        Some(1usize)
    } else if half_points >= 32 {
        Some(2usize)
    } else if half_points >= 28 {
        Some(3usize)
    } else if half_points >= 26 {
        Some(4usize)
    } else if half_points >= 24 {
        Some(5usize)
    } else {
        None
    }
}

/// The bold-text heuristic over already-trimmed text: short, single-line,
/// bold text with at least one letter and no terminal punctuation is a
/// heading, at a level chosen by its length.
pub open spec fn bold_heading(has_bold: bool, t: Seq<char>) -> Option<usize> {
    if has_bold && t.len() > 0 && t.len() < 80 && !ends_in(t, '.') && !ends_in(t, '!') && !ends_in(
        t,
        '?',
    ) && !has_char(t, '\n') && has_alphabetic(t) {
        if t.len() < 30 {
            Some(2usize)
        } else if t.len() < 50 {
            Some(3usize)
        } else {
            Some(4usize)
        }
    } else {
        None
    }
}

/// The final heading decision for a paragraph, combining the three signals
/// in their fixed precedence.
pub open spec fn spec_determine_heading(
    style_is_heading: bool,
    style_level: usize,
    has_bold: bool,
    font_size: Option<i64>,
    content: Seq<char>,
) -> (bool, usize) {
    let t = spec_trim(content);
    if style_is_heading {
        (true, style_level)
    } else if font_size is Some {
        match size_level(font_size->0 as int) {
            Some(l) => {
                if t.len() < 100 && !ends_in(t, '.') {
                    (true, l)
                } else {
                    match bold_heading(has_bold, t) {
                        Some(l2) => (true, l2),
                        None => (false, 1usize),
                    }
                }
            },
            None => (false, 1usize),
        }
    } else {
        match bold_heading(has_bold, t) {
            Some(l2) => (true, l2),
            None => (false, 1usize),
        }
    }
}

/// Decides whether a paragraph is a heading and at which level.
///
/// `font_size` is the explicit run font size in half-points, when present.
/// The style signal wins outright; otherwise a qualifying font size decides,
/// and only then the bold-text heuristic. A present-but-small font size
/// classifies the paragraph as ordinary text.
pub fn determine_heading_status(
    style_is_heading: bool,
    style_level: usize,
    has_bold: bool,
    font_size: Option<i64>,
    content: &str,
) -> (r: (bool, usize))
    ensures
        r == spec_determine_heading(style_is_heading, style_level, has_bold, font_size, content@),
{
    if style_is_heading {
        return (true, style_level);
    }
    let chars = chars_of_str(content);
    let t = trim_chars(&chars);
    match font_size {
        Some(v) => {
            let lvl: Option<usize> = if v >= 36 {
                Some(1)
            } else if v >= 32 {
                Some(2)
            } else if v >= 28 {
                Some(3)
            } else if v >= 26 {
                Some(4)
            } else if v >= 24 {
                Some(5)
            } else {
                None
            };
            match lvl {
                Some(l) => {
                    if t.len() < 100 && !(t.len() > 0 && t[t.len() - 1] == '.') {
                        (true, l)
                    } else {
                        bold_decision(has_bold, &t)
                    }
                },
                None => (false, 1),
            }
        },
        None => bold_decision(has_bold, &t),
    }
}

/// The bold-heuristic branch of the decision, over trimmed text.
fn bold_decision(has_bold: bool, t: &Vec<char>) -> (r: (bool, usize))
    ensures
        r == (match bold_heading(has_bold, t@) {
            Some(l) => (true, l),
            None => (false, 1usize),
        }),
{
    if has_bold && t.len() > 0 && t.len() < 80 && !(t[t.len() - 1] == '.') && !(t[t.len() - 1]
        == '!') && !(t[t.len() - 1] == '?') && !contains_char(t, '\n') && any_alphabetic(t) {
        if t.len() < 30 {
            (true, 2)
        } else if t.len() < 50 {
            (true, 3)
        } else {
            (true, 4)
        }
    } else {
        (false, 1)
    }
}

/// Whether presentation text qualifies as a slide title: short, single-line
/// trimmed text without terminal punctuation.
pub open spec fn spec_is_title(text: Seq<char>) -> bool {
    let t = spec_trim(text);
    t.len() < 100 && !ends_in(t, '.') && !ends_in(t, '!') && !ends_in(t, '?') && !has_char(t, '\n')
}

/// Decides whether one slide paragraph reads as a title line.
pub fn is_title_text(text: &str) -> (r: bool)
    ensures
        r == spec_is_title(text@),
{
    let chars = chars_of_str(text);
    let t = trim_chars(&chars);
    t.len() < 100 && !(t.len() > 0 && t[t.len() - 1] == '.') && !(t.len() > 0 && t[t.len() - 1]
        == '!') && !(t.len() > 0 && t[t.len() - 1] == '?') && !contains_char(&t, '\n')
}

/// `c` repeated `n` times.
pub open spec fn repeat_char(c: char, n: nat) -> Seq<char>
    decreases n,
{
    if n == 0 {
        Seq::empty()
    } else {
        repeat_char(c, (n - 1) as nat).push(c)
    }
}

pub broadcast proof fn lemma_repeat_char(c: char, n: nat)
    ensures
        (#[trigger] repeat_char(c, n)).len() == n,
        forall|i: int| 0 <= i < n ==> repeat_char(c, n)[i] == c,
    decreases n,
{
    if n > 0 {
        lemma_repeat_char(c, (n - 1) as nat);
    }
}

/// A classified level clamped into the renderable range of one to six.
pub open spec fn clamp_level(level: usize) -> usize {
    if level < 1 {
        1usize
    } else if level > 6 {
        6usize
    } else {
        level
    }
}

/// The Markdown heading line for trimmed text at a clamped level.
pub open spec fn spec_heading_line(level: usize, text: Seq<char>) -> Seq<char> {
    repeat_char('#', clamp_level(level) as nat) + seq![' '] + spec_trim(text)
}

/// Renders one heading line: the clamped number of `#` marks, a space, and
/// the trimmed text.
pub fn heading_line(level: usize, text: &str) -> (r: String)
    ensures
        r@ == spec_heading_line(level, text@),
{
    let l: usize = if level < 1 {
        1
    } else if level > 6 {
        6
    } else {
        level
    };
    let mut marks: Vec<char> = Vec::new();
    let mut i: usize = 0;
    while i < l
        invariant
            0 <= i <= l,
            marks@ == repeat_char('#', i as nat),
        decreases l - i,
    {
        marks.push('#');
        i = i + 1;
    }
    marks.push(' ');
    let chars = chars_of_str(text);
    let t = trim_chars(&chars);
    let mut out = marks;
    let mut j: usize = 0;
    while j < t.len()
        invariant
            0 <= j <= t@.len(),
            out@ == repeat_char('#', clamp_level(level) as nat) + seq![' '] + t@.subrange(
                0,
                j as int,
            ),
        decreases t@.len() - j,
    {
        out.push(t[j]);
        proof {
            assert(out@ =~= repeat_char('#', clamp_level(level) as nat) + seq![' '] + t@.subrange(
                0,
                j + 1,
            ));
        }
        j = j + 1;
    }
    proof {
        assert(t@.subrange(0, t@.len() as int) =~= t@);
    }
    string_from_chars(&out)
}

/// Law: whatever level classification produced, a rendered heading line
/// carries between one and six `#` marks — exactly the clamped level many —
/// followed by a single space and the trimmed text.
pub proof fn lemma_heading_prefix(level: usize, text: Seq<char>)
    ensures
        1 <= clamp_level(level) <= 6,
        spec_heading_line(level, text).len() == clamp_level(level) + 1 + spec_trim(text).len(),
        forall|i: int|
            0 <= i < clamp_level(level) ==> spec_heading_line(level, text)[i] == '#',
        spec_heading_line(level, text)[clamp_level(level) as int] == ' ',
{
    lemma_repeat_char('#', clamp_level(level) as nat);
}

/// Law: the explicit style signal outranks size and boldness — a paragraph
/// whose style marks it as a heading at some level is classified as a
/// heading at exactly that level, whatever the other signals say.
pub proof fn lemma_style_precedence(
    style_level: usize,
    has_bold: bool,
    font_size: Option<i64>,
    content: Seq<char>,
)
    ensures
        spec_determine_heading(true, style_level, has_bold, font_size, content) == (
            true,
            style_level,
        ),
{
}

} // verus!
