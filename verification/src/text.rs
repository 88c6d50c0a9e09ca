//! Character-level helpers shared by the notation parser and printer.
//!
//! Strings are viewed as sequences of characters; positions are character
//! positions, never byte offsets.

use vstd::prelude::*;
use vstd::string::*;

verus! {

/// Whether `c` carries the Unicode `White_Space` property.
pub open spec fn is_space(c: char) -> bool {
    ||| '\u{9}' <= c <= '\u{d}'
    ||| c == ' '
    ||| c == '\u{85}'
    ||| c == '\u{a0}'
    ||| c == '\u{1680}'
    ||| '\u{2000}' <= c <= '\u{200a}'
    ||| c == '\u{2028}'
    ||| c == '\u{2029}'
    ||| c == '\u{202f}'
    ||| c == '\u{205f}'
    ||| c == '\u{3000}'
}

/// `s` without its leading white space.
pub open spec fn trim_start(s: Seq<char>) -> Seq<char>
    decreases s.len(),
{
    if s.len() > 0 && is_space(s.first()) {
        trim_start(s.drop_first())
    } else {
        s
    }
}

/// `s` without its trailing white space.
pub open spec fn trim_end(s: Seq<char>) -> Seq<char>
    decreases s.len(),
{
    if s.len() > 0 && is_space(s.last()) {
        trim_end(s.drop_last())
    } else {
        s
    }
}

/// `s` without leading and trailing white space.
pub open spec fn trimmed(s: Seq<char>) -> Seq<char> {
    trim_end(trim_start(s))
}

/// A text is blank when nothing but white space is in it.
pub open spec fn is_blank(s: Seq<char>) -> bool {
    trimmed(s).len() == 0
}

/// Whether `c` is white space.
pub fn is_whitespace(c: char) -> (b: bool)
    ensures
        b == is_space(c),
{
    ('\u{9}' <= c && c <= '\u{d}') || c == ' ' || c == '\u{85}' || c == '\u{a0}' || c == '\u{1680}'
        || ('\u{2000}' <= c && c <= '\u{200a}') || c == '\u{2028}' || c == '\u{2029}' || c
        == '\u{202f}' || c == '\u{205f}' || c == '\u{3000}'
}

/// The characters of `text`, in order.
pub fn chars_of(text: &str) -> (chars: Vec<char>)
    ensures
        chars@ == text@,
{
    let mut chars: Vec<char> = Vec::new();
    for c in it: text.chars()
        invariant
            chars@ == it.seq().take(it.index() as int),
            it.seq() == text@,
    {
        chars.push(c);
    }
    chars
}

/// A text is tidy when it is not empty and neither begins nor ends with
/// white space.
pub open spec fn is_tidy(s: Seq<char>) -> bool {
    s.len() > 0 && !is_space(s.first()) && !is_space(s.last())
}

/// Trimming a tidy text changes nothing.
pub proof fn lemma_tidy_is_trimmed(s: Seq<char>)
    requires
        is_tidy(s),
    ensures
        trimmed(s) == s,
{
}

/// What is left after the leading white space is a tail of the text, and
/// begins with something else.
pub proof fn lemma_trim_start_is_tail(s: Seq<char>)
    ensures
        trim_start(s).len() <= s.len(),
        trim_start(s) == s.skip(s.len() - trim_start(s).len()),
        trim_start(s).len() > 0 ==> !is_space(trim_start(s).first()),
    decreases s.len(),
{
    if s.len() > 0 && is_space(s.first()) {
        let rest = s.drop_first();
        lemma_trim_start_is_tail(rest);
        assert(rest.skip(rest.len() - trim_start(rest).len()) =~= s.skip(
            s.len() - trim_start(rest).len(),
        ));
    } else {
        assert(s.skip(0) =~= s);
    }
}

/// What is left before the trailing white space is a head of the text, and
/// ends with something else.
pub proof fn lemma_trim_end_is_head(s: Seq<char>)
    ensures
        trim_end(s).len() <= s.len(),
        trim_end(s) == s.take(trim_end(s).len() as int),
        trim_end(s).len() > 0 ==> !is_space(trim_end(s).last()),
    decreases s.len(),
{
    if s.len() > 0 && is_space(s.last()) {
        let rest = s.drop_last();
        lemma_trim_end_is_head(rest);
        assert(rest.take(trim_end(rest).len() as int) =~= s.take(trim_end(rest).len() as int));
    } else {
        assert(s.take(s.len() as int) =~= s);
    }
}

/// A trimmed text is empty or tidy.
pub proof fn lemma_trimmed_is_tidy(s: Seq<char>)
    ensures
        trimmed(s).len() <= s.len(),
        !is_blank(s) ==> is_tidy(trimmed(s)),
{
    lemma_trim_start_is_tail(s);
    lemma_trim_end_is_head(trim_start(s));
}

/// Whether `text` holds exactly the characters `chars`.
pub fn holds(text: &str, chars: &Vec<char>) -> (same: bool)
    ensures
        same == (text@ == chars@),
{
    let mut same = true;
    let mut count: usize = 0;
    for c in it: text.chars()
        invariant
            it.seq() == text@,
            same ==> count == it.index() && count <= chars.len() && text@.take(count as int)
                == chars@.take(count as int),
            !same ==> text@ != chars@,
    {
        if same {
            if count < chars.len() && chars[count] == c {
                proof {
                    assert(text@.take(count + 1) =~= text@.take(count as int).push(c));
                    assert(chars@.take(count + 1) =~= chars@.take(count as int).push(c));
                }
                count += 1;
            } else {
                same = false;
            }
        }
    }
    proof {
        if same {
            assert(text@.take(count as int) =~= text@);
            if count == chars.len() {
                assert(chars@.take(count as int) =~= chars@);
            }
        }
    }
    same && count == chars.len()
}

/// Whether two strings hold the same characters.
pub fn same_text(left: &str, right: &str) -> (same: bool)
    ensures
        same == (left@ == right@),
{
    let chars = chars_of(right);
    holds(left, &chars)
}

/// White space at the start of a part of `s` can be left out before the
/// part is trimmed.
pub proof fn lemma_trim_start_subrange(s: Seq<char>, from: int, to: int)
    requires
        0 <= from <= to <= s.len(),
        from < to ==> is_space(s[from]),
    ensures
        from < to ==> trim_start(s.subrange(from, to)) == trim_start(s.subrange(from + 1, to)),
{
    if from < to {
        assert(s.subrange(from, to).drop_first() =~= s.subrange(from + 1, to));
    }
}

/// White space at the end of a part of `s` can be left out before the part
/// is trimmed.
pub proof fn lemma_trim_end_subrange(s: Seq<char>, from: int, to: int)
    requires
        0 <= from <= to <= s.len(),
        from < to ==> is_space(s[to - 1]),
    ensures
        from < to ==> trim_end(s.subrange(from, to)) == trim_end(s.subrange(from, to - 1)),
{
    if from < to {
        assert(s.subrange(from, to).drop_last() =~= s.subrange(from, to - 1));
    }
}

/// The bounds of the trimmed part of `chars[from..to]`.
pub fn trim_bounds(chars: &Vec<char>, from: usize, to: usize) -> (bounds: (usize, usize))
    requires
        from <= to <= chars.len(),
    ensures
        from <= bounds.0 <= bounds.1 <= to,
        chars@.subrange(bounds.0 as int, bounds.1 as int) == trimmed(
            chars@.subrange(from as int, to as int),
        ),
{
    let mut first: usize = from;
    while first < to && is_whitespace(chars[first])
        invariant
            from <= first <= to <= chars.len(),
            trim_start(chars@.subrange(from as int, to as int)) == trim_start(
                chars@.subrange(first as int, to as int),
            ),
        decreases to - first,
    {
        proof {
            lemma_trim_start_subrange(chars@, first as int, to as int);
        }
        first += 1;
    }
    let mut last: usize = to;
    while first < last && is_whitespace(chars[last - 1])
        invariant
            first <= last <= to <= chars.len(),
            trim_end(chars@.subrange(first as int, to as int)) == trim_end(
                chars@.subrange(first as int, last as int),
            ),
        decreases last - first,
    {
        proof {
            lemma_trim_end_subrange(chars@, first as int, last as int);
        }
        last -= 1;
    }
    (first, last)
}

/// `text` without leading and trailing white space.
pub fn trim<'a>(text: &'a str) -> (inner: &'a str)
    ensures
        inner@ == trimmed(text@),
{
    let chars = chars_of(text);
    let (first, last) = trim_bounds(&chars, 0, chars.len());
    proof {
        assert(chars@.subrange(0, chars.len() as int) =~= text@);
    }
    text.substring_char(first, last)
}

/// `text` without its first and its last character; nothing where `text`
/// has fewer than two.
pub open spec fn without_ends(text: Seq<char>) -> Seq<char> {
    if text.len() >= 2 {
        text.subrange(1, text.len() - 1)
    } else {
        Seq::empty()
    }
}

/// `text` without its first and its last character.
pub fn strip_ends<'a>(text: &'a str) -> (inner: &'a str)
    ensures
        inner@ == without_ends(text@),
{
    let length = text.unicode_len();
    if length >= 2 {
        text.substring_char(1, length - 1)
    } else {
        proof {
            assert(text@.subrange(0, 0) =~= Seq::<char>::empty());
        }
        text.substring_char(0, 0)
    }
}

/// Whether `c` occurs in `chars`.
pub fn contains(chars: &Vec<char>, c: char) -> (found: bool)
    ensures
        found == chars@.contains(c),
{
    let mut i: usize = 0;
    while i < chars.len()
        invariant
            i <= chars.len(),
            forall|k: int| 0 <= k < i ==> chars[k] != c,
        decreases chars.len() - i,
    {
        if chars[i] == c {
            return true;
        }
        i += 1;
    }
    false
}

/// The parts of `text` between occurrences of `separator`. A text without
/// the separator is one part, and so is the empty text; two separators in a
/// row have an empty part between them.
pub open spec fn fields(text: Seq<char>, separator: char) -> Seq<Seq<char>>
    decreases text.len(),
{
    if text.len() == 0 {
        seq![Seq::empty()]
    } else {
        let front = fields(text.drop_last(), separator);
        if text.last() == separator {
            front.push(Seq::empty())
        } else {
            front.drop_last().push(front.last().push(text.last()))
        }
    }
}

/// There is always a first part.
pub proof fn lemma_fields_not_empty(text: Seq<char>, separator: char)
    ensures
        fields(text, separator).len() > 0,
    decreases text.len(),
{
    if text.len() > 0 {
        lemma_fields_not_empty(text.drop_last(), separator);
    }
}

/// The bounds of the parts of `chars` between occurrences of `separator`.
pub fn field_bounds(chars: &Vec<char>, separator: char) -> (bounds: Vec<(usize, usize)>)
    ensures
        bounds.len() == fields(chars@, separator).len(),
        forall|k: int|
            0 <= k < bounds.len() ==> {
                &&& (#[trigger] bounds[k]).0 <= bounds[k].1 <= chars.len()
                &&& chars@.subrange(bounds[k].0 as int, bounds[k].1 as int) == fields(
                    chars@,
                    separator,
                )[k]
            },
{
    let mut bounds: Vec<(usize, usize)> = Vec::new();
    let mut start: usize = 0;
    let mut at: usize = 0;
    proof {
        assert(chars@.take(0) =~= Seq::<char>::empty());
        assert(fields(chars@.take(0), separator) =~= seq![chars@.subrange(0, 0)]);
    }
    while at < chars.len()
        invariant
            start <= at <= chars.len(),
            fields(chars@.take(at as int), separator).len() == bounds.len() + 1,
            fields(chars@.take(at as int), separator).last() == chars@.subrange(
                start as int,
                at as int,
            ),
            forall|k: int|
                0 <= k < bounds.len() ==> {
                    &&& (#[trigger] bounds[k]).0 <= bounds[k].1 <= chars.len()
                    &&& chars@.subrange(bounds[k].0 as int, bounds[k].1 as int) == fields(
                        chars@.take(at as int),
                        separator,
                    )[k]
                },
        decreases chars.len() - at,
    {
        let ghost front = fields(chars@.take(at as int), separator);
        proof {
            assert(chars@.take(at + 1).drop_last() =~= chars@.take(at as int));
            assert(chars@.take(at + 1).last() == chars@[at as int]);
        }
        if chars[at] == separator {
            bounds.push((start, at));
            start = at + 1;
            proof {
                assert(chars@.subrange(start as int, start as int) =~= Seq::<char>::empty());
            }
        } else {
            proof {
                assert(chars@.subrange(start as int, at + 1) =~= front.last().push(
                    chars@[at as int],
                ));
            }
        }
        at += 1;
    }
    proof {
        assert(chars@.take(chars.len() as int) =~= chars@);
    }
    bounds.push((start, at));
    bounds
}

/// The parts of `text` between occurrences of `separator`, each trimmed.
pub open spec fn trimmed_fields(text: Seq<char>, separator: char) -> Seq<Seq<char>> {
    Seq::new(fields(text, separator).len(), |i: int| trimmed(fields(text, separator)[i]))
}

/// The texts of a list of string slices.
pub open spec fn slices_view(slices: Seq<&str>) -> Seq<Seq<char>> {
    Seq::new(slices.len(), |i: int| slices[i]@)
}

/// Cuts `text` at each `separator` and trims the parts.
pub fn split_and_trim<'a>(text: &'a str, separator: char) -> (parts: Vec<&'a str>)
    ensures
        slices_view(parts@) == trimmed_fields(text@, separator),
{
    let chars = chars_of(text);
    let bounds = field_bounds(&chars, separator);
    let mut parts: Vec<&'a str> = Vec::new();
    let mut i: usize = 0;
    while i < bounds.len()
        invariant
            i <= bounds.len(),
            chars@ == text@,
            bounds.len() == fields(text@, separator).len(),
            forall|k: int|
                0 <= k < bounds.len() ==> {
                    &&& (#[trigger] bounds[k]).0 <= bounds[k].1 <= chars.len()
                    &&& chars@.subrange(bounds[k].0 as int, bounds[k].1 as int) == fields(
                        text@,
                        separator,
                    )[k]
                },
            parts.len() == i,
            forall|k: int|
                0 <= k < i ==> (#[trigger] parts[k])@ == trimmed(fields(text@, separator)[k]),
        decreases bounds.len() - i,
    {
        let (from, to) = bounds[i];
        let (first, last) = trim_bounds(&chars, from, to);
        parts.push(text.substring_char(first, last));
        i += 1;
    }
    proof {
        assert(slices_view(parts@) =~= trimmed_fields(text@, separator));
    }
    parts
}

} // verus!
