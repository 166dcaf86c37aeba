//! Character-level helpers: a line as characters, its tab-separated fields,
//! and trimming of surrounding white space.

use vstd::prelude::*;

verus! {

/// Whether `c` has the Unicode property White_Space, as `char::is_whitespace`
/// reports it.
pub uninterp spec fn is_white_space(c: char) -> bool;

/// `char::is_whitespace`: true exactly for the characters with the Unicode
/// property White_Space. The set itself is not spelled out here; the result
/// is only tied to [`is_white_space`].
pub assume_specification[ char::is_whitespace ](c: char) -> (b: bool)
    ensures
        b == is_white_space(c),
;

/// `String::push`: appends one character to the end of the string.
pub assume_specification[ String::push ](text: &mut String, c: char)
    ensures
        final(text)@ == old(text)@.push(c),
;

/// The tab-separated fields of a line, read character by character: a tab
/// closes the current field and opens an empty one, any other character
/// joins the current field.
pub open spec fn fields(line: Seq<char>) -> Seq<Seq<char>>
    decreases line.len(),
{
    if line.len() == 0 {
        seq![Seq::empty()]
    } else {
        let before = fields(line.drop_last());
        if line.last() == '\t' {
            before.push(Seq::empty())
        } else {
            before.update(before.len() - 1, before.last().push(line.last()))
        }
    }
}

/// `pieces` written one after the other with a tab between neighbours.
pub open spec fn joined(pieces: Seq<Seq<char>>) -> Seq<char>
    decreases pieces.len(),
{
    if pieces.len() == 0 {
        Seq::empty()
    } else if pieces.len() == 1 {
        pieces[0]
    } else {
        joined(pieces.drop_last()) + seq!['\t'] + pieces.last()
    }
}

/// `text` without its leading white space.
pub open spec fn trimmed_start(text: Seq<char>) -> Seq<char>
    decreases text.len(),
{
    if text.len() > 0 && is_white_space(text.first()) {
        trimmed_start(text.drop_first())
    } else {
        text
    }
}

/// `text` without its trailing white space.
pub open spec fn trimmed_end(text: Seq<char>) -> Seq<char>
    decreases text.len(),
{
    if text.len() > 0 && is_white_space(text.last()) {
        trimmed_end(text.drop_last())
    } else {
        text
    }
}

/// `text` without its leading and trailing white space.
pub open spec fn trimmed(text: Seq<char>) -> Seq<char> {
    trimmed_end(trimmed_start(text))
}

/// Whether every character of `text` is white space.
pub open spec fn is_blank(text: Seq<char>) -> bool {
    forall|i: int| 0 <= i < text.len() ==> is_white_space(#[trigger] text[i])
}

/// The fields of a line are the pieces between its tabs: written one after
/// the other with a tab between neighbours they give the line again, and
/// none of them holds a tab.
pub proof fn lemma_fields_rejoin(line: Seq<char>)
    ensures
        fields(line).len() >= 1,
        joined(fields(line)) == line,
        forall|k: int, i: int|
            0 <= k < fields(line).len() && 0 <= i < fields(line)[k].len() ==> (
            #[trigger] fields(line)[k][i]) != '\t',
    decreases line.len(),
{
    if line.len() > 0 {
        let shorter = line.drop_last();
        let c = line.last();
        lemma_fields_rejoin(shorter);
        let before = fields(shorter);
        let after = fields(line);
        assert(line == shorter.push(c));
        if c == '\t' {
            assert(after.drop_last() == before);
            assert(joined(after) == joined(before) + seq!['\t'] + Seq::<char>::empty());
            assert(joined(after) == line);
        } else {
            if before.len() == 1 {
                assert(joined(after) == line);
            } else {
                assert(after.drop_last() == before.drop_last());
                assert(joined(after) == joined(before.drop_last()) + seq!['\t'] + before.last().push(
                    c,
                ));
                assert(joined(after) == line);
            }
        }
    }
}

/// White space in front of a text does not change what is left when the
/// front is trimmed.
pub proof fn lemma_trimmed_start_skips_blank(blank: Seq<char>, rest: Seq<char>)
    requires
        is_blank(blank),
    ensures
        trimmed_start(blank + rest) == trimmed_start(rest),
    decreases blank.len(),
{
    if blank.len() == 0 {
        assert(blank + rest == rest);
    } else {
        assert(is_white_space(blank[0]));
        assert((blank + rest).first() == blank[0]);
        assert((blank + rest).drop_first() == blank.drop_first() + rest);
        assert forall|i: int| 0 <= i < blank.drop_first().len() implies is_white_space(
            #[trigger] blank.drop_first()[i],
        ) by {
            assert(blank.drop_first()[i] == blank[i + 1]);
        }
        lemma_trimmed_start_skips_blank(blank.drop_first(), rest);
    }
}

/// White space behind a text does not change what is left when the end is
/// trimmed.
pub proof fn lemma_trimmed_end_skips_blank(rest: Seq<char>, blank: Seq<char>)
    requires
        is_blank(blank),
    ensures
        trimmed_end(rest + blank) == trimmed_end(rest),
    decreases blank.len(),
{
    if blank.len() == 0 {
        assert(rest + blank == rest);
    } else {
        assert(is_white_space(blank[blank.len() - 1]));
        assert((rest + blank).last() == blank.last());
        assert((rest + blank).drop_last() == rest + blank.drop_last());
        assert forall|i: int| 0 <= i < blank.drop_last().len() implies is_white_space(
            #[trigger] blank.drop_last()[i],
        ) by {
            assert(blank.drop_last()[i] == blank[i]);
        }
        lemma_trimmed_end_skips_blank(rest, blank.drop_last());
    }
}

/// What trimming the front leaves of a text that is followed by white
/// space: what it leaves of the text, followed by the white space, or
/// nothing where the text itself is white space.
proof fn lemma_trimmed_start_before_blank(text: Seq<char>, blank: Seq<char>)
    requires
        is_blank(blank),
    ensures
        trimmed_start(text + blank) == if trimmed_start(text).len() > 0 {
            trimmed_start(text) + blank
        } else {
            Seq::<char>::empty()
        },
    decreases text.len(),
{
    if text.len() == 0 {
        assert(text + blank == blank + Seq::<char>::empty());
        lemma_trimmed_start_skips_blank(blank, Seq::<char>::empty());
    } else {
        assert((text + blank).first() == text.first());
        if is_white_space(text.first()) {
            assert((text + blank).drop_first() == text.drop_first() + blank);
            lemma_trimmed_start_before_blank(text.drop_first(), blank);
        }
    }
}

/// Two texts that differ only in the white space around them are the same
/// once they are trimmed.
pub proof fn lemma_trim_ignores_padding(before: Seq<char>, text: Seq<char>, after: Seq<char>)
    requires
        is_blank(before),
        is_blank(after),
    ensures
        trimmed(before + text + after) == trimmed(text),
{
    assert(before + text + after == before + (text + after));
    lemma_trimmed_start_skips_blank(before, text + after);
    lemma_trimmed_start_before_blank(text, after);
    if trimmed_start(text).len() > 0 {
        lemma_trimmed_end_skips_blank(trimmed_start(text), after);
    }
}

/// The characters of `text`, in order.
pub fn characters(text: &str) -> (chars: Vec<char>)
    ensures
        chars@ == text@,
{
    let mut chars: Vec<char> = Vec::new();
    for c in it: text.chars()
        invariant
            chars@ == it.seq().take(it.index() as int),
            it.seq() == text@,
    {
        chars.push(c);
    }
    chars
}

/// The characters `chars[from..to]` as a string.
pub fn string_of(chars: &Vec<char>, from: usize, to: usize) -> (text: String)
    requires
        from <= to <= chars.len(),
    ensures
        text@ == chars@.subrange(from as int, to as int),
{
    let mut text = String::new();
    let mut i: usize = from;
    while i < to
        invariant
            from <= i <= to <= chars.len(),
            text@ == chars@.subrange(from as int, i as int),
        decreases to - i,
    {
        text.push(chars[i]);
        i += 1;
    }
    text
}

/// Splits a line on tab characters. A line without a tab is one field; an
/// empty line is one empty field.
pub fn split_fields(line: &str) -> (parts: Vec<String>)
    ensures
        parts.deep_view() == fields(line@),
{
    let chars = characters(line);
    let mut parts: Vec<String> = Vec::new();
    let mut current = String::new();
    let mut i: usize = 0;
    while i < chars.len()
        invariant
            i <= chars.len(),
            chars@ == line@,
            parts.deep_view().push(current@) == fields(line@.take(i as int)),
        decreases chars.len() - i,
    {
        let c = chars[i];
        proof {
            let next = line@.take(i + 1);
            assert(next.drop_last() == line@.take(i as int));
            assert(next.last() == c);
            let before = parts.deep_view().push(current@);
            if c == '\t' {
                assert(parts.deep_view().push(current@).push(Seq::empty()) == before.push(
                    Seq::empty(),
                ));
            } else {
                assert(parts.deep_view().push(current@.push(c)) == before.update(
                    before.len() - 1,
                    before.last().push(c),
                ));
            }
        }
        if c == '\t' {
            let ghost done = parts.deep_view();
            let ghost closed = current@;
            parts.push(current);
            assert(parts.deep_view() == done.push(closed));
            current = String::new();
        } else {
            current.push(c);
        }
        i += 1;
    }
    assert(line@.take(i as int) == line@);
    let ghost done = parts.deep_view();
    let ghost closed = current@;
    parts.push(current);
    assert(parts.deep_view() == done.push(closed));
    parts
}

/// `text` without its leading and trailing white space.
pub fn trim(text: &str) -> (result: String)
    ensures
        result@ == trimmed(text@),
{
    let chars = characters(text);
    let mut start: usize = 0;
    assert(chars@.skip(0) == chars@);
    while start < chars.len() && chars[start].is_whitespace()
        invariant
            start <= chars.len(),
            trimmed_start(chars@) == trimmed_start(chars@.skip(start as int)),
        decreases chars.len() - start,
    {
        assert(chars@.skip(start as int).drop_first() == chars@.skip(start + 1));
        start += 1;
    }
    assert(trimmed_start(chars@) == chars@.skip(start as int));
    let mut end: usize = chars.len();
    while end > start && chars[end - 1].is_whitespace()
        invariant
            start <= end <= chars.len(),
            trimmed(chars@) == trimmed_end(chars@.subrange(start as int, end as int)),
        decreases end,
    {
        assert(chars@.subrange(start as int, end as int).drop_last() == chars@.subrange(
            start as int,
            end - 1,
        ));
        end -= 1;
    }
    string_of(&chars, start, end)
}

} // verus!
