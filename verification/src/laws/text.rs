//! What callers can rely on of texts.

use crate::text::{
    chars_of, is_white_space, lemma_span_end_unique, lines, same_text, split_lines, starts_with,
    texts, trim_end, trimmed_end,
};
use vstd::prelude::*;

verus! {

/// The characters of a text are the text.
pub proof fn law_characters_are_the_text(text: &str, chars: Vec<char>)
    requires
        call_ensures(chars_of, (text,), chars),
    ensures
        chars@ == text@,
{
}

/// Texts are the same exactly if their characters are, and a text begins with another exactly if
/// something can be put behind the other to make it.
pub proof fn law_texts_are_compared(a: &str, b: &str, same: bool, begins: bool)
    requires
        call_ensures(same_text, (a, b), same),
        call_ensures(starts_with, (a, b), begins),
    ensures
        same <==> a@ == b@,
        begins <==> exists|rest: Seq<char>| a@ == #[trigger] (b@ + rest),
{
    if begins {
        let rest = a@.subrange(b@.len() as int, a@.len() as int);
        assert(a@ == b@ + rest);
    }
    if exists|rest: Seq<char>| a@ == #[trigger] (b@ + rest) {
        let rest = choose|rest: Seq<char>| a@ == #[trigger] (b@ + rest);
        assert(a@.subrange(0, b@.len() as int) == b@);
    }
}

/// A text without line feeds is one line, unless it is empty; it then has none.
pub proof fn law_text_without_line_feeds_is_one_line(text: &str, found: Vec<String>)
    requires
        call_ensures(split_lines, (text,), found),
        forall|i: int| 0 <= i < text@.len() ==> #[trigger] text@[i] != '\n',
    ensures
        text@.len() == 0 ==> found@.len() == 0,
        text@.len() > 0 ==> found@.len() == 1 && found@[0]@ == text@,
{
    assert(texts(found@).len() == found@.len());
    if text@.len() > 0 {
        lemma_span_end_unique(text@, 0, |c: char| c == '\n', text@.len() as int);
        assert(texts(found@)[0] == found@[0]@);
    }
}

/// What stands before the first line feed of a text is its first line, without a carriage return at
/// its end, and what stands behind gives the other lines.
pub proof fn law_line_feeds_end_lines(
    text: &str,
    found: Vec<String>,
    rest: &str,
    others: Vec<String>,
    line: Seq<char>,
)
    requires
        call_ensures(split_lines, (text,), found),
        call_ensures(split_lines, (rest,), others),
        forall|i: int| 0 <= i < line.len() ==> #[trigger] line[i] != '\n',
        text@ == line + seq!['\n'] + rest@,
    ensures
        found@.len() == others@.len() + 1,
        line.len() > 0 && line.last() == '\r' ==> found@[0]@ == line.drop_last(),
        line.len() == 0 || line.last() != '\r' ==> found@[0]@ == line,
        forall|i: int| 0 <= i < others@.len() ==> (#[trigger] others@[i])@ == found@[i + 1]@,
{
    assert(forall|i: int| 0 <= i < line.len() ==> #[trigger] text@[i] == line[i]);
    assert(text@[line.len() as int] == '\n');
    lemma_span_end_unique(text@, 0, |c: char| c == '\n', line.len() as int);
    assert(text@.subrange(0, line.len() as int) == line);
    assert(text@.subrange(line.len() + 1int, text@.len() as int) == rest@);
    assert(lines(text@).len() == lines(rest@).len() + 1);
    assert(texts(found@).len() == found@.len() && texts(others@).len() == others@.len());
    assert(texts(found@)[0] == found@[0]@);
    assert forall|i: int| 0 <= i < others@.len() implies (#[trigger] others@[i])@ == found@[i
        + 1]@ by {
        assert(texts(others@)[i] == others@[i]@);
        assert(texts(found@)[i + 1] == found@[i + 1]@);
        assert(lines(text@)[i + 1] == lines(rest@)[i]);
    }
}

/// Whether a character is white space: a tab, a line feed, a vertical tab, a form feed, a carriage
/// return, a space, or one of the spaces and separators beyond ASCII.
pub open spec fn is_space(c: char) -> bool {
    ||| c == '\t' || c == '\n' || c == '\u{b}' || c == '\u{c}' || c == '\r' || c == ' '
    ||| c == '\u{85}' || c == '\u{a0}' || c == '\u{1680}'
    ||| '\u{2000}' <= c <= '\u{200a}'
    ||| c == '\u{2028}' || c == '\u{2029}' || c == '\u{202f}' || c == '\u{205f}' || c == '\u{3000}'
}

/// White space is what is trimmed.
proof fn lemma_space(c: char)
    ensures
        is_space(c) == is_white_space(c),
{
}

/// What is cut off the end of a text is white space.
proof fn lemma_trimmed(text: Seq<char>)
    ensures
        trimmed_end(text).len() <= text.len(),
        text.subrange(0, trimmed_end(text).len() as int) == trimmed_end(text),
        forall|i: int|
            trimmed_end(text).len() <= i < text.len() ==> is_space(#[trigger] text[i]),
        trimmed_end(text).len() > 0 ==> !is_space(trimmed_end(text).last()),
    decreases text.len(),
{
    if text.len() > 0 {
        lemma_space(text.last());
    }
    if text.len() > 0 && is_space(text.last()) {
        let front = text.drop_last();
        lemma_trimmed(front);
        let n = trimmed_end(front).len() as int;
        assert(text.subrange(0, n) == front.subrange(0, n));
        assert forall|i: int| n <= i < text.len() implies is_space(#[trigger] text[i]) by {
            if i < front.len() {
                assert(front[i] == text[i]);
            } else {
                assert(text[i] == text.last());
            }
        }
    } else {
        assert(text.subrange(0, text.len() as int) == text);
    }
}

/// Trimming cuts white space off the end of a text, all of it and nothing else.
pub proof fn law_white_space_is_trimmed(text: &str, trimmed: String)
    requires
        call_ensures(trim_end, (text,), trimmed),
    ensures
        trimmed@.is_prefix_of(text@),
        forall|i: int| trimmed@.len() <= i < text@.len() ==> is_space(#[trigger] text@[i]),
        trimmed@.len() > 0 ==> !is_space(trimmed@.last()),
{
    lemma_trimmed(text@);
}

} // verus!
