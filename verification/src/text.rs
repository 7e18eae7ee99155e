//! Text handling on strings viewed as sequences of characters.

use vstd::prelude::*;

verus! {

/// The texts held by a sequence of strings.
pub open spec fn texts(strings: Seq<String>) -> Seq<Seq<char>> {
    strings.map_values(|s: String| s@)
}

/// The text of an optional string.
pub open spec fn optional_text(string: Option<String>) -> Option<Seq<char>> {
    match string {
        Some(s) => Some(s@),
        None => None,
    }
}

/// What was read, or what the system said instead.
pub open spec fn read_text(content: Result<String, String>) -> Result<Seq<char>, Seq<char>> {
    match content {
        Ok(text) => Ok(text@),
        Err(cause) => Err(cause@),
    }
}

/// Whether the first characters of `text` are those of `prefix`.
pub open spec fn begins_with(text: Seq<char>, prefix: Seq<char>) -> bool {
    prefix.len() <= text.len() && text.subrange(0, prefix.len() as int) == prefix
}

/// `line` without one trailing carriage return.
pub open spec fn without_carriage_return(line: Seq<char>) -> Seq<char> {
    if line.len() > 0 && line.last() == '\r' {
        line.drop_last()
    } else {
        line
    }
}

/// Filtering a sequence decides on its first item and goes on with the rest.
pub proof fn lemma_filter_first<A>(items: Seq<A>, pred: spec_fn(A) -> bool)
    requires
        items.len() > 0,
    ensures
        items.filter(pred) == (if pred(items[0]) {
            seq![items[0]]
        } else {
            Seq::empty()
        }) + items.drop_first().filter(pred),
{
    assert(items == seq![items[0]] + items.drop_first());
    items.drop_first().lemma_filter_prepend(items[0], pred);
}

/// The first index at or after `from` whose character satisfies `stop`, or the length of `text`.
pub open spec fn span_end(text: Seq<char>, from: int, stop: spec_fn(char) -> bool) -> int
    decreases text.len() - from,
{
    if from < 0 || from >= text.len() {
        text.len() as int
    } else if stop(text[from]) {
        from
    } else {
        span_end(text, from + 1, stop)
    }
}

/// The lines of `text`. A line ends at a line feed or at the end of the text; a carriage return
/// right before the line feed belongs to the line ending. Nothing follows a final line feed.
pub open spec fn lines(text: Seq<char>) -> Seq<Seq<char>>
    decreases text.len(),
{
    let end = span_end(text, 0, |c: char| c == '\n');
    if text.len() == 0 {
        Seq::empty()
    } else if 0 <= end < text.len() {
        seq![without_carriage_return(text.subrange(0, end))] + lines(
            text.subrange(end + 1, text.len() as int),
        )
    } else {
        seq![text]
    }
}

/// What [`span_end`] finds: nothing before it satisfies `stop`, and it does itself unless it is
/// the end of the text.
pub proof fn lemma_span_end(text: Seq<char>, from: int, stop: spec_fn(char) -> bool)
    requires
        0 <= from <= text.len(),
    ensures
        from <= span_end(text, from, stop) <= text.len(),
        span_end(text, from, stop) < text.len() ==> stop(text[span_end(text, from, stop)]),
        forall|i: int| from <= i < span_end(text, from, stop) ==> !stop(#[trigger] text[i]),
    decreases text.len() - from,
{
    if from < text.len() && !stop(text[from]) {
        lemma_span_end(text, from + 1, stop);
    }
}

/// An index with what [`lemma_span_end`] says of the end of the span is the end of the span.
pub proof fn lemma_span_end_unique(
    text: Seq<char>,
    from: int,
    stop: spec_fn(char) -> bool,
    end: int,
)
    requires
        0 <= from <= end <= text.len(),
        end < text.len() ==> stop(text[end]),
        forall|i: int| from <= i < end ==> !stop(#[trigger] text[i]),
    ensures
        span_end(text, from, stop) == end,
    decreases text.len() - from,
{
    if from < end {
        lemma_span_end_unique(text, from + 1, stop, end);
    }
}

/// The characters of `text`, one by one.
pub fn chars_of(text: &str) -> (chars: Vec<char>)
    ensures
        chars@ == text@,
{
    let mut chars: Vec<char> = Vec::new();
    for c in it: text.chars()
        invariant
            chars@.len() == it.index(),
            it.seq() == text@,
            forall|i: int| 0 <= i < chars@.len() ==> chars@[i] == text@[i],
    {
        chars.push(c);
    }
    chars
}

/// Whether the two texts are the same.
pub fn same_text(a: &str, b: &str) -> (same: bool)
    ensures
        same == (a@ == b@),
{
    a.to_owned() == b.to_owned()
}

/// Whether `text` begins with `prefix`.
pub fn starts_with(text: &str, prefix: &str) -> (yes: bool)
    ensures
        yes == begins_with(text@, prefix@),
{
    let n: usize = prefix.unicode_len();
    if text.unicode_len() < n {
        return false;
    }
    same_text(text.substring_char(0, n), prefix)
}

/// The lines of `text`, without their endings.
pub fn split_lines(text: &str) -> (found: Vec<String>)
    ensures
        texts(found@) == lines(text@),
{
    let chars: Vec<char> = chars_of(text);
    let n: usize = chars.len();
    let ghost whole = text@;
    let ghost is_end = |c: char| c == '\n';
    let mut found: Vec<String> = Vec::new();
    let mut start: usize = 0;
    assert(whole.subrange(0, n as int) == whole);
    while start < n
        invariant
            chars@ == whole,
            whole == text@,
            n == whole.len(),
            start <= n,
            is_end == (|c: char| c == '\n'),
            texts(found@) + lines(whole.subrange(start as int, n as int))
                == lines(whole),
        decreases n - start,
    {
        let ghost rest = whole.subrange(start as int, n as int);
        let mut end: usize = start;
        while end < n && chars[end] != '\n'
            invariant
                chars@ == whole,
                n == whole.len(),
                start <= end <= n,
                forall|i: int| start <= i < end ==> whole[i] != '\n',
            decreases n - end,
        {
            end = end + 1;
        }
        proof {
            lemma_span_end_unique(rest, 0, is_end, end - start);
        }
        let ghost before = found@;
        if end < n {
            let stop: usize = if start < end && chars[end - 1] == '\r' {
                end - 1
            } else {
                end
            };
            let line: String = text.substring_char(start, stop).to_owned();
            proof {
                assert(line@ == without_carriage_return(rest.subrange(0, end - start)));
                assert(rest.subrange(end - start + 1, rest.len() as int) == whole.subrange(
                    end + 1,
                    n as int,
                ));
                assert(lines(rest) == seq![line@] + lines(whole.subrange(end + 1, n as int)));
            }
            found.push(line);
            start = end + 1;
        } else {
            let line: String = text.substring_char(start, n).to_owned();
            proof {
                assert(lines(rest) == seq![line@]);
                assert(lines(whole.subrange(n as int, n as int)) == Seq::<Seq<char>>::empty());
            }
            found.push(line);
            start = n;
        }
        proof {
            assert(texts(found@) == texts(before) + seq![found@.last()@]);
        }
    }
    proof {
        assert(lines(whole.subrange(n as int, n as int)) == Seq::<Seq<char>>::empty());
    }
    found
}

/// Whether `c` is white space in the sense of Unicode.
pub open spec fn is_white_space(c: char) -> bool {
    let code = c as u32;
    ||| 0x9 <= code <= 0xd
    ||| code == 0x20
    ||| code == 0x85
    ||| code == 0xa0
    ||| code == 0x1680
    ||| 0x2000 <= code <= 0x200a
    ||| code == 0x2028
    ||| code == 0x2029
    ||| code == 0x202f
    ||| code == 0x205f
    ||| code == 0x3000
}

/// `text` without the white space at its end.
pub open spec fn trimmed_end(text: Seq<char>) -> Seq<char>
    decreases text.len(),
{
    if text.len() > 0 && is_white_space(text.last()) {
        trimmed_end(text.drop_last())
    } else {
        text
    }
}

/// `text` without the white space at its end.
pub fn trim_end(text: &str) -> (trimmed: String)
    ensures
        trimmed@ == trimmed_end(text@),
{
    let chars: Vec<char> = chars_of(text);
    let ghost whole = text@;
    let mut end: usize = chars.len();
    assert(whole.subrange(0, end as int) == whole);
    while end > 0
        invariant_except_break
            trimmed_end(whole.subrange(0, end as int)) == trimmed_end(whole),
        invariant
            chars@ == whole,
            whole == text@,
            end <= whole.len(),
        ensures
            whole.subrange(0, end as int) == trimmed_end(whole),
        decreases end,
    {
        let code: u32 = chars[end - 1] as u32;
        let white: bool = (0x9 <= code && code <= 0xd) || code == 0x20 || code == 0x85 || code
            == 0xa0 || code == 0x1680 || (0x2000 <= code && code <= 0x200a) || code == 0x2028
            || code == 0x2029 || code == 0x202f || code == 0x205f || code == 0x3000;
        proof {
            assert(whole.subrange(0, end as int).last() == whole[end - 1]);
            assert(white == is_white_space(whole[end - 1]));
            assert(whole.subrange(0, end as int).drop_last() == whole.subrange(0, end - 1));
        }
        if !white {
            break;
        }
        end = end - 1;
    }
    text.substring_char(0, end).to_owned()
}

} // verus!
