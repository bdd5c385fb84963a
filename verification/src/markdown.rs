//! Markdown files with frontmatter: a block of YAML between two fences, then the
//! body.
//!
//! A file has frontmatter if it starts with `---` and a later line starts with
//! `---` too; the first such line closes the block. The line break behind the
//! opening dashes belongs to the fence. So does the rest of the closing line,
//! and one blank line behind it, which [`frame`] writes.

use vstd::prelude::*;

use crate::text::{char_vec, find_char, lemma_seek, piece_at, seek, stands_at};

verus! {

/// The dashes that a fence starts with.
pub open spec fn fence() -> Seq<char> {
    seq!['-', '-', '-']
}

/// A line that starts with the dashes of a fence begins behind position `at`.
pub open spec fn closes_at(text: Seq<char>, at: int) -> bool {
    stands_at(text, seq!['\n', '-', '-', '-'], at)
}

/// The first position at or after `from` behind which a line starts with the
/// dashes of a fence, or the end of the text.
pub open spec fn next_close(text: Seq<char>, from: int) -> int
    decreases text.len() - from,
{
    if from >= text.len() || closes_at(text, from) {
        from
    } else {
        next_close(text, from + 1)
    }
}

/// The text starts with a fence, and another closes the block behind it.
pub open spec fn has_frontmatter(text: Seq<char>) -> bool {
    stands_at(text, fence(), 0) && next_close(text, 3) < text.len()
}

/// Where the frontmatter begins: behind the opening fence.
pub open spec fn frontmatter_start(text: Seq<char>) -> int {
    if text.len() > 3 && text[3] == '\n' {
        4
    } else {
        3
    }
}

/// Where the body begins, for a closing fence on the line behind `close`: behind
/// that line, and behind a blank line that follows it.
pub open spec fn body_start(text: Seq<char>, close: int) -> int {
    let end = seek(text, '\n', close + 4);
    if end >= text.len() {
        text.len() as int
    } else if end + 1 < text.len() && text[end + 1] == '\n' {
        end + 2
    } else {
        end + 1
    }
}

/// The frontmatter of a text, and its body. Without frontmatter the first is
/// empty and the second is the whole text.
pub open spec fn split(text: Seq<char>) -> (Seq<char>, Seq<char>) {
    if has_frontmatter(text) {
        let close = next_close(text, 3);
        (
            text.subrange(frontmatter_start(text), close + 1),
            text.subrange(body_start(text, close), text.len() as int),
        )
    } else {
        (seq![], text)
    }
}

/// What [`next_close`] finds: nothing closes between `from` and it, and a fence
/// does at it unless the text ends there.
pub proof fn lemma_next_close(text: Seq<char>, from: int)
    requires
        0 <= from <= text.len(),
    ensures
        from <= next_close(text, from) <= text.len(),
        forall|i: int| from <= i < next_close(text, from) ==> !closes_at(text, i),
        next_close(text, from) < text.len() ==> closes_at(text, next_close(text, from)),
    decreases text.len() - from,
{
    if from < text.len() && !closes_at(text, from) {
        lemma_next_close(text, from + 1);
    }
}

/// The first close is the one before which nothing closes.
pub proof fn lemma_next_close_is(text: Seq<char>, from: int, close: int)
    requires
        0 <= from <= close < text.len(),
        closes_at(text, close),
        forall|i: int| from <= i < close ==> !closes_at(text, i),
    ensures
        next_close(text, from) == close,
{
    lemma_next_close(text, from);
}

/// Split a text into its frontmatter and its body.
pub fn split_frontmatter(content: &str) -> (parts: (&str, &str))
    ensures
        (parts.0@, parts.1@) == split(content@),
{
    let v = char_vec(content);
    let dashes = char_vec("---");
    let closing = char_vec("\n---");
    proof {
        reveal_strlit("---");
        reveal_strlit("\n---");
        assert(dashes@ =~= fence());
        assert(closing@ =~= seq!['\n', '-', '-', '-']);
    }
    if !piece_at(&v, &dashes, 0) {
        proof {
            reveal_strlit("");
            assert(""@ =~= seq![]);
        }
        return ("", content);
    }
    let mut close: usize = 3;
    while close < v.len() && !piece_at(&v, &closing, close)
        invariant
            closing@ == seq!['\n', '-', '-', '-'],
            3 <= close <= v@.len(),
            next_close(v@, 3) == next_close(v@, close as int),
        decreases v@.len() - close,
    {
        close += 1;
    }
    if close == v.len() {
        proof {
            reveal_strlit("");
            assert(""@ =~= seq![]);
        }
        return ("", content);
    }
    let start: usize = if v[3] == '\n' {
        4
    } else {
        3
    };
    let end = find_char(&v, '\n', close + 4);
    let body: usize = if end == v.len() {
        end
    } else if end + 1 < v.len() && v[end + 1] == '\n' {
        end + 2
    } else {
        end + 1
    };
    (content.substring_char(start, close + 1), content.substring_char(body, v.len()))
}

/// A file with this frontmatter and body: a fence, the frontmatter, a fence, a
/// blank line, the body.
pub open spec fn framed(frontmatter: Seq<char>, body: Seq<char>) -> Seq<char> {
    "---\n"@ + frontmatter + "---\n\n"@ + body
}

/// Write frontmatter and body as one file.
pub fn frame(frontmatter: &str, body: &str) -> (content: String)
    ensures
        content@ == framed(frontmatter@, body@),
{
    let mut content = "---\n".to_string();
    content.append(frontmatter);
    content.append("---\n\n");
    content.append(body);
    content
}

/// Position `at` begins a line.
pub open spec fn begins_line(text: Seq<char>, at: int) -> bool {
    at == 0 || (0 < at <= text.len() && text[at - 1] == '\n')
}

/// A text that can stand between two fences: it is not empty, it ends with a
/// line feed, and none of its lines starts with the dashes of a fence.
pub open spec fn is_block(text: Seq<char>) -> bool {
    &&& text.len() > 0
    &&& text.last() == '\n'
    &&& forall|at: int| #[trigger] begins_line(text, at) ==> !stands_at(text, fence(), at)
}

/// Splitting gives back what was framed: the frontmatter and the body of a file
/// are those it was written with, whatever the body holds.
pub proof fn law_split_gives_back_framed(frontmatter: Seq<char>, body: Seq<char>)
    requires
        is_block(frontmatter),
    ensures
        split(framed(frontmatter, body)) == (frontmatter, body),
{
    reveal_strlit("---\n");
    reveal_strlit("---\n\n");
    let text = framed(frontmatter, body);
    let n = frontmatter.len() as int;
    let open = seq!['-', '-', '-', '\n'];
    let tail = seq!['-', '-', '-', '\n', '\n'];
    assert("---\n"@ =~= open);
    assert("---\n\n"@ =~= tail);
    assert(text.len() == n + 9 + body.len());
    assert(forall|i: int| 0 <= i < n ==> #[trigger] frontmatter[i] == text[4 + i]);
    assert(text[3] == '\n' && text[3 + n] == '\n');
    assert(text[4 + n] == '-' && text[5 + n] == '-' && text[6 + n] == '-');
    assert(text[7 + n] == '\n' && text[8 + n] == '\n');
    assert(text.subrange(0, 3) =~= fence());
    assert(text.subrange(3 + n, 7 + n) =~= seq!['\n', '-', '-', '-']);
    assert forall|i: int| 3 <= i < 3 + n implies !closes_at(text, i) by {
        if closes_at(text, i) {
            let piece = text.subrange(i, i + 4);
            assert(piece[0] == '\n' && piece[1] == '-' && piece[2] == '-' && piece[3] == '-');
            assert(text[i] == '\n' && text[i + 1] == '-' && text[i + 2] == '-' && text[i + 3]
                == '-');
            let at = i - 3;
            assert(begins_line(frontmatter, at));
            assert(at + 3 <= n);
            assert(frontmatter.subrange(at, at + 3) =~= fence());
        }
    }
    lemma_next_close_is(text, 3, 3 + n);
    assert(seek(text, '\n', 7 + n) == 7 + n);
    assert(text.subrange(4, 4 + n) =~= frontmatter);
    assert(text.subrange(9 + n, text.len() as int) =~= body);
}

/// A file framed without frontmatter has none.
pub proof fn law_empty_frontmatter_is_none(body: Seq<char>)
    ensures
        split(framed(seq![], body)).0.len() == 0,
{
    reveal_strlit("---\n");
    reveal_strlit("---\n\n");
    let text = framed(seq![], body);
    assert(text.subrange(3, 7) =~= seq!['\n', '-', '-', '-']);
}

/// Splitting loses nothing but the fences: with frontmatter, the text is the
/// opening fence, the frontmatter, the closing fence and the body, in a row.
pub proof fn law_split_keeps_text(text: Seq<char>)
    requires
        has_frontmatter(text),
    ensures
        ({
            let (frontmatter, body) = split(text);
            let opening = text.take(frontmatter_start(text));
            let closing = text.subrange(next_close(text, 3) + 1, body_start(text, next_close(text, 3)));
            &&& text == opening + frontmatter + closing + body
            &&& stands_at(opening, fence(), 0)
            &&& stands_at(closing, fence(), 0)
        }),
{
    let close = next_close(text, 3);
    lemma_next_close(text, 3);
    lemma_seek(text, '\n', close + 4);
    let (frontmatter, body) = split(text);
    let start = frontmatter_start(text);
    let from = body_start(text, close);
    let opening = text.take(start);
    let closing = text.subrange(close + 1, from);
    assert(text =~= opening + frontmatter + closing + body);
    assert(opening.subrange(0, 3) =~= text.subrange(0, 3));
    assert(closing.subrange(0, 3) =~= text.subrange(close, close + 4).subrange(1, 4));
    assert(seq!['\n', '-', '-', '-'].subrange(1, 4) =~= fence());
}

} // verus!
