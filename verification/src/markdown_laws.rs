//! What splitting and framing markdown files is for.

use vstd::prelude::*;

use crate::markdown::{
    body_start, closes_at, fence, frame, frontmatter_start, lemma_next_close, lemma_next_close_is,
    next_close, split, split_frontmatter,
};
use crate::text::{lemma_seek, seek, stands_at};

verus! {

/// A line feed and three dashes stand in a text at a position.
pub open spec fn dashes_follow(text: Seq<char>, at: int) -> bool {
    &&& 0 <= at
    &&& at + 4 <= text.len()
    &&& text[at] == '\n'
    &&& text[at + 1] == '-'
    &&& text[at + 2] == '-'
    &&& text[at + 3] == '-'
}

/// A fence closes where a line feed and three dashes stand.
proof fn lemma_closes_at(text: Seq<char>, at: int)
    ensures
        closes_at(text, at) == dashes_follow(text, at),
{
    let close = seq!['\n', '-', '-', '-'];
    if closes_at(text, at) {
        let piece = text.subrange(at, at + 4);
        assert(piece[0] == text[at] && piece[1] == text[at + 1] && piece[2] == text[at + 2]
            && piece[3] == text[at + 3]);
    }
    if dashes_follow(text, at) {
        assert(text.subrange(at, at + 4) =~= close);
    }
}

/// A text split at its fences: three dashes, the inside, three dashes at the start
/// of a line, the rest of that line, and what is behind the line. The frontmatter
/// is the inside without a line feed at its start. The body is all that is behind
/// the line of the closing fence, but for its line feed and one blank line.
pub proof fn law_split_at_fences(
    inside: Seq<char>,
    tail: Seq<char>,
    behind: Seq<char>,
)
    requires
        inside.len() > 0,
        inside.last() == '\n',
        forall|i: int| !#[trigger] dashes_follow(inside, i),
        !tail.contains('\n'),
        behind.len() > 0 ==> behind[0] == '\n',
    ensures
        ({
            let dashes = seq!['-', '-', '-'];
            let (frontmatter, body) = split(dashes + inside + dashes + tail + behind);
            &&& frontmatter == if inside[0] == '\n' {
                inside.skip(1)
            } else {
                inside
            }
            &&& body == if behind.len() == 0 {
                behind
            } else if behind.len() > 1 && behind[1] == '\n' {
                behind.skip(2)
            } else {
                behind.skip(1)
            }
        }),
{
    let dashes = seq!['-', '-', '-'];
    let text = dashes + inside + dashes + tail + behind;
    let n = inside.len() as int;
    let m = tail.len() as int;
    assert(text.len() == n + 6 + m + behind.len());
    assert(forall|i: int| 0 <= i < n ==> #[trigger] text[3 + i] == inside[i]);
    assert(forall|i: int| 0 <= i < m ==> #[trigger] text[6 + n + i] == tail[i]);
    assert(forall|i: int| 0 <= i < behind.len() ==> #[trigger] text[6 + n + m + i] == behind[i]);
    assert(text[0] == '-' && text[1] == '-' && text[2] == '-');
    assert(text[3 + n] == '-' && text[4 + n] == '-' && text[5 + n] == '-');
    assert(text.subrange(0, 3) =~= fence());
    let close = 2 + n;
    assert(text[close] == inside[n - 1]);
    assert(dashes_follow(text, close));
    lemma_closes_at(text, close);
    assert forall|i: int| 3 <= i < close implies !closes_at(text, i) by {
        lemma_closes_at(text, i);
        if dashes_follow(text, i) {
            let j = i - 3;
            assert(text[i] == inside[j]);
            assert(text[i + 1] == inside[j + 1]);
            assert(j + 1 != n - 1);
            assert(text[i + 2] == inside[j + 2]);
            assert(j + 2 != n - 1);
            assert(text[i + 3] == inside[j + 3]);
            assert(dashes_follow(inside, j));
        }
    }
    lemma_next_close_is(text, 3, close);
    let end = seek(text, '\n', close + 4);
    lemma_seek(text, '\n', close + 4);
    assert(end == 6 + n + m) by {
        if end < 6 + n + m {
            assert(text[end] == tail[end - 6 - n]);
            assert(tail.contains('\n'));
        } else if behind.len() > 0 {
            assert(text[6 + n + m] == behind[0]);
        }
    }
    assert(text[3] == inside[0]);
    if inside[0] == '\n' {
        assert(text.subrange(4, close + 1) =~= inside.skip(1));
    } else {
        assert(text.subrange(3, close + 1) =~= inside);
    }
    if behind.len() == 0 {
        assert(text.subrange(text.len() as int, text.len() as int) =~= behind);
    } else {
        if behind.len() > 1 {
            assert(text[end + 1] == behind[1]);
        }
        assert(text.subrange(end + 1, text.len() as int) =~= behind.skip(1));
        if behind.len() > 1 {
            assert(text.subrange(end + 2, text.len() as int) =~= behind.skip(2));
        }
    }
}

/// A text without fences: it does not start with three dashes, or no later line
/// does. It has no frontmatter, and all of it is the body.
pub proof fn law_split_without_fences(text: Seq<char>)
    requires
        !(text.len() >= 3 && text[0] == '-' && text[1] == '-' && text[2] == '-') || forall|i: int|
            3 <= i ==> !#[trigger] dashes_follow(text, i),
    ensures
        split(text).0.len() == 0,
        split(text).1 == text,
{
    if stands_at(text, fence(), 0) {
        let piece = text.subrange(0, 3);
        assert(piece[0] == text[0] && piece[1] == text[1] && piece[2] == text[2]);
        lemma_next_close(text, 3);
        lemma_closes_at(text, next_close(text, 3));
    }
}

/// Splitting a file: what it gives for a file with fences and for one without, in
/// terms of the characters of the file.
pub proof fn law_split_frontmatter(
    content: &str,
    parts: (&str, &str),
    inside: Seq<char>,
    tail: Seq<char>,
    behind: Seq<char>,
)
    requires
        call_ensures(split_frontmatter, (content,), parts),
    ensures
        (parts.0@, parts.1@) == split(content@),
        content@ == seq!['-', '-', '-'] + inside + seq!['-', '-', '-'] + tail + behind && inside.len()
            > 0 && inside.last() == '\n' && (forall|i: int| !#[trigger] dashes_follow(inside, i))
            && !tail.contains('\n') && (behind.len() > 0 ==> behind[0] == '\n') ==> {
            &&& inside[0] == '\n' ==> parts.0@ == inside.skip(1)
            &&& inside[0] != '\n' ==> parts.0@ == inside
            &&& behind.len() == 0 ==> parts.1@.len() == 0
            &&& behind.len() > 1 && behind[1] == '\n' ==> parts.1@ == behind.skip(2)
            &&& behind.len() > 0 && !(behind.len() > 1 && behind[1] == '\n') ==> parts.1@
                == behind.skip(1)
        },
        !(content@.len() >= 3 && content@[0] == '-' && content@[1] == '-' && content@[2] == '-') || (
        forall|i: int| 3 <= i ==> !#[trigger] dashes_follow(content@, i)) ==> parts.0@.len() == 0
            && parts.1@ == content@,
{
    if content@ == seq!['-', '-', '-'] + inside + seq!['-', '-', '-'] + tail + behind && inside.len()
        > 0 && inside.last() == '\n' && (forall|i: int| !#[trigger] dashes_follow(inside, i))
        && !tail.contains('\n') && (behind.len() > 0 ==> behind[0] == '\n') {
        law_split_at_fences(inside, tail, behind);
    }
    if !(content@.len() >= 3 && content@[0] == '-' && content@[1] == '-' && content@[2] == '-') || (
    forall|i: int| 3 <= i ==> !#[trigger] dashes_follow(content@, i)) {
        law_split_without_fences(content@);
    }
}

/// The closing fence takes nothing of the prompt: what it takes is its line, the
/// line feed that ends it, and at most one more character, a line feed.
pub proof fn law_fence_takes_no_prompt(text: Seq<char>)
    requires
        split(text).0.len() > 0,
    ensures
        exists|close: int, end: int|
            #![trigger text[close], text[end]]
            {
                &&& 3 <= close < close + 4 <= end <= text.len()
                &&& dashes_follow(text, close)
                &&& forall|i: int| 3 <= i < close ==> !dashes_follow(text, i)
                &&& forall|i: int| close + 4 <= i < end ==> text[i] != '\n'
                &&& end < text.len() ==> text[end] == '\n'
                &&& split(text).1 == text.skip(
                    if end == text.len() {
                        end
                    } else if end + 1 < text.len() && text[end + 1] == '\n' {
                        end + 2
                    } else {
                        end + 1
                    },
                )
                &&& split(text).0 == text.subrange(
                    if text[3] == '\n' {
                        4
                    } else {
                        3
                    },
                    close + 1,
                )
            },
{
    let close = next_close(text, 3);
    lemma_next_close(text, 3);
    lemma_closes_at(text, close);
    let end = seek(text, '\n', close + 4);
    lemma_seek(text, '\n', close + 4);
    assert forall|i: int| 3 <= i < close implies !dashes_follow(text, i) by {
        lemma_closes_at(text, i);
    }
    let from = body_start(text, close);
    assert(text.subrange(from, text.len() as int) =~= text.skip(from));
    assert(frontmatter_start(text) == if text[3] == '\n' {
        4int
    } else {
        3int
    });
    let c = text[close];
    let e = text[end];
}

/// Framing writes a fence, the frontmatter to the letter, a fence, a blank line,
/// and the body to the letter.
pub proof fn law_frame(frontmatter: &str, body: &str, content: String)
    requires
        call_ensures(frame, (frontmatter, body), content),
    ensures
        content@ == seq!['-', '-', '-', '\n'] + frontmatter@ + seq!['-', '-', '-', '\n', '\n'] + body@,
{
    reveal_strlit("---\n");
    reveal_strlit("---\n\n");
    assert("---\n"@ =~= seq!['-', '-', '-', '\n']);
    assert("---\n\n"@ =~= seq!['-', '-', '-', '\n', '\n']);
}

/// What is put behind a file is put behind its body, and nothing else changes,
/// where the body is not empty.
pub proof fn law_appended_text_is_body(text: Seq<char>, more: Seq<char>)
    requires
        split(text).0.len() > 0,
        split(text).1.len() > 0,
    ensures
        split(text + more) == (split(text).0, split(text).1 + more),
{
    let all = text + more;
    let close = next_close(text, 3);
    lemma_next_close(text, 3);
    assert(forall|i: int| 0 <= i < text.len() ==> #[trigger] all[i] == text[i]);
    lemma_closes_at(text, close);
    lemma_closes_at(all, close);
    assert forall|i: int| 3 <= i < close implies !closes_at(all, i) by {
        lemma_closes_at(text, i);
        lemma_closes_at(all, i);
        if dashes_follow(all, i) {
            assert(i + 4 <= close + 4 <= text.len());
            assert(dashes_follow(text, i));
        }
    }
    lemma_next_close_is(all, 3, close);
    lemma_seek(text, '\n', close + 4);
    lemma_seek(all, '\n', close + 4);
    let end = seek(text, '\n', close + 4);
    let all_end = seek(all, '\n', close + 4);
    assert(end < text.len());
    assert(all_end == end) by {
        assert(all[end] == '\n');
        if all_end < end {
            assert(text[all_end] == all[all_end]);
        }
    }
    let from = body_start(text, close);
    assert(body_start(all, close) == from);
    assert(all.subrange(0, 3) =~= text.subrange(0, 3));
    assert(all.subrange(frontmatter_start(all), close + 1) =~= text.subrange(
        frontmatter_start(text),
        close + 1,
    ));
    assert(all.subrange(from, all.len() as int) =~= text.subrange(from, text.len() as int) + more);
}

} // verus!
