//! What the functions on texts are for: how their results relate to what they
//! were given.

use vstd::prelude::*;

use crate::text::{
    ascii_lowered, char_vec, contains_text, decimal, decimal_string, digit, digits, find_char,
    has_piece, is_white_space, join_first, joined, law_pieces_of_joined, lemma_seek, lines,
    lowercase, lowercase_all, piece_at, pieces, same_text, seek, split_at_char, split_lines,
    stands_at, text_before, text_less, texts, trim, trimmed, trimmed_end, trimmed_start,
    white_space,
};

verus! {

/// Strings, each as its text.
pub open spec fn each_text(list: Seq<String>) -> Seq<Seq<char>> {
    Seq::new(list.len(), |i: int| list[i]@)
}

/// A piece stands in a text if and only if the text is something, the piece, and
/// something.
pub proof fn law_piece_stands_between(text: Seq<char>, piece: Seq<char>)
    ensures
        has_piece(text, piece) <==> exists|a: Seq<char>, b: Seq<char>|
            text == #[trigger] (a + piece + b),
{
    if has_piece(text, piece) {
        let at = choose|at: int| stands_at(text, piece, at);
        let a = text.take(at);
        let b = text.skip(at + piece.len());
        assert(text =~= a + text.subrange(at, at + piece.len()) + b);
        assert(text == a + piece + b);
    }
    if exists|a: Seq<char>, b: Seq<char>| text == #[trigger] (a + piece + b) {
        let (a, b) = choose|a: Seq<char>, b: Seq<char>| text == #[trigger] (a + piece + b);
        let at = a.len() as int;
        assert(text.subrange(at, at + piece.len()) =~= piece);
        assert(stands_at(text, piece, at));
    }
}

/// A text is found in another if and only if the other is something, the text,
/// and something.
pub proof fn law_contains_text(text: &str, piece: &str, found: bool)
    requires
        call_ensures(contains_text, (text, piece), found),
    ensures
        found <==> exists|a: Seq<char>, b: Seq<char>| text@ == #[trigger] (a + piece@ + b),
{
    law_piece_stands_between(text@, piece@);
}

/// A text comes before another if and only if behind what they start with alike it
/// ends first, or has the lesser character.
pub proof fn law_text_order(a: Seq<char>, b: Seq<char>)
    ensures
        text_less(a, b) <==> exists|k: int|
            0 <= k <= a.len() && k < b.len() && #[trigger] a.take(k) == b.take(k) && (k == a.len()
                || a[k] < b[k]),
    decreases a.len(),
{
    if b.len() == 0 {
    } else if a.len() == 0 {
        assert(a.take(0) =~= b.take(0));
    } else if a[0] != b[0] {
        assert(a.take(0) =~= b.take(0));
        assert forall|k: int|
            0 <= k <= a.len() && k < b.len() && #[trigger] a.take(k) == b.take(k) implies k == 0 by {
            if k > 0 {
                assert(a.take(k)[0] == b.take(k)[0]);
            }
        }
    } else {
        let x = a.skip(1);
        let y = b.skip(1);
        law_text_order(x, y);
        if text_less(x, y) {
            let k = choose|k: int|
                0 <= k <= x.len() && k < y.len() && #[trigger] x.take(k) == y.take(k) && (k
                    == x.len() || x[k] < y[k]);
            assert forall|i: int| 0 <= i < k + 1 implies a[i] == b[i] by {
                if i > 0 {
                    assert(x.take(k)[i - 1] == y.take(k)[i - 1]);
                }
            }
            assert(a.take(k + 1) =~= b.take(k + 1));
        }
        if exists|k: int|
            0 <= k <= a.len() && k < b.len() && #[trigger] a.take(k) == b.take(k) && (k == a.len()
                || a[k] < b[k]) {
            let k = choose|k: int|
                0 <= k <= a.len() && k < b.len() && #[trigger] a.take(k) == b.take(k) && (k
                    == a.len() || a[k] < b[k]);
            assert(k > 0);
            assert forall|i: int| 0 <= i < k - 1 implies x[i] == y[i] by {
                assert(a.take(k)[i + 1] == b.take(k)[i + 1]);
            }
            assert(x.take(k - 1) =~= y.take(k - 1));
        }
    }
}

/// Comparing two strings: the first comes before the second if and only if behind
/// what they start with alike it ends first, or has the lesser character.
pub proof fn law_text_before(a: &str, b: &str, less: bool)
    requires
        call_ensures(text_before, (a, b), less),
    ensures
        less <==> exists|k: int|
            0 <= k <= a@.len() && k < b@.len() && #[trigger] a@.take(k) == b@.take(k) && (k
                == a@.len() || a@[k] < b@[k]),
{
    law_text_order(a@, b@);
}

/// The letters `A` to `Z` are put in lower case, which lies 32 behind them, and
/// every other character is kept, each in its place.
pub proof fn law_ascii_lowered(text: Seq<char>, i: int)
    requires
        0 <= i < text.len(),
    ensures
        ascii_lowered(text).len() == text.len(),
        'A' <= text[i] <= 'Z' ==> ascii_lowered(text)[i] as u32 == text[i] as u32 + 32,
        !('A' <= text[i] <= 'Z') ==> ascii_lowered(text)[i] == text[i],
{
}

/// Putting a list in lower case puts each of its members in lower case, in order.
pub proof fn law_lowercase_all(list: &[String], lowered: Vec<String>)
    requires
        call_ensures(lowercase_all, (list,), lowered),
    ensures
        lowered@.len() == list@.len(),
        forall|i: int| #![trigger lowered@[i]] 0 <= i < list@.len() ==> lowered@[i]@ == lowercase(list@[i]@),
{
    assert(texts(lowered@).len() == lowered@.len());
    assert forall|i: int| #![trigger lowered@[i]] 0 <= i < list@.len() implies lowered@[i]@
        == lowercase(list@[i]@) by {
        assert(texts(lowered@)[i] == lowered@[i]@);
        assert(texts(list@)[i] == list@[i]@);
    }
}

/// These characters are white space, and no others.
pub proof fn law_white_space(c: char, white: bool)
    requires
        call_ensures(white_space, (c,), white),
    ensures
        white == is_white_space(c),
        white <==> {
            ||| c as u32 == 9 || c as u32 == 10 || c as u32 == 11 || c as u32 == 12 || c as u32 == 13
            ||| c as u32 == 0x20 || c as u32 == 0x85 || c as u32 == 0xa0 || c as u32 == 0x1680
            ||| 0x2000 <= c as u32 <= 0x200a
            ||| c as u32 == 0x2028 || c as u32 == 0x2029 || c as u32 == 0x202f
            ||| c as u32 == 0x205f || c as u32 == 0x3000
        },
{
}

/// What is cut from the start is white space, and the rest does not start with
/// any.
proof fn lemma_trimmed_start(text: Seq<char>)
    ensures
        ({
            let rest = trimmed_start(text);
            let n = text.len() - rest.len();
            &&& 0 <= n
            &&& rest == text.skip(n)
            &&& forall|i: int| 0 <= i < n ==> is_white_space(#[trigger] text[i])
            &&& rest.len() > 0 ==> !is_white_space(rest[0])
        }),
    decreases text.len(),
{
    if text.len() > 0 && is_white_space(text[0]) {
        let next = text.skip(1);
        lemma_trimmed_start(next);
        let n = text.len() - trimmed_start(text).len();
        assert(next.skip(n - 1) =~= text.skip(n));
        assert forall|i: int| 0 <= i < n implies is_white_space(#[trigger] text[i]) by {
            if i > 0 {
                assert(next[i - 1] == text[i]);
            }
        }
    } else {
        assert(text.skip(0) =~= text);
    }
}

/// What is cut from the end is white space, and the rest does not end with any.
proof fn lemma_trimmed_end(text: Seq<char>)
    ensures
        ({
            let rest = trimmed_end(text);
            &&& rest.len() <= text.len()
            &&& rest == text.take(rest.len() as int)
            &&& forall|i: int| rest.len() <= i < text.len() ==> is_white_space(#[trigger] text[i])
            &&& rest.len() > 0 ==> !is_white_space(rest.last())
        }),
    decreases text.len(),
{
    if text.len() > 0 && is_white_space(text.last()) {
        let next = text.drop_last();
        lemma_trimmed_end(next);
        let n = trimmed_end(text).len() as int;
        assert(next.take(n) =~= text.take(n));
        assert forall|i: int| n <= i < text.len() implies is_white_space(#[trigger] text[i]) by {
            if i < next.len() {
                assert(next[i] == text[i]);
            }
        }
    } else {
        assert(text.take(text.len() as int) =~= text);
    }
}

/// All of a text is white space.
pub open spec fn is_blank(text: Seq<char>) -> bool {
    forall|i: int| 0 <= i < text.len() ==> is_white_space(#[trigger] text[i])
}

/// Trimming takes white space from the two ends, all of it, and nothing else.
pub proof fn law_trimmed(text: Seq<char>)
    ensures
        exists|a: Seq<char>, b: Seq<char>|
            text == a + trimmed(text) + b && #[trigger] is_blank(a) && #[trigger] is_blank(b),
        trimmed(text).len() > 0 ==> !is_white_space(trimmed(text)[0]) && !is_white_space(
            trimmed(text).last(),
        ),
{
    let rest = trimmed_start(text);
    let t = trimmed(text);
    lemma_trimmed_start(text);
    lemma_trimmed_end(rest);
    let n = text.len() - rest.len();
    let a = text.take(n);
    let b = rest.skip(t.len() as int);
    assert(is_blank(b)) by {
        assert forall|i: int| 0 <= i < b.len() implies is_white_space(#[trigger] b[i]) by {
            assert(b[i] == rest[t.len() + i]);
        }
    }
    assert(is_blank(a)) by {
        assert forall|i: int| 0 <= i < a.len() implies is_white_space(#[trigger] a[i]) by {
            assert(a[i] == text[i]);
        }
    }
    assert(text == a + t + b) by {
        assert(rest =~= t + b);
        assert(text =~= a + rest);
        assert(a + (t + b) =~= a + t + b);
    }
    if t.len() > 0 {
        assert(t[0] == rest[0]);
    }
}

/// Trimming a string takes white space from its two ends, all of it, and nothing
/// else.
pub proof fn law_trim(s: &str, t: &str)
    requires
        call_ensures(trim, (s,), t),
    ensures
        t@ == trimmed(s@),
        exists|a: Seq<char>, b: Seq<char>|
            s@ == a + t@ + b && #[trigger] is_blank(a) && #[trigger] is_blank(b),
        t@.len() > 0 ==> !is_white_space(t@[0]) && !is_white_space(t@.last()),
{
    law_trimmed(s@);
}

/// A character is found where it first stands at or behind the start, or at the
/// end of the text where it does not stand.
pub proof fn law_find_char(text: &Vec<char>, c: char, from: usize, at: usize)
    requires
        from <= text@.len(),
        call_ensures(find_char, (text, c, from), at),
    ensures
        from <= at <= text@.len(),
        forall|i: int| from <= i < at ==> #[trigger] text@[i] != c,
        at < text@.len() ==> text@[at as int] == c,
{
    lemma_seek(text@, c, from as int);
}

/// In a row, two lists that are not empty are the first in a row, a separator, and
/// the second in a row.
pub proof fn law_joined_in_two(a: Seq<Seq<char>>, b: Seq<Seq<char>>, sep: Seq<char>)
    requires
        a.len() > 0,
        b.len() > 0,
    ensures
        joined(a + b, sep) == joined(a, sep) + sep + joined(b, sep),
    decreases b.len(),
{
    let all = a + b;
    if b.len() == 1 {
        assert(all.drop_last() =~= a);
    } else {
        law_joined_in_two(a, b.drop_last(), sep);
        assert(all.drop_last() =~= a + b.drop_last());
        assert(all.last() == b.last());
        assert(joined(a, sep) + sep + (joined(b.drop_last(), sep) + sep + b.last()) =~= joined(a, sep)
            + sep + joined(b.drop_last(), sep) + sep + b.last());
    }
}

/// In a row, no texts are nothing, and one text is that text.
pub proof fn law_joined_of_few(one: Seq<char>, sep: Seq<char>)
    ensures
        joined(seq![], sep) == Seq::<char>::empty(),
        joined(seq![one], sep) == one,
{
}

/// Putting the first strings of a list in a row takes all of those, in order, and
/// no others: it is what all strings of a list of just those give.
pub proof fn law_join_first(list: &Vec<String>, count: usize, sep: &str, r: String)
    requires
        count <= list@.len(),
        call_ensures(join_first, (list, count, sep), r),
    ensures
        r@ == joined(each_text(list@.take(count as int)), sep@),
{
    assert(texts(list@).take(count as int) =~= each_text(list@.take(count as int)));
}

/// The pieces of a text hold no separator, and with one between neighbours they
/// are the text again.
pub proof fn law_pieces_are_the_text(text: Seq<char>, c: char)
    ensures
        pieces(text, c).len() > 0,
        forall|i: int| 0 <= i < pieces(text, c).len() ==> !(#[trigger] pieces(text, c)[i]).contains(c),
        joined(pieces(text, c), seq![c]) == text,
    decreases text.len(),
{
    let at = seek(text, c, 0);
    lemma_seek(text, c, 0);
    if at >= text.len() {
        assert(pieces(text, c) =~= seq![text]);
        assert(!text.contains(c));
    } else {
        let first = text.take(at);
        let rest = text.skip(at + 1);
        law_pieces_are_the_text(rest, c);
        let more = pieces(rest, c);
        assert(pieces(text, c) == seq![first] + more);
        assert(!first.contains(c)) by {
            if first.contains(c) {
                let i = choose|i: int| 0 <= i < first.len() && first[i] == c;
                assert(text[i] == c);
            }
        }
        assert forall|i: int| 0 <= i < pieces(text, c).len() implies !(#[trigger] pieces(
            text,
            c,
        )[i]).contains(c) by {
            if i > 0 {
                assert(pieces(text, c)[i] == more[i - 1]);
            }
        }
        law_joined_in_two(seq![first], more, seq![c]);
        assert(joined(seq![first], seq![c]) == first);
        assert(first + seq![c] + rest =~= text);
    }
}

/// Cutting a string at every separator: no piece holds one, the pieces with one
/// between neighbours are the string again, and no other list of such pieces is.
pub proof fn law_split_at_char(s: &str, c: char, list: Vec<String>, other: Seq<Seq<char>>)
    requires
        call_ensures(split_at_char, (s, c), list),
    ensures
        list@.len() > 0,
        forall|i: int| 0 <= i < list@.len() ==> !(#[trigger] list@[i])@.contains(c),
        joined(each_text(list@), seq![c]) == s@,
        other.len() > 0 && joined(other, seq![c]) == s@ && (forall|i: int|
            0 <= i < other.len() ==> !(#[trigger] other[i]).contains(c)) ==> other.len() == list@.len()
            && forall|i: int| 0 <= i < other.len() ==> #[trigger] other[i] == list@[i]@,
{
    law_pieces_are_the_text(s@, c);
    let all = texts(list@);
    assert(all =~= each_text(list@));
    assert forall|i: int| 0 <= i < list@.len() implies !(#[trigger] list@[i])@.contains(c) by {
        assert(all[i] == list@[i]@);
    }
    if other.len() > 0 && joined(other, seq![c]) == s@ && (forall|i: int|
        0 <= i < other.len() ==> !(#[trigger] other[i]).contains(c)) {
        law_pieces_of_joined(other, c);
        assert(other == all);
    }
}

/// The lines of a text that goes on behind its first line feed: the first line,
/// without a carriage return at its end, then the lines of what follows.
pub proof fn law_first_line(first: Seq<char>, rest: Seq<char>)
    requires
        !first.contains('\n'),
    ensures
        first.len() > 0 && first.last() == '\r' ==> lines(first + seq!['\n'] + rest) == seq![
            first.drop_last(),
        ] + lines(rest),
        !(first.len() > 0 && first.last() == '\r') ==> lines(first + seq!['\n'] + rest) == seq![first]
            + lines(rest),
{
    let text = first + seq!['\n'] + rest;
    let n = first.len() as int;
    lemma_seek(text, '\n', 0);
    let end = seek(text, '\n', 0);
    assert(text[n] == '\n');
    assert(end == n) by {
        if end < n {
            assert(text[end] == first[end]);
            assert(first.contains('\n'));
        }
    }
    assert(text.take(n) =~= first);
    assert(text.skip(n + 1) =~= rest);
}

/// A text without a line feed is its one line, to the letter, unless it is empty.
pub proof fn law_last_line(text: Seq<char>)
    requires
        !text.contains('\n'),
    ensures
        text.len() == 0 ==> lines(text).len() == 0,
        text.len() > 0 ==> lines(text) == seq![text],
{
    lemma_seek(text, '\n', 0);
    if seek(text, '\n', 0) < text.len() {
        assert(text.contains('\n'));
    }
}

/// Splitting into lines, line by line: behind a first line come the lines of what
/// follows it.
pub proof fn law_split_lines(
    s: &str,
    list: Vec<String>,
    first: Seq<char>,
    rest: &str,
    more: Vec<String>,
)
    requires
        call_ensures(split_lines, (s,), list),
        call_ensures(split_lines, (rest,), more),
        s@ == first + seq!['\n'] + rest@,
        !first.contains('\n'),
    ensures
        list@.len() == more@.len() + 1,
        list@[0]@ == if first.len() > 0 && first.last() == '\r' {
            first.drop_last()
        } else {
            first
        },
        forall|i: int| #![trigger more@[i]] 0 <= i < more@.len() ==> list@[i + 1]@ == more@[i]@,
{
    law_first_line(first, rest@);
    let all = texts(list@);
    let after = texts(more@);
    assert(all.len() == after.len() + 1);
    assert(all[0] == list@[0]@);
    assert forall|i: int| #![trigger more@[i]] 0 <= i < more@.len() implies list@[i + 1]@
        == more@[i]@ by {
        assert(all[i + 1] == list@[i + 1]@ && after[i] == more@[i]@);
        assert(all[i + 1] == after[i]);
    }
}

/// Splitting a string without a line feed into lines gives the string itself, or
/// nothing where it is empty.
pub proof fn law_split_one_line(s: &str, list: Vec<String>)
    requires
        call_ensures(split_lines, (s,), list),
        !s@.contains('\n'),
    ensures
        s@.len() == 0 ==> list@.len() == 0,
        s@.len() > 0 ==> list@.len() == 1 && list@[0]@ == s@,
{
    law_last_line(s@);
    assert(texts(list@).len() == list@.len());
    if s@.len() > 0 {
        assert(texts(list@)[0] == list@[0]@);
    }
}

/// The number that decimal digits stand for.
pub open spec fn number_of(text: Seq<char>) -> int
    decreases text.len(),
{
    if text.len() == 0 {
        0
    } else {
        10 * number_of(text.drop_last()) + (text.last() as int - '0' as int)
    }
}

/// The digits of a number stand for it, and do not start with a zero unless they
/// are just that.
proof fn lemma_digits(n: nat)
    ensures
        number_of(digits(n)) == n,
        digits(n).len() > 0,
        forall|i: int| 0 <= i < digits(n).len() ==> '0' <= #[trigger] digits(n)[i] <= '9',
        digits(n)[0] == '0' ==> n == 0,
        n == 0 ==> digits(n).len() == 1,
    decreases n,
{
    let d = digits(n);
    if n < 10 {
        assert(d.drop_last() =~= seq![]);
        assert(number_of(d.drop_last()) == 0);
        assert(d.last() == digit(n));
    } else {
        lemma_digits(n / 10);
        let front = digits(n / 10);
        assert(d.drop_last() =~= front);
        assert(d.last() == digit(n % 10));
        assert forall|i: int| 0 <= i < d.len() implies '0' <= #[trigger] d[i] <= '9' by {
            if i < front.len() {
                assert(d[i] == front[i]);
            }
        }
        assert(d[0] == front[0]);
    }
}

/// A text is a number in decimal: behind a sign where it is negative stand digits
/// that are the number, without a zero in front of others.
pub open spec fn reads_as_number(text: Seq<char>, n: int) -> bool {
    let figures = if n < 0 {
        text.skip(1)
    } else {
        text
    };
    &&& n < 0 ==> text.len() > 0 && text[0] == '-'
    &&& figures.len() > 0
    &&& forall|i: int| 0 <= i < figures.len() ==> '0' <= #[trigger] figures[i] <= '9'
    &&& number_of(figures) == if n < 0 {
        -n
    } else {
        n
    }
    &&& figures[0] == '0' ==> figures.len() == 1
}

/// A number in decimal reads back as the number.
pub proof fn law_decimal(n: int)
    ensures
        reads_as_number(decimal(n), n),
{
    if n < 0 {
        lemma_digits((-n) as nat);
        assert(decimal(n).skip(1) =~= digits((-n) as nat));
    } else {
        lemma_digits(n as nat);
    }
}

/// A number written in decimal reads back as the number.
pub proof fn law_decimal_string(n: i32, s: String)
    requires
        call_ensures(decimal_string, (n,), s),
    ensures
        reads_as_number(s@, n as int),
{
    law_decimal(n as int);
}

/// The characters of a string are its text, and two strings are the same if and
/// only if their texts are, character by character.
pub proof fn law_same_text(a: &str, b: &str, same: bool, v: Vec<char>)
    requires
        call_ensures(same_text, (a, b), same),
        call_ensures(char_vec, (a,), v),
    ensures
        v@ == a@,
        same <==> a@.len() == b@.len() && forall|i: int| 0 <= i < a@.len() ==> #[trigger] a@[i] == b@[i],
{
    if a@.len() == b@.len() && forall|i: int| 0 <= i < a@.len() ==> #[trigger] a@[i] == b@[i] {
        assert(a@ =~= b@);
    }
}

/// A piece stands at a position if and only if its characters do, one by one.
pub proof fn law_piece_at(text: &Vec<char>, piece: &Vec<char>, at: usize, found: bool)
    requires
        call_ensures(piece_at, (text, piece, at), found),
    ensures
        found <==> at + piece@.len() <= text@.len() && forall|i: int|
            0 <= i < piece@.len() ==> text@[at + i] == #[trigger] piece@[i],
{
    if at + piece@.len() <= text@.len() {
        let there = text@.subrange(at as int, at + piece@.len());
        assert(forall|i: int| 0 <= i < piece@.len() ==> there[i] == text@[at + i]);
        if forall|i: int| 0 <= i < piece@.len() ==> text@[at + i] == #[trigger] piece@[i] {
            assert(there =~= piece@);
        }
    }
}

} // verus!
