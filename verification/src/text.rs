//! Text: what the rest of the library needs to know of strings.
//!
//! A text is a sequence of characters. The functions below state what they do
//! over such sequences.

use vstd::prelude::*;
use vstd::utf8::is_ascii_chars;

verus! {

/// The texts of a list of strings.
pub open spec fn texts(list: Seq<String>) -> Seq<Seq<char>> {
    list.map_values(|s: String| s@)
}

/// The text of a string that may be absent.
pub open spec fn opt_text(s: Option<String>) -> Option<Seq<char>> {
    match s {
        Some(t) => Some(t@),
        None => None,
    }
}

/// `piece` stands in `text` at position `at`.
pub open spec fn stands_at(text: Seq<char>, piece: Seq<char>, at: int) -> bool {
    &&& 0 <= at
    &&& at + piece.len() <= text.len()
    &&& text.subrange(at, at + piece.len()) == piece
}

/// `piece` stands somewhere in `text`.
pub open spec fn has_piece(text: Seq<char>, piece: Seq<char>) -> bool {
    exists|at: int| stands_at(text, piece, at)
}

/// The characters of a string.
pub fn char_vec(s: &str) -> (v: Vec<char>)
    ensures
        v@ == s@,
{
    let mut v: Vec<char> = Vec::new();
    for c in it: s.chars()
        invariant
            it.seq() == s@,
            v@ == s@.take(it.index() as int),
    {
        v.push(c);
    }
    assert(s@.take(s@.len() as int) == s@);
    v
}

/// Whether `piece` stands in `text` at position `at`.
pub fn piece_at(text: &Vec<char>, piece: &Vec<char>, at: usize) -> (found: bool)
    ensures
        found == stands_at(text@, piece@, at as int),
{
    if at > text.len() || piece.len() > text.len() - at {
        return false;
    }
    let mut i: usize = 0;
    while i < piece.len()
        invariant
            i <= piece@.len(),
            at + piece.len() <= text.len(),
            forall|j: int| 0 <= j < i ==> text@[at + j] == piece@[j],
        decreases piece@.len() - i,
    {
        if text[at + i] != piece[i] {
            assert(text@.subrange(at as int, at + piece@.len())[i as int] != piece@[i as int]);
            return false;
        }
        i += 1;
    }
    assert(text@.subrange(at as int, at + piece@.len()) == piece@);
    true
}

/// Whether `piece` stands somewhere in `text`.
pub fn contains_text(text: &str, piece: &str) -> (found: bool)
    ensures
        found == has_piece(text@, piece@),
{
    let t = char_vec(text);
    let p = char_vec(piece);
    let mut at: usize = 0;
    while at < t.len()
        invariant
            at <= t@.len(),
            t@ == text@,
            p@ == piece@,
            forall|j: int| 0 <= j < at ==> !stands_at(text@, piece@, j),
        decreases t@.len() - at,
    {
        if piece_at(&t, &p, at) {
            return true;
        }
        at += 1;
    }
    let found = piece_at(&t, &p, at);
    assert(found == has_piece(text@, piece@)) by {
        if !found {
            assert forall|j: int| !stands_at(text@, piece@, j) by {}
        }
    }
    found
}

/// Whether two strings hold the same text.
pub fn same_text(a: &str, b: &str) -> (same: bool)
    ensures
        same == (a@ == b@),
{
    let x = char_vec(a);
    let y = char_vec(b);
    if x.len() != y.len() {
        return false;
    }
    let same = piece_at(&x, &y, 0);
    assert(x@.subrange(0, x@.len() as int) == x@);
    same
}

/// `a` is less than `b` in the order of their characters: where they first
/// differ `a` has the lesser character, or it ends there.
pub open spec fn text_less(a: Seq<char>, b: Seq<char>) -> bool
    decreases a.len(),
{
    if b.len() == 0 {
        false
    } else if a.len() == 0 {
        true
    } else if a[0] != b[0] {
        a[0] < b[0]
    } else {
        text_less(a.skip(1), b.skip(1))
    }
}

/// Of two texts, one is less than the other unless they are the same.
pub proof fn lemma_text_less_total(a: Seq<char>, b: Seq<char>)
    ensures
        !(text_less(a, b) && text_less(b, a)),
        text_less(a, b) || text_less(b, a) || a == b,
    decreases a.len(),
{
    if a.len() > 0 && b.len() > 0 && a[0] == b[0] {
        lemma_text_less_total(a.skip(1), b.skip(1));
        if a.skip(1) == b.skip(1) {
            assert(a =~= seq![a[0]] + a.skip(1));
            assert(b =~= seq![b[0]] + b.skip(1));
        }
    } else if a.len() == 0 && b.len() == 0 {
        assert(a =~= b);
    }
}

/// What is less than the lesser is less than the greater.
pub proof fn lemma_text_less_transitive(a: Seq<char>, b: Seq<char>, c: Seq<char>)
    requires
        text_less(a, b),
        text_less(b, c),
    ensures
        text_less(a, c),
    decreases a.len(),
{
    if a.len() > 0 && a[0] == b[0] && b[0] == c[0] {
        lemma_text_less_transitive(a.skip(1), b.skip(1), c.skip(1));
    }
}

/// Whether `a` is less than `b` in the order of their characters.
pub fn text_before(a: &str, b: &str) -> (less: bool)
    ensures
        less == text_less(a@, b@),
{
    let x = char_vec(a);
    let y = char_vec(b);
    let mut i: usize = 0;
    assert(x@.skip(0) == x@);
    assert(y@.skip(0) == y@);
    while i < x.len() && i < y.len() && x[i] == y[i]
        invariant
            i <= x@.len(),
            i <= y@.len(),
            text_less(x@, y@) == text_less(x@.skip(i as int), y@.skip(i as int)),
        decreases x@.len() - i,
    {
        assert(x@.skip(i as int).skip(1) == x@.skip(i + 1));
        assert(y@.skip(i as int).skip(1) == y@.skip(i + 1));
        i += 1;
    }
    if i == y.len() {
        false
    } else if i == x.len() {
        true
    } else {
        x[i] < y[i]
    }
}

/// The lower-case form of an ASCII letter; any other character is kept.
pub open spec fn ascii_lower(c: char) -> char {
    if 'A' <= c <= 'Z' {
        (c as u32 + 32) as char
    } else {
        c
    }
}

/// A text with its ASCII letters in lower case.
pub open spec fn ascii_lowered(text: Seq<char>) -> Seq<char> {
    text.map_values(|c: char| ascii_lower(c))
}

/// The text that `str::to_lowercase` returns for a text: its characters mapped
/// by Unicode's rules, some of them to more than one character.
pub uninterp spec fn lowercase(text: Seq<char>) -> Seq<char>;

/// `str::to_lowercase`. What it returns is a function of the text alone, named
/// [`lowercase`]; on a text of ASCII characters it maps `A` to `Z` to `a` to `z`
/// and keeps every other character.
#[verifier::external_body]
pub(crate) fn to_lowercase(s: &str) -> (r: String)
    ensures
        r@ == lowercase(s@),
        is_ascii_chars(s@) ==> r@ == ascii_lowered(s@),
{
    s.to_lowercase()
}

/// All of a list are texts of ASCII characters.
pub open spec fn all_ascii(list: Seq<Seq<char>>) -> bool {
    forall|i: int| 0 <= i < list.len() ==> is_ascii_chars(#[trigger] list[i])
}

/// The lower-case forms of a list of strings, in order.
pub fn lowercase_all(list: &[String]) -> (lowered: Vec<String>)
    ensures
        texts(lowered@) == texts(list@).map_values(|t: Seq<char>| lowercase(t)),
        all_ascii(texts(list@)) ==> texts(lowered@) == texts(list@).map_values(
            |t: Seq<char>| ascii_lowered(t),
        ),
{
    let mut lowered: Vec<String> = Vec::new();
    let mut i: usize = 0;
    while i < list.len()
        invariant
            i <= list@.len(),
            lowered@.len() == i,
            forall|j: int| #![trigger lowered@[j]] 0 <= j < i ==> lowered@[j]@ == lowercase(list@[j]@),
            forall|j: int|
                #![trigger lowered@[j]]
                0 <= j < i && is_ascii_chars(list@[j]@) ==> lowered@[j]@ == ascii_lowered(
                    list@[j]@,
                ),
        decreases list@.len() - i,
    {
        lowered.push(to_lowercase(list[i].as_str()));
        i += 1;
    }
    assert(texts(lowered@) =~= texts(list@).map_values(|t: Seq<char>| lowercase(t)));
    proof {
        let all = texts(list@);
        if all_ascii(all) {
            assert forall|j: int| 0 <= j < all.len() implies (#[trigger] lowered@[j])@
                == ascii_lowered(all[j]) by {
                assert(is_ascii_chars(all[j]));
            }
            assert(texts(lowered@) =~= all.map_values(|t: Seq<char>| ascii_lowered(t)));
        }
    }
    lowered
}

/// The white space of Unicode: the characters with the property `White_Space`.
pub open spec fn is_white_space(c: char) -> bool {
    ||| '\u{9}' <= c <= '\u{d}'
    ||| c == ' '
    ||| c == '\u{85}'
    ||| c == '\u{a0}'
    ||| c == '\u{1680}'
    ||| '\u{2000}' <= c <= '\u{200a}'
    ||| c == '\u{2028}'
    ||| c == '\u{2029}'
    ||| c == '\u{202f}'
    ||| c == '\u{205f}'
    ||| c == '\u{3000}'
}

/// Whether a character is white space.
pub fn white_space(c: char) -> (w: bool)
    ensures
        w == is_white_space(c),
{
    ('\u{9}' <= c && c <= '\u{d}') || c == ' ' || c == '\u{85}' || c == '\u{a0}' || c == '\u{1680}' || (
    '\u{2000}' <= c && c <= '\u{200a}') || c == '\u{2028}' || c == '\u{2029}' || c == '\u{202f}' || c
        == '\u{205f}' || c == '\u{3000}'
}

/// A text without the white space it starts with.
pub open spec fn trimmed_start(text: Seq<char>) -> Seq<char>
    decreases text.len(),
{
    if text.len() > 0 && is_white_space(text[0]) {
        trimmed_start(text.skip(1))
    } else {
        text
    }
}

/// A text without the white space it ends with.
pub open spec fn trimmed_end(text: Seq<char>) -> Seq<char>
    decreases text.len(),
{
    if text.len() > 0 && is_white_space(text.last()) {
        trimmed_end(text.drop_last())
    } else {
        text
    }
}

/// A text without the white space at its ends.
pub open spec fn trimmed(text: Seq<char>) -> Seq<char> {
    trimmed_end(trimmed_start(text))
}

/// A string without the white space at its ends.
pub fn trim(s: &str) -> (t: &str)
    ensures
        t@ == trimmed(s@),
{
    let v = char_vec(s);
    let mut from: usize = 0;
    assert(v@.skip(0) == v@);
    while from < v.len() && white_space(v[from])
        invariant
            from <= v@.len(),
            trimmed_start(v@) == trimmed_start(v@.skip(from as int)),
        decreases v@.len() - from,
    {
        assert(v@.skip(from as int).skip(1) == v@.skip(from + 1));
        from += 1;
    }
    let ghost rest = v@.skip(from as int);
    assert(trimmed_start(v@) == rest);
    let mut to: usize = v.len();
    assert(v@.subrange(from as int, to as int) == rest);
    while from < to && white_space(v[to - 1])
        invariant
            from <= to <= v@.len(),
            trimmed_end(rest) == trimmed_end(v@.subrange(from as int, to as int)),
        decreases to,
    {
        assert(v@.subrange(from as int, to as int).drop_last() == v@.subrange(
            from as int,
            to - 1,
        ));
        to -= 1;
    }
    s.substring_char(from, to)
}

/// The position of the first `c` at or after `from`, or the end of the text.
pub open spec fn seek(text: Seq<char>, c: char, from: int) -> int
    decreases text.len() - from,
{
    if from >= text.len() || text[from] == c {
        from
    } else {
        seek(text, c, from + 1)
    }
}

/// What [`seek`] finds: no `c` stands between `from` and it, and one stands at
/// it unless the text ends there.
pub proof fn lemma_seek(text: Seq<char>, c: char, from: int)
    requires
        0 <= from <= text.len(),
    ensures
        from <= seek(text, c, from) <= text.len(),
        forall|i: int| from <= i < seek(text, c, from) ==> #[trigger] text[i] != c,
        seek(text, c, from) < text.len() ==> text[seek(text, c, from)] == c,
    decreases text.len() - from,
{
    if from < text.len() && text[from] != c {
        lemma_seek(text, c, from + 1);
    }
}

/// What [`seek`] finds does not depend on what stands before `from`.
proof fn lemma_seek_skip(text: Seq<char>, c: char, by: int, from: int)
    requires
        0 <= by,
        0 <= from,
        by + from <= text.len(),
    ensures
        seek(text.skip(by), c, from) == seek(text, c, by + from) - by,
    decreases text.len() - by - from,
{
    if by + from < text.len() && text[by + from] != c {
        lemma_seek_skip(text, c, by, from + 1);
    }
}

/// The position of the first `c` at or after `from`, or the length.
pub fn find_char(text: &Vec<char>, c: char, from: usize) -> (at: usize)
    requires
        from <= text@.len(),
    ensures
        at == seek(text@, c, from as int),
        from <= at <= text@.len(),
{
    let mut at: usize = from;
    while at < text.len() && text[at] != c
        invariant
            from <= at <= text@.len(),
            seek(text@, c, from as int) == seek(text@, c, at as int),
        decreases text@.len() - at,
    {
        at += 1;
    }
    at
}

/// A text cut at every `c`: one piece more than there are `c` in it.
pub open spec fn pieces(text: Seq<char>, c: char) -> Seq<Seq<char>>
    decreases text.len(),
{
    let at = seek(text, c, 0);
    if at >= text.len() {
        seq![text]
    } else {
        proof {
            lemma_seek(text, c, 0);
        }
        seq![text.take(at)] + pieces(text.skip(at + 1), c)
    }
}

/// Putting a piece without `c` behind a text and a `c` adds that piece to those of
/// the text.
proof fn lemma_pieces_push(text: Seq<char>, c: char, piece: Seq<char>)
    requires
        !piece.contains(c),
    ensures
        pieces(text.push(c) + piece, c) == pieces(text, c).push(piece),
    decreases text.len(),
{
    let all = text.push(c) + piece;
    let at = seek(text, c, 0);
    let end = seek(all, c, 0);
    lemma_seek(text, c, 0);
    lemma_seek(all, c, 0);
    assert(all[text.len() as int] == c);
    if at < text.len() {
        assert(all[at] == c);
    }
    assert(forall|i: int| 0 <= i < at ==> #[trigger] all[i] == text[i]);
    assert(end == at) by {
        if end < at {
            assert(all[end] == text[end]);
        } else if end > at {
            assert(all[at] != c);
        }
    }
    assert(all.take(at) =~= text.take(at));
    assert(pieces(all, c) == seq![all.take(at)] + pieces(all.skip(at + 1), c));
    if at == text.len() {
        assert(all.skip(at + 1) =~= piece);
        lemma_seek(piece, c, 0);
        assert(seek(piece, c, 0) == piece.len()) by {
            if seek(piece, c, 0) < piece.len() {
                assert(piece.contains(piece[seek(piece, c, 0)]));
            }
        }
        assert(text.take(at) =~= text);
        assert(pieces(piece, c) == seq![piece]);
        assert(pieces(text, c) == seq![text]);
        assert(seq![text] + seq![piece] =~= seq![text].push(piece));
    } else {
        let rest = text.skip(at + 1);
        assert(all.skip(at + 1) =~= rest.push(c) + piece);
        lemma_pieces_push(rest, c, piece);
        assert(seq![text.take(at)] + pieces(rest, c).push(piece) =~= (seq![text.take(at)] + pieces(
            rest,
            c,
        )).push(piece));
    }
}

/// Cutting undoes joining: texts without `c`, in a row with `c` between them, are
/// cut into the same texts.
pub proof fn law_pieces_of_joined(list: Seq<Seq<char>>, c: char)
    requires
        list.len() > 0,
        forall|i: int| 0 <= i < list.len() ==> !(#[trigger] list[i]).contains(c),
    ensures
        pieces(joined(list, seq![c]), c) == list,
    decreases list.len(),
{
    let last = list[list.len() - 1];
    assert(!last.contains(c));
    if list.len() == 1 {
        lemma_seek(last, c, 0);
        assert(seek(last, c, 0) == last.len()) by {
            if seek(last, c, 0) < last.len() {
                assert(last.contains(last[seek(last, c, 0)]));
            }
        }
        assert(list =~= seq![last]);
    } else {
        let before = list.drop_last();
        assert forall|i: int| 0 <= i < before.len() implies !(#[trigger] before[i]).contains(
            c,
        ) by {
            assert(before[i] == list[i]);
        }
        law_pieces_of_joined(before, c);
        let text = joined(before, seq![c]);
        assert(text + seq![c] + last =~= text.push(c) + last);
        lemma_pieces_push(text, c, last);
        assert(before.push(last) =~= list);
    }
}

/// A string cut at every `c`.
pub fn split_at_char(s: &str, c: char) -> (list: Vec<String>)
    ensures
        texts(list@) == pieces(s@, c),
{
    let v = char_vec(s);
    let mut list: Vec<String> = Vec::new();
    let mut from: usize = 0;
    assert(s@.skip(0) == s@);
    assert(texts(list@) + pieces(s@, c) =~= pieces(s@, c));
    loop
        invariant
            v@ == s@,
            from <= v@.len(),
            texts(list@) + pieces(s@.skip(from as int), c) == pieces(s@, c),
        decreases v@.len() - from,
    {
        let ghost rest = s@.skip(from as int);
        let ghost before = texts(list@);
        let at = find_char(&v, c, from);
        proof {
            lemma_seek_skip(s@, c, from as int, 0);
        }
        list.push(s.substring_char(from, at).to_string());
        assert(s@.subrange(from as int, at as int) == rest.take(at - from));
        assert(texts(list@) =~= before.push(rest.take(at - from)));
        if at == v.len() {
            assert(rest.take(at - from) == rest);
            assert(before + seq![rest] =~= before.push(rest));
            return list;
        }
        proof {
            let piece = rest.take(at - from);
            assert(rest.skip(at - from + 1) =~= s@.skip(at + 1));
            assert(before + (seq![piece] + pieces(s@.skip(at + 1), c)) =~= before.push(piece)
                + pieces(s@.skip(at + 1), c));
        }
        from = at + 1;
    }
}

/// A line without the carriage return that stood before its line feed.
pub open spec fn without_return(line: Seq<char>) -> Seq<char> {
    if line.len() > 0 && line.last() == '\r' {
        line.drop_last()
    } else {
        line
    }
}

/// The lines of a text. A line ends at a line feed, or at a carriage return and
/// a line feed; the end of the last line may be left out.
pub open spec fn lines(text: Seq<char>) -> Seq<Seq<char>>
    decreases text.len(),
{
    if text.len() == 0 {
        seq![]
    } else {
        let end = seek(text, '\n', 0);
        if end >= text.len() {
            seq![text]
        } else {
            proof {
                lemma_seek(text, '\n', 0);
            }
            seq![without_return(text.take(end))] + lines(text.skip(end + 1))
        }
    }
}

/// The lines of a string.
pub fn split_lines(s: &str) -> (list: Vec<String>)
    ensures
        texts(list@) == lines(s@),
{
    let v = char_vec(s);
    let mut list: Vec<String> = Vec::new();
    let mut from: usize = 0;
    assert(s@.skip(0) == s@);
    assert(texts(list@) + lines(s@) =~= lines(s@));
    while from < v.len()
        invariant
            v@ == s@,
            from <= v@.len(),
            texts(list@) + lines(s@.skip(from as int)) == lines(s@),
        decreases v@.len() - from,
    {
        let ghost rest = s@.skip(from as int);
        let ghost before = texts(list@);
        let end = find_char(&v, '\n', from);
        proof {
            lemma_seek_skip(s@, '\n', from as int, 0);
        }
        if end == v.len() {
            list.push(s.substring_char(from, end).to_string());
            assert(s@.subrange(from as int, end as int) == rest);
            assert(texts(list@) =~= before.push(rest));
            assert(before + seq![rest] =~= before.push(rest));
            return list;
        }
        let cut: usize = if end > from && v[end - 1] == '\r' {
            end - 1
        } else {
            end
        };
        list.push(s.substring_char(from, cut).to_string());
        proof {
            let line = without_return(rest.take(end - from));
            assert(rest.take(end - from) == s@.subrange(from as int, end as int));
            assert(line =~= s@.subrange(from as int, cut as int));
            assert(texts(list@) =~= before.push(line));
            assert(rest.skip(end - from + 1) =~= s@.skip(end + 1));
            assert(before + (seq![line] + lines(s@.skip(end + 1))) =~= before.push(line) + lines(
                s@.skip(end + 1),
            ));
        }
        from = end + 1;
    }
    assert(s@.skip(from as int).len() == 0);
    assert(texts(list@) + Seq::<Seq<char>>::empty() =~= texts(list@));
    list
}

/// A list of texts in a row, with `sep` between neighbours.
pub open spec fn joined(list: Seq<Seq<char>>, sep: Seq<char>) -> Seq<char>
    decreases list.len(),
{
    if list.len() == 0 {
        seq![]
    } else if list.len() == 1 {
        list[0]
    } else {
        joined(list.drop_last(), sep) + sep + list.last()
    }
}

/// The first `count` strings of a list in a row, with `sep` between neighbours.
pub fn join_first(list: &Vec<String>, count: usize, sep: &str) -> (r: String)
    requires
        count <= list@.len(),
    ensures
        r@ == joined(texts(list@).take(count as int), sep@),
{
    let mut r = String::new();
    let ghost all = texts(list@);
    let mut i: usize = 0;
    while i < count
        invariant
            all == texts(list@),
            i <= count <= list@.len(),
            r@ == joined(all.take(i as int), sep@),
        decreases count - i,
    {
        assert(all.take(i + 1).drop_last() == all.take(i as int));
        if i > 0 {
            r.append(sep);
        }
        r.append(list[i].as_str());
        assert(r@ == joined(all.take(i + 1), sep@));
        i += 1;
    }
    r
}

/// The decimal digit of a number below ten.
pub open spec fn digit(d: nat) -> char {
    (('0' as nat) + d) as char
}

/// A number in decimal, without leading zeros.
pub open spec fn digits(n: nat) -> Seq<char>
    decreases n,
{
    if n < 10 {
        seq![digit(n)]
    } else {
        digits(n / 10).push(digit(n % 10))
    }
}

/// A number in decimal, with a sign where it is negative.
pub open spec fn decimal(n: int) -> Seq<char> {
    if n < 0 {
        seq!['-'] + digits((-n) as nat)
    } else {
        digits(n as nat)
    }
}

/// The decimal digit of a number below ten, as a string.
fn digit_str(d: u64) -> (s: &'static str)
    requires
        d < 10,
    ensures
        s@ == seq![digit(d as nat)],
{
    proof {
        reveal_strlit("0");
        reveal_strlit("1");
        reveal_strlit("2");
        reveal_strlit("3");
        reveal_strlit("4");
        reveal_strlit("5");
        reveal_strlit("6");
        reveal_strlit("7");
        reveal_strlit("8");
        reveal_strlit("9");
    }
    let s = if d == 0 {
        "0"
    } else if d == 1 {
        "1"
    } else if d == 2 {
        "2"
    } else if d == 3 {
        "3"
    } else if d == 4 {
        "4"
    } else if d == 5 {
        "5"
    } else if d == 6 {
        "6"
    } else if d == 7 {
        "7"
    } else if d == 8 {
        "8"
    } else {
        "9"
    };
    assert(s@ =~= seq![digit(d as nat)]);
    s
}

/// A natural number in decimal.
fn digits_string(n: u64) -> (s: String)
    ensures
        s@ == digits(n as nat),
    decreases n,
{
    if n < 10 {
        digit_str(n).to_string()
    } else {
        let mut s = digits_string(n / 10);
        s.append(digit_str(n % 10));
        assert(s@ =~= digits(n as nat));
        s
    }
}

/// An integer in decimal.
pub fn decimal_string(n: i32) -> (s: String)
    ensures
        s@ == decimal(n as int),
{
    if n < 0 {
        proof {
            reveal_strlit("-");
        }
        let mut s = "-".to_string();
        s.append(digits_string((-(n as i64)) as u64).as_str());
        assert(s@ =~= decimal(n as int));
        s
    } else {
        digits_string(n as u64)
    }
}

} // verus!
