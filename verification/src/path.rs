//! Paths as they are on Unix: texts whose parts are divided by `/`.

use vstd::prelude::*;

use crate::text::{char_vec, opt_text, piece_at, pieces, same_text, split_at_char, stands_at, texts};

verus! {

/// Whether a path starts at the root.
pub open spec fn is_absolute(path: Seq<char>) -> bool {
    path.len() > 0 && path[0] == '/'
}

/// `rel` as seen from `base`: an absolute `rel` is taken as it is; any other is
/// put behind `base`, with one `/` between them unless `base` is empty or ends
/// with one.
pub open spec fn path_join(base: Seq<char>, rel: Seq<char>) -> Seq<char> {
    if is_absolute(rel) {
        rel
    } else if base.len() == 0 || base.last() == '/' {
        base + rel
    } else {
        base.push('/') + rel
    }
}

/// The path `rel` as seen from `base`.
pub fn join_path(base: &str, rel: &str) -> (path: String)
    ensures
        path@ == path_join(base@, rel@),
{
    if !rel.is_empty() && rel.get_char(0) == '/' {
        return rel.to_string();
    }
    let mut path = base.to_string();
    if !base.is_empty() {
        let last = base.get_char(base.unicode_len() - 1);
        if last != '/' {
            proof {
                reveal_strlit("/");
            }
            path.append("/");
            assert(path@ =~= base@.push('/'));
        }
    }
    path.append(rel);
    path
}

/// A part of a path that counts behind its first: neither empty nor `.`.
pub open spec fn counts(part: Seq<char>) -> bool {
    part.len() > 0 && part != seq!['.']
}

/// The parts that count of a path cut at every `/`. Parts that are empty do not
/// count, nor do those that are `.`, except one that the path starts with.
pub open spec fn counting_parts(cut: Seq<Seq<char>>) -> Seq<Seq<char>> {
    let rest = cut.skip(1).filter(|part: Seq<char>| counts(part));
    if cut[0].len() > 0 {
        seq![cut[0]] + rest
    } else {
        rest
    }
}

/// Two paths name the same place: both or neither start at the root, and the
/// same parts count in both.
pub open spec fn same_place(a: Seq<char>, b: Seq<char>) -> bool {
    &&& is_absolute(a) == is_absolute(b)
    &&& counting_parts(pieces(a, '/')) == counting_parts(pieces(b, '/'))
}

/// The parts of a path that count.
fn path_parts(path: &str) -> (parts: Vec<String>)
    ensures
        texts(parts@) == counting_parts(pieces(path@, '/')),
{
    let cut = split_at_char(path, '/');
    let ghost all = texts(cut@);
    let ghost keep = |part: Seq<char>| counts(part);
    let mut parts: Vec<String> = Vec::new();
    assert(pieces(path@, '/').len() > 0);
    assert(all.len() == cut@.len());
    if !cut[0].as_str().is_empty() {
        parts.push(cut[0].clone());
    }
    let ghost first = texts(parts@);
    assert(first =~= if all[0].len() > 0 {
        seq![all[0]]
    } else {
        seq![]
    });
    let mut i: usize = 1;
    assert(all.subrange(1, 1).filter(keep) =~= seq![]) by {
        reveal(Seq::filter);
    }
    assert(texts(parts@) =~= first + seq![]);
    while i < cut.len()
        invariant
            all == texts(cut@),
            keep == (|part: Seq<char>| counts(part)),
            1 <= i <= cut@.len(),
            texts(parts@) == first + all.subrange(1, i as int).filter(keep),
        decreases cut@.len() - i,
    {
        let ghost before = all.subrange(1, i as int);
        let ghost part = all[i as int];
        let ghost had = texts(parts@);
        assert(all.subrange(1, i + 1).drop_last() == before);
        assert(all.subrange(1, i + 1).filter(keep) == if keep(part) {
            before.filter(keep).push(part)
        } else {
            before.filter(keep)
        }) by {
            reveal(Seq::filter);
        }
        proof {
            reveal_strlit(".");
            assert("."@ =~= seq!['.']);
        }
        if !cut[i].as_str().is_empty() && !same_text(cut[i].as_str(), ".") {
            parts.push(cut[i].clone());
            assert(texts(parts@) =~= had.push(part));
            assert(first + before.filter(keep).push(part) =~= (first + before.filter(keep)).push(
                part,
            ));
        }
        i += 1;
    }
    assert(all.subrange(1, all.len() as int) == all.skip(1));
    parts
}

/// Whether a path starts at the root.
fn starts_at_root(path: &str) -> (absolute: bool)
    ensures
        absolute == is_absolute(path@),
{
    !path.is_empty() && path.get_char(0) == '/'
}

/// Whether two paths name the same place.
pub fn same_path(a: &str, b: &str) -> (same: bool)
    ensures
        same == same_place(a@, b@),
{
    if starts_at_root(a) != starts_at_root(b) {
        return false;
    }
    let x = path_parts(a);
    let y = path_parts(b);
    let ghost tx = texts(x@);
    let ghost ty = texts(y@);
    if x.len() != y.len() {
        assert(tx.len() != ty.len());
        return false;
    }
    let mut i: usize = 0;
    while i < x.len()
        invariant
            tx == texts(x@),
            ty == texts(y@),
            tx == counting_parts(pieces(a@, '/')),
            ty == counting_parts(pieces(b@, '/')),
            i <= x@.len() == y@.len(),
            forall|j: int| 0 <= j < i ==> #[trigger] tx[j] == ty[j],
        decreases x@.len() - i,
    {
        if !same_text(x[i].as_str(), y[i].as_str()) {
            assert(tx[i as int] != ty[i as int]);
            return false;
        }
        assert(tx[i as int] == ty[i as int]);
        i += 1;
    }
    assert(tx =~= ty);
    true
}

/// A file name whose extension is `md`: it ends with `.md`, and something stands
/// before that.
pub open spec fn has_md_extension(name: Seq<char>) -> bool {
    name.len() > 3 && stands_at(name, ".md"@, name.len() - 3)
}

/// Whether the extension of a file name is `md`.
pub fn is_md_file(name: &str) -> (md: bool)
    ensures
        md == has_md_extension(name@),
{
    let v = char_vec(name);
    v.len() > 3 && piece_at(&v, &char_vec(".md"), v.len() - 3)
}

/// The place that stands in for a home directory that was not found.
pub open spec fn home_or_tmp(found: Option<Seq<char>>) -> Seq<char> {
    match found {
        Some(home) => home,
        None => "/tmp"@,
    }
}

/// The home directory that was found, or `/tmp`.
pub fn resolve_home(found: Option<String>) -> (home: String)
    ensures
        home@ == home_or_tmp(opt_text(found)),
{
    match found {
        Some(home) => home,
        None => "/tmp".to_string(),
    }
}

/// `dirs::home_dir`, its path as text. Nothing is promised of the result: it is
/// what the environment and the user database of the machine say, and there may
/// be none. Bytes of the path that are not UTF-8 become replacement characters.
#[verifier::external_body]
pub(crate) fn home_dir() -> (home: Option<String>) {
    dirs::home_dir().map(|path| path.to_string_lossy().into_owned())
}

/// `found` is what `dirs::home_dir` can give: a result of [`home_dir`], and of
/// nothing else.
pub closed spec fn home_says(found: Option<Seq<char>>) -> bool {
    exists|home: Option<String>|
        opt_text(home) == found && #[trigger] call_ensures(home_dir, (), home)
}

/// The home directory, if one is found.
pub fn find_home() -> (found: Option<String>)
    ensures
        home_says(opt_text(found)),
{
    let found = home_dir();
    assert(call_ensures(home_dir, (), found));
    found
}

/// What is said of the home directory is a reply of the machine, and no other: some
/// call of `home_dir` gave it.
pub(crate) proof fn law_home_says_is_a_reply(found: Option<Seq<char>>)
    requires
        home_says(found),
    ensures
        exists|home: Option<String>| #[trigger]
            call_ensures(home_dir, (), home) && match home {
                Some(dir) => found == Some(dir@),
                None => found is None,
            },
{
    let home = choose|home: Option<String>|
        opt_text(home) == found && #[trigger] call_ensures(home_dir, (), home);
    assert(call_ensures(home_dir, (), home));
}

} // verus!
