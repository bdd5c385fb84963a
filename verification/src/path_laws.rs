//! What the functions on paths are for.

use vstd::prelude::*;

use crate::path::{
    counting_parts, counts, has_md_extension, is_md_file, join_path, path_join, resolve_home,
    same_path, same_place,
};
use crate::text::{lemma_seek, pieces, seek};
use crate::text_laws::law_pieces_are_the_text;

verus! {

/// Joining: a path from the root is taken as it is. Any other is put behind the
/// base, with one `/` between them unless the base is empty or ends with one.
/// Nothing of either is lost.
pub proof fn law_join_path(base: &str, rel: &str, path: String)
    requires
        call_ensures(join_path, (base, rel), path),
    ensures
        path@ == path_join(base@, rel@),
        rel@.len() > 0 && rel@[0] == '/' ==> path@ == rel@,
        !(rel@.len() > 0 && rel@[0] == '/') ==> {
            &&& base@.len() == 0 ==> path@ == rel@
            &&& base@.len() > 0 && base@.last() == '/' ==> path@ == base@ + rel@
            &&& base@.len() > 0 && base@.last() != '/' ==> path@ == base@ + seq!['/'] + rel@
        },
{
    assert(base@ + seq!['/'] =~= base@.push('/'));
    if base@.len() == 0 {
        assert(base@ + rel@ =~= rel@);
    }
}

/// Joining step by step is joining at once.
pub proof fn law_join_in_steps(a: Seq<char>, b: Seq<char>, c: Seq<char>)
    requires
        b.len() > 0,
    ensures
        path_join(path_join(a, b), c) == path_join(a, path_join(b, c)),
{
    assert(path_join(b, c).len() > 0);
    assert(path_join(path_join(a, b), c) =~= path_join(a, path_join(b, c)));
}

/// Two paths name the same place if and only if both or neither start at the root
/// and they have the same parts, where parts are what stands between slashes. Of
/// the parts behind the first, those that are empty or `.` are left out, and so
/// is the first where it is empty.
pub proof fn law_same_place(a: Seq<char>, b: Seq<char>)
    ensures
        same_place(a, b) <==> {
            let kept = |part: Seq<char>| part.len() > 0 && !(part.len() == 1 && part[0] == '.');
            let x = pieces(a, '/');
            let y = pieces(b, '/');
            &&& (a.len() > 0 && a[0] == '/') == (b.len() > 0 && b[0] == '/')
            &&& (x[0].len() > 0) == (y[0].len() > 0)
            &&& x[0].len() > 0 ==> x[0] == y[0]
            &&& x.skip(1).filter(kept) == y.skip(1).filter(kept)
        },
{
    let kept = |part: Seq<char>| part.len() > 0 && !(part.len() == 1 && part[0] == '.');
    let counting = |part: Seq<char>| counts(part);
    assert forall|part: Seq<char>| kept(part) == #[trigger] counting(part) by {
        if part.len() == 1 && part[0] == '.' {
            assert(part =~= seq!['.']);
        }
    }
    assert(kept =~= counting);
    let x = pieces(a, '/');
    let y = pieces(b, '/');
    lemma_first_piece(a);
    lemma_first_piece(b);
    let p = x.skip(1).filter(counting);
    let q = y.skip(1).filter(counting);
    if x[0].len() > 0 && y[0].len() > 0 {
        if seq![x[0]] + p == seq![y[0]] + q {
            assert((seq![x[0]] + p)[0] == x[0]);
            assert((seq![y[0]] + q)[0] == y[0]);
            assert((seq![x[0]] + p).skip(1) =~= p);
            assert((seq![y[0]] + q).skip(1) =~= q);
        }
    } else if x[0].len() > 0 && same_place(a, b) {
        // `b` is empty, so nothing of it counts.
        assert(b.len() == 0);
        assert(y =~= seq![b]);
        assert(y.skip(1) =~= seq![]);
        assert(q.len() == 0) by {
            reveal(Seq::filter);
        }
        assert(counting_parts(x).len() > 0);
    } else if y[0].len() > 0 && same_place(a, b) {
        assert(a.len() == 0);
        assert(x =~= seq![a]);
        assert(x.skip(1) =~= seq![]);
        assert(p.len() == 0) by {
            reveal(Seq::filter);
        }
        assert(counting_parts(y).len() > 0);
    }
}

/// The first piece of a path is empty if and only if the path is, or starts at the
/// root.
proof fn lemma_first_piece(path: Seq<char>)
    ensures
        pieces(path, '/').len() > 0,
        pieces(path, '/')[0].len() == 0 <==> path.len() == 0 || path[0] == '/',
        path.len() == 0 ==> pieces(path, '/') == seq![path],
{
    lemma_seek(path, '/', 0);
    if seek(path, '/', 0) >= path.len() {
        assert(pieces(path, '/') =~= seq![path]);
    } else {
        assert(pieces(path, '/')[0] == path.take(seek(path, '/', 0)));
    }
}

/// A path with no detours: behind its first slash no part is empty or `.`.
pub open spec fn is_normal(path: Seq<char>) -> bool {
    forall|i: int|
        1 <= i < pieces(path, '/').len() ==> (#[trigger] pieces(path, '/')[i]).len() > 0 && pieces(
            path,
            '/',
        )[i] != seq!['.']
}

/// A list all of which is kept is kept as it is.
proof fn lemma_filter_all(list: Seq<Seq<char>>, keep: spec_fn(Seq<char>) -> bool)
    requires
        forall|i: int| 0 <= i < list.len() ==> keep(#[trigger] list[i]),
    ensures
        list.filter(keep) == list,
    decreases list.len(),
{
    reveal(Seq::filter);
    if list.len() > 0 {
        let front = list.drop_last();
        assert forall|i: int| 0 <= i < front.len() implies keep(#[trigger] front[i]) by {
            assert(front[i] == list[i]);
        }
        lemma_filter_all(front, keep);
        assert(keep(list[list.len() - 1]));
        assert(front.push(list.last()) =~= list);
    } else {
        assert(list.filter(keep) =~= list);
    }
}

/// Different directories are different places: of paths without detours, only
/// those with the same text name the same place.
pub proof fn law_normal_paths_are_their_places(a: Seq<char>, b: Seq<char>)
    requires
        is_normal(a),
        is_normal(b),
    ensures
        same_place(a, b) <==> a == b,
{
    if same_place(a, b) {
        law_same_place(a, b);
        let kept = |part: Seq<char>| part.len() > 0 && !(part.len() == 1 && part[0] == '.');
        let x = pieces(a, '/');
        let y = pieces(b, '/');
        lemma_first_piece(a);
        lemma_first_piece(b);
        assert forall|i: int| 0 <= i < x.skip(1).len() implies kept(#[trigger] x.skip(1)[i]) by {
            assert(x.skip(1)[i] == x[i + 1]);
            if x[i + 1].len() == 1 && x[i + 1][0] == '.' {
                assert(x[i + 1] =~= seq!['.']);
            }
        }
        assert forall|i: int| 0 <= i < y.skip(1).len() implies kept(#[trigger] y.skip(1)[i]) by {
            assert(y.skip(1)[i] == y[i + 1]);
            if y[i + 1].len() == 1 && y[i + 1][0] == '.' {
                assert(y[i + 1] =~= seq!['.']);
            }
        }
        lemma_filter_all(x.skip(1), kept);
        lemma_filter_all(y.skip(1), kept);
        assert(x.skip(1) == y.skip(1));
        assert(x[0] =~= y[0]);
        assert(x =~= seq![x[0]] + x.skip(1));
        assert(y =~= seq![y[0]] + y.skip(1));
        assert(x == y);
        law_pieces_are_the_text(a, '/');
        law_pieces_are_the_text(b, '/');
    }
}

/// Comparing two paths: the same text is the same place, the order does not
/// matter, and of paths without detours only those with the same text are the
/// same place.
pub proof fn law_same_path(a: &str, b: &str, same: bool, turned: bool)
    requires
        call_ensures(same_path, (a, b), same),
        call_ensures(same_path, (b, a), turned),
    ensures
        same == same_place(a@, b@),
        same == turned,
        a@ == b@ ==> same,
        is_normal(a@) && is_normal(b@) && same ==> a@ == b@,
        (a@.len() > 0 && a@[0] == '/') != (b@.len() > 0 && b@[0] == '/') ==> !same,
{
    if is_normal(a@) && is_normal(b@) {
        law_normal_paths_are_their_places(a@, b@);
    }
}

/// A file name has the extension `md` if and only if its last characters are a
/// dot, an `m` and a `d`, and something stands before them.
pub proof fn law_is_md_file(name: &str, md: bool)
    requires
        call_ensures(is_md_file, (name,), md),
    ensures
        md == has_md_extension(name@),
        md <==> {
            let n = name@.len();
            n > 3 && name@[n - 3] == '.' && name@[n - 2] == 'm' && name@[n - 1] == 'd'
        },
{
    reveal_strlit(".md");
    assert(".md"@ =~= seq!['.', 'm', 'd']);
    let n = name@.len() as int;
    if n > 3 {
        let end = name@.subrange(n - 3, n);
        assert(end[0] == name@[n - 3] && end[1] == name@[n - 2] && end[2] == name@[n - 1]);
        if name@[n - 3] == '.' && name@[n - 2] == 'm' && name@[n - 1] == 'd' {
            assert(end =~= seq!['.', 'm', 'd']);
        }
    }
}

/// The home directory that was found is taken to the letter; `/tmp` only where
/// none was.
pub proof fn law_resolve_home(found: Option<String>, home: String)
    requires
        call_ensures(resolve_home, (found,), home),
    ensures
        found matches Some(dir) ==> home@ == dir@,
        found is None ==> home@ == seq!['/', 't', 'm', 'p'],
{
    reveal_strlit("/tmp");
    assert("/tmp"@ =~= seq!['/', 't', 'm', 'p']);
}

} // verus!
