//! What building the search path is for.

use vstd::prelude::*;

use crate::path::{home_says, path_join, same_place};
use crate::path_laws::{is_normal, law_normal_paths_are_their_places};
use crate::rich_path::{
    build_rich_path, extended, has_place, nvm_places, opt_str, rich_dirs, NvmFound, NvmPlaces,
};
use crate::text::{joined, opt_text, pieces, trimmed};

verus! {

/// Entry `i` is new: it is not the same place as any of `front`, nor as any entry
/// before it.
pub open spec fn is_new(front: Seq<Seq<char>>, entries: Seq<Seq<char>>, i: int) -> bool {
    &&& forall|j: int| 0 <= j < front.len() ==> !same_place(#[trigger] front[j], entries[i])
    &&& forall|j: int| 0 <= j < i ==> !same_place(#[trigger] entries[j], entries[i])
}

/// `dirs` is `front` and behind it the entries that are new, to the letter and in
/// order: those at the places `from`.
pub open spec fn adds_new(
    front: Seq<Seq<char>>,
    entries: Seq<Seq<char>>,
    dirs: Seq<Seq<char>>,
    from: Seq<int>,
) -> bool {
    &&& dirs.len() == front.len() + from.len()
    &&& forall|j: int| 0 <= j < front.len() ==> #[trigger] dirs[j] == front[j]
    &&& forall|k: int|
        0 <= k < from.len() ==> 0 <= #[trigger] from[k] < entries.len() && dirs[front.len() + k]
            == entries[from[k]]
    &&& forall|k: int, l: int|
        0 <= k < l < from.len() ==> #[trigger] from[k] < #[trigger] from[l]
    &&& forall|i: int|
        0 <= i < entries.len() ==> (#[trigger] from.contains(i) <==> is_new(front, entries, i))
}

/// Being the same place goes both ways, and from place to place.
proof fn lemma_same_place(a: Seq<char>, b: Seq<char>, c: Seq<char>)
    ensures
        same_place(a, b) == same_place(b, a),
        same_place(a, b) && same_place(b, c) ==> same_place(a, c),
{
}

/// An entry is a place of the extended list if and only if it is one of what was
/// there or of the entries before.
proof fn lemma_has_place(
    front: Seq<Seq<char>>,
    entries: Seq<Seq<char>>,
    dirs: Seq<Seq<char>>,
    from: Seq<int>,
    dir: Seq<char>,
)
    requires
        adds_new(front, entries, dirs, from),
    ensures
        has_place(dirs, dir) <==> (exists|j: int|
            0 <= j < front.len() && same_place(#[trigger] front[j], dir)) || (exists|j: int|
            0 <= j < entries.len() && same_place(#[trigger] entries[j], dir)),
{
    if has_place(dirs, dir) {
        let i = choose|i: int| 0 <= i < dirs.len() && same_place(#[trigger] dirs[i], dir);
        if i < front.len() {
            assert(dirs[i] == front[i]);
        } else {
            let k = i - front.len();
            assert(dirs[front.len() + k] == entries[from[k]]);
        }
    }
    if exists|j: int| 0 <= j < front.len() && same_place(#[trigger] front[j], dir) {
        let j = choose|j: int| 0 <= j < front.len() && same_place(#[trigger] front[j], dir);
        assert(dirs[j] == front[j]);
    }
    if exists|j: int| 0 <= j < entries.len() && same_place(#[trigger] entries[j], dir) {
        let j = choose|j: int| 0 <= j < entries.len() && same_place(#[trigger] entries[j], dir);
        lemma_entry_has_place(front, entries, dirs, from, dir, j);
    }
}

/// An entry is a place of the extended list.
proof fn lemma_entry_has_place(
    front: Seq<Seq<char>>,
    entries: Seq<Seq<char>>,
    dirs: Seq<Seq<char>>,
    from: Seq<int>,
    dir: Seq<char>,
    j: int,
)
    requires
        adds_new(front, entries, dirs, from),
        0 <= j < entries.len(),
        same_place(entries[j], dir),
    ensures
        has_place(dirs, dir),
    decreases j,
{
    if is_new(front, entries, j) {
        assert(from.contains(j));
        let k = choose|k: int| 0 <= k < from.len() && from[k] == j;
        assert(dirs[front.len() + k] == entries[from[k]]);
    } else if exists|i: int| 0 <= i < front.len() && same_place(#[trigger] front[i], entries[j]) {
        let i = choose|i: int| 0 <= i < front.len() && same_place(#[trigger] front[i], entries[j]);
        lemma_same_place(front[i], entries[j], dir);
        assert(dirs[i] == front[i]);
    } else {
        let i = choose|i: int| 0 <= i < j && same_place(#[trigger] entries[i], entries[j]);
        lemma_same_place(entries[i], entries[j], dir);
        lemma_entry_has_place(front, entries, dirs, from, dir, i);
    }
}

/// Extending a list adds the entries that are new, each to the letter, and no
/// others.
pub proof fn law_extending_adds_new(front: Seq<Seq<char>>, entries: Seq<Seq<char>>)
    ensures
        exists|from: Seq<int>| adds_new(front, entries, extended(front, entries), from),
    decreases entries.len(),
{
    let dirs = extended(front, entries);
    if entries.len() == 0 {
        assert(adds_new(front, entries, dirs, seq![]));
    } else {
        let n = entries.len() - 1;
        let early = entries.drop_last();
        let last = entries[n];
        law_extending_adds_new(front, early);
        let before = extended(front, early);
        let from = choose|from: Seq<int>| adds_new(front, early, before, from);
        lemma_has_place(front, early, before, from, last);
        assert(forall|j: int| 0 <= j < n ==> #[trigger] entries[j] == early[j]);
        assert(has_place(before, last) == !is_new(front, entries, n)) by {
            if exists|j: int| 0 <= j < early.len() && same_place(#[trigger] early[j], last) {
                let j = choose|j: int| 0 <= j < early.len() && same_place(#[trigger] early[j], last);
                assert(entries[j] == early[j]);
            }
            if !is_new(front, entries, n) && !(exists|j: int|
                0 <= j < front.len() && same_place(#[trigger] front[j], last)) {
                let j = choose|j: int| 0 <= j < n && same_place(#[trigger] entries[j], last);
                assert(early[j] == entries[j]);
            }
        }
        assert forall|i: int| 0 <= i < n implies is_new(front, entries, i) == is_new(
            front,
            early,
            i,
        ) by {
            assert(entries[i] == early[i]);
            if is_new(front, early, i) {
                assert forall|j: int| 0 <= j < i implies !same_place(
                    #[trigger] entries[j],
                    entries[i],
                ) by {
                    assert(entries[j] == early[j]);
                }
            }
            if is_new(front, entries, i) {
                assert forall|j: int| 0 <= j < i implies !same_place(
                    #[trigger] early[j],
                    early[i],
                ) by {
                    assert(entries[j] == early[j]);
                }
            }
        }
        if has_place(before, last) {
            assert forall|i: int| 0 <= i < entries.len() implies (#[trigger] from.contains(i)
                <==> is_new(front, entries, i)) by {
                if i == n && from.contains(n) {
                    let k = choose|k: int| 0 <= k < from.len() && from[k] == n;
                    assert(from[k] < early.len());
                }
            }
            assert(adds_new(front, entries, dirs, from));
        } else {
            let more = from.push(n);
            assert(dirs == before.push(last));
            assert forall|k: int| 0 <= k < more.len() implies 0 <= #[trigger] more[k]
                < entries.len() && dirs[front.len() + k] == entries[more[k]] by {
                if k < from.len() {
                    assert(more[k] == from[k]);
                    assert(dirs[front.len() + k] == before[front.len() + k]);
                }
            }
            assert forall|i: int| 0 <= i < entries.len() implies (#[trigger] more.contains(i)
                <==> is_new(front, entries, i)) by {
                if i == n {
                    assert(more[from.len() as int] == n);
                } else {
                    if from.contains(i) {
                        let k = choose|k: int| 0 <= k < from.len() && from[k] == i;
                        assert(more[k] == i);
                    }
                    if more.contains(i) {
                        let k = choose|k: int| 0 <= k < more.len() && more[k] == i;
                        assert(k < from.len());
                        assert(from[k] == i);
                    }
                    assert(from.contains(i) <==> is_new(front, early, i));
                }
            }
            assert forall|k: int, l: int| 0 <= k < l < more.len() implies #[trigger] more[k]
                < #[trigger] more[l] by {
                assert(more[k] == from[k]);
                if l < from.len() {
                    assert(more[l] == from[l]);
                }
            }
            assert forall|j: int| 0 <= j < front.len() implies #[trigger] dirs[j] == front[j] by {
                assert(dirs[j] == before[j]);
            }
            assert(adds_new(front, entries, dirs, more));
        }
    }
}

/// The places that come first: what was found of Node, the current programs before
/// those of the default version, and then the seven places where the assistant may
/// be installed.
pub open spec fn front_places(places: &NvmPlaces, found: &NvmFound) -> Seq<Seq<char>> {
    let current = if found.dir_exists && found.current_bin_exists {
        seq![places.current_bin@]
    } else {
        seq![]
    };
    let version = if found.dir_exists && found.version_bin_exists && found.default_version is Some {
        seq![
            path_join(
                path_join(
                    path_join(places.dir@, "versions/node"@),
                    trimmed(found.default_version->Some_0@),
                ),
                "bin"@,
            ),
        ]
    } else {
        seq![]
    };
    current + version + seq![
        path_join(places.home@, ".cargo/bin"@),
        path_join(places.home@, ".local/bin"@),
        path_join(places.home@, ".npm-global/bin"@),
        "/opt/homebrew/bin"@,
        "/usr/local/bin"@,
        "/usr/bin"@,
        "/bin"@,
    ]
}

/// The search path: the places that come first, and behind them the entries of the
/// search path there is that are new, to the letter and in order, with colons
/// between them.
pub proof fn law_build_rich_path(
    places: &NvmPlaces,
    found: &NvmFound,
    existing: Option<&str>,
    path: String,
)
    requires
        call_ensures(build_rich_path, (places, found, existing), path),
    ensures
        existing is None ==> path@ == joined(front_places(places, found), seq![':']),
        existing matches Some(old_path) ==> exists|dirs: Seq<Seq<char>>, from: Seq<int>|
            #[trigger] adds_new(front_places(places, found), pieces(old_path@, ':'), dirs, from)
                && path@ == joined(dirs, seq![':']),
{
    reveal_strlit(":");
    assert(":"@ =~= seq![':']);
    let front = crate::rich_path::node_dirs(places@, found@) + crate::rich_path::install_dirs(
        places@.home,
    );
    assert(found@.default_version == opt_text(found.default_version));
    assert(front =~= front_places(places, found));
    if let Some(old_path) = existing {
        assert(opt_str(existing) == Some(old_path@));
        let entries = pieces(old_path@, ':');
        law_extending_adds_new(front, entries);
        let dirs = rich_dirs(places@, found@, opt_str(existing));
        let from = choose|from: Seq<int>| adds_new(front, entries, dirs, from);
        assert(adds_new(front_places(places, found), entries, dirs, from));
    } else {
        assert(opt_str(existing) is None);
    }
}

/// No directory of the search path there is gets lost: a path without detours that
/// is not there to the letter among the paths before it, all without detours, is
/// kept to the letter.
pub proof fn law_new_entry_is_kept(
    front: Seq<Seq<char>>,
    entries: Seq<Seq<char>>,
    dirs: Seq<Seq<char>>,
    from: Seq<int>,
    i: int,
)
    requires
        adds_new(front, entries, dirs, from),
        0 <= i < entries.len(),
        is_normal(entries[i]),
        forall|j: int|
            0 <= j < front.len() ==> is_normal(#[trigger] front[j]) && front[j] != entries[i],
        forall|j: int|
            0 <= j < i ==> is_normal(#[trigger] entries[j]) && entries[j] != entries[i],
    ensures
        dirs.contains(entries[i]),
{
    assert forall|j: int| 0 <= j < front.len() implies !same_place(
        #[trigger] front[j],
        entries[i],
    ) by {
        law_normal_paths_are_their_places(front[j], entries[i]);
    }
    assert forall|j: int| 0 <= j < i implies !same_place(#[trigger] entries[j], entries[i]) by {
        law_normal_paths_are_their_places(entries[j], entries[i]);
    }
    assert(from.contains(i));
    let k = choose|k: int| 0 <= k < from.len() && from[k] == i;
    assert(dirs[front.len() + k] == entries[from[k]]);
}

/// These are the places of Node for a home directory: in the directory that the
/// environment names, to the letter, else in `.nvm` at home.
pub open spec fn are_places(places: NvmPlaces, home: Seq<char>, env_dir: Option<String>) -> bool {
    &&& places.home@ == home
    &&& match env_dir {
        Some(dir) => places.dir@ == dir@,
        None => places.dir@ == path_join(home, ".nvm"@),
    }
    &&& places.default_link@ == path_join(places.dir@, "alias/default"@)
    &&& places.current_bin@ == path_join(places.dir@, "current/bin"@)
}

/// The places of Node for a home directory.
pub proof fn law_places_for(home: String, env_dir: Option<String>, places: NvmPlaces)
    requires
        call_ensures(crate::rich_path::places_for, (home, env_dir), places),
    ensures
        are_places(places, home@, env_dir),
{
}

/// The places of Node for the home directory that is found, or `/tmp`.
pub proof fn law_nvm_places(env_dir: Option<String>, places: NvmPlaces)
    requires
        call_ensures(nvm_places, (env_dir,), places),
    ensures
        exists|found: Option<Seq<char>>| #[trigger]
            home_says(found) && are_places(
                places,
                match found {
                    Some(home) => home,
                    None => "/tmp"@,
                },
                env_dir,
            ),
{
    let found = choose|found: Option<Seq<char>>| #[trigger]
        home_says(found) && places@ == crate::rich_path::places_at(
            crate::path::home_or_tmp(found),
            opt_text(env_dir),
        );
    assert(home_says(found));
}

/// The programs of a version: in `bin` of the directory with its name, without the
/// white space around it.
pub proof fn law_version_bin(places: &NvmPlaces, version: &str, path: String)
    requires
        call_ensures(NvmPlaces::version_bin, (places, version), path),
    ensures
        path@ == path_join(
            path_join(path_join(places.dir@, "versions/node"@), trimmed(version@)),
            "bin"@,
        ),
{
}

/// Extending a list by two lists in a row is extending it by the first, and the
/// result by the second.
pub proof fn law_extending_in_steps(
    front: Seq<Seq<char>>,
    first: Seq<Seq<char>>,
    second: Seq<Seq<char>>,
)
    ensures
        extended(front, first + second) == extended(extended(front, first), second),
    decreases second.len(),
{
    let all = first + second;
    if second.len() == 0 {
        assert(all =~= first);
    } else {
        law_extending_in_steps(front, first, second.drop_last());
        assert(all.drop_last() =~= first + second.drop_last());
        assert(all.last() == second.last());
    }
}

} // verus!
