//! The search path of the assistant's process.
//!
//! Programs that are started from a desktop get a short search path, so the
//! places where the assistant may be installed are put before it.

use vstd::prelude::*;

use crate::path::{
    find_home, home_or_tmp, home_says, join_path, path_join, resolve_home, same_path, same_place,
};
use crate::text::{
    join_first, joined, law_pieces_of_joined, opt_text, pieces, split_at_char, texts, trim, trimmed,
};

verus! {

/// Where a manager of Node versions may keep them: the directory itself, the file
/// that names the default version, and the programs of the current one.
#[derive(Debug, Clone)]
pub struct NvmPlaces {
    pub home: String,
    pub dir: String,
    pub default_link: String,
    pub current_bin: String,
}

/// [`NvmPlaces`], with its texts.
#[verifier::ext_equal]
pub struct PlacesView {
    pub home: Seq<char>,
    pub dir: Seq<char>,
    pub default_link: Seq<char>,
    pub current_bin: Seq<char>,
}

impl View for NvmPlaces {
    type V = PlacesView;

    open spec fn view(&self) -> PlacesView {
        PlacesView {
            home: self.home@,
            dir: self.dir@,
            default_link: self.default_link@,
            current_bin: self.current_bin@,
        }
    }
}

/// The places for a home directory: in the directory that the environment names,
/// else in `.nvm` at home.
pub open spec fn places_at(home: Seq<char>, env_dir: Option<Seq<char>>) -> PlacesView {
    let dir = match env_dir {
        Some(dir) => dir,
        None => path_join(home, ".nvm"@),
    };
    PlacesView {
        home,
        dir,
        default_link: path_join(dir, "alias/default"@),
        current_bin: path_join(dir, "current/bin"@),
    }
}

/// The programs of a version, whose name stands in a file with white space
/// around it.
pub open spec fn version_bin(dir: Seq<char>, version: Seq<char>) -> Seq<char> {
    path_join(path_join(path_join(dir, "versions/node"@), trimmed(version)), "bin"@)
}

/// What was found at those places: whether the directory is there, the default
/// version if its file can be read, whether the programs of that version are
/// there, and whether those of the current one are.
#[derive(Debug, Clone)]
pub struct NvmFound {
    pub dir_exists: bool,
    pub default_version: Option<String>,
    pub version_bin_exists: bool,
    pub current_bin_exists: bool,
}

/// [`NvmFound`], with its texts.
#[verifier::ext_equal]
pub struct FoundView {
    pub dir_exists: bool,
    pub default_version: Option<Seq<char>>,
    pub version_bin_exists: bool,
    pub current_bin_exists: bool,
}

impl View for NvmFound {
    type V = FoundView;

    open spec fn view(&self) -> FoundView {
        FoundView {
            dir_exists: self.dir_exists,
            default_version: opt_text(self.default_version),
            version_bin_exists: self.version_bin_exists,
            current_bin_exists: self.current_bin_exists,
        }
    }
}

/// The places where the assistant may be installed.
pub open spec fn install_dirs(home: Seq<char>) -> Seq<Seq<char>> {
    seq![
        path_join(home, ".cargo/bin"@),
        path_join(home, ".local/bin"@),
        path_join(home, ".npm-global/bin"@),
        "/opt/homebrew/bin"@,
        "/usr/local/bin"@,
        "/usr/bin"@,
        "/bin"@,
    ]
}

/// The programs of Node that were found: the current ones first, then those of
/// the default version.
pub open spec fn node_dirs(places: PlacesView, found: FoundView) -> Seq<Seq<char>> {
    let current = if found.dir_exists && found.current_bin_exists {
        seq![places.current_bin]
    } else {
        seq![]
    };
    let version = match found.default_version {
        Some(version) if found.dir_exists && found.version_bin_exists => seq![
            version_bin(places.dir, version),
        ],
        _ => seq![],
    };
    current + version
}

/// One of `dirs` is the same place as `dir`.
pub open spec fn has_place(dirs: Seq<Seq<char>>, dir: Seq<char>) -> bool {
    exists|i: int| 0 <= i < dirs.len() && same_place(#[trigger] dirs[i], dir)
}

/// `dirs`, with those of `more` behind it that are new places, in order.
pub open spec fn extended(dirs: Seq<Seq<char>>, more: Seq<Seq<char>>) -> Seq<Seq<char>>
    decreases more.len(),
{
    if more.len() == 0 {
        dirs
    } else {
        let before = extended(dirs, more.drop_last());
        if has_place(before, more.last()) {
            before
        } else {
            before.push(more.last())
        }
    }
}

/// The places of the search path: what was found of Node, where the assistant may
/// be installed, and the places of the search path there is that are new.
pub open spec fn rich_dirs(
    places: PlacesView,
    found: FoundView,
    existing: Option<Seq<char>>,
) -> Seq<Seq<char>> {
    let dirs = node_dirs(places, found) + install_dirs(places.home);
    match existing {
        Some(path) => extended(dirs, pieces(path, ':')),
        None => dirs,
    }
}

/// The places to look at, for this home directory.
pub fn places_for(home: String, env_dir: Option<String>) -> (places: NvmPlaces)
    ensures
        places@ == places_at(home@, opt_text(env_dir)),
{
    let dir = match env_dir {
        Some(dir) => dir,
        None => join_path(home.as_str(), ".nvm"),
    };
    let default_link = join_path(dir.as_str(), "alias/default");
    let current_bin = join_path(dir.as_str(), "current/bin");
    NvmPlaces { home, dir, default_link, current_bin }
}

/// The places to look at, for the home directory that is found. `env_dir` is the
/// directory that the environment names.
pub fn nvm_places(env_dir: Option<String>) -> (places: NvmPlaces)
    ensures
        exists|found: Option<Seq<char>>| #[trigger]
            home_says(found) && places@ == places_at(home_or_tmp(found), opt_text(env_dir)),
{
    let found = find_home();
    let ghost seen = opt_text(found);
    let home = resolve_home(found);
    assert(home@ == home_or_tmp(seen));
    places_for(home, env_dir)
}

impl NvmPlaces {
    /// The programs of a version, named in a file with white space around it.
    pub fn version_bin(&self, version: &str) -> (path: String)
        ensures
            path@ == version_bin(self@.dir, version@),
    {
        let versions = join_path(self.dir.as_str(), "versions/node");
        let one = join_path(versions.as_str(), trim(version));
        join_path(one.as_str(), "bin")
    }
}

/// Whether one of `dirs` is the same place as `dir`.
fn holds_place(dirs: &Vec<String>, dir: &str) -> (found: bool)
    ensures
        found == has_place(texts(dirs@), dir@),
{
    let ghost all = texts(dirs@);
    let mut i: usize = 0;
    while i < dirs.len()
        invariant
            all == texts(dirs@),
            i <= dirs@.len(),
            forall|j: int| 0 <= j < i ==> !same_place(#[trigger] all[j], dir@),
        decreases dirs@.len() - i,
    {
        assert(all[i as int] == dirs@[i as int]@);
        if same_path(dirs[i].as_str(), dir) {
            return true;
        }
        i += 1;
    }
    false
}

/// Put those of `more` behind `dirs` that are new places.
fn extend_places(dirs: &mut Vec<String>, more: &Vec<String>)
    ensures
        texts(final(dirs)@) == extended(texts(old(dirs)@), texts(more@)),
{
    let ghost start = texts(dirs@);
    let ghost all = texts(more@);
    let mut i: usize = 0;
    while i < more.len()
        invariant
            all == texts(more@),
            i <= more@.len(),
            texts(dirs@) == extended(start, all.take(i as int)),
        decreases more@.len() - i,
    {
        let ghost before = texts(dirs@);
        assert(all.take(i + 1).drop_last() == all.take(i as int));
        assert(all.take(i + 1).last() == more@[i as int]@);
        if !holds_place(dirs, more[i].as_str()) {
            dirs.push(more[i].clone());
            assert(texts(dirs@) =~= before.push(more@[i as int]@));
        }
        i += 1;
    }
    assert(all.take(all.len() as int) == all);
}

/// The search path of the assistant's process. `existing` is the search path
/// there is.
pub fn build_rich_path(
    places: &NvmPlaces,
    found: &NvmFound,
    existing: Option<&str>,
) -> (path: String)
    ensures
        path@ == joined(rich_dirs(places@, found@, opt_str(existing)), ":"@),
{
    let mut dirs: Vec<String> = Vec::new();
    if found.dir_exists && found.current_bin_exists {
        dirs.push(places.current_bin.clone());
    }
    if let Some(version) = &found.default_version {
        if found.dir_exists && found.version_bin_exists {
            dirs.push(places.version_bin(version.as_str()));
        }
    }
    assert(texts(dirs@) =~= node_dirs(places@, found@));
    let home = places.home.as_str();
    dirs.push(join_path(home, ".cargo/bin"));
    dirs.push(join_path(home, ".local/bin"));
    dirs.push(join_path(home, ".npm-global/bin"));
    dirs.push("/opt/homebrew/bin".to_string());
    dirs.push("/usr/local/bin".to_string());
    dirs.push("/usr/bin".to_string());
    dirs.push("/bin".to_string());
    assert(texts(dirs@) =~= node_dirs(places@, found@) + install_dirs(places@.home));
    if let Some(path) = existing {
        let more = split_at_char(path, ':');
        extend_places(&mut dirs, &more);
    }
    let ghost all = texts(dirs@);
    assert(all.take(all.len() as int) == all);
    join_first(&dirs, dirs.len(), ":")
}

/// The text of a string slice that may be absent.
pub open spec fn opt_str(s: Option<&str>) -> Option<Seq<char>> {
    match s {
        Some(t) => Some(t@),
        None => None,
    }
}

/// A path is the same place as itself, so a list has the places that are in it.
proof fn lemma_has_member(dirs: Seq<Seq<char>>, i: int)
    requires
        0 <= i < dirs.len(),
    ensures
        has_place(dirs, dirs[i]),
{
    assert(same_place(dirs[i], dirs[i]));
}

/// Extending a list keeps what is in it, in its order and in front.
proof fn lemma_extended_keeps(dirs: Seq<Seq<char>>, more: Seq<Seq<char>>)
    ensures
        dirs.len() <= extended(dirs, more).len(),
        extended(dirs, more).take(dirs.len() as int) == dirs,
    decreases more.len(),
{
    if more.len() > 0 {
        lemma_extended_keeps(dirs, more.drop_last());
        let before = extended(dirs, more.drop_last());
        assert(before.push(more.last()).take(dirs.len() as int) =~= before.take(
            dirs.len() as int,
        ));
    } else {
        assert(dirs.take(dirs.len() as int) =~= dirs);
    }
}

/// The places where the assistant may be installed are all there, in their order,
/// behind what was found of Node.
pub proof fn law_install_places_are_there(
    places: PlacesView,
    found: FoundView,
    existing: Option<Seq<char>>,
)
    ensures
        ({
            let dirs = node_dirs(places, found) + install_dirs(places.home);
            let all = rich_dirs(places, found, existing);
            dirs.len() <= all.len() && all.take(dirs.len() as int) == dirs
        }),
{
    let dirs = node_dirs(places, found) + install_dirs(places.home);
    match existing {
        Some(path) => lemma_extended_keeps(dirs, pieces(path, ':')),
        None => assert(dirs.take(dirs.len() as int) =~= dirs),
    }
}

/// No place of the search path there is gets lost: each is one of the result.
pub proof fn law_existing_places_are_kept(
    places: PlacesView,
    found: FoundView,
    path: Seq<char>,
    i: int,
)
    requires
        0 <= i < pieces(path, ':').len(),
    ensures
        has_place(rich_dirs(places, found, Some(path)), pieces(path, ':')[i]),
{
    let dirs = node_dirs(places, found) + install_dirs(places.home);
    lemma_extended_has(dirs, pieces(path, ':'), i);
}

/// Each of `more` is a place of the extended list.
proof fn lemma_extended_has(dirs: Seq<Seq<char>>, more: Seq<Seq<char>>, i: int)
    requires
        0 <= i < more.len(),
    ensures
        has_place(extended(dirs, more), more[i]),
    decreases more.len(),
{
    let before = extended(dirs, more.drop_last());
    let after = extended(dirs, more);
    if i == more.len() - 1 {
        if !has_place(before, more.last()) {
            assert(after[after.len() - 1] == more.last());
            lemma_has_member(after, after.len() - 1);
        }
    } else {
        lemma_extended_has(dirs, more.drop_last(), i);
        assert(more.drop_last()[i] == more[i]);
        let k = choose|k: int| 0 <= k < before.len() && same_place(#[trigger] before[k], more[i]);
        assert(after[k] == before[k]);
    }
}

/// Nothing is added twice: what the search path there is adds is no place that
/// stands before it.
pub proof fn law_added_places_are_new(
    places: PlacesView,
    found: FoundView,
    existing: Option<Seq<char>>,
    i: int,
    j: int,
)
    requires
        0 <= i < j < rich_dirs(places, found, existing).len(),
        j >= (node_dirs(places, found) + install_dirs(places.home)).len(),
    ensures
        !same_place(
            rich_dirs(places, found, existing)[i],
            rich_dirs(places, found, existing)[j],
        ),
{
    let dirs = node_dirs(places, found) + install_dirs(places.home);
    if let Some(path) = existing {
        lemma_extended_new(dirs, pieces(path, ':'), i, j);
    }
}

/// What extending adds is no place that stands before it.
proof fn lemma_extended_new(dirs: Seq<Seq<char>>, more: Seq<Seq<char>>, i: int, j: int)
    requires
        dirs.len() <= j,
        0 <= i < j < extended(dirs, more).len(),
    ensures
        !same_place(extended(dirs, more)[i], extended(dirs, more)[j]),
    decreases more.len(),
{
    if more.len() > 0 {
        let before = extended(dirs, more.drop_last());
        if j < before.len() {
            lemma_extended_new(dirs, more.drop_last(), i, j);
        } else {
            assert(extended(dirs, more)[i] == before[i]);
        }
    }
}

/// Building the search path again from its own result gives the same, where no
/// place of it holds a colon.
pub proof fn law_search_path_is_stable(
    places: PlacesView,
    found: FoundView,
    existing: Option<Seq<char>>,
)
    requires
        forall|i: int|
            0 <= i < rich_dirs(places, found, existing).len() ==> !(#[trigger] rich_dirs(
                places,
                found,
                existing,
            )[i]).contains(':'),
    ensures
        ({
            let path = joined(rich_dirs(places, found, existing), ":"@);
            joined(rich_dirs(places, found, Some(path)), ":"@) == path
        }),
{
    let dirs = node_dirs(places, found) + install_dirs(places.home);
    let all = rich_dirs(places, found, existing);
    law_install_places_are_there(places, found, existing);
    assert(all.len() > 0);
    reveal_strlit(":");
    assert(":"@ =~= seq![':']);
    law_pieces_of_joined(all, ':');
    assert forall|i: int, j: int| 0 <= i < j < all.len() && dirs.len() <= j implies !same_place(
        #[trigger] all[i],
        #[trigger] all[j],
    ) by {
        law_added_places_are_new(places, found, existing, i, j);
    }
    lemma_extended_again(dirs, all, all.len() as int);
    assert(all.take(all.len() as int) =~= all);
}

/// Extending a list by what it was extended to adds the same again, place by
/// place.
proof fn lemma_extended_again(dirs: Seq<Seq<char>>, all: Seq<Seq<char>>, n: int)
    requires
        dirs.len() <= all.len(),
        all.take(dirs.len() as int) == dirs,
        0 <= n <= all.len(),
        forall|i: int, j: int|
            0 <= i < j < all.len() && dirs.len() <= j ==> !same_place(
                #[trigger] all[i],
                #[trigger] all[j],
            ),
    ensures
        extended(dirs, all.take(n)) == if n <= dirs.len() {
            dirs
        } else {
            all.take(n)
        },
    decreases n,
{
    if n > 0 {
        lemma_extended_again(dirs, all, n - 1);
        assert(all.take(n).drop_last() =~= all.take(n - 1));
        assert(all.take(n).last() == all[n - 1]);
        let before = extended(dirs, all.take(n - 1));
        if n <= dirs.len() {
            assert(dirs[n - 1] == all[n - 1]);
            lemma_has_member(dirs, n - 1);
        } else {
            assert(before =~= all.take(n - 1));
            assert forall|i: int| 0 <= i < before.len() implies !same_place(
                #[trigger] before[i],
                all[n - 1],
            ) by {
                assert(before[i] == all[i]);
            }
            assert(before.push(all[n - 1]) =~= all.take(n));
        }
    } else {
        assert(all.take(0) =~= seq![]);
    }
}

} // verus!
