//! What the library of recipes on disk is for.

use vstd::prelude::*;

use crate::error::{io_outcome, reply, RecipeError};
use crate::listing::{chosen, listing_view, listing_views, patterns_say, recipe_views, RecipeListing};
use crate::listing_laws::{
    are_tried, each_view, is_list_of, is_stand_in, lemma_are_tried, lemma_is_list_of,
    lemma_is_stand_in, lemma_picks, picks,
};
use crate::markdown::split;
use crate::path::{find_home, has_md_extension, home_says, path_join};
use crate::profile::{Profile, ProfileFields, ProfileFrontmatter};
use crate::recipe::{
    is_slug, parses_file, to_parse, FrontmatterView, Recipe, RecipeFrontmatter, RecipeView,
};
use crate::recipe_laws::{holds, lemma_holds, lemma_parses_as, parses_as, profile_reads_as};
use crate::store::{
    default_minutes_dir, entry_views, minutes_dir, minutes_dir_from, parses_entries, parses_profile,
    profile_in, profile_plan, recipe_in, recipes_in, save_plan, DirEntry, EntryView, FileState,
    RecipeStore, WritePlan,
};
use crate::text::{opt_text, texts};
use crate::text_laws::each_text;

verus! {

/// The directory is read completely: the recipes in it are those of its entries
/// that hold one, each of them, in the order of the entries, and nothing else.
pub proof fn law_directory_is_read_completely(
    recipes_dir: Seq<char>,
    entries: Seq<EntryView>,
    parsed: Seq<Result<FrontmatterView, Seq<char>>>,
)
    requires
        parsed.len() == entries.len(),
    ensures
        recipes_in(recipes_dir, entries, parsed).map_values(|r: RecipeView| Some(r)) == Seq::new(
            entries.len(),
            |i: int| recipe_in(recipes_dir, entries[i], parsed[i]),
        ).filter(|r: Option<RecipeView>| r is Some),
    decreases entries.len(),
{
    let some = |r: RecipeView| Some(r);
    let there = |r: Option<RecipeView>| r is Some;
    let all = recipes_in(recipes_dir, entries, parsed);
    let given = Seq::new(entries.len(), |i: int| recipe_in(recipes_dir, entries[i], parsed[i]));
    reveal(Seq::filter);
    if entries.len() == 0 {
        assert(all.map_values(some) =~= given.filter(there));
    } else {
        let front = entries.drop_last();
        let before = parsed.drop_last();
        law_directory_is_read_completely(recipes_dir, front, before);
        let rest = recipes_in(recipes_dir, front, before);
        let early = Seq::new(front.len(), |i: int| recipe_in(recipes_dir, front[i], before[i]));
        assert(given.drop_last() =~= early);
        assert(given.last() == recipe_in(recipes_dir, entries.last(), parsed.last()));
        match recipe_in(recipes_dir, entries.last(), parsed.last()) {
            Some(recipe) => {
                assert(rest.push(recipe).map_values(some) =~= rest.map_values(some).push(
                    Some(recipe),
                ));
            },
            None => {},
        }
    }
}

/// Every entry that holds a recipe is there.
pub proof fn law_every_recipe_is_read(
    recipes_dir: Seq<char>,
    entries: Seq<EntryView>,
    parsed: Seq<Result<FrontmatterView, Seq<char>>>,
    i: int,
    recipe: RecipeView,
)
    requires
        parsed.len() == entries.len(),
        0 <= i < entries.len(),
        recipe_in(recipes_dir, entries[i], parsed[i]) == Some(recipe),
    ensures
        recipes_in(recipes_dir, entries, parsed).contains(recipe),
    decreases entries.len(),
{
    let all = recipes_in(recipes_dir, entries, parsed);
    let front = entries.drop_last();
    let before = parsed.drop_last();
    let rest = recipes_in(recipes_dir, front, before);
    if i == entries.len() - 1 {
        assert(all[all.len() - 1] == recipe);
    } else {
        assert(front[i] == entries[i] && before[i] == parsed[i]);
        law_every_recipe_is_read(recipes_dir, front, before, i, recipe);
        let k = choose|k: int| 0 <= k < rest.len() && rest[k] == recipe;
        assert(all[k] == recipe);
    }
}

/// Reading two directories one after the other is reading them as one.
pub proof fn law_directories_in_a_row(
    recipes_dir: Seq<char>,
    first: Seq<EntryView>,
    first_parsed: Seq<Result<FrontmatterView, Seq<char>>>,
    second: Seq<EntryView>,
    second_parsed: Seq<Result<FrontmatterView, Seq<char>>>,
)
    requires
        first_parsed.len() == first.len(),
        second_parsed.len() == second.len(),
    ensures
        recipes_in(recipes_dir, first + second, first_parsed + second_parsed) == recipes_in(
            recipes_dir,
            first,
            first_parsed,
        ) + recipes_in(recipes_dir, second, second_parsed),
    decreases second.len(),
{
    let all = first + second;
    let parsed = first_parsed + second_parsed;
    let one = recipes_in(recipes_dir, first, first_parsed);
    if second.len() == 0 {
        assert(all =~= first && parsed =~= first_parsed);
        assert(one + seq![] =~= one);
    } else {
        law_directories_in_a_row(
            recipes_dir,
            first,
            first_parsed,
            second.drop_last(),
            second_parsed.drop_last(),
        );
        assert(all.drop_last() =~= first + second.drop_last());
        assert(parsed.drop_last() =~= first_parsed + second_parsed.drop_last());
        assert(all.last() == second.last() && parsed.last() == second_parsed.last());
        let rest = recipes_in(recipes_dir, second.drop_last(), second_parsed.drop_last());
        if let Some(recipe) = recipe_in(recipes_dir, second.last(), second_parsed.last()) {
            assert((one + rest).push(recipe) =~= one + rest.push(recipe));
        }
    }
}

/// What an entry of the directory gives. One that is no `.md` file, could not be
/// read, has no frontmatter, has some that does not read, or one with a bad slug,
/// gives nothing. Any other gives the recipe: the frontmatter that was read, the
/// body of the file, and the path of the file in the directory.
pub open spec fn gives<F: Fn(&str) -> Result<RecipeFrontmatter, String>>(
    parse: F,
    recipes_dir: Seq<char>,
    entry: DirEntry,
    given: Option<RecipeView>,
) -> bool {
    match entry.source {
        Ok(text) => if !has_md_extension(entry.file_name@) || split(text@).0.len() == 0 {
            given is None
        } else {
            exists|yaml: &str, parsed: Result<RecipeFrontmatter, String>|
                yaml@ == split(text@).0 && #[trigger] call_ensures(parse, (yaml,), parsed) && given
                    == match parsed {
                    Ok(frontmatter) => if is_slug(frontmatter.slug@) {
                        Some(
                            RecipeView {
                                frontmatter: frontmatter@,
                                body: split(text@).1,
                                path: path_join(recipes_dir, entry.file_name@),
                            },
                        )
                    } else {
                        None
                    },
                    Err(_) => None,
                }
        },
        Err(_) => given is None,
    }
}

/// These are the recipes in the directory: what its entries give, `given[i]` being
/// what entry `i` does, without those that give nothing.
pub open spec fn are_read<F: Fn(&str) -> Result<RecipeFrontmatter, String>>(
    parse: F,
    recipes_dir: Seq<char>,
    entries: Seq<DirEntry>,
    given: Seq<Option<RecipeView>>,
    recipes: Seq<RecipeView>,
) -> bool {
    &&& given.len() == entries.len()
    &&& forall|i: int| #![trigger given[i]] 0 <= i < entries.len() ==> gives(
            parse,
            recipes_dir,
            entries[i],
            given[i],
        )
    &&& recipes.map_values(|r: RecipeView| Some(r)) == given.filter(
        |r: Option<RecipeView>| r is Some,
    )
}

/// What a contract says over views, it says of the entries themselves.
proof fn lemma_are_read<F: Fn(&str) -> Result<RecipeFrontmatter, String>>(
    parse: F,
    recipes_dir: Seq<char>,
    entries: Seq<DirEntry>,
    parsed: Seq<Result<FrontmatterView, Seq<char>>>,
)
    requires
        parses_entries(parse, entry_views(entries), parsed),
    ensures
        exists|given: Seq<Option<RecipeView>>| #[trigger]
            are_read(
                parse,
                recipes_dir,
                entries,
                given,
                recipes_in(recipes_dir, entry_views(entries), parsed),
            ),
{
    let all = entry_views(entries);
    let given = Seq::new(all.len(), |i: int| recipe_in(recipes_dir, all[i], parsed[i]));
    law_directory_is_read_completely(recipes_dir, all, parsed);
    assert forall|i: int| #![trigger given[i]] 0 <= i < entries.len() implies gives(
        parse,
        recipes_dir,
        entries[i],
        given[i],
    ) by {
        let entry = entries[i];
        assert(all[i] == entry@);
        if let Ok(text) = entry.source {
            assert(all[i].source == Ok::<Seq<char>, Seq<char>>(text@));
            if has_md_extension(entry.file_name@) && split(text@).0.len() > 0 {
                assert(parses_file(parse, all[i].source, parsed[i]));
                assert(to_parse(all[i].source) == Some(split(text@).0));
                let (yaml, reply_given) = choose|
                    yaml: &str,
                    reply_given: Result<RecipeFrontmatter, String>,
                |
                    yaml@ == split(text@).0 && #[trigger] call_ensures(parse, (yaml,), reply_given)
                        && reply(reply_given) == parsed[i];
                assert(call_ensures(parse, (yaml,), reply_given));
            }
        }
    }
    assert(are_read(parse, recipes_dir, entries, given, recipes_in(recipes_dir, all, parsed)));
}

/// Reading the directory: all the recipes in it, and nothing else.
pub proof fn law_load_all<F: Fn(&str) -> Result<RecipeFrontmatter, String>>(
    store: &RecipeStore,
    entries: &Vec<DirEntry>,
    parse: &F,
    recipes: Vec<Recipe>,
)
    requires
        call_ensures(RecipeStore::load_all::<F>, (store, entries, parse), recipes),
    ensures
        exists|given: Seq<Option<RecipeView>>| #[trigger]
            are_read(*parse, store@.recipes_dir, entries@, given, each_view(recipes@)),
{
    let parsed = choose|parsed: Seq<Result<FrontmatterView, Seq<char>>>| #[trigger]
        parses_entries(*parse, entry_views(entries@), parsed) && recipe_views(recipes@)
            == recipes_in(store@.recipes_dir, entry_views(entries@), parsed);
    assert(recipe_views(recipes@) =~= each_view(recipes@));
    lemma_are_read(*parse, store@.recipes_dir, entries@, parsed);
}

/// Listing the directory: a list of all the recipes in it.
pub proof fn law_list<F: Fn(&str) -> Result<RecipeFrontmatter, String>>(
    store: &RecipeStore,
    entries: &Vec<DirEntry>,
    parse: &F,
    list: Vec<RecipeListing>,
)
    requires
        call_ensures(RecipeStore::list::<F>, (store, entries, parse), list),
    ensures
        exists|given: Seq<Option<RecipeView>>, recipes: Seq<RecipeView>, order: Seq<int>|
            #[trigger] are_read(*parse, store@.recipes_dir, entries@, given, recipes)
                && #[trigger] is_list_of(list@, recipes, order),
{
    let all = entry_views(entries@);
    let parsed = choose|parsed: Seq<Result<FrontmatterView, Seq<char>>>| #[trigger]
        parses_entries(*parse, all, parsed) && crate::listing::is_sorted_form(
            recipes_in(store@.recipes_dir, all, parsed).map_values(
                |r: RecipeView| crate::listing::list_entry(r),
            ),
            listing_views(list@),
        );
    let recipes = recipes_in(store@.recipes_dir, all, parsed);
    lemma_are_read(*parse, store@.recipes_dir, entries@, parsed);
    lemma_is_list_of(list@, recipes);
    let given = choose|given: Seq<Option<RecipeView>>| #[trigger]
        are_read(*parse, store@.recipes_dir, entries@, given, recipes);
    let order = choose|order: Seq<int>| is_list_of(list@, recipes, order);
    assert(is_list_of(list@, recipes, order));
}

/// Selecting for an event: what is picked among all the recipes in the directory.
pub proof fn law_select_for_event<F: Fn(&str) -> Result<RecipeFrontmatter, String>>(
    store: &RecipeStore,
    entries: &Vec<DirEntry>,
    title: &str,
    attendee_emails: &[String],
    parse: &F,
    found: Option<RecipeListing>,
)
    requires
        call_ensures(
            RecipeStore::select_for_event::<F>,
            (store, entries, title, attendee_emails, parse),
            found,
        ),
    ensures
        exists|given: Seq<Option<RecipeView>>, recipes: Seq<RecipeView>, hits: Seq<bool>|
            #[trigger] are_read(*parse, store@.recipes_dir, entries@, given, recipes)
                && #[trigger] are_tried(recipes, title@, hits) && picks(
                recipes,
                title@,
                each_text(attendee_emails@),
                hits,
                found,
            ),
{
    let all = entry_views(entries@);
    let dir = store@.recipes_dir;
    let emails = texts(attendee_emails@);
    assert(emails =~= each_text(attendee_emails@));
    let (parsed, hits) = choose|
        parsed: Seq<Result<FrontmatterView, Seq<char>>>,
        hits: Seq<bool>,
    |
        parses_entries(*parse, all, parsed) && #[trigger] patterns_say(
            recipes_in(dir, all, parsed),
            title@,
            hits,
        ) && chosen(recipes_in(dir, all, parsed), title@, emails, hits, listing_view(found));
    let recipes = recipes_in(dir, all, parsed);
    lemma_are_read(*parse, dir, entries@, parsed);
    let given = choose|given: Seq<Option<RecipeView>>| #[trigger]
        are_read(*parse, dir, entries@, given, recipes);
    lemma_are_tried(recipes, title@, hits);
    lemma_picks(recipes, title@, emails, hits, found);
}

/// Looking for what stands in: the first fallback among all the recipes in the
/// directory.
pub proof fn law_get_fallback<F: Fn(&str) -> Result<RecipeFrontmatter, String>>(
    store: &RecipeStore,
    entries: &Vec<DirEntry>,
    parse: &F,
    found: Option<RecipeListing>,
)
    requires
        call_ensures(RecipeStore::get_fallback::<F>, (store, entries, parse), found),
    ensures
        exists|given: Seq<Option<RecipeView>>, recipes: Seq<RecipeView>| #[trigger]
            are_read(*parse, store@.recipes_dir, entries@, given, recipes) && is_stand_in(
                recipes,
                found,
            ),
{
    let all = entry_views(entries@);
    let dir = store@.recipes_dir;
    let parsed = choose|parsed: Seq<Result<FrontmatterView, Seq<char>>>| #[trigger]
        parses_entries(*parse, all, parsed) && crate::listing::stands_in(
            recipes_in(dir, all, parsed),
            listing_view(found),
        );
    lemma_are_read(*parse, dir, entries@, parsed);
    lemma_is_stand_in(recipes_in(dir, all, parsed), found);
}

/// The file of a recipe is in the directory of the recipes, and has its slug to
/// the letter and `.md` for a name.
pub open spec fn is_file_of(path: Seq<char>, recipes_dir: Seq<char>, slug: Seq<char>) -> bool {
    path == path_join(recipes_dir, slug + seq!['.', 'm', 'd'])
}

/// The name of a file ends with these characters.
proof fn lemma_md()
    ensures
        ".md"@ == seq!['.', 'm', 'd'],
{
    reveal_strlit(".md");
    assert(".md"@ =~= seq!['.', 'm', 'd']);
}

/// The path of a recipe.
pub proof fn law_recipe_path(store: &RecipeStore, slug: &str, path: String)
    requires
        call_ensures(RecipeStore::recipe_path, (store, slug), path),
    ensures
        is_file_of(path@, store@.recipes_dir, slug@),
{
    lemma_md();
}

/// Getting a recipe: not found where there is no file, and named in the error; the
/// message where it could not be read; else what its text reads as.
pub proof fn law_get<F: Fn(&str) -> Result<RecipeFrontmatter, String>>(
    store: &RecipeStore,
    slug: &str,
    file: &FileState,
    parse: &F,
    r: Result<Recipe, RecipeError>,
    path: Seq<char>,
)
    requires
        call_ensures(RecipeStore::get::<F>, (store, slug, file, parse), r),
        is_file_of(path, store@.recipes_dir, slug@),
    ensures
        file is Missing ==> (r matches Err(RecipeError::NotFound(named)) && named@ == slug@),
        file matches FileState::Found(source) ==> match source {
            Ok(text) => parses_as(*parse, text@, path, r),
            Err(reason) => r matches Err(RecipeError::Io(message)) && message@ == reason@,
        },
{
    lemma_md();
    if let FileState::Found(source) = *file {
        assert(file@ == crate::store::FileView::Found(reply(source)));
        let given = choose|given: Result<FrontmatterView, Seq<char>>| #[trigger]
            parses_file(*parse, reply(source), given) && crate::error::outcome(r)
                == crate::recipe::recipe_of_file(reply(source), path, given);
        if let Ok(text) = source {
            lemma_parses_as(*parse, text@, path, given, r);
        }
    }
}

/// Saving a recipe: to its own file, with the body to the letter behind the YAML
/// that was written of its frontmatter, for its owner alone. The directory is
/// made first if and only if it is not there.
pub proof fn law_save<G: Fn(&RecipeFrontmatter) -> Result<String, String>>(
    store: &RecipeStore,
    recipe: &Recipe,
    dir_exists: bool,
    emit: &G,
    plan: WritePlan,
)
    requires
        call_ensures(RecipeStore::save::<G>, (store, recipe, dir_exists, emit), plan),
    ensures
        exists|yaml: Result<String, String>| #[trigger]
            call_ensures(*emit, (&recipe.frontmatter,), yaml) && holds(
                plan.content@,
                yaml,
                recipe.body@,
            ),
        is_file_of(plan.path@, store@.recipes_dir, recipe.frontmatter.slug@),
        dir_exists ==> plan.create_dir is None,
        !dir_exists ==> (plan.create_dir matches Some(dir) && dir@ == store@.recipes_dir),
        plan.mode == 0o600,
{
    lemma_md();
    let yaml = choose|yaml: Result<String, String>| #[trigger]
        call_ensures(*emit, (&recipe.frontmatter,), yaml) && plan@ == save_plan(
            store@.recipes_dir,
            recipe@,
            dir_exists,
            reply(yaml),
        );
    assert(plan@.create_dir == opt_text(plan.create_dir));
    lemma_holds(plan.content@, yaml, recipe.body@);
}

/// Deleting a recipe: its own file where there is one, else it is not found.
pub proof fn law_delete(
    store: &RecipeStore,
    slug: &str,
    file_exists: bool,
    r: Result<String, RecipeError>,
)
    requires
        call_ensures(RecipeStore::delete, (store, slug, file_exists), r),
    ensures
        file_exists ==> (r matches Ok(path) && is_file_of(path@, store@.recipes_dir, slug@)),
        !file_exists ==> (r matches Err(RecipeError::NotFound(named)) && named@ == slug@),
{
    lemma_md();
}

/// The directory is to be made if and only if it is not there.
pub proof fn law_ensure_dir(store: &RecipeStore, dir_exists: bool, create: Option<String>)
    requires
        call_ensures(RecipeStore::ensure_dir, (store, dir_exists), create),
    ensures
        dir_exists ==> create is None,
        !dir_exists ==> (create matches Some(dir) && dir@ == store@.recipes_dir),
{
}

/// Loading the profile: not found where there is no file, the message where it
/// could not be read, else what its text reads as.
pub proof fn law_load_profile<F: Fn(&str) -> Result<ProfileFrontmatter, String>>(
    store: &RecipeStore,
    file: &FileState,
    parse: &F,
    r: Result<Profile, RecipeError>,
)
    requires
        call_ensures(RecipeStore::load_profile::<F>, (store, file, parse), r),
    ensures
        file is Missing ==> r matches Err(RecipeError::ProfileNotFound),
        file matches FileState::Found(source) ==> match source {
            Ok(text) => if split(text@).0.len() == 0 {
                forall|parsed: Result<ProfileFrontmatter, String>| #[trigger]
                    profile_reads_as(text@, store@.profile_path, parsed, r)
            } else {
                exists|yaml: &str, parsed: Result<ProfileFrontmatter, String>|
                    yaml@ == split(text@).0 && #[trigger] call_ensures(*parse, (yaml,), parsed)
                        && profile_reads_as(text@, store@.profile_path, parsed, r)
            },
            Err(reason) => r matches Err(RecipeError::Io(message)) && message@ == reason@,
        },
{
    let given = choose|given: Result<ProfileFields, Seq<char>>| #[trigger]
        parses_profile(*parse, file@, given) && crate::error::outcome(r) == profile_in(
            file@,
            store@.profile_path,
            given,
        );
    if let FileState::Found(source) = *file {
        assert(file@ == crate::store::FileView::Found(reply(source)));
        if let Ok(text) = source {
            if split(text@).0.len() > 0 {
                assert(to_parse(reply(source)) == Some(split(text@).0));
                let (yaml, parsed) = choose|
                    yaml: &str,
                    parsed: Result<ProfileFrontmatter, String>,
                |
                    yaml@ == split(text@).0 && #[trigger] call_ensures(*parse, (yaml,), parsed)
                        && reply(parsed) == given;
                assert(profile_reads_as(text@, store@.profile_path, parsed, r));
            }
        }
    }
}

/// Saving the profile: to its own file, with the prose to the letter behind the
/// YAML that was written of its fields, for its owner alone.
pub proof fn law_save_profile<G: Fn(&ProfileFrontmatter) -> Result<String, String>>(
    store: &RecipeStore,
    profile: &Profile,
    emit: &G,
    plan: WritePlan,
)
    requires
        call_ensures(RecipeStore::save_profile::<G>, (store, profile, emit), plan),
    ensures
        exists|fields: ProfileFrontmatter, yaml: Result<String, String>|
            #[trigger] call_ensures(*emit, (&fields,), yaml) && holds(
                plan.content@,
                yaml,
                profile.context@,
            ) && fields.name@ == profile.name@ && fields.role@ == profile.role@ && fields.company@
                == profile.company@ && fields.team@ == profile.team@ && fields.focus@
                == profile.focus@,
        plan.path@ == store@.profile_path,
        plan.create_dir is None,
        plan.mode == 0o600,
{
    let (fields, yaml) = choose|fields: ProfileFrontmatter, yaml: Result<String, String>|
        fields@ == profile@.fields && #[trigger] call_ensures(*emit, (&fields,), yaml) && plan@
            == profile_plan(store@.profile_path, profile@, reply(yaml));
    assert(plan@.create_dir == opt_text(plan.create_dir));
    lemma_holds(plan.content@, yaml, profile.context@);
}

/// A library with given paths has those paths, to the letter.
pub proof fn law_with_paths(
    recipes_dir: String,
    profile_path: String,
    store: RecipeStore,
    dir: &str,
    path: &str,
)
    requires
        call_ensures(RecipeStore::with_paths, (recipes_dir, profile_path), store),
        call_ensures(RecipeStore::recipes_dir, (&store,), dir),
        call_ensures(RecipeStore::profile_path, (&store,), path),
    ensures
        dir@ == recipes_dir@,
        path@ == profile_path@,
        store@.recipes_dir == recipes_dir@,
        store@.profile_path == profile_path@,
{
}

/// A library in a directory has its recipes in `recipes` and its profile in
/// `profile.md` there.
pub proof fn law_in_dir(base: &str, store: RecipeStore)
    requires
        call_ensures(RecipeStore::in_dir, (base,), store),
    ensures
        store@.recipes_dir == path_join(base@, "recipes"@),
        store@.profile_path == path_join(base@, "profile.md"@),
{
}

/// The directory of the library is `.minutes` in the home directory: the one that
/// the environment names, to the letter, else the one that was found, else `/tmp`.
pub proof fn law_minutes_dir_from(env_home: Option<String>, found: Option<String>, dir: String)
    requires
        call_ensures(minutes_dir_from, (env_home, found), dir),
    ensures
        dir@ == path_join(
            match (env_home, found) {
                (Some(home), _) => home@,
                (None, Some(home)) => home@,
                (None, None) => "/tmp"@,
            },
            ".minutes"@,
        ),
{
}

/// The directory of the library in its usual place: the home directory that the
/// environment names is taken, and only where it names none is one looked for.
pub proof fn law_default_minutes_dir(env_home: Option<String>, dir: String)
    requires
        call_ensures(default_minutes_dir, (env_home,), dir),
    ensures
        env_home matches Some(home) ==> dir@ == path_join(home@, ".minutes"@),
        env_home is None ==> exists|found: Option<Seq<char>>| #[trigger]
            home_says(found) && dir@ == path_join(
                match found {
                    Some(home) => home,
                    None => "/tmp"@,
                },
                ".minutes"@,
            ),
{
    let found = choose|found: Option<Seq<char>>|
        (env_home is None ==> home_says(found)) && dir@ == #[trigger] minutes_dir(
            opt_text(env_home),
            found,
        );
    if env_home is None {
        assert(home_says(found));
    }
}

/// The library in its usual place: `recipes` and `profile.md` in `.minutes` in the
/// home directory.
pub proof fn law_new_store(env_home: Option<String>, store: RecipeStore)
    requires
        call_ensures(RecipeStore::new, (env_home,), store),
    ensures
        env_home matches Some(home) ==> {
            &&& store@.recipes_dir == path_join(path_join(home@, ".minutes"@), "recipes"@)
            &&& store@.profile_path == path_join(path_join(home@, ".minutes"@), "profile.md"@)
        },
        env_home is None ==> exists|found: Option<Seq<char>>| #[trigger]
            home_says(found) && {
                let home = match found {
                    Some(home) => home,
                    None => "/tmp"@,
                };
                &&& store@.recipes_dir == path_join(path_join(home, ".minutes"@), "recipes"@)
                &&& store@.profile_path == path_join(path_join(home, ".minutes"@), "profile.md"@)
            },
{
    let found = choose|found: Option<Seq<char>>|
        (env_home is None ==> home_says(found)) && store@ == crate::store::store_in(
            #[trigger] minutes_dir(opt_text(env_home), found),
        );
    if env_home is None {
        assert(home_says(found));
    }
}

/// What is found is what the machine said.
pub proof fn law_find_home(found: Option<String>)
    requires
        call_ensures(find_home, (), found),
    ensures
        found matches Some(home) ==> home_says(Some(home@)),
        found is None ==> home_says(None),
{
}

/// The outcome of an operation on the disk is its own, its message to the letter.
pub proof fn law_io_outcome(done: Result<(), String>, r: Result<(), RecipeError>)
    requires
        call_ensures(io_outcome, (done,), r),
    ensures
        done is Ok ==> r is Ok,
        done matches Err(reason) ==> (r matches Err(RecipeError::Io(message)) && message@ == reason@),
{
}

} // verus!
