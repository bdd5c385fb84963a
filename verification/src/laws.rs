//! What holds of the library of recipes as a whole.

use vstd::prelude::*;

use crate::error::{parses_to, reply, ErrorView};
use crate::markdown::{framed, is_block, law_split_gives_back_framed, split};
use crate::path::{has_md_extension, is_absolute, path_join};
use crate::profile::{Profile, ProfileFields, ProfileFrontmatter, ProfileView};
use crate::recipe::{
    ascii_named_in_event, event_matches, is_slug, is_slug_char, named_in_event, parses_file, recipe_of,
    recipe_of_file, to_parse, written, FrontmatterView, Recipe, RecipeFrontmatter, RecipeView,
    TriggersView,
};
use crate::store::{
    file_name_of, file_of, parses_profile, profile_in, profile_plan, recipe_in, recipes_in,
    save_plan, EntryView, FileView, PlanView, RecipeStore,
};
use crate::text::{ascii_lowered, has_piece, lowercase, stands_at};

verus! {

/// A saved recipe reads back. The file that saving writes asks to have exactly
/// the YAML read that was written into it, and where that reads back as the
/// frontmatter, the recipe in the file is the one that was saved, its body to
/// the letter.
pub proof fn law_saved_recipe_reads_back(
    recipes_dir: Seq<char>,
    recipe: RecipeView,
    dir_exists: bool,
    yaml: Seq<char>,
)
    requires
        is_block(yaml),
        is_slug(recipe.frontmatter.slug),
    ensures
        ({
            let plan = save_plan(recipes_dir, recipe, dir_exists, Ok(yaml));
            &&& plan.path == file_of(recipes_dir, recipe.frontmatter.slug)
            &&& to_parse(Ok(plan.content)) == Some(yaml)
            &&& recipe_of_file(Ok(plan.content), plan.path, Ok(recipe.frontmatter)) == Ok::<
                RecipeView,
                ErrorView,
            >(RecipeView { path: plan.path, ..recipe })
        }),
{
    law_split_gives_back_framed(yaml, recipe.body);
}

/// Writing `value` and reading what was written gives it back: whatever `emit`
/// writes of it can stand between two fences, and whatever `parse` replies to
/// that text is the value.
pub open spec fn reads_back<
    T: View,
    F: Fn(&str) -> Result<T, String>,
    G: Fn(&T) -> Result<String, String>,
>(parse: F, emit: G, value: T) -> bool {
    forall|yaml: Result<String, String>| #[trigger]
        call_ensures(emit, (&value,), yaml) ==> {
            &&& yaml is Ok
            &&& is_block(written(reply(yaml)))
            &&& forall|parsed: Result<T::V, Seq<char>>| #[trigger]
                parses_to(parse, written(reply(yaml)), parsed) ==> parsed == Ok::<
                    T::V,
                    Seq<char>,
                >(value@)
        }
}

/// A recipe written as markdown reads back: what [`Recipe::from_str`] makes of
/// what [`Recipe::to_markdown`] wrote is the recipe, its body to the letter, at
/// the path it is read from.
pub proof fn law_markdown_reads_back<
    F: Fn(&str) -> Result<RecipeFrontmatter, String>,
    G: Fn(&RecipeFrontmatter) -> Result<String, String>,
>(
    parse: F,
    emit: G,
    recipe: Recipe,
    content: Seq<char>,
    path: Seq<char>,
    back: Result<RecipeView, ErrorView>,
)
    requires
        is_slug(recipe@.frontmatter.slug),
        reads_back(parse, emit, recipe.frontmatter),
        exists|yaml: Result<String, String>| #[trigger]
            call_ensures(emit, (&recipe.frontmatter,), yaml) && content == framed(
                written(reply(yaml)),
                recipe@.body,
            ),
        exists|parsed: Result<FrontmatterView, Seq<char>>| #[trigger]
            parses_file(parse, Ok(content), parsed) && back == recipe_of(content, path, parsed),
    ensures
        back == Ok::<RecipeView, ErrorView>(RecipeView { path, ..recipe@ }),
{
    let yaml = choose|yaml: Result<String, String>| #[trigger]
        call_ensures(emit, (&recipe.frontmatter,), yaml) && content == framed(
            written(reply(yaml)),
            recipe@.body,
        );
    law_split_gives_back_framed(written(reply(yaml)), recipe@.body);
}

/// A saved recipe is got again: what [`RecipeStore::get`] makes of the file that
/// [`RecipeStore::save`] wrote is the recipe, at the path of its slug whatever
/// its path was.
pub proof fn law_get_gives_back_saved<
    F: Fn(&str) -> Result<RecipeFrontmatter, String>,
    G: Fn(&RecipeFrontmatter) -> Result<String, String>,
>(
    parse: F,
    emit: G,
    store: RecipeStore,
    recipe: Recipe,
    dir_exists: bool,
    plan: PlanView,
    back: Result<RecipeView, ErrorView>,
)
    requires
        is_slug(recipe@.frontmatter.slug),
        reads_back(parse, emit, recipe.frontmatter),
        exists|yaml: Result<String, String>| #[trigger]
            call_ensures(emit, (&recipe.frontmatter,), yaml) && plan == save_plan(
                store@.recipes_dir,
                recipe@,
                dir_exists,
                reply(yaml),
            ),
        exists|parsed: Result<FrontmatterView, Seq<char>>| #[trigger]
            parses_file(parse, Ok(plan.content), parsed) && back == recipe_of_file(
                Ok(plan.content),
                file_of(store@.recipes_dir, recipe@.frontmatter.slug),
                parsed,
            ),
    ensures
        plan.path == file_of(store@.recipes_dir, recipe@.frontmatter.slug),
        back == Ok::<RecipeView, ErrorView>(RecipeView { path: plan.path, ..recipe@ }),
{
    law_markdown_reads_back(parse, emit, recipe, plan.content, plan.path, back);
}

/// A saved recipe is listed: its file is one of the directory's recipe files,
/// and reading the directory finds the recipe in it.
pub proof fn law_saved_recipe_is_listed(
    recipes_dir: Seq<char>,
    recipe: RecipeView,
    dir_exists: bool,
    yaml: Seq<char>,
)
    requires
        is_block(yaml),
        is_slug(recipe.frontmatter.slug),
    ensures
        ({
            let plan = save_plan(recipes_dir, recipe, dir_exists, Ok(yaml));
            let entry = EntryView {
                file_name: file_name_of(recipe.frontmatter.slug),
                source: Ok(plan.content),
            };
            &&& path_join(recipes_dir, entry.file_name) == plan.path
            &&& recipe_in(recipes_dir, entry, Ok(recipe.frontmatter)) == Some(
                RecipeView { path: plan.path, ..recipe },
            )
        }),
{
    law_saved_recipe_reads_back(recipes_dir, recipe, dir_exists, yaml);
    lemma_file_name_is_md(recipe.frontmatter.slug);
}

/// A file that is named after a slug is a recipe file.
proof fn lemma_file_name_is_md(slug: Seq<char>)
    requires
        slug.len() > 0,
    ensures
        has_md_extension(file_name_of(slug)),
{
    reveal_strlit(".md");
    let name = file_name_of(slug);
    assert(name.subrange(name.len() - 3, name.len() as int) =~= ".md"@);
}

/// Recipes with different slugs have different files, and those files lie in the
/// directory of the recipes.
pub proof fn law_slugs_have_their_own_files(recipes_dir: Seq<char>, a: Seq<char>, b: Seq<char>)
    requires
        is_slug(a),
        is_slug(b),
        a != b,
    ensures
        file_of(recipes_dir, a) != file_of(recipes_dir, b),
        stands_at(file_of(recipes_dir, a), recipes_dir, 0),
{
    let x = file_name_of(a);
    let y = file_name_of(b);
    assert(x[0] == a[0] && y[0] == b[0]);
    assert(!is_absolute(x) && !is_absolute(y));
    let base = if recipes_dir.len() == 0 || recipes_dir.last() == '/' {
        recipes_dir
    } else {
        recipes_dir.push('/')
    };
    let n = base.len() as int;
    let p = file_of(recipes_dir, a);
    let q = file_of(recipes_dir, b);
    assert(p == base + x && q == base + y);
    if p == q {
        assert(p.skip(n) =~= x && q.skip(n) =~= y);
        assert(x.len() == a.len() + ".md"@.len() && y.len() == b.len() + ".md"@.len());
        assert(x.take(a.len() as int) =~= a && y.take(b.len() as int) =~= b);
    }
    assert(p.subrange(0, recipes_dir.len() as int) =~= recipes_dir);
}

/// The file of a recipe is a direct child of the directory of the recipes: a slug
/// holds no `/`, no `\` and no `.`, so its file is the directory and one name.
pub proof fn law_file_is_direct_child(recipes_dir: Seq<char>, slug: Seq<char>)
    requires
        is_slug(slug),
    ensures
        forall|i: int|
            0 <= i < slug.len() ==> #[trigger] slug[i] != '/' && slug[i] != '\\' && slug[i] != '.',
        forall|i: int|
            0 <= i < file_name_of(slug).len() ==> #[trigger] file_name_of(slug)[i] != '/'
                && file_name_of(slug)[i] != '\\',
        file_of(recipes_dir, slug) == if recipes_dir.len() == 0 || recipes_dir.last() == '/' {
            recipes_dir + file_name_of(slug)
        } else {
            recipes_dir.push('/') + file_name_of(slug)
        },
{
    reveal_strlit(".md");
    let name = file_name_of(slug);
    assert forall|i: int| 0 <= i < slug.len() implies #[trigger] slug[i] != '/' && slug[i] != '\\'
        && slug[i] != '.' by {
        assert(is_slug_char(slug[i]));
    }
    assert forall|i: int| 0 <= i < name.len() implies #[trigger] name[i] != '/' && name[i]
        != '\\' by {
        if i < slug.len() {
            assert(name[i] == slug[i]);
        } else {
            assert(name[i] == ".md"@[i - slug.len()]);
        }
    }
    assert(name[0] == slug[0]);
}

/// Whatever is loaded has a slug that is one, and its body and path are those of
/// its file.
pub proof fn law_loaded_recipe_is_valid(
    source: Seq<char>,
    path: Seq<char>,
    parsed: Result<FrontmatterView, Seq<char>>,
    recipe: RecipeView,
)
    requires
        recipe_of(source, path, parsed) == Ok::<RecipeView, ErrorView>(recipe),
    ensures
        is_slug(recipe.frontmatter.slug),
        recipe.body == split(source).1,
        recipe.path == path,
        parsed == Ok::<FrontmatterView, Seq<char>>(recipe.frontmatter),
{
}

/// Every recipe of a directory has a slug that is one.
pub proof fn law_listed_slugs_are_valid(
    recipes_dir: Seq<char>,
    entries: Seq<EntryView>,
    parsed: Seq<Result<FrontmatterView, Seq<char>>>,
)
    requires
        parsed.len() == entries.len(),
    ensures
        forall|i: int|
            0 <= i < recipes_in(recipes_dir, entries, parsed).len() ==> is_slug(
                (#[trigger] recipes_in(recipes_dir, entries, parsed)[i]).frontmatter.slug,
            ),
    decreases entries.len(),
{
    if entries.len() > 0 {
        law_listed_slugs_are_valid(recipes_dir, entries.drop_last(), parsed.drop_last());
    }
}

/// A file that is no recipe does not disturb the others: the recipes of a
/// directory are the same without an entry in which there is none.
pub proof fn law_other_files_are_skipped(
    recipes_dir: Seq<char>,
    entries: Seq<EntryView>,
    parsed: Seq<Result<FrontmatterView, Seq<char>>>,
    at: int,
)
    requires
        parsed.len() == entries.len(),
        0 <= at < entries.len(),
        recipe_in(recipes_dir, entries[at], parsed[at]) is None,
    ensures
        recipes_in(recipes_dir, entries.remove(at), parsed.remove(at)) == recipes_in(
            recipes_dir,
            entries,
            parsed,
        ),
    decreases entries.len(),
{
    let last = entries.len() - 1;
    if at == last {
        assert(entries.remove(at) =~= entries.drop_last());
        assert(parsed.remove(at) =~= parsed.drop_last());
    } else {
        assert(entries.remove(at).drop_last() =~= entries.drop_last().remove(at));
        assert(parsed.remove(at).drop_last() =~= parsed.drop_last().remove(at));
        assert(entries.remove(at).last() == entries.last());
        assert(parsed.remove(at).last() == parsed.last());
        law_other_files_are_skipped(recipes_dir, entries.drop_last(), parsed.drop_last(), at);
    }
}

/// A saved profile reads back, its prose to the letter, where the YAML that was
/// written reads back as its fields.
pub proof fn law_saved_profile_reads_back(
    profile_path: Seq<char>,
    profile: ProfileView,
    yaml: Seq<char>,
)
    requires
        is_block(yaml),
    ensures
        ({
            let plan = profile_plan(profile_path, profile, Ok(yaml));
            &&& to_parse(Ok(plan.content)) == Some(yaml)
            &&& profile_in(FileView::Found(Ok(plan.content)), plan.path, Ok(profile.fields))
                == Ok::<ProfileView, ErrorView>(profile)
        }),
{
    law_split_gives_back_framed(yaml, profile.context);
}

/// A saved profile is loaded again: what [`RecipeStore::load_profile`] makes of the
/// file that [`RecipeStore::save_profile`] wrote is the profile, its prose to the
/// letter.
pub proof fn law_load_gives_back_saved_profile<
    F: Fn(&str) -> Result<ProfileFrontmatter, String>,
    G: Fn(&ProfileFrontmatter) -> Result<String, String>,
>(
    parse: F,
    emit: G,
    store: RecipeStore,
    profile: Profile,
    plan: PlanView,
    back: Result<ProfileView, ErrorView>,
)
    requires
        forall|fields: ProfileFrontmatter|
            fields@ == profile@.fields ==> #[trigger] reads_back(parse, emit, fields),
        exists|fields: ProfileFrontmatter, yaml: Result<String, String>|
            fields@ == profile@.fields && #[trigger] call_ensures(emit, (&fields,), yaml) && plan
                == profile_plan(store@.profile_path, profile@, reply(yaml)),
        exists|parsed: Result<ProfileFields, Seq<char>>| #[trigger]
            parses_profile(parse, FileView::Found(Ok(plan.content)), parsed) && back
                == profile_in(
                FileView::Found(Ok(plan.content)),
                store@.profile_path,
                parsed,
            ),
    ensures
        plan.path == store@.profile_path,
        back == Ok::<ProfileView, ErrorView>(profile@),
{
    let (fields, yaml) = choose|fields: ProfileFrontmatter, yaml: Result<String, String>|
        fields@ == profile@.fields && #[trigger] call_ensures(emit, (&fields,), yaml) && plan
            == profile_plan(store@.profile_path, profile@, reply(yaml));
    assert(reads_back(parse, emit, fields));
    law_split_gives_back_framed(written(reply(yaml)), profile@.context);
}

/// The case of letters does not count in titles, keywords and addresses: texts
/// with the same lower-case forms match alike.
pub proof fn law_case_does_not_count(
    triggers: TriggersView,
    title: Seq<char>,
    emails: Seq<Seq<char>>,
    other_triggers: TriggersView,
    other_title: Seq<char>,
    other_emails: Seq<Seq<char>>,
)
    requires
        lowercase(title) == lowercase(other_title),
        same_lower_case(emails, other_emails),
        same_lower_case(triggers.calendar_keywords, other_triggers.calendar_keywords),
        same_lower_case(triggers.attendees, other_triggers.attendees),
    ensures
        named_in_event(triggers, title, emails) == named_in_event(
            other_triggers,
            other_title,
            other_emails,
        ),
{
    let lower = |t: Seq<char>| lowercase(t);
    assert(emails.map_values(lower) =~= other_emails.map_values(lower));
    assert(triggers.calendar_keywords.map_values(lower)
        =~= other_triggers.calendar_keywords.map_values(lower));
    assert(triggers.attendees.map_values(lower) =~= other_triggers.attendees.map_values(lower));
}

/// Two lists have the same lower-case forms, one by one.
pub open spec fn same_lower_case(a: Seq<Seq<char>>, b: Seq<Seq<char>>) -> bool {
    &&& a.len() == b.len()
    &&& forall|i: int| 0 <= i < a.len() ==> lowercase(#[trigger] a[i]) == lowercase(b[i])
}

/// A title in which a keyword stands to the letter matches, the letters of ASCII
/// alone being taken in lower case. (Of other letters this does not hold: the
/// lower-case form of a sigma depends on whether a word ends behind it.)
pub proof fn law_keyword_in_title_matches(
    triggers: TriggersView,
    title: Seq<char>,
    emails: Seq<Seq<char>>,
    k: int,
)
    requires
        0 <= k < triggers.calendar_keywords.len(),
        has_piece(title, triggers.calendar_keywords[k]),
    ensures
        ascii_named_in_event(triggers, title, emails),
{
    let lower = |t: Seq<char>| ascii_lowered(t);
    let keyword = triggers.calendar_keywords[k];
    let at = choose|at: int| stands_at(title, keyword, at);
    assert(ascii_lowered(title).subrange(at, at + keyword.len()) =~= ascii_lowered(
        title.subrange(at, at + keyword.len()),
    ));
    assert(stands_at(ascii_lowered(title), ascii_lowered(keyword), at));
    assert(triggers.calendar_keywords.map_values(lower)[k] == ascii_lowered(keyword));
}

/// An attendee of the event whose address stands among the triggers to the letter
/// makes it match.
pub proof fn law_listed_attendee_matches(
    triggers: TriggersView,
    title: Seq<char>,
    emails: Seq<Seq<char>>,
    k: int,
)
    requires
        0 <= k < triggers.attendees.len(),
        emails.contains(triggers.attendees[k]),
    ensures
        forall|hit: bool| event_matches(triggers, title, emails, hit),
{
    let lower = |t: Seq<char>| lowercase(t);
    let address = triggers.attendees[k];
    let i = choose|i: int| 0 <= i < emails.len() && emails[i] == address;
    assert(emails.map_values(lower)[i] == lowercase(address));
    assert(triggers.attendees.map_values(lower)[k] == lowercase(address));
}

/// A pattern that matches the title makes the event match, whatever else the
/// triggers are.
pub proof fn law_pattern_matches(
    triggers: TriggersView,
    title: Seq<char>,
    emails: Seq<Seq<char>>,
)
    requires
        triggers.regex is Some,
    ensures
        event_matches(triggers, title, emails, true),
{
}

/// Without keywords, attendees and a pattern nothing matches.
pub proof fn law_no_triggers_no_match(
    triggers: TriggersView,
    title: Seq<char>,
    emails: Seq<Seq<char>>,
    hit: bool,
)
    requires
        triggers.calendar_keywords.len() == 0,
        triggers.attendees.len() == 0,
        triggers.regex is None,
    ensures
        !event_matches(triggers, title, emails, hit),
{
}

} // verus!
