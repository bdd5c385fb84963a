//! What listing recipes and choosing one of them is for.

use vstd::prelude::*;

use crate::listing::{
    choose_for_event, choose_with_hits, chosen, chosen_by, first_fallback, fits, is_choice, is_first_fallback,
    is_sorted_form, list_entry, list_recipes, listing_view, listing_views, match_entry, patterns_say,
    recipe_views, stably_ranked, stands_in, RecipeListing,
};
use crate::pattern::{is_plain, regex_matches, regex_says};
use crate::recipe::{Recipe, RecipeFrontmatter, RecipeView, TriggersView};
use crate::recipe_laws::{have_common, lemma_lowered_match, one_stands_in};
use crate::text::{lemma_text_less_total, lowercase, text_less, texts};
use crate::text_laws::{each_text, law_piece_stands_between};

verus! {

/// The view of a recipe shows each of its fields, to the letter.
pub proof fn law_view_of_recipe(recipe: Recipe, frontmatter: RecipeFrontmatter)
    requires
        frontmatter == recipe.frontmatter,
    ensures
        recipe@.body == recipe.body@,
        recipe@.path == recipe.path@,
        recipe@.frontmatter == frontmatter@,
        frontmatter@.name == frontmatter.name@,
        frontmatter@.slug == frontmatter.slug@,
        frontmatter@.version == frontmatter.version@,
        frontmatter@.description == frontmatter.description@,
        frontmatter@.priority == frontmatter.priority,
        frontmatter@.fallback == frontmatter.fallback,
        frontmatter.language matches Some(language) ==> frontmatter@.language == Some(language@),
        frontmatter.language is None ==> frontmatter@.language is None,
        frontmatter.triggers.regex matches Some(regex) ==> frontmatter@.triggers.regex == Some(regex@),
        frontmatter.triggers.regex is None ==> frontmatter@.triggers.regex is None,
        frontmatter@.triggers.calendar_keywords.len() == frontmatter.triggers.calendar_keywords@.len(),
        forall|i: int|
            0 <= i < frontmatter.triggers.calendar_keywords@.len()
                ==> #[trigger] frontmatter@.triggers.calendar_keywords[i]
                == frontmatter.triggers.calendar_keywords@[i]@,
        frontmatter@.triggers.attendees.len() == frontmatter.triggers.attendees@.len(),
        forall|i: int|
            0 <= i < frontmatter.triggers.attendees@.len()
                ==> #[trigger] frontmatter@.triggers.attendees[i]
                == frontmatter.triggers.attendees@[i]@,
{
}

/// Recipes, each with its texts.
pub open spec fn each_view(recipes: Seq<Recipe>) -> Seq<RecipeView> {
    Seq::new(recipes.len(), |i: int| recipes[i]@)
}

/// A listing shows a recipe: its own slug, name, description, priority and
/// version, and these flags.
pub open spec fn shows(
    listing: RecipeListing,
    recipe: RecipeView,
    has_triggers: bool,
    is_fallback: bool,
) -> bool {
    &&& listing.slug@ == recipe.frontmatter.slug
    &&& listing.name@ == recipe.frontmatter.name
    &&& listing.description@ == recipe.frontmatter.description
    &&& listing.priority == recipe.frontmatter.priority
    &&& listing.version@ == recipe.frontmatter.version
    &&& listing.has_triggers == has_triggers
    &&& listing.is_fallback == is_fallback
}

/// A recipe has a keyword, an attendee or a pattern.
pub open spec fn has_any_trigger(triggers: TriggersView) -> bool {
    triggers.calendar_keywords.len() > 0 || triggers.attendees.len() > 0 || triggers.regex is Some
}

/// A list shows these recipes: each once and nothing else, `order[i]` being the
/// one at place `i`. Of two, the first has the higher priority, or the same and
/// the lesser slug, or both the same and was the earlier.
pub open spec fn is_list_of(
    list: Seq<RecipeListing>,
    recipes: Seq<RecipeView>,
    order: Seq<int>,
) -> bool {
    &&& list.len() == recipes.len()
    &&& order.len() == recipes.len()
    &&& forall|k: int| 0 <= k < recipes.len() ==> #[trigger] order.contains(k)
    &&& forall|i: int| 0 <= i < order.len() ==> 0 <= #[trigger] order[i] < recipes.len()
    &&& forall|i: int, j: int|
        0 <= i < j < order.len() ==> #[trigger] order[i] != #[trigger] order[j]
    &&& forall|i: int|
        #![trigger list[i]]
        0 <= i < list.len() ==> shows(
            list[i],
            recipes[order[i]],
            has_any_trigger(recipes[order[i]].frontmatter.triggers),
            recipes[order[i]].frontmatter.fallback,
        )
    &&& forall|i: int, j: int|
        #![trigger list[i], list[j]]
        0 <= i < j < list.len() ==> {
            ||| list[i].priority > list[j].priority
            ||| list[i].priority == list[j].priority && text_less(list[i].slug@, list[j].slug@)
            ||| list[i].priority == list[j].priority && list[i].slug@ == list[j].slug@ && order[i]
                < order[j]
        }
}

/// A sorted list of the entries of recipes is a list of the recipes.
pub proof fn lemma_is_list_of(list: Seq<RecipeListing>, recipes: Seq<RecipeView>)
    requires
        is_sorted_form(recipes.map_values(|r: RecipeView| list_entry(r)), listing_views(list)),
    ensures
        exists|order: Seq<int>| is_list_of(list, recipes, order),
{
    let src = recipes.map_values(|r: RecipeView| list_entry(r));
    let out = listing_views(list);
    let order = choose|order: Seq<int>| stably_ranked(src, out, order);
    assert(src.len() == recipes.len() && out.len() == list.len());
    assert forall|i: int| #![trigger list[i]] 0 <= i < list.len() implies shows(
        list[i],
        recipes[order[i]],
        has_any_trigger(recipes[order[i]].frontmatter.triggers),
        recipes[order[i]].frontmatter.fallback,
    ) by {
        assert(out[i] == list[i]@);
        assert(out[i] == src[order[i]]);
        assert(src[order[i]] == list_entry(recipes[order[i]]));
    }
    assert forall|i: int, j: int|
        #![trigger list[i], list[j]]
        0 <= i < j < list.len() implies {
        ||| list[i].priority > list[j].priority
        ||| list[i].priority == list[j].priority && text_less(list[i].slug@, list[j].slug@)
        ||| list[i].priority == list[j].priority && list[i].slug@ == list[j].slug@ && order[i]
            < order[j]
    } by {
        assert(out[i] == list[i]@ && out[j] == list[j]@);
        assert(out[i] == src[order[i]] && out[j] == src[order[j]]);
        assert(crate::listing::comes_first(src, order[i], order[j]));
        lemma_text_less_total(list[i].slug@, list[j].slug@);
    }
    assert(is_list_of(list, recipes, order));
}

/// Listing recipes: all of them, each shown as it is, in order.
pub proof fn law_list_recipes(recipes: &Vec<Recipe>, list: Vec<RecipeListing>)
    requires
        call_ensures(list_recipes, (recipes,), list),
    ensures
        exists|order: Seq<int>|
            is_list_of(list@, each_view(recipes@), order),
{
    assert(recipe_views(recipes@) =~= each_view(recipes@));
    lemma_is_list_of(list@, recipe_views(recipes@));
}

/// What is found is the first fallback among these recipes, shown as one, and
/// nothing is found only where there is none.
pub open spec fn is_stand_in(recipes: Seq<RecipeView>, found: Option<RecipeListing>) -> bool {
    match found {
        Some(listing) => exists|k: int|
            #![trigger recipes[k]]
            {
                &&& 0 <= k < recipes.len()
                &&& recipes[k].frontmatter.fallback
                &&& forall|j: int| 0 <= j < k ==> !(#[trigger] recipes[j]).frontmatter.fallback
                &&& shows(listing, recipes[k], false, true)
            },
        None => forall|j: int|
            0 <= j < recipes.len() ==> !(#[trigger] recipes[j]).frontmatter.fallback,
    }
}

/// What stands in is the first fallback.
pub proof fn lemma_is_stand_in(recipes: Seq<RecipeView>, found: Option<RecipeListing>)
    requires
        stands_in(recipes, listing_view(found)),
    ensures
        is_stand_in(recipes, found),
{
    if let Some(listing) = found {
        let k = choose|k: int| #[trigger]
            is_first_fallback(recipes, k) && listing@ == crate::listing::fallback_entry(recipes[k]);
        assert(shows(listing, recipes[k], false, true));
    }
}

/// Looking for what stands in among these recipes.
pub proof fn law_first_fallback(recipes: &Vec<Recipe>, found: Option<RecipeListing>)
    requires
        call_ensures(first_fallback, (recipes,), found),
    ensures
        is_stand_in(each_view(recipes@), found),
{
    assert(recipe_views(recipes@) =~= each_view(recipes@));
    lemma_is_stand_in(recipe_views(recipes@), found);
}

/// A recipe is for an event: one of its keywords, in lower case, stands in the
/// lower-case title, or one of its attendees equals, in lower case, one of the
/// event's, or it has a pattern and that hits.
pub open spec fn is_for(
    triggers: TriggersView,
    title: Seq<char>,
    emails: Seq<Seq<char>>,
    hit: bool,
) -> bool {
    ||| one_stands_in(
        lowercase(title),
        Seq::new(
            triggers.calendar_keywords.len(),
            |k: int| lowercase(triggers.calendar_keywords[k]),
        ),
    )
    ||| have_common(
        Seq::new(triggers.attendees.len(), |k: int| lowercase(triggers.attendees[k])),
        Seq::new(emails.len(), |k: int| lowercase(emails[k])),
    )
    ||| triggers.regex is Some && hit
}

/// What is found for an event among these recipes. `hits[k]` is whether the
/// pattern of recipe `k` hits. Where any recipe is for the event, it is one that
/// is, and of those the one with the highest priority, the last where several
/// have it. Else it is what stands in.
pub open spec fn picks(
    recipes: Seq<RecipeView>,
    title: Seq<char>,
    emails: Seq<Seq<char>>,
    hits: Seq<bool>,
    found: Option<RecipeListing>,
) -> bool {
    if exists|k: int|
        0 <= k < recipes.len() && is_for(
            (#[trigger] recipes[k]).frontmatter.triggers,
            title,
            emails,
            hits[k],
        ) {
        exists|k: int|
            #![trigger recipes[k]]
            {
                &&& 0 <= k < recipes.len()
                &&& is_for(recipes[k].frontmatter.triggers, title, emails, hits[k])
                &&& forall|j: int|
                    0 <= j < recipes.len() && is_for(
                        (#[trigger] recipes[j]).frontmatter.triggers,
                        title,
                        emails,
                        hits[j],
                    ) ==> recipes[j].frontmatter.priority < recipes[k].frontmatter.priority || (
                    recipes[j].frontmatter.priority == recipes[k].frontmatter.priority && j <= k)
                &&& found matches Some(listing) && shows(
                    listing,
                    recipes[k],
                    true,
                    recipes[k].frontmatter.fallback,
                )
            }
    } else {
        is_stand_in(recipes, found)
    }
}

/// A recipe matches an event if and only if it is for it.
proof fn lemma_is_for(triggers: TriggersView, title: Seq<char>, emails: Seq<Seq<char>>, hit: bool)
    ensures
        crate::recipe::event_matches(triggers, title, emails, hit) == is_for(
            triggers,
            title,
            emails,
            hit,
        ),
{
    let lower = |t: Seq<char>| lowercase(t);
    let keywords = Seq::new(
        triggers.calendar_keywords.len(),
        |k: int| lowercase(triggers.calendar_keywords[k]),
    );
    let attendees = Seq::new(triggers.attendees.len(), |k: int| lowercase(triggers.attendees[k]));
    let addresses = Seq::new(emails.len(), |k: int| lowercase(emails[k]));
    assert(triggers.calendar_keywords.map_values(lower) =~= keywords);
    assert(triggers.attendees.map_values(lower) =~= attendees);
    assert(emails.map_values(lower) =~= addresses);
    lemma_lowered_match(lowercase(title), keywords, attendees, addresses);
}

/// What is chosen is what is picked.
pub proof fn lemma_picks(
    recipes: Seq<RecipeView>,
    title: Seq<char>,
    emails: Seq<Seq<char>>,
    hits: Seq<bool>,
    found: Option<RecipeListing>,
)
    requires
        chosen(recipes, title, emails, hits, listing_view(found)),
    ensures
        picks(recipes, title, emails, hits, found),
{
    let fit = fits(recipes, title, emails, hits);
    assert forall|k: int| 0 <= k < recipes.len() implies #[trigger] fit[k] == is_for(
        recipes[k].frontmatter.triggers,
        title,
        emails,
        hits[k],
    ) by {
        lemma_is_for(recipes[k].frontmatter.triggers, title, emails, hits[k]);
    }
    if exists|k: int|
        0 <= k < recipes.len() && is_for(
            (#[trigger] recipes[k]).frontmatter.triggers,
            title,
            emails,
            hits[k],
        ) {
        let w = choose|k: int|
            0 <= k < recipes.len() && is_for(
                (#[trigger] recipes[k]).frontmatter.triggers,
                title,
                emails,
                hits[k],
            );
        assert(fit[w]);
        let k = choose|k: int| #[trigger]
            is_choice(recipes, fit, k) && listing_view(found) == Some(match_entry(recipes[k]));
        assert(fit[k]);
        assert forall|j: int|
            0 <= j < recipes.len() && is_for(
                (#[trigger] recipes[j]).frontmatter.triggers,
                title,
                emails,
                hits[j],
            ) implies recipes[j].frontmatter.priority < recipes[k].frontmatter.priority || (
        recipes[j].frontmatter.priority == recipes[k].frontmatter.priority && j <= k) by {
            assert(fit[j]);
        }
        assert(found matches Some(listing) && shows(
            listing,
            recipes[k],
            true,
            recipes[k].frontmatter.fallback,
        ));
        let chosen_recipe = recipes[k];
    } else {
        assert forall|j: int| 0 <= j < recipes.len() implies !fit[j] by {
            let r = recipes[j];
            assert(fit[j] == is_for(recipes[j].frontmatter.triggers, title, emails, hits[j]));
        }
        lemma_is_stand_in(recipes, found);
    }
}

/// Choosing among these recipes, their patterns having been tried.
pub proof fn law_choose_with_hits(
    recipes: &Vec<Recipe>,
    title: &str,
    attendee_emails: &[String],
    hits: &Vec<bool>,
    found: Option<RecipeListing>,
)
    requires
        hits@.len() == recipes@.len(),
        call_ensures(choose_with_hits, (recipes, title, attendee_emails, hits), found),
    ensures
        picks(
            each_view(recipes@),
            title@,
            each_text(attendee_emails@),
            hits@,
            found,
        ),
{
    assert(recipe_views(recipes@) =~= each_view(recipes@));
    assert(texts(attendee_emails@) =~= each_text(attendee_emails@));
    lemma_picks(
        recipe_views(recipes@),
        title@,
        texts(attendee_emails@),
        hits@,
        found,
    );
}

/// The pattern of each recipe was tried on the title: there is a hit if and only
/// if there is a pattern and the reply was that it matches. So a hit means a
/// match, and a plain pattern hits if and only if it stands in the title.
pub open spec fn are_tried(recipes: Seq<RecipeView>, title: Seq<char>, hits: Seq<bool>) -> bool {
    &&& hits.len() == recipes.len()
    &&& forall|k: int|
        0 <= k < recipes.len() ==> match (#[trigger] recipes[k]).frontmatter.triggers.regex {
            Some(regex) => {
                &&& exists|said: Option<bool>| #[trigger]
                    regex_says(regex, title, said) && (hits[k] <==> said == Some(true))
                &&& hits[k] ==> regex_matches(regex, title)
                &&& is_plain(regex) ==> (hits[k] <==> exists|a: Seq<char>, b: Seq<char>|
                    title == #[trigger] (a + regex + b))
            },
            None => !hits[k],
        }
}

/// What the patterns say is what trying them gave.
pub proof fn lemma_are_tried(recipes: Seq<RecipeView>, title: Seq<char>, hits: Seq<bool>)
    requires
        patterns_say(recipes, title, hits),
    ensures
        are_tried(recipes, title, hits),
{
    assert forall|k: int| 0 <= k < recipes.len() implies match (
    #[trigger] recipes[k]).frontmatter.triggers.regex {
        Some(regex) => {
            &&& exists|said: Option<bool>| #[trigger]
                regex_says(regex, title, said) && (hits[k] <==> said == Some(true))
            &&& hits[k] ==> regex_matches(regex, title)
            &&& is_plain(regex) ==> (hits[k] <==> exists|a: Seq<char>, b: Seq<char>|
                title == #[trigger] (a + regex + b))
        },
        None => !hits[k],
    } by {
        if let Some(regex) = recipes[k].frontmatter.triggers.regex {
            law_piece_stands_between(title, regex);
        }
    }
}

/// Choosing among these recipes for an event.
pub proof fn law_choose_for_event(
    recipes: &Vec<Recipe>,
    title: &str,
    attendee_emails: &[String],
    found: Option<RecipeListing>,
)
    requires
        call_ensures(choose_for_event, (recipes, title, attendee_emails), found),
    ensures
        exists|hits: Seq<bool>|
            are_tried(each_view(recipes@), title@, hits) && picks(
                each_view(recipes@),
                title@,
                each_text(attendee_emails@),
                hits,
                found,
            ),
{
    let all = recipe_views(recipes@);
    let emails = texts(attendee_emails@);
    assert(all =~= each_view(recipes@));
    assert(emails =~= each_text(attendee_emails@));
    let hits = choose|hits: Seq<bool>| #[trigger]
        patterns_say(all, title@, hits) && chosen(all, title@, emails, hits, listing_view(found))
            && crate::listing::ascii_chosen(all, title@, emails, hits, listing_view(found));
    lemma_are_tried(all, title@, hits);
    lemma_picks(all, title@, emails, hits, found);
}

/// One more recipe: if it fits and none that fits has a higher priority, it is
/// chosen. If it does not fit, or one that fits has a higher priority, what was
/// chosen because it fits stays. Where none fits, what stood in stays, and the new
/// one stands in only where nothing did and it is a fallback.
pub proof fn law_choice_with_one_more(
    recipes: Seq<RecipeView>,
    fits: Seq<bool>,
    found: Option<RecipeListing>,
    recipe: RecipeView,
    fit: bool,
    then_found: Option<RecipeListing>,
)
    requires
        fits.len() == recipes.len(),
        chosen_by(recipes, fits, listing_view(found)),
        chosen_by(recipes.push(recipe), fits.push(fit), listing_view(then_found)),
    ensures
        fit && (forall|j: int|
            0 <= j < recipes.len() && #[trigger] fits[j] ==> recipes[j].frontmatter.priority
                <= recipe.frontmatter.priority) ==> (then_found matches Some(listing) && shows(
            listing,
            recipe,
            true,
            recipe.frontmatter.fallback,
        )),
        (exists|j: int|
            0 <= j < recipes.len() && #[trigger] fits[j] && (!fit || recipes[j].frontmatter.priority
                > recipe.frontmatter.priority)) ==> listing_view(then_found) == listing_view(found),
        !fit && (forall|j: int| 0 <= j < recipes.len() ==> !#[trigger] fits[j]) ==> {
            &&& found is Some ==> listing_view(then_found) == listing_view(found)
            &&& found is None && recipe.frontmatter.fallback ==> (then_found matches Some(listing)
                && shows(listing, recipe, false, true))
            &&& found is None && !recipe.frontmatter.fallback ==> then_found is None
        },
{
    let more = recipes.push(recipe);
    let now = fits.push(fit);
    let n = recipes.len() as int;
    assert(forall|j: int| 0 <= j < n ==> #[trigger] more[j] == recipes[j]);
    assert(forall|j: int| 0 <= j < n ==> #[trigger] now[j] == fits[j]);
    assert(more[n] == recipe && now[n] == fit);
    if exists|j: int| 0 <= j < n && fits[j] {
        let w = choose|j: int| 0 <= j < n && fits[j];
        assert(now[w]);
        let a = choose|k: int| #[trigger]
            is_choice(recipes, fits, k) && listing_view(found) == Some(match_entry(recipes[k]));
        let b = choose|k: int| #[trigger]
            is_choice(more, now, k) && listing_view(then_found) == Some(match_entry(more[k]));
        assert(fits[a] && now[a] && now[b]);
        if b < n {
            assert(fits[b]);
        }
        if fit && (forall|j: int|
            0 <= j < n && #[trigger] fits[j] ==> recipes[j].frontmatter.priority
                <= recipe.frontmatter.priority) {
            assert(now[n]);
            assert(b == n);
        }
        if exists|j: int|
            0 <= j < n && #[trigger] fits[j] && (!fit || recipes[j].frontmatter.priority
                > recipe.frontmatter.priority) {
            let j = choose|j: int|
                0 <= j < n && #[trigger] fits[j] && (!fit || recipes[j].frontmatter.priority
                    > recipe.frontmatter.priority);
            assert(now[j]);
            assert(b < n);
            assert(a == b);
        }
    } else if fit {
        assert(now[n]);
        let b = choose|k: int| #[trigger]
            is_choice(more, now, k) && listing_view(then_found) == Some(match_entry(more[k]));
        assert(now[b]);
        if b < n {
            assert(fits[b]);
        }
    } else {
        assert(forall|j: int| 0 <= j < more.len() ==> !now[j]);
        lemma_is_stand_in(recipes, found);
        lemma_is_stand_in(more, then_found);
        match found {
            Some(_) => {
                let a = choose|k: int| #[trigger]
                    is_first_fallback(recipes, k) && listing_view(found) == Some(
                        crate::listing::fallback_entry(recipes[k]),
                    );
                assert(more[a].frontmatter.fallback);
                assert(then_found is Some);
                let b = choose|k: int| #[trigger]
                    is_first_fallback(more, k) && listing_view(then_found) == Some(
                        crate::listing::fallback_entry(more[k]),
                    );
                if b < n {
                    assert(more[b] == recipes[b]);
                }
                assert(a == b);
            },
            None => {
                if then_found is Some {
                    let b = choose|k: int| #[trigger]
                        is_first_fallback(more, k) && listing_view(then_found) == Some(
                            crate::listing::fallback_entry(more[k]),
                        );
                    if b < n {
                        assert(!recipes[b].frontmatter.fallback);
                    }
                    assert(b == n);
                }
            },
        }
    }
}

} // verus!
