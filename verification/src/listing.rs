//! Listings: what is shown of the recipes of a library, and which recipe is
//! chosen for an event.

use vstd::prelude::*;

use crate::recipe::{
    ascii_event, ascii_named_in_event, event_matches, pattern_says, Recipe, RecipeView,
};
use crate::text::{
    lemma_text_less_total, lemma_text_less_transitive, text_before, text_less, texts,
};

verus! {

/// A recipe as the list of recipes shows it.
#[derive(Debug, Clone)]
pub struct RecipeListing {
    pub slug: String,
    pub name: String,
    pub description: String,
    pub has_triggers: bool,
    pub is_fallback: bool,
    pub priority: i32,
    pub version: String,
}

/// [`RecipeListing`], with its texts.
#[verifier::ext_equal]
pub struct ListingView {
    pub slug: Seq<char>,
    pub name: Seq<char>,
    pub description: Seq<char>,
    pub has_triggers: bool,
    pub is_fallback: bool,
    pub priority: i32,
    pub version: Seq<char>,
}

impl View for RecipeListing {
    type V = ListingView;

    open spec fn view(&self) -> ListingView {
        ListingView {
            slug: self.slug@,
            name: self.name@,
            description: self.description@,
            has_triggers: self.has_triggers,
            is_fallback: self.is_fallback,
            priority: self.priority,
            version: self.version@,
        }
    }
}

/// What is shown of a recipe, with these two flags.
pub open spec fn shown(recipe: RecipeView, has_triggers: bool, is_fallback: bool) -> ListingView {
    ListingView {
        slug: recipe.frontmatter.slug,
        name: recipe.frontmatter.name,
        description: recipe.frontmatter.description,
        has_triggers,
        is_fallback,
        priority: recipe.frontmatter.priority,
        version: recipe.frontmatter.version,
    }
}

/// A recipe has a trigger of some sort.
pub open spec fn has_triggers(recipe: RecipeView) -> bool {
    let triggers = recipe.frontmatter.triggers;
    triggers.calendar_keywords.len() > 0 || triggers.attendees.len() > 0 || triggers.regex is Some
}

/// A recipe in the list of all recipes.
pub open spec fn list_entry(recipe: RecipeView) -> ListingView {
    shown(recipe, has_triggers(recipe), recipe.frontmatter.fallback)
}

/// A recipe that was chosen because it matches.
pub open spec fn match_entry(recipe: RecipeView) -> ListingView {
    shown(recipe, true, recipe.frontmatter.fallback)
}

/// A recipe that stands in because none matches.
pub open spec fn fallback_entry(recipe: RecipeView) -> ListingView {
    shown(recipe, false, true)
}

/// The recipes of a list, with their texts.
pub open spec fn recipe_views(recipes: Seq<Recipe>) -> Seq<RecipeView> {
    recipes.map_values(|r: Recipe| r@)
}

/// The listings of a list, with their texts.
pub open spec fn listing_views(listings: Seq<RecipeListing>) -> Seq<ListingView> {
    listings.map_values(|l: RecipeListing| l@)
}

/// Show a recipe, with these two flags.
fn show(recipe: &Recipe, has_triggers: bool, is_fallback: bool) -> (listing: RecipeListing)
    ensures
        listing@ == shown(recipe@, has_triggers, is_fallback),
{
    RecipeListing {
        slug: recipe.frontmatter.slug.clone(),
        name: recipe.frontmatter.name.clone(),
        description: recipe.frontmatter.description.clone(),
        has_triggers,
        is_fallback,
        priority: recipe.frontmatter.priority,
        version: recipe.frontmatter.version.clone(),
    }
}

/// `a` comes before `b` in the list: by a higher priority, or at the same
/// priority by a lesser slug.
pub open spec fn ranks_before(a: ListingView, b: ListingView) -> bool {
    a.priority > b.priority || (a.priority == b.priority && text_less(a.slug, b.slug))
}

/// Whether `a` comes before `b` in the list.
fn before(a: &RecipeListing, b: &RecipeListing) -> (r: bool)
    ensures
        r == ranks_before(a@, b@),
{
    a.priority > b.priority || (a.priority == b.priority && text_before(
        a.slug.as_str(),
        b.slug.as_str(),
    ))
}

/// `out` is `src` in the order `order`: each place of `src` once.
pub open spec fn reorders<T>(src: Seq<T>, out: Seq<T>, order: Seq<int>) -> bool {
    &&& order.len() == src.len()
    &&& out.len() == src.len()
    &&& forall|i: int| 0 <= i < order.len() ==> 0 <= #[trigger] order[i] < src.len()
    &&& forall|i: int, j: int|
        0 <= i < j < order.len() ==> #[trigger] order[i] != #[trigger] order[j]
    &&& forall|k: int| 0 <= k < src.len() ==> #[trigger] order.contains(k)
    &&& forall|i: int| 0 <= i < out.len() ==> #[trigger] out[i] == src[order[i]]
}

/// `out`, which is `src` in the order `order`, is sorted, and what ranks alike
/// in it keeps the order it had.
pub open spec fn stably_ranked(
    src: Seq<ListingView>,
    out: Seq<ListingView>,
    order: Seq<int>,
) -> bool {
    &&& reorders(src, out, order)
    &&& forall|i: int, j: int|
        0 <= i < j < order.len() ==> comes_first(src, #[trigger] order[i], #[trigger] order[j])
}

/// The entry at place `a` comes first: it ranks before the one at `b`, or they
/// rank alike and `a` is the earlier place.
pub open spec fn comes_first(src: Seq<ListingView>, a: int, b: int) -> bool {
    ranks_before(src[a], src[b]) || (!ranks_before(src[b], src[a]) && a < b)
}

/// `out` is `src` sorted: the higher priority first, then the lesser slug, and
/// what ranks alike in the order it had.
pub open spec fn is_sorted_form(src: Seq<ListingView>, out: Seq<ListingView>) -> bool {
    exists|order: Seq<int>| stably_ranked(src, out, order)
}

/// What ranks before `b` ranks before all that `b` does not come behind.
proof fn lemma_ranks_before(a: ListingView, b: ListingView, c: ListingView)
    requires
        ranks_before(a, b),
        !ranks_before(c, b),
    ensures
        ranks_before(a, c),
{
    lemma_text_less_total(b.slug, c.slug);
    if a.priority == b.priority && b.priority == c.priority && b.slug != c.slug {
        lemma_text_less_transitive(a.slug, b.slug, c.slug);
    }
}

/// Putting the next entry of `src` into a sorted list, behind all that it does
/// not rank before, leaves the list sorted.
proof fn lemma_insert_ranked(
    src: Seq<ListingView>,
    n: int,
    out: Seq<ListingView>,
    order: Seq<int>,
    at: int,
)
    requires
        0 <= n < src.len(),
        stably_ranked(src.take(n), out, order),
        0 <= at <= n,
        forall|i: int| 0 <= i < at ==> !ranks_before(src[n], #[trigger] out[i]),
        forall|i: int| at <= i < n ==> ranks_before(src[n], #[trigger] out[i]),
    ensures
        stably_ranked(src.take(n + 1), out.insert(at, src[n]), order.insert(at, n)),
{
    let old_src = src.take(n);
    let new_src = src.take(n + 1);
    let new_out = out.insert(at, src[n]);
    let new_order = order.insert(at, n);
    assert(forall|k: int| 0 <= k < n ==> #[trigger] new_src[k] == old_src[k]);
    assert(new_src[n] == src[n]);
    assert forall|k: int| 0 <= k < new_src.len() implies #[trigger] new_order.contains(k) by {
        if k == n {
            assert(new_order[at] == n);
        } else {
            assert(order.contains(k));
            let i = choose|i: int| 0 <= i < order.len() && order[i] == k;
            if i < at {
                assert(new_order[i] == k);
            } else {
                assert(new_order[i + 1] == k);
            }
        }
    }
    assert forall|i: int| 0 <= i < new_out.len() implies #[trigger] new_out[i]
        == new_src[new_order[i]] by {
        if i < at {
            assert(new_out[i] == out[i] && new_order[i] == order[i]);
        } else if i > at {
            assert(new_out[i] == out[i - 1] && new_order[i] == order[i - 1]);
        }
    }
    assert forall|i: int, j: int| 0 <= i < j < new_order.len() implies comes_first(
        new_src,
        #[trigger] new_order[i],
        #[trigger] new_order[j],
    ) && new_order[i] != new_order[j] by {
        let a = if i <= at {
            i
        } else {
            i - 1
        };
        let b = if j <= at {
            j
        } else {
            j - 1
        };
        if i == at {
            assert(new_order[j] == order[b]);
            assert(out[b] == old_src[order[b]]);
        } else if j == at {
            assert(new_order[i] == order[a]);
            assert(out[a] == old_src[order[a]]);
        } else {
            assert(new_order[i] == order[a] && new_order[j] == order[b]);
            assert(comes_first(old_src, order[a], order[b]));
        }
    }
}

/// Put an entry into a sorted list, behind all that it does not rank before.
fn insert_ranked(
    list: &mut Vec<RecipeListing>,
    entry: RecipeListing,
    Ghost(src): Ghost<Seq<ListingView>>,
    Ghost(order): Ghost<Seq<int>>,
) -> (at: Ghost<int>)
    requires
        old(list)@.len() < src.len(),
        src[old(list)@.len() as int] == entry@,
        stably_ranked(src.take(old(list)@.len() as int), listing_views(old(list)@), order),
    ensures
        final(list)@.len() == old(list)@.len() + 1,
        stably_ranked(
            src.take(final(list)@.len() as int),
            listing_views(final(list)@),
            order.insert(at@, old(list)@.len() as int),
        ),
{
    let ghost out = listing_views(list@);
    let ghost n = list@.len() as int;
    let mut at: usize = list.len();
    while at > 0 && before(&entry, &list[at - 1])
        invariant
            out == listing_views(list@),
            at <= list@.len() == n,
            forall|i: int| at <= i < n ==> ranks_before(entry@, #[trigger] out[i]),
        decreases at,
    {
        assert(out[at - 1] == list@[at - 1]@);
        at -= 1;
    }
    proof {
        assert forall|i: int| 0 <= i < at implies !ranks_before(src[n], #[trigger] out[i]) by {
            let last = at - 1;
            assert(out[last] == list@[last]@);
            if i < last && ranks_before(entry@, out[i]) {
                assert(comes_first(src.take(n), order[i], order[last]));
                if ranks_before(out[last], out[i]) {
                    lemma_text_less_total(out[last].slug, out[i].slug);
                }
                lemma_ranks_before(entry@, out[i], out[last]);
            }
        }
        lemma_insert_ranked(src, n, out, order, at as int);
    }
    list.insert(at, entry);
    assert(listing_views(list@) =~= out.insert(at as int, src[n]));
    Ghost(at as int)
}

/// The list of these recipes: each with its own flags, the higher priority first,
/// then the lesser slug.
pub fn list_recipes(recipes: &Vec<Recipe>) -> (list: Vec<RecipeListing>)
    ensures
        is_sorted_form(
            recipe_views(recipes@).map_values(|r: RecipeView| list_entry(r)),
            listing_views(list@),
        ),
{
    let ghost src = recipe_views(recipes@).map_values(|r: RecipeView| list_entry(r));
    let ghost mut order: Seq<int> = seq![];
    let mut list: Vec<RecipeListing> = Vec::new();
    let mut i: usize = 0;
    assert(stably_ranked(src.take(0), listing_views(list@), order));
    while i < recipes.len()
        invariant
            src == recipe_views(recipes@).map_values(|r: RecipeView| list_entry(r)),
            i <= recipes@.len(),
            list@.len() == i,
            stably_ranked(src.take(i as int), listing_views(list@), order),
        decreases recipes@.len() - i,
    {
        let recipe = &recipes[i];
        let triggers = &recipe.frontmatter.triggers;
        let any = triggers.calendar_keywords.len() > 0 || triggers.attendees.len() > 0
            || triggers.regex.is_some();
        let entry = show(recipe, any, recipe.frontmatter.fallback);
        assert(entry@ == src[i as int]);
        let at = insert_ranked(&mut list, entry, Ghost(src), Ghost(order));
        proof {
            order = order.insert(at@, i as int);
        }
        i += 1;
    }
    assert(src.take(src.len() as int) == src);
    list
}

/// There is one sorted form: two lists that are both the sorted form of `src`
/// are the same.
pub proof fn law_sorted_form_is_one(
    src: Seq<ListingView>,
    first: Seq<ListingView>,
    second: Seq<ListingView>,
)
    requires
        is_sorted_form(src, first),
        is_sorted_form(src, second),
    ensures
        first == second,
{
    let p = choose|order: Seq<int>| stably_ranked(src, first, order);
    let q = choose|order: Seq<int>| stably_ranked(src, second, order);
    assert forall|k: int| 0 <= k < src.len() implies p[k] == q[k] by {
        lemma_same_order(src, first, second, p, q, k);
    }
    assert(p =~= q);
    assert(first =~= second);
}

/// The list is ranked: of two entries the earlier has the higher priority, or the
/// same and a slug that is not greater.
pub proof fn law_list_is_ranked(
    src: Seq<ListingView>,
    out: Seq<ListingView>,
    i: int,
    j: int,
)
    requires
        is_sorted_form(src, out),
        0 <= i < j < out.len(),
    ensures
        out[i].priority > out[j].priority || (out[i].priority == out[j].priority && (text_less(
            out[i].slug,
            out[j].slug,
        ) || out[i].slug == out[j].slug)),
{
    let order = choose|order: Seq<int>| stably_ranked(src, out, order);
    assert(comes_first(src, order[i], order[j]));
    assert(out[i] == src[order[i]] && out[j] == src[order[j]]);
    lemma_text_less_total(out[i].slug, out[j].slug);
}

/// The list is complete: it has as many entries as there are recipes, the entry
/// of each recipe is in it, and nothing else is.
pub proof fn law_list_is_complete(src: Seq<ListingView>, out: Seq<ListingView>)
    requires
        is_sorted_form(src, out),
    ensures
        out.len() == src.len(),
        forall|k: int| 0 <= k < src.len() ==> out.contains(#[trigger] src[k]),
        forall|i: int| 0 <= i < out.len() ==> src.contains(#[trigger] out[i]),
{
    let order = choose|order: Seq<int>| stably_ranked(src, out, order);
    assert forall|k: int| 0 <= k < src.len() implies out.contains(#[trigger] src[k]) by {
        assert(order.contains(k));
        let i = choose|i: int| 0 <= i < order.len() && order[i] == k;
        assert(out[i] == src[order[i]]);
    }
}

/// Two stable orders of one list agree up to place `k`.
proof fn lemma_same_order(
    src: Seq<ListingView>,
    first: Seq<ListingView>,
    second: Seq<ListingView>,
    p: Seq<int>,
    q: Seq<int>,
    k: int,
)
    requires
        stably_ranked(src, first, p),
        stably_ranked(src, second, q),
        0 <= k < src.len(),
    ensures
        forall|i: int| 0 <= i <= k ==> p[i] == q[i],
    decreases k,
{
    if k > 0 {
        lemma_same_order(src, first, second, p, q, k - 1);
    }
    assert(q.contains(p[k]));
    assert(p.contains(q[k]));
    let m = choose|m: int| 0 <= m < q.len() && q[m] == p[k];
    let n = choose|n: int| 0 <= n < p.len() && p[n] == q[k];
    assert(m >= k) by {
        if m < k {
            assert(p[m] == q[m]);
        }
    }
    assert(n >= k) by {
        if n < k {
            assert(p[n] == q[n]);
        }
    }
    if m > k && n > k {
        assert(comes_first(src, q[k], q[m]));
        assert(comes_first(src, p[k], p[n]));
        lemma_comes_first_one_way(src, p[k], q[k]);
    }
}

/// Of two places, not both come first.
proof fn lemma_comes_first_one_way(src: Seq<ListingView>, a: int, b: int)
    ensures
        !(comes_first(src, a, b) && comes_first(src, b, a)),
{
    lemma_text_less_total(src[a].slug, src[b].slug);
}

/// Whether each recipe matches the event. `hits[k]` is whether the pattern of
/// recipe `k`, if it has one, matches the title.
pub open spec fn fits(
    recipes: Seq<RecipeView>,
    title: Seq<char>,
    emails: Seq<Seq<char>>,
    hits: Seq<bool>,
) -> Seq<bool> {
    Seq::new(
        recipes.len(),
        |k: int| event_matches(recipes[k].frontmatter.triggers, title, emails, hits[k]),
    )
}

/// The same with the letters of ASCII alone in lower case.
pub open spec fn ascii_fits(
    recipes: Seq<RecipeView>,
    title: Seq<char>,
    emails: Seq<Seq<char>>,
    hits: Seq<bool>,
) -> Seq<bool> {
    Seq::new(
        recipes.len(),
        |k: int|
            ascii_named_in_event(recipes[k].frontmatter.triggers, title, emails) || (
            recipes[k].frontmatter.triggers.regex is Some && hits[k]),
    )
}

/// All texts that decide which recipes an event is named in are of ASCII
/// characters.
pub open spec fn ascii_events(
    recipes: Seq<RecipeView>,
    title: Seq<char>,
    emails: Seq<Seq<char>>,
) -> bool {
    forall|k: int|
        0 <= k < recipes.len() ==> ascii_event(
            (#[trigger] recipes[k]).frontmatter.triggers,
            title,
            emails,
        )
}

/// The recipe at place `k` is the one to choose among those that fit: it fits,
/// none that fits has a higher priority, and none behind it that fits has the
/// same.
pub open spec fn is_choice(recipes: Seq<RecipeView>, fits: Seq<bool>, k: int) -> bool {
    &&& 0 <= k < recipes.len()
    &&& fits[k]
    &&& forall|j: int|
        0 <= j < recipes.len() && #[trigger] fits[j] ==> {
            ||| recipes[j].frontmatter.priority < recipes[k].frontmatter.priority
            ||| recipes[j].frontmatter.priority == recipes[k].frontmatter.priority && j <= k
        }
}

/// The recipe at place `k` is the first that is a fallback.
pub open spec fn is_first_fallback(recipes: Seq<RecipeView>, k: int) -> bool {
    &&& 0 <= k < recipes.len()
    &&& recipes[k].frontmatter.fallback
    &&& forall|j: int| 0 <= j < k ==> !(#[trigger] recipes[j]).frontmatter.fallback
}

/// What stands in when no recipe matches: the first fallback, if there is one.
pub open spec fn stands_in(recipes: Seq<RecipeView>, found: Option<ListingView>) -> bool {
    match found {
        Some(listing) => exists|k: int| #[trigger]
            is_first_fallback(recipes, k) && listing == fallback_entry(recipes[k]),
        None => forall|j: int|
            0 <= j < recipes.len() ==> !(#[trigger] recipes[j]).frontmatter.fallback,
    }
}

/// What is chosen where these recipes fit: the one to choose among them if any
/// does, else what stands in.
pub open spec fn chosen_by(
    recipes: Seq<RecipeView>,
    fits: Seq<bool>,
    found: Option<ListingView>,
) -> bool {
    if exists|j: int| 0 <= j < recipes.len() && fits[j] {
        exists|k: int| #[trigger]
            is_choice(recipes, fits, k) && found == Some(match_entry(recipes[k]))
    } else {
        stands_in(recipes, found)
    }
}

/// What is chosen for an event.
pub open spec fn chosen(
    recipes: Seq<RecipeView>,
    title: Seq<char>,
    emails: Seq<Seq<char>>,
    hits: Seq<bool>,
    found: Option<ListingView>,
) -> bool {
    chosen_by(recipes, fits(recipes, title, emails, hits), found)
}

/// What is chosen for an event where all texts are of ASCII characters: then the
/// letters of ASCII alone are taken in lower case.
pub open spec fn ascii_chosen(
    recipes: Seq<RecipeView>,
    title: Seq<char>,
    emails: Seq<Seq<char>>,
    hits: Seq<bool>,
    found: Option<ListingView>,
) -> bool {
    ascii_events(recipes, title, emails) ==> chosen_by(
        recipes,
        ascii_fits(recipes, title, emails, hits),
        found,
    )
}

/// The first fallback among these recipes.
pub fn first_fallback(recipes: &Vec<Recipe>) -> (found: Option<RecipeListing>)
    ensures
        stands_in(recipe_views(recipes@), listing_view(found)),
{
    let ghost all = recipe_views(recipes@);
    let mut i: usize = 0;
    while i < recipes.len()
        invariant
            all == recipe_views(recipes@),
            i <= recipes@.len(),
            forall|j: int| 0 <= j < i ==> !(#[trigger] all[j]).frontmatter.fallback,
        decreases recipes@.len() - i,
    {
        assert(all[i as int] == recipes@[i as int]@);
        if recipes[i].frontmatter.fallback {
            let listing = show(&recipes[i], false, true);
            assert(is_first_fallback(all, i as int));
            return Some(listing);
        }
        i += 1;
    }
    None
}

/// What can be found when the pattern of each recipe is tried on a title.
pub open spec fn patterns_say(
    recipes: Seq<RecipeView>,
    title: Seq<char>,
    hits: Seq<bool>,
) -> bool {
    &&& hits.len() == recipes.len()
    &&& forall|i: int|
        0 <= i < recipes.len() ==> pattern_says(
            (#[trigger] recipes[i]).frontmatter.triggers.regex,
            title,
            hits[i],
        )
}

/// Whether the patterns of these recipes hit a title, one by one.
fn pattern_hits(recipes: &Vec<Recipe>, title: &str) -> (hits: Vec<bool>)
    ensures
        patterns_say(recipe_views(recipes@), title@, hits@),
{
    let ghost all = recipe_views(recipes@);
    let mut hits: Vec<bool> = Vec::new();
    let mut i: usize = 0;
    while i < recipes.len()
        invariant
            all == recipe_views(recipes@),
            i <= recipes@.len(),
            hits@.len() == i,
            forall|j: int|
                0 <= j < i ==> pattern_says(
                    (#[trigger] all[j]).frontmatter.triggers.regex,
                    title@,
                    hits@[j],
                ),
        decreases recipes@.len() - i,
    {
        assert(all[i as int] == recipes@[i as int]@);
        hits.push(recipes[i].pattern_hit(title));
        i += 1;
    }
    hits
}

/// The recipe for an event, among these.
pub fn choose_for_event(
    recipes: &Vec<Recipe>,
    title: &str,
    attendee_emails: &[String],
) -> (found: Option<RecipeListing>)
    ensures
        exists|hits: Seq<bool>| #[trigger]
            patterns_say(recipe_views(recipes@), title@, hits) && chosen(
                recipe_views(recipes@),
                title@,
                texts(attendee_emails@),
                hits,
                listing_view(found),
            ) && ascii_chosen(
                recipe_views(recipes@),
                title@,
                texts(attendee_emails@),
                hits,
                listing_view(found),
            ),
{
    let hits = pattern_hits(recipes, title);
    choose_with_hits(recipes, title, attendee_emails, &hits)
}

/// The recipe for an event, among these. `hits[i]` is whether the pattern of
/// recipe `i`, if it has one, matches the title.
pub fn choose_with_hits(
    recipes: &Vec<Recipe>,
    title: &str,
    attendee_emails: &[String],
    hits: &Vec<bool>,
) -> (found: Option<RecipeListing>)
    requires
        hits@.len() == recipes@.len(),
    ensures
        chosen(
            recipe_views(recipes@),
            title@,
            texts(attendee_emails@),
            hits@,
            listing_view(found),
        ),
        ascii_chosen(
            recipe_views(recipes@),
            title@,
            texts(attendee_emails@),
            hits@,
            listing_view(found),
        ),
{
    let ghost all = recipe_views(recipes@);
    let ghost emails = texts(attendee_emails@);
    let ghost fit = fits(all, title@, emails, hits@);
    let ghost ascii_fit = ascii_fits(all, title@, emails, hits@);
    let mut best: Option<usize> = None;
    let mut i: usize = 0;
    while i < recipes.len()
        invariant
            all == recipe_views(recipes@),
            emails == texts(attendee_emails@),
            fit == fits(all, title@, emails, hits@),
            ascii_fit == ascii_fits(all, title@, emails, hits@),
            hits@.len() == recipes@.len(),
            i <= recipes@.len(),
            ascii_events(all, title@, emails) ==> forall|j: int|
                0 <= j < i ==> #[trigger] fit[j] == ascii_fit[j],
            match best {
                Some(k) => {
                    &&& k < i
                    &&& fit[k as int]
                    &&& forall|j: int|
                        0 <= j < i && #[trigger] fit[j] ==> {
                            ||| all[j].frontmatter.priority < all[k as int].frontmatter.priority
                            ||| all[j].frontmatter.priority == all[k as int].frontmatter.priority
                                && j <= k
                        }
                },
                None => forall|j: int| 0 <= j < i ==> !#[trigger] fit[j],
            },
        decreases recipes@.len() - i,
    {
        let recipe = &recipes[i];
        assert(all[i as int] == recipe@);
        let matched = recipe.matches_with(title, attendee_emails, hits[i]);
        assert(matched == fit[i as int]);
        if matched {
            best = match best {
                Some(k) => {
                    assert(all[k as int] == recipes@[k as int]@);
                    if recipes[k].frontmatter.priority <= recipe.frontmatter.priority {
                        Some(i)
                    } else {
                        Some(k)
                    }
                },
                None => Some(i),
            };
        }
        i += 1;
    }
    assert(ascii_events(all, title@, emails) ==> fit =~= ascii_fit);
    match best {
        Some(k) => {
            assert(all[k as int] == recipes@[k as int]@);
            let listing = show(&recipes[k], true, recipes[k].frontmatter.fallback);
            assert(is_choice(all, fit, k as int));
            Some(listing)
        },
        None => first_fallback(recipes),
    }
}

/// A listing that may be absent, with its texts.
pub open spec fn listing_view(listing: Option<RecipeListing>) -> Option<ListingView> {
    match listing {
        Some(l) => Some(l@),
        None => None,
    }
}

/// There is one choice: the recipes, and which of them fit, determine what is
/// chosen.
pub proof fn law_choice_is_one(
    recipes: Seq<RecipeView>,
    fits: Seq<bool>,
    first: Option<ListingView>,
    second: Option<ListingView>,
)
    requires
        chosen_by(recipes, fits, first),
        chosen_by(recipes, fits, second),
    ensures
        first == second,
{
    if exists|j: int| 0 <= j < recipes.len() && fits[j] {
        let a = choose|k: int| #[trigger]
            is_choice(recipes, fits, k) && first == Some(match_entry(recipes[k]));
        let b = choose|k: int| #[trigger]
            is_choice(recipes, fits, k) && second == Some(match_entry(recipes[k]));
        assert(fits[a] && fits[b]);
        assert(a == b);
    } else {
        match (first, second) {
            (Some(x), Some(y)) => {
                let a = choose|k: int| #[trigger]
                    is_first_fallback(recipes, k) && x == fallback_entry(recipes[k]);
                let b = choose|k: int| #[trigger]
                    is_first_fallback(recipes, k) && y == fallback_entry(recipes[k]);
                assert(a == b);
            },
            _ => {},
        }
    }
}

/// A recipe that fits is never passed over for a fallback, and never for one of
/// lower priority: where any fits, one that fits is chosen, with a priority at
/// least as high as that of each that fits.
pub proof fn law_match_beats_fallback(
    recipes: Seq<RecipeView>,
    fits: Seq<bool>,
    found: Option<ListingView>,
    j: int,
)
    requires
        chosen_by(recipes, fits, found),
        0 <= j < recipes.len(),
        fits[j],
    ensures
        found matches Some(listing) && listing.has_triggers && listing.priority
            >= recipes[j].frontmatter.priority && exists|k: int|
            0 <= k < recipes.len() && fits[k] && listing == match_entry(#[trigger] recipes[k]),
{
    let k = choose|k: int| #[trigger]
        is_choice(recipes, fits, k) && found == Some(match_entry(recipes[k]));
    assert(fits[k]);
}

/// Without a match the event does not count: what is chosen is then the same for
/// every event that no recipe matches.
pub proof fn law_fallback_ignores_event(
    recipes: Seq<RecipeView>,
    fits: Seq<bool>,
    found: Option<ListingView>,
    other_fits: Seq<bool>,
)
    requires
        chosen_by(recipes, fits, found),
        forall|j: int| 0 <= j < recipes.len() ==> !#[trigger] fits[j],
        forall|j: int| 0 <= j < recipes.len() ==> !#[trigger] other_fits[j],
    ensures
        chosen_by(recipes, other_fits, found),
        found matches Some(listing) ==> listing.is_fallback && !listing.has_triggers,
{
}

/// What is chosen is in the list: some entry of the sorted list of the recipes is
/// the same but for the flag that says whether there are triggers.
pub proof fn law_choice_is_listed(
    recipes: Seq<RecipeView>,
    fits: Seq<bool>,
    found: ListingView,
    list: Seq<ListingView>,
)
    requires
        chosen_by(recipes, fits, Some(found)),
        is_sorted_form(recipes.map_values(|r: RecipeView| list_entry(r)), list),
    ensures
        exists|i: int|
            0 <= i < list.len() && found == (ListingView {
                has_triggers: found.has_triggers,
                ..#[trigger] list[i]
            }),
{
    let entries = recipes.map_values(|r: RecipeView| list_entry(r));
    law_list_is_complete(entries, list);
    let k = if exists|j: int| 0 <= j < recipes.len() && fits[j] {
        choose|k: int| #[trigger]
            is_choice(recipes, fits, k) && Some(found) == Some(match_entry(recipes[k]))
    } else {
        choose|k: int| #[trigger]
            is_first_fallback(recipes, k) && found == fallback_entry(recipes[k])
    };
    assert(entries[k] == list_entry(recipes[k]));
    assert(list.contains(entries[k]));
    let i = choose|i: int| 0 <= i < list.len() && list[i] == entries[k];
    assert(found == (ListingView { has_triggers: found.has_triggers, ..list[i] }));
}

} // verus!
