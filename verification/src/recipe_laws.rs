//! What reading, writing and matching recipes is for.

use vstd::prelude::*;
use vstd::utf8::is_ascii_chars;

use crate::error::{reply, RecipeError};
use crate::markdown::split;
use crate::pattern::{is_plain, is_plain_char, regex_matches, regex_says};
use crate::profile::{Profile, ProfileFrontmatter};
use crate::recipe::{
    is_slug, is_slug_char, lowered_match, match_lowered, parses_file, read_text, to_parse,
    validate_slug, written_yaml, FrontmatterView, Recipe, RecipeFrontmatter, RecipeTriggers,
};
use crate::text::{all_ascii, ascii_lowered, has_piece, lowercase, opt_text, texts};
use crate::text_laws::{each_text, law_piece_stands_between};

verus! {

/// A slug is accepted if and only if it is not empty, holds nothing but `a` to
/// `z`, `0` to `9` and hyphens, and neither starts nor ends with a hyphen. The
/// error names the file and the slug.
pub proof fn law_validate_slug(slug: &str, display_path: &str, r: Result<(), RecipeError>)
    requires
        call_ensures(validate_slug, (slug, display_path), r),
    ensures
        r is Ok <==> is_slug(slug@),
        r is Ok <==> slug@.len() > 0 && slug@[0] != '-' && slug@[slug@.len() - 1] != '-' && forall|
            i: int,
        |
            0 <= i < slug@.len() ==> 'a' <= #[trigger] slug@[i] <= 'z' || '0' <= slug@[i] <= '9'
                || slug@[i] == '-',
        r matches Err(error) ==> error matches RecipeError::InvalidSlug { path, slug: named } && path@
            == display_path@ && named@ == slug@,
{
    assert(forall|i: int| 0 <= i < slug@.len() ==> is_slug_char(slug@[i]) == ('a' <= #[trigger] slug@[i]
        <= 'z' || '0' <= slug@[i] <= '9' || slug@[i] == '-'));
}

/// One of these texts stands in another.
pub open spec fn one_stands_in(text: Seq<char>, list: Seq<Seq<char>>) -> bool {
    exists|k: int, a: Seq<char>, b: Seq<char>|
        0 <= k < list.len() && text == #[trigger] (a + list[k] + b)
}

/// Two lists have a member in common.
pub open spec fn have_common(a: Seq<Seq<char>>, b: Seq<Seq<char>>) -> bool {
    exists|k: int, i: int|
        0 <= k < a.len() && 0 <= i < b.len() && #[trigger] a[k] == #[trigger] b[i]
}

/// Lower-case texts match if and only if a keyword stands in the title, or the
/// lists of addresses have one in common.
pub proof fn lemma_lowered_match(
    title: Seq<char>,
    keywords: Seq<Seq<char>>,
    attendees: Seq<Seq<char>>,
    emails: Seq<Seq<char>>,
)
    ensures
        lowered_match(title, keywords, attendees, emails) <==> one_stands_in(title, keywords)
            || have_common(attendees, emails),
{
    assert forall|k: int| 0 <= k < keywords.len() implies has_piece(title, #[trigger] keywords[k])
        == exists|a: Seq<char>, b: Seq<char>| title == #[trigger] (a + keywords[k] + b) by {
        law_piece_stands_between(title, keywords[k]);
    }
    if exists|i: int| 0 <= i < keywords.len() && has_piece(title, #[trigger] keywords[i]) {
        let k = choose|i: int| 0 <= i < keywords.len() && has_piece(title, #[trigger] keywords[i]);
        let (a, b) = choose|a: Seq<char>, b: Seq<char>| title == #[trigger] (a + keywords[k] + b);
        assert(title == a + keywords[k] + b);
        assert(one_stands_in(title, keywords));
    }
    if one_stands_in(title, keywords) {
        let (k, a, b) = choose|k: int, a: Seq<char>, b: Seq<char>|
            0 <= k < keywords.len() && title == #[trigger] (a + keywords[k] + b);
        assert(has_piece(title, keywords[k]));
    }
    if exists|i: int| 0 <= i < attendees.len() && emails.contains(#[trigger] attendees[i]) {
        let k = choose|i: int| 0 <= i < attendees.len() && emails.contains(#[trigger] attendees[i]);
        let i = choose|i: int| 0 <= i < emails.len() && emails[i] == attendees[k];
        assert(attendees[k] == emails[i]);
    }
    if have_common(attendees, emails) {
        let (k, i) = choose|k: int, i: int|
            0 <= k < attendees.len() && 0 <= i < emails.len() && #[trigger] attendees[k]
                == #[trigger] emails[i];
        assert(emails.contains(attendees[k]));
    }
}

/// Only what is named matches, and all that is named does: a keyword that stands
/// in the title, or an attendee whose address is one of the event's.
pub proof fn law_match_lowered(
    title: &str,
    keywords: &Vec<String>,
    attendees: &Vec<String>,
    emails: &Vec<String>,
    matched: bool,
)
    requires
        call_ensures(match_lowered, (title, keywords, attendees, emails), matched),
    ensures
        matched <==> one_stands_in(title@, each_text(keywords@))
            || have_common(
            each_text(attendees@),
            each_text(emails@),
        ),
{
    assert(texts(keywords@) =~= each_text(keywords@));
    assert(texts(attendees@) =~= each_text(attendees@));
    assert(texts(emails@) =~= each_text(emails@));
    lemma_lowered_match(title@, texts(keywords@), texts(attendees@), texts(emails@));
}

/// The lower-case forms of a list of strings.
pub open spec fn lower_forms(list: Seq<String>) -> Seq<Seq<char>> {
    Seq::new(list.len(), |k: int| lowercase(list[k]@))
}

/// The forms of a list of strings with the letters of ASCII in lower case.
pub open spec fn ascii_forms(list: Seq<String>) -> Seq<Seq<char>> {
    Seq::new(list.len(), |k: int| ascii_lowered(list[k]@))
}

/// A keyword of the recipe, in lower case, stands in the lower-case title, or an
/// attendee of the recipe equals, in lower case, one of the event.
pub open spec fn names_event(recipe: &Recipe, title: &str, attendee_emails: &[String]) -> bool {
    one_stands_in(lowercase(title@), lower_forms(recipe.frontmatter.triggers.calendar_keywords@))
        || have_common(
        lower_forms(recipe.frontmatter.triggers.attendees@),
        lower_forms(attendee_emails@),
    )
}

/// The same with the letters of ASCII alone in lower case.
pub open spec fn names_ascii_event(
    recipe: &Recipe,
    title: &str,
    attendee_emails: &[String],
) -> bool {
    one_stands_in(
        ascii_lowered(title@),
        ascii_forms(recipe.frontmatter.triggers.calendar_keywords@),
    ) || have_common(
        ascii_forms(recipe.frontmatter.triggers.attendees@),
        ascii_forms(attendee_emails@),
    )
}

/// Every string of a list is of ASCII characters.
pub open spec fn are_ascii(list: Seq<String>) -> bool {
    forall|k: int| 0 <= k < list.len() ==> is_ascii_chars((#[trigger] list[k])@)
}

/// Only the triggers match: an event matches if and only if the recipe names it by
/// a keyword or an attendee, or has a pattern that hits.
pub proof fn law_matches_with(
    recipe: &Recipe,
    title: &str,
    attendee_emails: &[String],
    hit: bool,
    matched: bool,
)
    requires
        call_ensures(Recipe::matches_with, (recipe, title, attendee_emails, hit), matched),
    ensures
        matched <==> names_event(recipe, title, attendee_emails) || (
        recipe.frontmatter.triggers.regex is Some && hit),
        is_ascii_chars(title@) && are_ascii(recipe.frontmatter.triggers.calendar_keywords@)
            && are_ascii(recipe.frontmatter.triggers.attendees@) && are_ascii(attendee_emails@) ==> (
        matched <==> names_ascii_event(recipe, title, attendee_emails) || (
        recipe.frontmatter.triggers.regex is Some && hit)),
{
    let triggers = recipe.frontmatter.triggers;
    let lower = |t: Seq<char>| lowercase(t);
    let ascii = |t: Seq<char>| ascii_lowered(t);
    let keywords = texts(triggers.calendar_keywords@);
    let attendees = texts(triggers.attendees@);
    let emails = texts(attendee_emails@);
    assert(keywords.map_values(lower) =~= lower_forms(triggers.calendar_keywords@));
    assert(attendees.map_values(lower) =~= lower_forms(triggers.attendees@));
    assert(emails.map_values(lower) =~= lower_forms(attendee_emails@));
    assert(keywords.map_values(ascii) =~= ascii_forms(triggers.calendar_keywords@));
    assert(attendees.map_values(ascii) =~= ascii_forms(triggers.attendees@));
    assert(emails.map_values(ascii) =~= ascii_forms(attendee_emails@));
    lemma_lowered_match(
        lowercase(title@),
        keywords.map_values(lower),
        attendees.map_values(lower),
        emails.map_values(lower),
    );
    lemma_lowered_match(
        ascii_lowered(title@),
        keywords.map_values(ascii),
        attendees.map_values(ascii),
        emails.map_values(ascii),
    );
    if is_ascii_chars(title@) && are_ascii(triggers.calendar_keywords@) && are_ascii(
        triggers.attendees@,
    ) && are_ascii(attendee_emails@) {
        assert(all_ascii(keywords)) by {
            assert forall|k: int| 0 <= k < keywords.len() implies is_ascii_chars(
                #[trigger] keywords[k],
            ) by {
                assert(is_ascii_chars(triggers.calendar_keywords@[k]@));
            }
        }
        assert(all_ascii(attendees)) by {
            assert forall|k: int| 0 <= k < attendees.len() implies is_ascii_chars(
                #[trigger] attendees[k],
            ) by {
                assert(is_ascii_chars(triggers.attendees@[k]@));
            }
        }
        assert(all_ascii(emails)) by {
            assert forall|k: int| 0 <= k < emails.len() implies is_ascii_chars(
                #[trigger] emails[k],
            ) by {
                assert(is_ascii_chars(attendee_emails@[k]@));
            }
        }
    }
}

/// A pattern hits if and only if trying it on the title replied that it matches.
/// Without a pattern there is no hit, a hit means a match, and a plain pattern
/// hits if and only if it stands in the title.
pub proof fn law_pattern_hit(recipe: &Recipe, title: &str, hit: bool)
    requires
        call_ensures(Recipe::pattern_hit, (recipe, title), hit),
    ensures
        recipe.frontmatter.triggers.regex is None ==> !hit,
        recipe.frontmatter.triggers.regex matches Some(regex) ==> {
            &&& exists|said: Option<bool>| #[trigger]
                regex_says(regex@, title@, said) && (hit <==> said == Some(true))
            &&& hit ==> regex_matches(regex@, title@)
            &&& is_plain(regex@) ==> (hit <==> exists|a: Seq<char>, b: Seq<char>|
                title@ == #[trigger] (a + regex@ + b))
        },
{
    if let Some(regex) = recipe.frontmatter.triggers.regex {
        assert(recipe@.frontmatter.triggers.regex == Some(regex@));
        law_piece_stands_between(title@, regex@);
    }
}

/// A pattern is plain if and only if it has at most a thousand characters, each a
/// letter or digit of ASCII or a space.
pub proof fn law_is_plain(pattern: Seq<char>)
    ensures
        is_plain(pattern) <==> pattern.len() <= 1000 && forall|i: int|
            0 <= i < pattern.len() ==> {
                ||| 'a' <= #[trigger] pattern[i] <= 'z'
                ||| 'A' <= pattern[i] <= 'Z'
                ||| '0' <= pattern[i] <= '9'
                ||| pattern[i] == ' '
            },
{
    assert(forall|i: int| 0 <= i < pattern.len() ==> is_plain_char(pattern[i]) == ('a'
        <= #[trigger] pattern[i] <= 'z' || 'A' <= pattern[i] <= 'Z' || '0' <= pattern[i] <= '9'
        || pattern[i] == ' '));
}

/// What a pattern said counts if and only if there is a pattern and it said that
/// it matches.
pub proof fn law_hit_with(recipe: &Recipe, said: Option<bool>, hit: bool)
    requires
        call_ensures(Recipe::hit_with, (recipe, said), hit),
    ensures
        hit <==> recipe.frontmatter.triggers.regex is Some && said == Some(true),
{
}

/// Only the triggers match: an event matches if and only if the recipe names it by
/// a keyword or an attendee, or has a pattern that was tried on the title and
/// said that it matches.
pub proof fn law_matches_event(
    recipe: &Recipe,
    title: &str,
    attendee_emails: &[String],
    matched: bool,
)
    requires
        call_ensures(Recipe::matches_event, (recipe, title, attendee_emails), matched),
    ensures
        names_event(recipe, title, attendee_emails) ==> matched,
        recipe.frontmatter.triggers.regex is None ==> (matched <==> names_event(
            recipe,
            title,
            attendee_emails,
        )),
        recipe.frontmatter.triggers.regex matches Some(regex) ==> {
            &&& exists|said: Option<bool>| #[trigger]
                regex_says(regex@, title@, said) && (matched <==> names_event(
                    recipe,
                    title,
                    attendee_emails,
                ) || said == Some(true))
            &&& matched && !names_event(recipe, title, attendee_emails) ==> regex_matches(
                regex@,
                title@,
            )
            &&& is_plain(regex@) ==> (matched <==> names_event(recipe, title, attendee_emails)
                || exists|a: Seq<char>, b: Seq<char>| title@ == #[trigger] (a + regex@ + b))
        },
{
    let triggers = recipe.frontmatter.triggers;
    let lower = |t: Seq<char>| lowercase(t);
    let keywords = texts(triggers.calendar_keywords@);
    let attendees = texts(triggers.attendees@);
    let emails = texts(attendee_emails@);
    assert(keywords.map_values(lower) =~= lower_forms(triggers.calendar_keywords@));
    assert(attendees.map_values(lower) =~= lower_forms(triggers.attendees@));
    assert(emails.map_values(lower) =~= lower_forms(attendee_emails@));
    lemma_lowered_match(
        lowercase(title@),
        keywords.map_values(lower),
        attendees.map_values(lower),
        emails.map_values(lower),
    );
    assert(recipe@.frontmatter.triggers.regex == opt_text(triggers.regex));
    if let Some(regex) = triggers.regex {
        law_piece_stands_between(title@, regex@);
    }
}

/// Two lists hold the same texts, in order.
pub open spec fn same_texts(a: Seq<String>, b: Seq<String>) -> bool {
    a.len() == b.len() && forall|i: int| 0 <= i < a.len() ==> (#[trigger] a[i])@ == b[i]@
}

/// Two strings are both absent, or hold the same text.
pub open spec fn same_option(a: Option<String>, b: Option<String>) -> bool {
    match (a, b) {
        (Some(x), Some(y)) => x@ == y@,
        (None, None) => true,
        _ => false,
    }
}

/// Two frontmatters are the same in every field.
pub open spec fn same_frontmatter(a: RecipeFrontmatter, b: RecipeFrontmatter) -> bool {
    &&& a.name@ == b.name@
    &&& a.slug@ == b.slug@
    &&& a.version@ == b.version@
    &&& a.description@ == b.description@
    &&& same_texts(a.triggers.calendar_keywords@, b.triggers.calendar_keywords@)
    &&& same_texts(a.triggers.attendees@, b.triggers.attendees@)
    &&& same_option(a.triggers.regex, b.triggers.regex)
    &&& a.priority == b.priority
    &&& a.fallback == b.fallback
    &&& same_option(a.language, b.language)
}

/// Lists with the same view hold the same texts.
proof fn lemma_same_texts(a: Seq<String>, b: Seq<String>)
    requires
        texts(a) == texts(b),
    ensures
        same_texts(a, b),
{
    assert(texts(a).len() == a.len() && texts(b).len() == b.len());
    assert forall|i: int| 0 <= i < a.len() implies (#[trigger] a[i])@ == b[i]@ by {
        assert(texts(a)[i] == texts(b)[i]);
    }
}

/// A view shows every field: frontmatters with the same view are the same in
/// every field.
pub proof fn law_view_shows_frontmatter(a: RecipeFrontmatter, b: RecipeFrontmatter)
    requires
        a@ == b@,
    ensures
        same_frontmatter(a, b),
{
    lemma_same_texts(a.triggers.calendar_keywords@, b.triggers.calendar_keywords@);
    lemma_same_texts(a.triggers.attendees@, b.triggers.attendees@);
    assert(opt_text(a.triggers.regex) == opt_text(b.triggers.regex));
    assert(opt_text(a.language) == opt_text(b.language));
}

/// What becomes of a recipe file with this text, whose frontmatter, read as YAML,
/// gave `parsed`. Without frontmatter, or where that does not read, the error
/// names the file and says so; a slug that is none is an error too. Else every
/// field is the one that was read, the body is the body of the file, and the path
/// is its path.
pub open spec fn reads_as(
    source: Seq<char>,
    path: Seq<char>,
    parsed: Result<RecipeFrontmatter, String>,
    r: Result<Recipe, RecipeError>,
) -> bool {
    if split(source).0.len() == 0 {
        r matches Err(RecipeError::Invalid { path: file, message }) && file@ == path && message@
            == "missing YAML frontmatter (file must start with '---')"@
    } else {
        match parsed {
            Err(reason) => r matches Err(RecipeError::Invalid { path: file, message }) && file@ == path
                && message@ == reason@,
            Ok(frontmatter) => if is_slug(frontmatter.slug@) {
                r matches Ok(recipe) && same_frontmatter(recipe.frontmatter, frontmatter)
                    && recipe.body@ == split(source).1 && recipe.path@ == path
            } else {
                r matches Err(RecipeError::InvalidSlug { path: file, slug }) && file@ == path && slug@
                    == frontmatter.slug@
            },
        }
    }
}

/// Reading a recipe whose frontmatter has been read.
pub proof fn law_from_parsed(
    source_text: &str,
    path: String,
    parsed: Result<RecipeFrontmatter, String>,
    r: Result<Recipe, RecipeError>,
)
    requires
        call_ensures(Recipe::from_parsed, (source_text, path, parsed), r),
    ensures
        reads_as(source_text@, path@, parsed, r),
{
    if let (Ok(frontmatter), Ok(recipe)) = (parsed, r) {
        if split(source_text@).0.len() > 0 {
            assert(recipe@.frontmatter == frontmatter@);
            law_view_shows_frontmatter(recipe.frontmatter, frontmatter);
        }
    }
}

/// What becomes of a recipe file with this text that `parse` reads: its
/// frontmatter, and nothing else, is handed to `parse`.
pub open spec fn parses_as<F: Fn(&str) -> Result<RecipeFrontmatter, String>>(
    parse: F,
    source: Seq<char>,
    path: Seq<char>,
    r: Result<Recipe, RecipeError>,
) -> bool {
    if split(source).0.len() == 0 {
        forall|parsed: Result<RecipeFrontmatter, String>| #[trigger]
            reads_as(source, path, parsed, r)
    } else {
        exists|yaml: &str, parsed: Result<RecipeFrontmatter, String>|
            yaml@ == split(source).0 && #[trigger] call_ensures(parse, (yaml,), parsed) && reads_as(
                source,
                path,
                parsed,
                r,
            )
    }
}

/// What a contract says over views, it says of the recipe itself.
pub proof fn lemma_parses_as<F: Fn(&str) -> Result<RecipeFrontmatter, String>>(
    parse: F,
    source: Seq<char>,
    path: Seq<char>,
    given: Result<FrontmatterView, Seq<char>>,
    r: Result<Recipe, RecipeError>,
)
    requires
        parses_file(parse, Ok(source), given),
        crate::error::outcome(r) == crate::recipe::recipe_of(source, path, given),
    ensures
        parses_as(parse, source, path, r),
{
    if split(source).0.len() > 0 {
        assert(to_parse(Ok(source)) == Some(split(source).0));
        let (yaml, parsed) = choose|yaml: &str, parsed: Result<RecipeFrontmatter, String>|
            yaml@ == split(source).0 && #[trigger] call_ensures(parse, (yaml,), parsed) && reply(
                parsed,
            ) == given;
        if let (Ok(frontmatter), Ok(recipe)) = (parsed, r) {
            assert(recipe@.frontmatter == frontmatter@);
            law_view_shows_frontmatter(recipe.frontmatter, frontmatter);
        }
        assert(reads_as(source, path, parsed, r));
    }
}

/// Reading a recipe from the text of its file.
pub proof fn law_from_str<F: Fn(&str) -> Result<RecipeFrontmatter, String>>(
    source_text: &str,
    path: String,
    parse: &F,
    r: Result<Recipe, RecipeError>,
)
    requires
        call_ensures(Recipe::from_str::<F>, (source_text, path, parse), r),
    ensures
        parses_as(*parse, source_text@, path@, r),
{
    let given = choose|given: Result<FrontmatterView, Seq<char>>| #[trigger]
        parses_file(*parse, Ok(source_text@), given) && crate::error::outcome(r)
            == crate::recipe::recipe_of(source_text@, path@, given);
    lemma_parses_as(*parse, source_text@, path@, given, r);
}

/// Reading a recipe from its file: the message where the file could not be read,
/// else what its text reads as.
pub proof fn law_load_file<F: Fn(&str) -> Result<RecipeFrontmatter, String>>(
    path: String,
    source: Result<&str, &str>,
    parse: &F,
    r: Result<Recipe, RecipeError>,
)
    requires
        call_ensures(Recipe::load_file::<F>, (path, source, parse), r),
    ensures
        source matches Ok(text) ==> parses_as(*parse, text@, path@, r),
        source matches Err(reason) ==> (r matches Err(RecipeError::Io(message)) && message@
            == reason@),
{
    let given = choose|given: Result<FrontmatterView, Seq<char>>| #[trigger]
        parses_file(*parse, read_text(source), given) && crate::error::outcome(r)
            == crate::recipe::recipe_of_file(read_text(source), path@, given);
    if let Ok(text) = source {
        lemma_parses_as(*parse, text@, path@, given, r);
    }
}

/// A file with this YAML between its fences, and this body.
pub open spec fn holds(content: Seq<char>, yaml: Result<String, String>, body: Seq<char>) -> bool {
    let block = match yaml {
        Ok(text) => text@,
        Err(_) => seq![],
    };
    content == seq!['-', '-', '-', '\n'] + block + seq!['-', '-', '-', '\n', '\n'] + body
}

/// What stands between the fences is the YAML that was written, or nothing.
pub proof fn lemma_holds(content: Seq<char>, yaml: Result<String, String>, body: Seq<char>)
    requires
        content == crate::markdown::framed(crate::recipe::written(reply(yaml)), body),
    ensures
        holds(content, yaml, body),
{
    reveal_strlit("---\n");
    reveal_strlit("---\n\n");
    assert("---\n"@ =~= seq!['-', '-', '-', '\n']);
    assert("---\n\n"@ =~= seq!['-', '-', '-', '\n', '\n']);
}

/// The YAML that was written is kept to the letter; where writing failed there is
/// none.
pub proof fn law_written_yaml(yaml: Result<String, String>, text: String)
    requires
        call_ensures(written_yaml, (yaml,), text),
    ensures
        yaml matches Ok(given) ==> text@ == given@,
        yaml is Err ==> text@.len() == 0,
{
}

/// A recipe as a markdown file: the YAML between fences, and the body to the
/// letter.
pub proof fn law_recipe_with_yaml(recipe: &Recipe, yaml: Result<String, String>, content: String)
    requires
        call_ensures(Recipe::with_yaml, (recipe, yaml), content),
    ensures
        holds(content@, yaml, recipe.body@),
{
    lemma_holds(content@, yaml, recipe.body@);
}

/// A recipe as a markdown file: the YAML that was written of its frontmatter
/// between fences, and the body to the letter.
pub proof fn law_to_markdown<G: Fn(&RecipeFrontmatter) -> Result<String, String>>(
    recipe: &Recipe,
    emit: &G,
    content: String,
)
    requires
        call_ensures(Recipe::to_markdown::<G>, (recipe, emit), content),
    ensures
        exists|yaml: Result<String, String>| #[trigger]
            call_ensures(*emit, (&recipe.frontmatter,), yaml) && holds(
                content@,
                yaml,
                recipe.body@,
            ),
{
    let yaml = choose|yaml: Result<String, String>| #[trigger]
        call_ensures(*emit, (&recipe.frontmatter,), yaml) && content@
            == crate::markdown::framed(crate::recipe::written(reply(yaml)), recipe@.body);
    lemma_holds(content@, yaml, recipe.body@);
}

/// The slug of a recipe is that of its frontmatter.
pub proof fn law_slug(recipe: &Recipe, slug: &str)
    requires
        call_ensures(Recipe::slug, (recipe,), slug),
    ensures
        slug@ == recipe.frontmatter.slug@,
{
}

/// What becomes of a profile file with this text, whose frontmatter, read as YAML,
/// gave `parsed`. Without frontmatter, or where that does not read, the error
/// names the file and says so. Else every field is the one that was read, and the
/// prose is the body of the file.
pub open spec fn profile_reads_as(
    source: Seq<char>,
    path: Seq<char>,
    parsed: Result<ProfileFrontmatter, String>,
    r: Result<Profile, RecipeError>,
) -> bool {
    if split(source).0.len() == 0 {
        r matches Err(RecipeError::Invalid { path: file, message }) && file@ == path && message@
            == "profile.md must have YAML frontmatter"@
    } else {
        match parsed {
            Err(reason) => r matches Err(RecipeError::Invalid { path: file, message }) && file@ == path
                && message@ == reason@,
            Ok(fields) => r matches Ok(profile) && profile.name@ == fields.name@ && profile.role@
                == fields.role@ && profile.company@ == fields.company@ && profile.team@
                == fields.team@ && profile.focus@ == fields.focus@ && profile.context@ == split(
                source,
            ).1,
        }
    }
}

/// Reading a profile whose frontmatter has been read.
pub proof fn law_profile_from_parsed(
    source_text: &str,
    path: &str,
    parsed: Result<ProfileFrontmatter, String>,
    r: Result<Profile, RecipeError>,
)
    requires
        call_ensures(Profile::from_parsed, (source_text, path, parsed), r),
    ensures
        profile_reads_as(source_text@, path@, parsed, r),
{
}

/// The frontmatter of a profile is its fields, each in its place.
pub proof fn law_profile_frontmatter(profile: &Profile, fields: ProfileFrontmatter)
    requires
        call_ensures(Profile::frontmatter, (profile,), fields),
    ensures
        fields.name@ == profile.name@,
        fields.role@ == profile.role@,
        fields.company@ == profile.company@,
        fields.team@ == profile.team@,
        fields.focus@ == profile.focus@,
{
}

/// A profile as a markdown file: the YAML between fences, and the prose to the
/// letter.
pub proof fn law_profile_with_yaml(
    profile: &Profile,
    yaml: Result<String, String>,
    content: String,
)
    requires
        call_ensures(Profile::with_yaml, (profile, yaml), content),
    ensures
        holds(content@, yaml, profile.context@),
{
    lemma_holds(content@, yaml, profile.context@);
}

/// Strangers do not match: where no attendee of the recipe equals, in lower case,
/// one of the event, no keyword stands in the title, and no pattern hits, the
/// event does not match.
pub proof fn law_strangers_do_not_match(
    recipe: &Recipe,
    title: &str,
    attendee_emails: &[String],
    hit: bool,
    matched: bool,
)
    requires
        call_ensures(Recipe::matches_with, (recipe, title, attendee_emails, hit), matched),
        !hit || recipe.frontmatter.triggers.regex is None,
        forall|k: int, i: int|
            0 <= k < recipe.frontmatter.triggers.attendees@.len() && 0 <= i < attendee_emails@.len()
                ==> lowercase((#[trigger] recipe.frontmatter.triggers.attendees@[k])@) != lowercase(
                (#[trigger] attendee_emails@[i])@,
            ),
        forall|k: int, a: Seq<char>, b: Seq<char>|
            0 <= k < recipe.frontmatter.triggers.calendar_keywords@.len() ==> lowercase(title@)
                != #[trigger] (a + lowercase(recipe.frontmatter.triggers.calendar_keywords@[k]@) + b),
    ensures
        !matched,
{
    law_matches_with(recipe, title, attendee_emails, hit, matched);
    let keywords = lower_forms(recipe.frontmatter.triggers.calendar_keywords@);
    let attendees = lower_forms(recipe.frontmatter.triggers.attendees@);
    let emails = lower_forms(attendee_emails@);
    if one_stands_in(lowercase(title@), keywords) {
        let (k, a, b) = choose|k: int, a: Seq<char>, b: Seq<char>|
            0 <= k < keywords.len() && lowercase(title@) == #[trigger] (a + keywords[k] + b);
        assert(lowercase(title@) == a + lowercase(
            recipe.frontmatter.triggers.calendar_keywords@[k]@,
        ) + b);
    }
    if have_common(attendees, emails) {
        let (k, i) = choose|k: int, i: int|
            0 <= k < attendees.len() && 0 <= i < emails.len() && #[trigger] attendees[k]
                == #[trigger] emails[i];
        let x = recipe.frontmatter.triggers.attendees@[k];
        let y = attendee_emails@[i];
        assert(lowercase(x@) == lowercase(y@));
    }
}

/// Triggers add up: with two lists of keywords and two of attendees, an event
/// matches if and only if it matches with one of the lists alone. The same holds
/// of the addresses of the event.
pub proof fn law_triggers_add_up(
    title: Seq<char>,
    keywords: Seq<Seq<char>>,
    more_keywords: Seq<Seq<char>>,
    attendees: Seq<Seq<char>>,
    more_attendees: Seq<Seq<char>>,
    emails: Seq<Seq<char>>,
    more_emails: Seq<Seq<char>>,
)
    ensures
        lowered_match(
            title,
            keywords + more_keywords,
            attendees + more_attendees,
            emails + more_emails,
        ) <==> {
            ||| lowered_match(title, keywords, seq![], seq![])
            ||| lowered_match(title, more_keywords, seq![], seq![])
            ||| lowered_match(title, seq![], attendees, emails)
            ||| lowered_match(title, seq![], more_attendees, emails)
            ||| lowered_match(title, seq![], attendees, more_emails)
            ||| lowered_match(title, seq![], more_attendees, more_emails)
        },
{
    let none = Seq::<Seq<char>>::empty();
    let k = keywords + more_keywords;
    let a = attendees + more_attendees;
    let e = emails + more_emails;
    assert(seq![] =~= none);
    assert forall|x: Seq<char>| #[trigger] e.contains(x) == (emails.contains(x)
        || more_emails.contains(x)) by {
        if e.contains(x) {
            let i = choose|i: int| 0 <= i < e.len() && e[i] == x;
            if i < emails.len() {
                assert(emails[i] == x);
            } else {
                assert(more_emails[i - emails.len()] == x);
            }
        }
        if emails.contains(x) {
            let i = choose|i: int| 0 <= i < emails.len() && emails[i] == x;
            assert(e[i] == x);
        }
        if more_emails.contains(x) {
            let i = choose|i: int| 0 <= i < more_emails.len() && more_emails[i] == x;
            assert(e[emails.len() + i] == x);
        }
    }
    assert(forall|i: int| 0 <= i < keywords.len() ==> k[i] == #[trigger] keywords[i]);
    assert(forall|i: int|
        0 <= i < more_keywords.len() ==> k[keywords.len() + i] == #[trigger] more_keywords[i]);
    assert(forall|i: int| 0 <= i < attendees.len() ==> a[i] == #[trigger] attendees[i]);
    assert(forall|i: int|
        0 <= i < more_attendees.len() ==> a[attendees.len() + i] == #[trigger] more_attendees[i]);
    if lowered_match(title, k, a, e) {
        if exists|i: int| 0 <= i < k.len() && has_piece(title, #[trigger] k[i]) {
            let i = choose|i: int| 0 <= i < k.len() && has_piece(title, #[trigger] k[i]);
            if i < keywords.len() {
                assert(k[i] == keywords[i]);
            } else {
                assert(k[i] == more_keywords[i - keywords.len()]);
            }
        } else {
            let i = choose|i: int| 0 <= i < a.len() && e.contains(#[trigger] a[i]);
            if i < attendees.len() {
                assert(a[i] == attendees[i]);
            } else {
                assert(a[i] == more_attendees[i - attendees.len()]);
            }
        }
    }
    if lowered_match(title, keywords, none, none) {
        let i = choose|i: int| 0 <= i < keywords.len() && has_piece(title, #[trigger] keywords[i]);
        assert(has_piece(title, k[i]));
    }
    if lowered_match(title, more_keywords, none, none) {
        let i = choose|i: int|
            0 <= i < more_keywords.len() && has_piece(title, #[trigger] more_keywords[i]);
        assert(has_piece(title, k[keywords.len() + i]));
    }
    assert forall|i: int| 0 <= i < attendees.len() && e.contains(#[trigger] attendees[i]) implies e.contains(
        a[i],
    ) by {}
    assert forall|i: int|
        0 <= i < more_attendees.len() && e.contains(#[trigger] more_attendees[i]) implies e.contains(
        a[attendees.len() + i],
    ) by {}
}

/// Triggers by default are none.
pub proof fn law_default_triggers(triggers: RecipeTriggers)
    requires
        call_ensures(RecipeTriggers::default, (), triggers),
    ensures
        triggers.calendar_keywords@.len() == 0,
        triggers.attendees@.len() == 0,
        triggers.regex is None,
{
    assert(triggers@.calendar_keywords.len() == triggers.calendar_keywords@.len());
    assert(triggers@.attendees.len() == triggers.attendees@.len());
    assert(triggers@.regex == opt_text(triggers.regex));
}

} // verus!
