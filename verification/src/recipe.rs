//! Recipes: prompts for one kind of meeting each.
//!
//! A recipe is a markdown file. Its frontmatter says which events it is for, how
//! it ranks among the recipes that match, and whether it stands in when none
//! does. Its body is the prompt.

use vstd::prelude::*;
use vstd::utf8::is_ascii_chars;

use crate::error::{outcome, parses_all, parses_to, reply, ErrorView, RecipeError};
use crate::markdown::{frame, framed, split, split_frontmatter};
use crate::pattern::{is_plain, regex_matches, regex_says, try_pattern};
use crate::text::{
    all_ascii, ascii_lowered, char_vec, contains_text, has_piece, lowercase, lowercase_all, opt_text,
    same_text, texts, to_lowercase,
};

verus! {

/// Which calendar events a recipe is for.
#[derive(Debug, Clone)]
pub struct RecipeTriggers {
    /// Match if one of these stands in the title of the event, in any case.
    pub calendar_keywords: Vec<String>,
    /// Match if one of these, in any case, is the address of an attendee.
    pub attendees: Vec<String>,
    /// Match if this pattern, a regular expression, matches the title of the event.
    pub regex: Option<String>,
}

/// The frontmatter of a recipe.
#[derive(Debug, Clone)]
pub struct RecipeFrontmatter {
    /// Human-readable display name.
    pub name: String,
    /// Unique identifier (lowercase, hyphens).
    pub slug: String,
    /// Version, as in semantic versioning.
    pub version: String,
    /// One line for the list of recipes.
    pub description: String,
    /// Which events the recipe is for.
    pub triggers: RecipeTriggers,
    /// The higher is preferred when several recipes match.
    pub priority: i32,
    /// Whether the recipe stands in when no other matches.
    pub fallback: bool,
    /// Language of the summary, where it is not the usual one.
    pub language: Option<String>,
}

/// A recipe: its frontmatter, its prompt, and the file it comes from.
#[derive(Debug, Clone)]
pub struct Recipe {
    pub frontmatter: RecipeFrontmatter,
    /// The prompt, as it is sent.
    pub body: String,
    /// Path on disk.
    pub path: String,
}

/// [`RecipeTriggers`], with its texts.
#[verifier::ext_equal]
pub struct TriggersView {
    pub calendar_keywords: Seq<Seq<char>>,
    pub attendees: Seq<Seq<char>>,
    pub regex: Option<Seq<char>>,
}

/// [`RecipeFrontmatter`], with its texts.
#[verifier::ext_equal]
pub struct FrontmatterView {
    pub name: Seq<char>,
    pub slug: Seq<char>,
    pub version: Seq<char>,
    pub description: Seq<char>,
    pub triggers: TriggersView,
    pub priority: i32,
    pub fallback: bool,
    pub language: Option<Seq<char>>,
}

/// [`Recipe`], with its texts.
#[verifier::ext_equal]
pub struct RecipeView {
    pub frontmatter: FrontmatterView,
    pub body: Seq<char>,
    pub path: Seq<char>,
}

impl View for RecipeTriggers {
    type V = TriggersView;

    open spec fn view(&self) -> TriggersView {
        TriggersView {
            calendar_keywords: texts(self.calendar_keywords@),
            attendees: texts(self.attendees@),
            regex: opt_text(self.regex),
        }
    }
}

impl View for RecipeFrontmatter {
    type V = FrontmatterView;

    open spec fn view(&self) -> FrontmatterView {
        FrontmatterView {
            name: self.name@,
            slug: self.slug@,
            version: self.version@,
            description: self.description@,
            triggers: self.triggers@,
            priority: self.priority,
            fallback: self.fallback,
            language: opt_text(self.language),
        }
    }
}

impl View for Recipe {
    type V = RecipeView;

    open spec fn view(&self) -> RecipeView {
        RecipeView { frontmatter: self.frontmatter@, body: self.body@, path: self.path@ }
    }
}

impl Default for RecipeTriggers {
    /// No triggers.
    fn default() -> (t: RecipeTriggers)
        ensures
            t@ == (TriggersView { calendar_keywords: seq![], attendees: seq![], regex: None }),
    {
        let t = RecipeTriggers {
            calendar_keywords: Vec::new(),
            attendees: Vec::new(),
            regex: None,
        };
        assert(t@.calendar_keywords =~= seq![]);
        assert(t@.attendees =~= seq![]);
        t
    }
}

/// A character that a slug can hold: a lower-case ASCII letter, a digit, a
/// hyphen.
pub open spec fn is_slug_char(c: char) -> bool {
    'a' <= c <= 'z' || '0' <= c <= '9' || c == '-'
}

/// A slug: not empty, of the characters it can hold, with no hyphen at either
/// end.
pub open spec fn is_slug(slug: Seq<char>) -> bool {
    &&& slug.len() > 0
    &&& forall|i: int| 0 <= i < slug.len() ==> is_slug_char(#[trigger] slug[i])
    &&& slug[0] != '-'
    &&& slug.last() != '-'
}

/// Whether `slug` is one; if not, an error that names the file it stands in.
pub fn validate_slug(slug: &str, display_path: &str) -> (r: Result<(), RecipeError>)
    ensures
        outcome(r) == if is_slug(slug@) {
            Ok::<(), ErrorView>(())
        } else {
            Err(ErrorView::InvalidSlug { path: display_path@, slug: slug@ })
        },
{
    let v = char_vec(slug);
    let mut valid = v.len() > 0 && v[0] != '-' && v[v.len() - 1] != '-';
    let mut i: usize = 0;
    while i < v.len()
        invariant
            v@ == slug@,
            i <= v@.len(),
            valid == (v@.len() > 0 && v@[0] != '-' && v@.last() != '-' && forall|j: int|
                0 <= j < i ==> is_slug_char(#[trigger] v@[j])),
        decreases v@.len() - i,
    {
        let c = v[i];
        if !(('a' <= c && c <= 'z') || ('0' <= c && c <= '9') || c == '-') {
            valid = false;
        }
        i += 1;
    }
    if valid {
        Ok(())
    } else {
        Err(RecipeError::InvalidSlug { path: display_path.to_string(), slug: slug.to_string() })
    }
}

/// What becomes of the text of a recipe file whose frontmatter, read as YAML,
/// gives `parsed`: an error if it has no frontmatter, if that does not read, or
/// if the slug in it is not one; else the recipe.
pub open spec fn recipe_of(
    source: Seq<char>,
    path: Seq<char>,
    parsed: Result<FrontmatterView, Seq<char>>,
) -> Result<RecipeView, ErrorView> {
    let (frontmatter, body) = split(source);
    if frontmatter.len() == 0 {
        Err(
            ErrorView::Invalid {
                path,
                message: "missing YAML frontmatter (file must start with '---')"@,
            },
        )
    } else {
        match parsed {
            Err(message) => Err(ErrorView::Invalid { path, message }),
            Ok(frontmatter) => if is_slug(frontmatter.slug) {
                Ok(RecipeView { frontmatter, body, path })
            } else {
                Err(ErrorView::InvalidSlug { path, slug: frontmatter.slug })
            },
        }
    }
}

/// What becomes of a recipe file that was read or could not be.
pub open spec fn recipe_of_file(
    source: Result<Seq<char>, Seq<char>>,
    path: Seq<char>,
    parsed: Result<FrontmatterView, Seq<char>>,
) -> Result<RecipeView, ErrorView> {
    match source {
        Ok(text) => recipe_of(text, path, parsed),
        Err(message) => Err(ErrorView::Io(message)),
    }
}

/// The frontmatter that a file asks to have read as YAML: none where the file
/// could not be read or has none.
pub open spec fn to_parse(source: Result<Seq<char>, Seq<char>>) -> Option<Seq<char>> {
    match source {
        Ok(text) if split(text).0.len() > 0 => Some(split(text).0),
        _ => None,
    }
}

/// `parse` can give `parsed` on the frontmatter that a file asks to have read;
/// where it asks for none, `parsed` does not matter.
pub open spec fn parses_file<T: View, F: Fn(&str) -> Result<T, String>>(
    parse: F,
    source: Result<Seq<char>, Seq<char>>,
    parsed: Result<T::V, Seq<char>>,
) -> bool {
    to_parse(source) matches Some(text) ==> parses_to(parse, text, parsed)
}

/// The YAML that was written, or nothing where writing failed.
pub open spec fn written(yaml: Result<Seq<char>, Seq<char>>) -> Seq<char> {
    match yaml {
        Ok(text) => text,
        Err(_) => seq![],
    }
}

/// The YAML that was written, or nothing where writing failed.
pub fn written_yaml(yaml: Result<String, String>) -> (text: String)
    ensures
        text@ == written(reply(yaml)),
{
    match yaml {
        Ok(text) => text,
        Err(_) => String::new(),
    }
}

/// An event matches: a keyword stands in its title, or an attendee of the recipe
/// is among those of the event. All texts are in lower case.
pub open spec fn lowered_match(
    title: Seq<char>,
    keywords: Seq<Seq<char>>,
    attendees: Seq<Seq<char>>,
    emails: Seq<Seq<char>>,
) -> bool {
    ||| exists|i: int| 0 <= i < keywords.len() && has_piece(title, #[trigger] keywords[i])
    ||| exists|i: int| 0 <= i < attendees.len() && emails.contains(#[trigger] attendees[i])
}

/// A keyword stands in the title of an event, or an attendee of the recipe is
/// among those of the event, whatever the case of the letters in any of them.
pub open spec fn named_in_event(
    triggers: TriggersView,
    title: Seq<char>,
    emails: Seq<Seq<char>>,
) -> bool {
    let lower = |t: Seq<char>| lowercase(t);
    lowered_match(
        lowercase(title),
        triggers.calendar_keywords.map_values(lower),
        triggers.attendees.map_values(lower),
        emails.map_values(lower),
    )
}

/// The same with the letters of ASCII alone in lower case.
pub open spec fn ascii_named_in_event(
    triggers: TriggersView,
    title: Seq<char>,
    emails: Seq<Seq<char>>,
) -> bool {
    let lower = |t: Seq<char>| ascii_lowered(t);
    lowered_match(
        ascii_lowered(title),
        triggers.calendar_keywords.map_values(lower),
        triggers.attendees.map_values(lower),
        emails.map_values(lower),
    )
}

/// An event with this title and these attendees matches the triggers: by a
/// keyword, by an attendee, or by the pattern, if there is one. `hit` is whether
/// the pattern matches the title.
pub open spec fn event_matches(
    triggers: TriggersView,
    title: Seq<char>,
    emails: Seq<Seq<char>>,
    hit: bool,
) -> bool {
    named_in_event(triggers, title, emails) || (triggers.regex is Some && hit)
}

/// All texts that decide whether an event is named are of ASCII characters.
pub open spec fn ascii_event(
    triggers: TriggersView,
    title: Seq<char>,
    emails: Seq<Seq<char>>,
) -> bool {
    &&& is_ascii_chars(title)
    &&& all_ascii(triggers.calendar_keywords)
    &&& all_ascii(triggers.attendees)
    &&& all_ascii(emails)
}

/// What can be found when the pattern of a recipe is tried on a title: there is a
/// hit if and only if the reply is that the pattern matches. So there is one only
/// where it does match, and a plain pattern hits just where it stands in the
/// title. Without a pattern there is none, nor with one that cannot be read.
pub open spec fn pattern_says(regex: Option<Seq<char>>, title: Seq<char>, hit: bool) -> bool {
    match regex {
        Some(text) => {
            &&& exists|said: Option<bool>| #[trigger]
                regex_says(text, title, said) && hit == (said == Some(true))
            &&& hit ==> regex_matches(text, title)
            &&& is_plain(text) ==> hit == has_piece(title, text)
        },
        None => !hit,
    }
}

/// Whether `text` is one of a list.
fn listed(list: &Vec<String>, text: &str) -> (found: bool)
    ensures
        found == texts(list@).contains(text@),
{
    let mut i: usize = 0;
    while i < list.len()
        invariant
            i <= list@.len(),
            forall|j: int| 0 <= j < i ==> (#[trigger] list@[j])@ != text@,
        decreases list@.len() - i,
    {
        if same_text(list[i].as_str(), text) {
            assert(texts(list@)[i as int] == text@);
            return true;
        }
        i += 1;
    }
    assert forall|j: int| 0 <= j < list@.len() implies texts(list@)[j] != text@ by {
        assert(list@[j]@ != text@);
    }
    false
}

/// Whether an event matches, all texts being in lower case.
pub fn match_lowered(
    title: &str,
    keywords: &Vec<String>,
    attendees: &Vec<String>,
    emails: &Vec<String>,
) -> (matched: bool)
    ensures
        matched == lowered_match(title@, texts(keywords@), texts(attendees@), texts(emails@)),
{
    let ghost kw = texts(keywords@);
    let ghost at = texts(attendees@);
    let mut i: usize = 0;
    while i < keywords.len()
        invariant
            kw == texts(keywords@),
            i <= keywords@.len(),
            forall|j: int| 0 <= j < i ==> !has_piece(title@, #[trigger] kw[j]),
        decreases keywords@.len() - i,
    {
        if contains_text(title, keywords[i].as_str()) {
            assert(has_piece(title@, kw[i as int]));
            return true;
        }
        i += 1;
    }
    let mut k: usize = 0;
    while k < attendees.len()
        invariant
            at == texts(attendees@),
            k <= attendees@.len(),
            forall|j: int| 0 <= j < k ==> !texts(emails@).contains(#[trigger] at[j]),
        decreases attendees@.len() - k,
    {
        if listed(emails, attendees[k].as_str()) {
            assert(texts(emails@).contains(at[k as int]));
            return true;
        }
        k += 1;
    }
    false
}

impl Recipe {
    /// Read a recipe from the text of its file. `parsed` is what its frontmatter,
    /// read as YAML, gives.
    pub fn from_parsed(
        source_text: &str,
        path: String,
        parsed: Result<RecipeFrontmatter, String>,
    ) -> (r: Result<Recipe, RecipeError>)
        ensures
            outcome(r) == recipe_of(source_text@, path@, reply(parsed)),
    {
        let (fm_text, body) = split_frontmatter(source_text);
        if fm_text.is_empty() {
            return Err(
                RecipeError::Invalid {
                    path,
                    message: "missing YAML frontmatter (file must start with '---')".to_string(),
                },
            );
        }
        let frontmatter = match parsed {
            Ok(frontmatter) => frontmatter,
            Err(message) => {
                return Err(RecipeError::Invalid { path, message });
            },
        };
        match validate_slug(frontmatter.slug.as_str(), path.as_str()) {
            Ok(_) => Ok(Recipe { frontmatter, body: body.to_string(), path }),
            Err(error) => Err(error),
        }
    }

    /// Read a recipe from the text of its file. `parse` reads YAML; it is called
    /// on the frontmatter, if there is any, and on nothing else.
    pub fn from_str<F: Fn(&str) -> Result<RecipeFrontmatter, String>>(
        source_text: &str,
        path: String,
        parse: &F,
    ) -> (r: Result<Recipe, RecipeError>)
        requires
            parses_all(*parse),
        ensures
            exists|parsed: Result<FrontmatterView, Seq<char>>| #[trigger]
                parses_file(*parse, Ok(source_text@), parsed) && outcome(r) == recipe_of(
                    source_text@,
                    path@,
                    parsed,
                ),
    {
        let (fm_text, _body) = split_frontmatter(source_text);
        let parsed = if fm_text.is_empty() {
            Err(String::new())
        } else {
            parse(fm_text)
        };
        assert(parses_file(*parse, Ok(source_text@), reply(parsed)));
        Recipe::from_parsed(source_text, path, parsed)
    }

    /// Read a recipe from its file: `source` is the text of the file, or why it
    /// could not be read.
    pub fn load_file<F: Fn(&str) -> Result<RecipeFrontmatter, String>>(
        path: String,
        source: Result<&str, &str>,
        parse: &F,
    ) -> (r: Result<Recipe, RecipeError>)
        requires
            parses_all(*parse),
        ensures
            exists|parsed: Result<FrontmatterView, Seq<char>>| #[trigger]
                parses_file(*parse, read_text(source), parsed) && outcome(r) == recipe_of_file(
                    read_text(source),
                    path@,
                    parsed,
                ),
    {
        match source {
            Ok(text) => Recipe::from_str(text, path, parse),
            Err(message) => {
                let ghost none = Err::<FrontmatterView, Seq<char>>(seq![]);
                assert(parses_file(*parse, read_text(source), none));
                Err(RecipeError::Io(message.to_string()))
            },
        }
    }

    /// The slug of the recipe.
    pub fn slug(&self) -> (slug: &str)
        ensures
            slug@ == self@.frontmatter.slug,
    {
        self.frontmatter.slug.as_str()
    }

    /// The recipe as a markdown file, its frontmatter written as `yaml`.
    pub fn with_yaml(&self, yaml: Result<String, String>) -> (content: String)
        ensures
            content@ == framed(written(reply(yaml)), self@.body),
    {
        frame(written_yaml(yaml).as_str(), self.body.as_str())
    }

    /// The recipe as a markdown file. `emit` writes its frontmatter as YAML; where
    /// it fails, nothing stands between the fences.
    pub fn to_markdown<G: Fn(&RecipeFrontmatter) -> Result<String, String>>(
        &self,
        emit: &G,
    ) -> (content: String)
        requires
            call_requires(*emit, (&self.frontmatter,)),
        ensures
            exists|yaml: Result<String, String>| #[trigger]
                call_ensures(*emit, (&self.frontmatter,), yaml) && content@ == framed(
                    written(reply(yaml)),
                    self@.body,
                ),
    {
        let yaml = emit(&self.frontmatter);
        self.with_yaml(yaml)
    }

    /// Whether the pattern of the recipe hits. `said` is what trying it on a title
    /// gave: whether it matches, or nothing where it cannot be read.
    pub fn hit_with(&self, said: Option<bool>) -> (hit: bool)
        ensures
            hit == (self@.frontmatter.triggers.regex is Some && said == Some(true)),
    {
        match said {
            Some(matched) => self.frontmatter.triggers.regex.is_some() && matched,
            None => false,
        }
    }

    /// Whether the pattern of the recipe, if it has one, hits a title.
    pub fn pattern_hit(&self, title: &str) -> (hit: bool)
        ensures
            pattern_says(self@.frontmatter.triggers.regex, title@, hit),
    {
        match &self.frontmatter.triggers.regex {
            Some(regex) => {
                let said = try_pattern(regex.as_str(), title);
                let hit = self.hit_with(said);
                assert(regex_says(regex@, title@, said) && hit == (said == Some(true)));
                hit
            },
            None => self.hit_with(None),
        }
    }

    /// Whether the recipe is for an event with this title and these attendees.
    /// `hit` is whether its pattern, if it has one, matches the title.
    pub fn matches_with(
        &self,
        title: &str,
        attendee_emails: &[String],
        hit: bool,
    ) -> (matched: bool)
        ensures
            matched == event_matches(
                self@.frontmatter.triggers,
                title@,
                texts(attendee_emails@),
                hit,
            ),
            ascii_event(self@.frontmatter.triggers, title@, texts(attendee_emails@)) ==> matched
                == (ascii_named_in_event(
                self@.frontmatter.triggers,
                title@,
                texts(attendee_emails@),
            ) || (self@.frontmatter.triggers.regex is Some && hit)),
    {
        let triggers = &self.frontmatter.triggers;
        let title_lower = to_lowercase(title);
        let keywords = lowercase_all(triggers.calendar_keywords.as_slice());
        let attendees = lowercase_all(triggers.attendees.as_slice());
        let emails = lowercase_all(attendee_emails);
        match_lowered(title_lower.as_str(), &keywords, &attendees, &emails) || (
        triggers.regex.is_some() && hit)
    }

    /// Whether the recipe is for an event with this title and these attendees.
    pub fn matches_event(&self, title: &str, attendee_emails: &[String]) -> (matched: bool)
        ensures
            exists|hit: bool| #[trigger]
                pattern_says(self@.frontmatter.triggers.regex, title@, hit) && matched
                    == event_matches(
                    self@.frontmatter.triggers,
                    title@,
                    texts(attendee_emails@),
                    hit,
                ) && (ascii_event(self@.frontmatter.triggers, title@, texts(attendee_emails@))
                    ==> matched == (ascii_named_in_event(
                    self@.frontmatter.triggers,
                    title@,
                    texts(attendee_emails@),
                ) || (self@.frontmatter.triggers.regex is Some && hit))),
    {
        let hit = self.pattern_hit(title);
        self.matches_with(title, attendee_emails, hit)
    }
}

/// A text that was read, or the message of the failure.
pub open spec fn read_text(source: Result<&str, &str>) -> Result<Seq<char>, Seq<char>> {
    match source {
        Ok(text) => Ok(text@),
        Err(message) => Err(message@),
    }
}

} // verus!
