//! The library of recipes on disk: where its files are, what is in them, and
//! what is written to them.
//!
//! The disk itself is outside. What was read is handed in, and what is to be
//! written is handed back.

use vstd::prelude::*;

use crate::error::{outcome, parses_all, reply, ErrorView, RecipeError};
use crate::listing::{
    ascii_chosen, choose_for_event, chosen, first_fallback, is_sorted_form, list_entry, list_recipes,
    listing_view, listing_views, patterns_say, recipe_views, stands_in, RecipeListing,
};
use crate::markdown::{framed, split_frontmatter};
use crate::path::{
    find_home, has_md_extension, home_or_tmp, home_says, is_md_file, join_path, path_join,
    resolve_home,
};
use crate::profile::{profile_of, Profile, ProfileFields, ProfileFrontmatter, ProfileView};
use crate::recipe::{
    parses_file, recipe_of_file, written, FrontmatterView, Recipe, RecipeFrontmatter, RecipeView,
};
use crate::text::{opt_text, texts};

verus! {

/// The permissions of the files that are written: their owner's alone.
pub const FILE_MODE: u32 = 0o600;

/// A file of the directory of recipes: its name, and its text or why it could
/// not be read.
#[derive(Debug)]
pub struct DirEntry {
    pub file_name: String,
    pub source: Result<String, String>,
}

/// [`DirEntry`], with its texts.
#[verifier::ext_equal]
pub struct EntryView {
    pub file_name: Seq<char>,
    pub source: Result<Seq<char>, Seq<char>>,
}

impl View for DirEntry {
    type V = EntryView;

    open spec fn view(&self) -> EntryView {
        EntryView { file_name: self.file_name@, source: reply(self.source) }
    }
}

/// What was found at a path.
#[derive(Debug)]
pub enum FileState {
    /// There is no file.
    Missing,
    /// There is one, and this is its text, or why it could not be read.
    Found(Result<String, String>),
}

/// [`FileState`], with its texts.
#[verifier::ext_equal]
pub enum FileView {
    Missing,
    Found(Result<Seq<char>, Seq<char>>),
}

impl View for FileState {
    type V = FileView;

    open spec fn view(&self) -> FileView {
        match *self {
            FileState::Missing => FileView::Missing,
            FileState::Found(source) => FileView::Found(reply(source)),
        }
    }
}

/// What is to be written: a directory to make first, if one is missing, then a
/// file with this content and these permissions.
#[derive(Debug, Clone)]
pub struct WritePlan {
    pub create_dir: Option<String>,
    pub path: String,
    pub content: String,
    pub mode: u32,
}

/// [`WritePlan`], with its texts.
#[verifier::ext_equal]
pub struct PlanView {
    pub create_dir: Option<Seq<char>>,
    pub path: Seq<char>,
    pub content: Seq<char>,
    pub mode: u32,
}

impl View for WritePlan {
    type V = PlanView;

    open spec fn view(&self) -> PlanView {
        PlanView {
            create_dir: opt_text(self.create_dir),
            path: self.path@,
            content: self.content@,
            mode: self.mode,
        }
    }
}

/// The library of recipes.
#[derive(Debug, Clone)]
pub struct RecipeStore {
    recipes_dir: String,
    profile_path: String,
}

/// Where a library keeps its recipes and the profile.
#[verifier::ext_equal]
pub struct StoreView {
    pub recipes_dir: Seq<char>,
    pub profile_path: Seq<char>,
}

impl View for RecipeStore {
    type V = StoreView;

    closed spec fn view(&self) -> StoreView {
        StoreView { recipes_dir: self.recipes_dir@, profile_path: self.profile_path@ }
    }
}

/// The directory that holds everything: `.minutes` in the home directory that
/// the environment names, else in the one that was found, else in `/tmp`.
pub open spec fn minutes_dir(env_home: Option<Seq<char>>, found: Option<Seq<char>>) -> Seq<char> {
    let home = match env_home {
        Some(home) => home,
        None => home_or_tmp(found),
    };
    path_join(home, ".minutes"@)
}

/// The library in a directory.
pub open spec fn store_in(base: Seq<char>) -> StoreView {
    StoreView {
        recipes_dir: path_join(base, "recipes"@),
        profile_path: path_join(base, "profile.md"@),
    }
}

/// The name of the file of a recipe.
pub open spec fn file_name_of(slug: Seq<char>) -> Seq<char> {
    slug + ".md"@
}

/// The path of the file of a recipe.
pub open spec fn file_of(recipes_dir: Seq<char>, slug: Seq<char>) -> Seq<char> {
    path_join(recipes_dir, file_name_of(slug))
}

/// The recipe in an entry of the directory, if it is one and can be read.
pub open spec fn recipe_in(
    recipes_dir: Seq<char>,
    entry: EntryView,
    parsed: Result<FrontmatterView, Seq<char>>,
) -> Option<RecipeView> {
    if has_md_extension(entry.file_name) {
        match recipe_of_file(entry.source, path_join(recipes_dir, entry.file_name), parsed) {
            Ok(recipe) => Some(recipe),
            Err(_) => None,
        }
    } else {
        None
    }
}

/// The recipes in the directory, in the order of its entries. `parsed[i]` is what
/// the frontmatter of entry `i`, read as YAML, gives.
pub open spec fn recipes_in(
    recipes_dir: Seq<char>,
    entries: Seq<EntryView>,
    parsed: Seq<Result<FrontmatterView, Seq<char>>>,
) -> Seq<RecipeView>
    decreases entries.len(),
{
    if entries.len() == 0 {
        seq![]
    } else {
        let rest = recipes_in(recipes_dir, entries.drop_last(), parsed.drop_last());
        match recipe_in(recipes_dir, entries.last(), parsed.last()) {
            Some(recipe) => rest.push(recipe),
            None => rest,
        }
    }
}

/// `parse` can give `parsed[i]` on the frontmatter of entry `i`, for every entry
/// that is a recipe file and has any.
pub open spec fn parses_entries<F: Fn(&str) -> Result<RecipeFrontmatter, String>>(
    parse: F,
    entries: Seq<EntryView>,
    parsed: Seq<Result<FrontmatterView, Seq<char>>>,
) -> bool {
    &&& parsed.len() == entries.len()
    &&& forall|i: int|
        0 <= i < entries.len() && has_md_extension((#[trigger] entries[i]).file_name)
            ==> parses_file(parse, entries[i].source, parsed[i])
}

/// The entries of a list, with their texts.
pub open spec fn entry_views(entries: Seq<DirEntry>) -> Seq<EntryView> {
    entries.map_values(|e: DirEntry| e@)
}

/// The directory that holds everything.
pub fn minutes_dir_from(env_home: Option<String>, found: Option<String>) -> (dir: String)
    ensures
        dir@ == minutes_dir(opt_text(env_home), opt_text(found)),
{
    let home = match env_home {
        Some(home) => home,
        None => resolve_home(found),
    };
    join_path(home.as_str(), ".minutes")
}

/// The directory that holds everything. The home directory is `env_home`, what
/// the environment names; where it names none, the one that is found.
pub fn default_minutes_dir(env_home: Option<String>) -> (dir: String)
    ensures
        exists|found: Option<Seq<char>>|
            (env_home is None ==> home_says(found)) && dir@ == #[trigger] minutes_dir(
                opt_text(env_home),
                found,
            ),
{
    let found = if env_home.is_none() {
        find_home()
    } else {
        None
    };
    let ghost seen = opt_text(found);
    let ghost env = opt_text(env_home);
    let dir = minutes_dir_from(env_home, found);
    assert(dir@ == minutes_dir(env, seen));
    dir
}

impl RecipeStore {
    /// The library in its usual place. `env_home` is the home directory that the
    /// environment names.
    pub fn new(env_home: Option<String>) -> (store: RecipeStore)
        ensures
            exists|found: Option<Seq<char>>|
                (env_home is None ==> home_says(found)) && store@ == store_in(
                    #[trigger] minutes_dir(opt_text(env_home), found),
                ),
    {
        let base = default_minutes_dir(env_home);
        RecipeStore::in_dir(base.as_str())
    }

    /// The library in a directory.
    pub fn in_dir(base: &str) -> (store: RecipeStore)
        ensures
            store@ == store_in(base@),
    {
        RecipeStore {
            recipes_dir: join_path(base, "recipes"),
            profile_path: join_path(base, "profile.md"),
        }
    }

    /// The library with these paths.
    pub fn with_paths(recipes_dir: String, profile_path: String) -> (store: RecipeStore)
        ensures
            store@ == (StoreView { recipes_dir: recipes_dir@, profile_path: profile_path@ }),
    {
        RecipeStore { recipes_dir, profile_path }
    }

    /// The directory of the recipes.
    pub fn recipes_dir(&self) -> (dir: &str)
        ensures
            dir@ == self@.recipes_dir,
    {
        self.recipes_dir.as_str()
    }

    /// The file of the profile.
    pub fn profile_path(&self) -> (path: &str)
        ensures
            path@ == self@.profile_path,
    {
        self.profile_path.as_str()
    }

    /// The file of a recipe.
    pub fn recipe_path(&self, slug: &str) -> (path: String)
        ensures
            path@ == file_of(self@.recipes_dir, slug@),
    {
        let mut name = slug.to_string();
        name.append(".md");
        join_path(self.recipes_dir.as_str(), name.as_str())
    }

    /// The directory to make so that recipes can be written: none where it is
    /// there.
    pub fn ensure_dir(&self, dir_exists: bool) -> (create: Option<String>)
        ensures
            opt_text(create) == if dir_exists {
                None
            } else {
                Some(self@.recipes_dir)
            },
    {
        if dir_exists {
            None
        } else {
            Some(self.recipes_dir.clone())
        }
    }

    /// The recipes in the directory, in the order of its entries. What is no
    /// recipe file, or cannot be read as a recipe, is left out.
    pub fn load_all<F: Fn(&str) -> Result<RecipeFrontmatter, String>>(
        &self,
        entries: &Vec<DirEntry>,
        parse: &F,
    ) -> (recipes: Vec<Recipe>)
        requires
            parses_all(*parse),
        ensures
            exists|parsed: Seq<Result<FrontmatterView, Seq<char>>>| #[trigger]
                parses_entries(*parse, entry_views(entries@), parsed) && recipe_views(recipes@)
                    == recipes_in(self@.recipes_dir, entry_views(entries@), parsed),
    {
        let ghost all = entry_views(entries@);
        let ghost mut parsed: Seq<Result<FrontmatterView, Seq<char>>> = seq![];
        let mut recipes: Vec<Recipe> = Vec::new();
        let mut i: usize = 0;
        assert(recipe_views(recipes@) =~= seq![]);
        while i < entries.len()
            invariant
                parses_all(*parse),
                all == entry_views(entries@),
                i <= entries@.len(),
                parses_entries(*parse, all.take(i as int), parsed),
                recipe_views(recipes@) == recipes_in(
                    self@.recipes_dir,
                    all.take(i as int),
                    parsed,
                ),
            decreases entries@.len() - i,
        {
            let ghost given: Result<FrontmatterView, Seq<char>> = Err(seq![]);
            let ghost had = recipe_views(recipes@);
            let ghost before = parsed;
            let entry = &entries[i];
            assert(all[i as int] == entry@);
            if is_md_file(entry.file_name.as_str()) {
                let path = join_path(self.recipes_dir.as_str(), entry.file_name.as_str());
                let source = match &entry.source {
                    Ok(text) => Ok(text.as_str()),
                    Err(message) => Err(message.as_str()),
                };
                let loaded = Recipe::load_file(path, source, parse);
                proof {
                    given = choose|given: Result<FrontmatterView, Seq<char>>| #[trigger]
                        parses_file(*parse, entry@.source, given) && outcome(loaded)
                            == recipe_of_file(entry@.source, path@, given);
                }
                if let Ok(recipe) = loaded {
                    recipes.push(recipe);
                    assert(recipe_views(recipes@) =~= had.push(recipe@));
                }
            }
            proof {
                parsed = before.push(given);
                assert(all.take(i + 1).drop_last() == all.take(i as int));
                assert(parsed.drop_last() == before);
            }
            i += 1;
        }
        assert(all.take(all.len() as int) == all);
        recipes
    }

    /// The list of the recipes in the directory.
    pub fn list<F: Fn(&str) -> Result<RecipeFrontmatter, String>>(
        &self,
        entries: &Vec<DirEntry>,
        parse: &F,
    ) -> (list: Vec<RecipeListing>)
        requires
            parses_all(*parse),
        ensures
            exists|parsed: Seq<Result<FrontmatterView, Seq<char>>>| #[trigger]
                parses_entries(*parse, entry_views(entries@), parsed) && is_sorted_form(
                    recipes_in(self@.recipes_dir, entry_views(entries@), parsed).map_values(
                        |r: RecipeView| list_entry(r),
                    ),
                    listing_views(list@),
                ),
    {
        let recipes = self.load_all(entries, parse);
        list_recipes(&recipes)
    }

    /// The recipe with this slug. `file` is what was found at its path.
    pub fn get<F: Fn(&str) -> Result<RecipeFrontmatter, String>>(
        &self,
        slug: &str,
        file: &FileState,
        parse: &F,
    ) -> (r: Result<Recipe, RecipeError>)
        requires
            parses_all(*parse),
        ensures
            file@ is Missing ==> outcome(r) == Err::<RecipeView, ErrorView>(
                ErrorView::NotFound(slug@),
            ),
            file@ matches FileView::Found(source) ==> exists|
                parsed: Result<FrontmatterView, Seq<char>>,
            | #[trigger]
                parses_file(*parse, source, parsed) && outcome(r) == recipe_of_file(
                    source,
                    file_of(self@.recipes_dir, slug@),
                    parsed,
                ),
    {
        match file {
            FileState::Missing => Err(RecipeError::NotFound(slug.to_string())),
            FileState::Found(read) => {
                let source = match read {
                    Ok(text) => Ok(text.as_str()),
                    Err(message) => Err(message.as_str()),
                };
                Recipe::load_file(self.recipe_path(slug), source, parse)
            },
        }
    }

    /// What is to be written to save a recipe.
    pub fn save<G: Fn(&RecipeFrontmatter) -> Result<String, String>>(
        &self,
        recipe: &Recipe,
        dir_exists: bool,
        emit: &G,
    ) -> (plan: WritePlan)
        requires
            call_requires(*emit, (&recipe.frontmatter,)),
        ensures
            exists|yaml: Result<String, String>| #[trigger]
                call_ensures(*emit, (&recipe.frontmatter,), yaml) && plan@ == save_plan(
                    self@.recipes_dir,
                    recipe@,
                    dir_exists,
                    reply(yaml),
                ),
    {
        let create_dir = self.ensure_dir(dir_exists);
        let path = self.recipe_path(recipe.frontmatter.slug.as_str());
        let content = recipe.to_markdown(emit);
        let plan = WritePlan { create_dir, path, content, mode: FILE_MODE };
        proof {
            let yaml = choose|yaml: Result<String, String>| #[trigger]
                call_ensures(*emit, (&recipe.frontmatter,), yaml) && content@ == framed(
                    written(reply(yaml)),
                    recipe@.body,
                );
            assert(plan@ =~= save_plan(self@.recipes_dir, recipe@, dir_exists, reply(yaml)));
        }
        plan
    }

    /// The file to remove to delete the recipe with this slug.
    pub fn delete(&self, slug: &str, file_exists: bool) -> (r: Result<String, RecipeError>)
        ensures
            outcome(r) == if file_exists {
                Ok(file_of(self@.recipes_dir, slug@))
            } else {
                Err(ErrorView::NotFound(slug@))
            },
    {
        if file_exists {
            Ok(self.recipe_path(slug))
        } else {
            Err(RecipeError::NotFound(slug.to_string()))
        }
    }

    /// The recipe for an event, among those in the directory.
    pub fn select_for_event<F: Fn(&str) -> Result<RecipeFrontmatter, String>>(
        &self,
        entries: &Vec<DirEntry>,
        title: &str,
        attendee_emails: &[String],
        parse: &F,
    ) -> (found: Option<RecipeListing>)
        requires
            parses_all(*parse),
        ensures
            exists|parsed: Seq<Result<FrontmatterView, Seq<char>>>, hits: Seq<bool>|
                parses_entries(*parse, entry_views(entries@), parsed) && #[trigger] patterns_say(
                    recipes_in(self@.recipes_dir, entry_views(entries@), parsed),
                    title@,
                    hits,
                ) && chosen(
                    recipes_in(self@.recipes_dir, entry_views(entries@), parsed),
                    title@,
                    texts(attendee_emails@),
                    hits,
                    listing_view(found),
                ) && ascii_chosen(
                    recipes_in(self@.recipes_dir, entry_views(entries@), parsed),
                    title@,
                    texts(attendee_emails@),
                    hits,
                    listing_view(found),
                ),
    {
        let recipes = self.load_all(entries, parse);
        choose_for_event(&recipes, title, attendee_emails)
    }

    /// The recipe that stands in, among those in the directory.
    pub fn get_fallback<F: Fn(&str) -> Result<RecipeFrontmatter, String>>(
        &self,
        entries: &Vec<DirEntry>,
        parse: &F,
    ) -> (found: Option<RecipeListing>)
        requires
            parses_all(*parse),
        ensures
            exists|parsed: Seq<Result<FrontmatterView, Seq<char>>>| #[trigger]
                parses_entries(*parse, entry_views(entries@), parsed) && stands_in(
                    recipes_in(self@.recipes_dir, entry_views(entries@), parsed),
                    listing_view(found),
                ),
    {
        let recipes = self.load_all(entries, parse);
        first_fallback(&recipes)
    }

    /// The profile. `file` is what was found at its path.
    pub fn load_profile<F: Fn(&str) -> Result<ProfileFrontmatter, String>>(
        &self,
        file: &FileState,
        parse: &F,
    ) -> (r: Result<Profile, RecipeError>)
        requires
            parses_all(*parse),
        ensures
            exists|parsed: Result<ProfileFields, Seq<char>>| #[trigger]
                parses_profile(*parse, file@, parsed) && outcome(r) == profile_in(
                    file@,
                    self@.profile_path,
                    parsed,
                ),
    {
        let ghost none: Result<ProfileFields, Seq<char>> = Err(seq![]);
        match file {
            FileState::Missing => {
                assert(parses_profile(*parse, file@, none));
                Err(RecipeError::ProfileNotFound)
            },
            FileState::Found(Err(message)) => {
                assert(parses_profile(*parse, file@, none));
                Err(RecipeError::Io(message.clone()))
            },
            FileState::Found(Ok(text)) => {
                let (fm_text, _body) = split_frontmatter(text.as_str());
                let parsed = if fm_text.is_empty() {
                    Err(String::new())
                } else {
                    parse(fm_text)
                };
                assert(parses_profile(*parse, file@, reply(parsed)));
                Profile::from_parsed(text.as_str(), self.profile_path.as_str(), parsed)
            },
        }
    }

    /// What is to be written to save the profile.
    pub fn save_profile<G: Fn(&ProfileFrontmatter) -> Result<String, String>>(
        &self,
        profile: &Profile,
        emit: &G,
    ) -> (plan: WritePlan)
        requires
            forall|fields: &ProfileFrontmatter| #[trigger] call_requires(*emit, (fields,)),
        ensures
            exists|fields: ProfileFrontmatter, yaml: Result<String, String>|
                fields@ == profile@.fields && #[trigger] call_ensures(*emit, (&fields,), yaml)
                    && plan@ == profile_plan(self@.profile_path, profile@, reply(yaml)),
    {
        let fields = profile.frontmatter();
        let yaml = emit(&fields);
        let ghost given = yaml;
        let content = profile.with_yaml(yaml);
        let plan = WritePlan {
            create_dir: None,
            path: self.profile_path.clone(),
            content,
            mode: FILE_MODE,
        };
        assert(call_ensures(*emit, (&fields,), given));
        assert(plan@ =~= profile_plan(self@.profile_path, profile@, reply(given)));
        plan
    }
}

/// What saving a recipe writes, its frontmatter written as `yaml`.
pub open spec fn save_plan(
    recipes_dir: Seq<char>,
    recipe: RecipeView,
    dir_exists: bool,
    yaml: Result<Seq<char>, Seq<char>>,
) -> PlanView {
    PlanView {
        create_dir: if dir_exists {
            None
        } else {
            Some(recipes_dir)
        },
        path: file_of(recipes_dir, recipe.frontmatter.slug),
        content: framed(written(yaml), recipe.body),
        mode: FILE_MODE,
    }
}

/// What saving the profile writes, its frontmatter written as `yaml`.
pub open spec fn profile_plan(
    profile_path: Seq<char>,
    profile: ProfileView,
    yaml: Result<Seq<char>, Seq<char>>,
) -> PlanView {
    PlanView {
        create_dir: None,
        path: profile_path,
        content: framed(written(yaml), profile.context),
        mode: FILE_MODE,
    }
}

/// What becomes of the file of the profile.
pub open spec fn profile_in(
    file: FileView,
    path: Seq<char>,
    parsed: Result<ProfileFields, Seq<char>>,
) -> Result<ProfileView, ErrorView> {
    match file {
        FileView::Missing => Err(ErrorView::ProfileNotFound),
        FileView::Found(Err(message)) => Err(ErrorView::Io(message)),
        FileView::Found(Ok(text)) => profile_of(text, path, parsed),
    }
}

/// `parse` can give `parsed` on the frontmatter of the profile, if it has any.
pub open spec fn parses_profile<F: Fn(&str) -> Result<ProfileFrontmatter, String>>(
    parse: F,
    file: FileView,
    parsed: Result<ProfileFields, Seq<char>>,
) -> bool {
    file matches FileView::Found(source) ==> parses_file(parse, source, parsed)
}

} // verus!
