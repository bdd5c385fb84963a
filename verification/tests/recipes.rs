use minutes::error::{io_outcome, RecipeError};
use minutes::listing::{choose_for_event, choose_with_hits, first_fallback, list_recipes};
use minutes::markdown::{frame, split_frontmatter};
use minutes::pattern::try_pattern;
use minutes::profile::{Profile, ProfileFrontmatter};
use minutes::recipe::{
    match_lowered, validate_slug, written_yaml, Recipe, RecipeFrontmatter, RecipeTriggers,
};
use minutes::store::{
    default_minutes_dir, minutes_dir_from, DirEntry, FileState, RecipeStore, FILE_MODE,
};
use serde_yaml::Value;

fn strings(list: &[&str]) -> Vec<String> {
    list.iter().map(|s| s.to_string()).collect()
}

fn text_at(value: &Value, key: &str) -> Option<String> {
    value.get(key).and_then(|v| v.as_str()).map(|s| s.to_string())
}

fn list_at(value: &Value, key: &str) -> Vec<String> {
    match value.get(key).and_then(|v| v.as_sequence()) {
        Some(list) => list.iter().filter_map(|v| v.as_str()).map(|s| s.to_string()).collect(),
        None => Vec::new(),
    }
}

fn parse(yaml: &str) -> Result<RecipeFrontmatter, String> {
    let value: Value = serde_yaml::from_str(yaml).map_err(|e| e.to_string())?;
    let triggers = value.get("triggers").cloned().unwrap_or(Value::Null);
    Ok(RecipeFrontmatter {
        name: text_at(&value, "name").ok_or("missing field `name`")?,
        slug: text_at(&value, "slug").ok_or("missing field `slug`")?,
        version: text_at(&value, "version").ok_or("missing field `version`")?,
        description: text_at(&value, "description").unwrap_or_default(),
        triggers: RecipeTriggers {
            calendar_keywords: list_at(&triggers, "calendar_keywords"),
            attendees: list_at(&triggers, "attendees"),
            regex: text_at(&triggers, "regex"),
        },
        priority: value.get("priority").and_then(|v| v.as_i64()).unwrap_or(0) as i32,
        fallback: value.get("fallback").and_then(|v| v.as_bool()).unwrap_or(false),
        language: text_at(&value, "language"),
    })
}

fn emit(frontmatter: &RecipeFrontmatter) -> Result<String, String> {
    let mut map = serde_yaml::Mapping::new();
    map.insert(Value::from("name"), Value::from(frontmatter.name.as_str()));
    map.insert(Value::from("slug"), Value::from(frontmatter.slug.as_str()));
    map.insert(Value::from("version"), Value::from(frontmatter.version.as_str()));
    map.insert(Value::from("description"), Value::from(frontmatter.description.as_str()));
    map.insert(Value::from("priority"), Value::from(frontmatter.priority));
    map.insert(Value::from("fallback"), Value::from(frontmatter.fallback));
    serde_yaml::to_string(&Value::Mapping(map)).map_err(|e| e.to_string())
}

const ONE_ON_ONE: &str = "---
name: \"Manager 1:1\"
slug: manager-1on1
version: 1.0.0
description: Weekly 1:1 with manager.
triggers:
  calendar_keywords: [\"1:1 Katie\", \"Katie Driscoll\"]
  attendees: [\"katie.driscoll@example.com\"]
priority: 10
---

This is the weekly 1:1.

---
## Rules
";

fn one_on_one() -> Recipe {
    match Recipe::from_str(ONE_ON_ONE, "/r/manager-1on1.md".to_string(), &parse) {
        Ok(recipe) => recipe,
        Err(error) => panic!("{:?}", error),
    }
}

fn recipe(slug: &str, priority: i32, fallback: bool, keywords: &[&str]) -> Recipe {
    Recipe {
        frontmatter: RecipeFrontmatter {
            name: format!("Recipe {}", slug),
            slug: slug.to_string(),
            version: "1.0.0".to_string(),
            description: String::new(),
            triggers: RecipeTriggers {
                calendar_keywords: strings(keywords),
                attendees: Vec::new(),
                regex: None,
            },
            priority,
            fallback,
            language: None,
        },
        body: "prompt".to_string(),
        path: format!("/r/{}.md", slug),
    }
}

#[test]
fn frontmatter_is_split_off() {
    assert_eq!(split_frontmatter("---\na: 1\n---\n\nbody\n"), ("a: 1\n", "body\n"));
    assert_eq!(split_frontmatter("---\na: 1\n---\nbody"), ("a: 1\n", "body"));
    assert_eq!(split_frontmatter("---\na: 1\n---\n\n\nbody"), ("a: 1\n", "\nbody"));
    assert_eq!(split_frontmatter("---\na: 1\n---"), ("a: 1\n", ""));
    assert_eq!(split_frontmatter("---\na: 1\n---\n\nx\n---\ny"), ("a: 1\n", "x\n---\ny"));
}

#[test]
fn text_without_frontmatter_is_all_body() {
    for text in ["", "body", "--", "---", "---\na: 1\n", " ---\na: 1\n---\n", "a\n---\nb\n---\n"] {
        assert_eq!(split_frontmatter(text), ("", text));
    }
    assert_eq!(split_frontmatter("---\n---\n\nbody").0, "");
}

#[test]
fn splitting_gives_back_what_was_framed() {
    for body in ["", "x", "\n", "\n\nx", "---\nx\n---\n", "a\n---\nb", "é ☕"] {
        let content = frame("name: x\nslug: y\n", body);
        assert_eq!(content, format!("---\nname: x\nslug: y\n---\n\n{}", body));
        assert_eq!(split_frontmatter(&content), ("name: x\nslug: y\n", body));
    }
}

#[test]
fn slugs_are_checked() {
    for slug in ["a", "0", "manager-1on1", "a--b", "daily-standup"] {
        assert!(validate_slug(slug, "p").is_ok(), "{}", slug);
    }
    for slug in ["", "-", "-a", "a-", "A", "a b", "a_b", "é", "a.md", "../x"] {
        match validate_slug(slug, "/r/x.md") {
            Err(RecipeError::InvalidSlug { path, slug: named }) => {
                assert_eq!(path, "/r/x.md");
                assert_eq!(named, slug);
            }
            other => panic!("{:?}", other),
        }
    }
}

#[test]
fn a_recipe_is_read() {
    let recipe = one_on_one();
    assert_eq!(recipe.slug(), "manager-1on1");
    assert_eq!(recipe.frontmatter.name, "Manager 1:1");
    assert_eq!(recipe.frontmatter.priority, 10);
    assert!(!recipe.frontmatter.fallback);
    assert_eq!(recipe.body, "This is the weekly 1:1.\n\n---\n## Rules\n");
    assert_eq!(recipe.path, "/r/manager-1on1.md");
}

#[test]
fn a_recipe_without_frontmatter_is_refused_unparsed() {
    let never = |_: &str| -> Result<RecipeFrontmatter, String> { panic!("nothing to parse") };
    for text in ["just text", "", "---\n---\nbody"] {
        match Recipe::from_str(text, "/r/x.md".to_string(), &never) {
            Err(RecipeError::Invalid { path, message }) => {
                assert_eq!(path, "/r/x.md");
                assert_eq!(message, "missing YAML frontmatter (file must start with '---')");
            }
            other => panic!("{:?}", other),
        }
    }
}

#[test]
fn a_recipe_that_does_not_parse_is_refused() {
    let text = "---\nname: x\n---\n\nbody";
    match Recipe::from_str(text, "/r/x.md".to_string(), &parse) {
        Err(RecipeError::Invalid { path, message }) => {
            assert_eq!(path, "/r/x.md");
            assert_eq!(message, "missing field `slug`");
        }
        other => panic!("{:?}", other),
    }
}

#[test]
fn a_recipe_with_a_bad_slug_is_refused() {
    let text = "---\nname: x\nslug: Not A Slug\nversion: v1\n---\n\nbody";
    match Recipe::from_str(text, "/r/x.md".to_string(), &parse) {
        Err(RecipeError::InvalidSlug { path, slug }) => {
            assert_eq!(path, "/r/x.md");
            assert_eq!(slug, "Not A Slug");
        }
        other => panic!("{:?}", other),
    }
}

#[test]
fn the_frontmatter_alone_is_parsed() {
    let check = |yaml: &str| -> Result<RecipeFrontmatter, String> { Err(yaml.to_string()) };
    match Recipe::from_str("---\na: 1\nb: 2\n---\n\nbody", "p".to_string(), &check) {
        Err(RecipeError::Invalid { message, .. }) => assert_eq!(message, "a: 1\nb: 2\n"),
        other => panic!("{:?}", other),
    }
}

#[test]
fn a_file_that_cannot_be_read_is_an_io_error() {
    match Recipe::load_file("/r/x.md".to_string(), Err("permission denied"), &parse) {
        Err(RecipeError::Io(message)) => assert_eq!(message, "permission denied"),
        other => panic!("{:?}", other),
    }
    match Recipe::load_file("/r/x.md".to_string(), Ok(ONE_ON_ONE), &parse) {
        Ok(recipe) => assert_eq!(recipe.path, "/r/x.md"),
        other => panic!("{:?}", other),
    }
}

#[test]
fn a_recipe_written_as_markdown_reads_back() {
    let mut recipe = one_on_one();
    recipe.body = "\n\nbody with\n---\nfences\n".to_string();
    let content = recipe.to_markdown(&emit);
    let back = Recipe::from_str(&content, recipe.path.clone(), &parse).unwrap();
    assert_eq!(back.body, recipe.body);
    assert_eq!(back.slug(), recipe.slug());
    assert_eq!(back.frontmatter.name, recipe.frontmatter.name);
    assert_eq!(back.frontmatter.priority, 10);
    assert_eq!(back.to_markdown(&emit), content);
}

#[test]
fn fences_inside_fields_do_not_close_the_frontmatter() {
    for text in ["---", "--- x", "a\n---\nb", "\n---\n", "---\n---\n", "- a\n---", "|\n---", " ---\n"] {
        let mut recipe = recipe("retro", 0, false, &[]);
        recipe.frontmatter.description = text.to_string();
        recipe.frontmatter.name = text.to_string();
        let content = recipe.to_markdown(&emit);
        assert_eq!(split_frontmatter(&content), (emit(&recipe.frontmatter).unwrap().as_str(), "prompt"));
        let back = Recipe::from_str(&content, recipe.path.clone(), &parse).unwrap();
        assert_eq!(back.frontmatter.description, text);
        assert_eq!(back.frontmatter.name, text);
        assert_eq!(back.body, "prompt");
    }
}

#[test]
fn yaml_that_cannot_be_written_is_left_out() {
    assert_eq!(written_yaml(Err("no".to_string())), "");
    assert_eq!(written_yaml(Ok("a: 1\n".to_string())), "a: 1\n");
    let recipe = recipe("a", 0, false, &[]);
    assert_eq!(recipe.with_yaml(Err("no".to_string())), "---\n---\n\nprompt");
    assert_eq!(recipe.with_yaml(Ok("a: 1\n".to_string())), "---\na: 1\n---\n\nprompt");
    let fail = |_: &RecipeFrontmatter| -> Result<String, String> { Err("no".to_string()) };
    assert_eq!(recipe.to_markdown(&fail), "---\n---\n\nprompt");
}

#[test]
fn default_triggers_match_nothing() {
    let triggers = RecipeTriggers::default();
    assert!(triggers.calendar_keywords.is_empty());
    assert!(triggers.attendees.is_empty());
    assert!(triggers.regex.is_none());
    let mut recipe = recipe("a", 0, false, &[]);
    recipe.frontmatter.triggers = triggers;
    assert!(!recipe.matches_event("anything", &strings(&["a@example.com"])));
}

#[test]
fn keywords_match_in_any_case() {
    let recipe = one_on_one();
    assert!(recipe.matches_event("Weekly 1:1 KATIE / Davy", &[]));
    assert!(recipe.matches_event("katie driscoll", &[]));
    assert!(!recipe.matches_event("1:1 with Kate", &[]));
    assert!(!recipe.matches_event("", &[]));
}

#[test]
fn keywords_match_beyond_ascii() {
    let recipe = recipe("a", 0, false, &["ÉQUIPE"]);
    assert!(recipe.matches_event("Réunion d'équipe", &[]));
    assert!(recipe.matches_event("RÉUNION D'ÉQUIPE", &[]));
    assert!(!recipe.matches_event("equipe", &[]));
}

#[test]
fn an_empty_keyword_matches_every_title() {
    assert!(recipe("a", 0, false, &[""]).matches_event("", &[]));
    assert!(recipe("a", 0, false, &[""]).matches_event("x", &[]));
}

#[test]
fn attendees_match_whole_addresses_in_any_case() {
    let recipe = one_on_one();
    assert!(recipe.matches_event("lunch", &strings(&["x@y.z", "Katie.Driscoll@EXAMPLE.com"])));
    assert!(!recipe.matches_event("lunch", &strings(&["atie.driscoll@example.com"])));
    assert!(!recipe.matches_event("lunch", &[]));
}

fn with_pattern(slug: &str, priority: i32, pattern: &str) -> Recipe {
    let mut recipe = recipe(slug, priority, false, &[]);
    recipe.frontmatter.triggers.regex = Some(pattern.to_string());
    recipe
}

#[test]
fn a_pattern_matches_the_title() {
    let recipe = with_pattern("a", 0, "^Standup");
    assert!(recipe.matches_event("Standup Monday", &[]));
    assert!(!recipe.matches_event("Monday Standup", &[]));
    assert!(!recipe.matches_event("standup monday", &[]));
    assert!(recipe.pattern_hit("Standup Monday"));
    assert!(list_recipes(&vec![recipe])[0].has_triggers);
    assert!(!with_pattern("a", 0, "(").matches_event("(", &[]));
}

#[test]
fn a_pattern_is_tried_on_the_title_as_it_is() {
    assert!(with_pattern("a", 0, "^Stand.* É$").matches_event("Standup É", &[]));
    assert!(!with_pattern("a", 0, "^stand").matches_event("Standup É", &[]));
    assert!(with_pattern("a", 0, "(?i)^stand").matches_event("Standup É", &[]));
    assert!(!with_pattern("a", 0, "x@y").matches_event("t", &strings(&["x@y.z"])));
}

#[test]
fn a_pattern_is_tried_on_a_text() {
    assert_eq!(try_pattern("^Standup", "Standup Monday"), Some(true));
    assert_eq!(try_pattern("^Standup", "Monday Standup"), Some(false));
    assert_eq!(try_pattern("1[:-]1|one.on.one", "Katie 1:1"), Some(true));
    assert_eq!(try_pattern("(", "("), None);
    let weekly = with_pattern("a", 0, r"^\w+ (weekly|sync)$");
    for title in ["Team weekly", "Team sync", "Team daily", "sync"] {
        let said = try_pattern(r"^\w+ (weekly|sync)$", title);
        assert_eq!(weekly.pattern_hit(title), said == Some(true));
        assert_eq!(weekly.matches_event(title, &[]), weekly.matches_with(title, &[], said == Some(true)));
    }
}

#[test]
fn a_plain_pattern_hits_where_it_stands() {
    assert!(with_pattern("a", 0, "Team 1").pattern_hit("The Team 1on1"));
    assert!(!with_pattern("a", 0, "Team 1").pattern_hit("The team 1on1"));
    assert!(!with_pattern("a", 0, "Team 1").pattern_hit("Team"));
    assert!(with_pattern("a", 0, "").pattern_hit(""));
    let long = "ab 1".repeat(250);
    assert!(with_pattern("a", 0, &long).pattern_hit(&format!("é{}é", long)));
    assert!(!with_pattern("a", 0, &long).pattern_hit(&long[1..]));
}

#[test]
fn a_pattern_that_cannot_be_read_matches_nothing() {
    for pattern in ["(", "\\w{1000}{1000}"] {
        assert!(!with_pattern("a", 0, pattern).matches_event(pattern, &[]));
        assert!(!with_pattern("a", 0, pattern).pattern_hit(pattern));
    }
    let recipes = vec![with_pattern("a", 9, "("), recipe("fall", 0, true, &[])];
    assert_eq!(choose_for_event(&recipes, "(", &[]).unwrap().slug, "fall");
}

#[test]
fn what_a_pattern_says_is_counted() {
    assert!(with_pattern("a", 0, "x").hit_with(Some(true)));
    assert!(!with_pattern("a", 0, "x").hit_with(Some(false)));
    assert!(!with_pattern("a", 0, "x").hit_with(None));
    assert!(!recipe("a", 0, false, &["k"]).hit_with(Some(true)));
}

#[test]
fn without_a_pattern_there_is_no_hit() {
    assert!(recipe("a", 0, false, &["k"]).matches_event("k", &[]));
    assert!(!recipe("a", 0, false, &["k"]).matches_event("x", &[]));
    assert!(!recipe("a", 0, false, &["k"]).pattern_hit("k"));
}

#[test]
fn a_hit_counts_only_with_a_pattern() {
    assert!(with_pattern("a", 0, "x").matches_with("t", &[], true));
    assert!(!with_pattern("a", 0, "x").matches_with("t", &[], false));
    assert!(!recipe("a", 0, false, &[]).matches_with("t", &[], true));
    assert!(recipe("a", 0, false, &["T"]).matches_with("t", &[], false));
}

#[test]
fn a_keyword_matches_where_the_pattern_does_not() {
    let mut recipe = with_pattern("a", 0, "^Standup");
    recipe.frontmatter.triggers.calendar_keywords = strings(&["retro"]);
    assert!(recipe.matches_event("Team Retro", &[]));
    assert!(recipe.matches_event("Standup", &[]));
    assert!(!recipe.matches_event("Lunch", &[]));
}

#[test]
fn a_pattern_takes_part_in_the_choice() {
    let recipes = vec![
        recipe("word", 5, false, &["standup"]),
        with_pattern("pattern", 7, "Standup$"),
        recipe("fall", 0, true, &[]),
    ];
    assert_eq!(choose_for_event(&recipes, "Daily Standup", &[]).unwrap().slug, "pattern");
    assert_eq!(choose_for_event(&recipes, "Standup notes", &[]).unwrap().slug, "word");
    assert_eq!(choose_for_event(&recipes, "Lunch", &[]).unwrap().slug, "fall");
    let hits = vec![true, false, true];
    assert_eq!(choose_with_hits(&recipes, "Daily Standup", &[], &hits).unwrap().slug, "word");
    let hits = vec![false, true, false];
    assert_eq!(choose_with_hits(&recipes, "Lunch", &[], &hits).unwrap().slug, "pattern");
}

#[test]
fn lowered_texts_match() {
    let none: Vec<String> = Vec::new();
    assert!(match_lowered("the standup", &strings(&["x", "stand"]), &none, &none));
    assert!(!match_lowered("the standup", &strings(&["STAND"]), &none, &none));
    assert!(match_lowered("", &none, &strings(&["a", "b"]), &strings(&["c", "b"])));
    assert!(!match_lowered("", &none, &strings(&["a"]), &strings(&["b"])));
    assert!(!match_lowered("a", &none, &none, &strings(&["a"])));
}

#[test]
fn lists_rank_by_priority_then_slug() {
    let recipes = vec![
        recipe("b", 0, false, &[]),
        recipe("z", 10, false, &["k"]),
        recipe("a", 0, true, &[]),
        recipe("c", -5, false, &[]),
        recipe("a1", 10, false, &[]),
    ];
    let list = list_recipes(&recipes);
    let slugs: Vec<&str> = list.iter().map(|l| l.slug.as_str()).collect();
    assert_eq!(slugs, vec!["a1", "z", "a", "b", "c"]);
    assert!(list[1].has_triggers && !list[0].has_triggers);
    assert!(list[2].is_fallback && !list[3].is_fallback);
    assert_eq!(list[0].name, "Recipe a1");
    assert_eq!(list[0].version, "1.0.0");
    assert_eq!(list[4].priority, -5);
    assert!(list_recipes(&Vec::new()).is_empty());
}

#[test]
fn what_ranks_alike_keeps_its_order() {
    let mut first = recipe("a", 1, false, &[]);
    first.frontmatter.name = "first".to_string();
    let mut second = recipe("a", 1, false, &[]);
    second.frontmatter.name = "second".to_string();
    let list = list_recipes(&vec![recipe("b", 1, false, &[]), first, second, recipe("0", 0, false, &[])]);
    let names: Vec<&str> = list.iter().map(|l| l.name.as_str()).collect();
    assert_eq!(names, vec!["first", "second", "Recipe b", "Recipe 0"]);
}

#[test]
fn the_highest_priority_is_chosen() {
    let recipes = vec![
        recipe("low", 1, false, &["standup"]),
        recipe("high", 9, false, &["standup"]),
        recipe("other", 99, false, &["retro"]),
        recipe("fall", 100, true, &[]),
    ];
    let found = choose_for_event(&recipes, "Daily Standup", &[]).unwrap();
    assert_eq!(found.slug, "high");
    assert!(found.has_triggers);
    assert!(!found.is_fallback);
    assert_eq!(found.priority, 9);
}

#[test]
fn of_equal_priorities_the_last_is_chosen() {
    let recipes = vec![
        recipe("x", 5, false, &["standup"]),
        recipe("y", 5, false, &["standup"]),
        recipe("z", 4, false, &["standup"]),
    ];
    assert_eq!(choose_for_event(&recipes, "standup", &[]).unwrap().slug, "y");
}

#[test]
fn the_first_fallback_stands_in() {
    let recipes = vec![
        recipe("a", 9, false, &["retro"]),
        recipe("f1", 0, true, &["demo"]),
        recipe("f2", 9, true, &[]),
    ];
    let found = choose_for_event(&recipes, "lunch", &[]).unwrap();
    assert_eq!(found.slug, "f1");
    assert!(found.is_fallback);
    assert!(!found.has_triggers);
    assert_eq!(first_fallback(&recipes).unwrap().slug, "f1");
    let other = choose_for_event(&recipes, "dinner", &strings(&["x@y.z"])).unwrap();
    assert_eq!(other.slug, "f1");
}

#[test]
fn what_is_chosen_is_listed() {
    let recipes = vec![
        recipe("a", 9, false, &["retro"]),
        recipe("f1", 0, true, &["demo"]),
        with_pattern("p", 3, "^Stand"),
    ];
    let list = list_recipes(&recipes);
    for title in ["retro", "demo", "Standup", "lunch"] {
        let found = choose_for_event(&recipes, title, &[]).unwrap();
        assert!(list.iter().any(|l| l.slug == found.slug
            && l.name == found.name
            && l.description == found.description
            && l.is_fallback == found.is_fallback
            && l.priority == found.priority
            && l.version == found.version));
    }
}

#[test]
fn a_matching_fallback_is_a_match() {
    let recipes = vec![recipe("f", 0, true, &["demo"])];
    let found = choose_for_event(&recipes, "demo", &[]).unwrap();
    assert!(found.has_triggers && found.is_fallback);
}

#[test]
fn without_match_and_fallback_there_is_none() {
    let recipes = vec![recipe("a", 9, false, &["retro"])];
    assert!(choose_for_event(&recipes, "lunch", &[]).is_none());
    assert!(first_fallback(&recipes).is_none());
    assert!(choose_for_event(&Vec::new(), "lunch", &[]).is_none());
}

fn store() -> RecipeStore {
    RecipeStore::with_paths("/m/recipes".to_string(), "/m/profile.md".to_string())
}

fn entry(name: &str, text: &str) -> DirEntry {
    DirEntry { file_name: name.to_string(), source: Ok(text.to_string()) }
}

fn source(slug: &str, more: &str) -> String {
    format!("---\nname: {}\nslug: {}\nversion: v1\n{}---\n\nprompt\n", slug, slug, more)
}

fn entries() -> Vec<DirEntry> {
    vec![
        entry("work.md", &source("work", "fallback: true\n")),
        entry("notes.txt", &source("notes", "priority: 99\n")),
        entry("bad.md", "no frontmatter"),
        entry("worse.md", &source("Worse", "")),
        DirEntry { file_name: "gone.md".to_string(), source: Err("gone".to_string()) },
        entry(".md", &source("hidden", "")),
        entry("standup.md", &source("standup", "priority: 5\ntriggers:\n  calendar_keywords: [standup]\n")),
    ]
}

#[test]
fn the_library_has_its_places() {
    let store = RecipeStore::new(Some("/home/u".to_string()));
    assert_eq!(store.recipes_dir(), "/home/u/.minutes/recipes");
    assert_eq!(store.profile_path(), "/home/u/.minutes/profile.md");
    assert_eq!(store.recipe_path("a-b"), "/home/u/.minutes/recipes/a-b.md");
    let store = RecipeStore::in_dir("/x/");
    assert_eq!(store.recipes_dir(), "/x/recipes");
    assert_eq!(RecipeStore::new(Some(String::new())).recipes_dir(), ".minutes/recipes");
}

#[test]
fn the_library_is_in_the_home_that_is_found() {
    let home = match dirs::home_dir() {
        Some(home) => home.display().to_string(),
        None => "/tmp".to_string(),
    };
    let dir = default_minutes_dir(None);
    assert_eq!(dir, minutes_dir_from(None, Some(home)));
    assert_eq!(RecipeStore::new(None).recipes_dir(), format!("{}/recipes", dir));
    assert_eq!(minutes_dir_from(None, None), "/tmp/.minutes");
    assert_eq!(default_minutes_dir(Some("/h".to_string())), "/h/.minutes");
}

#[test]
fn the_directory_is_made_when_missing() {
    assert_eq!(store().ensure_dir(false), Some("/m/recipes".to_string()));
    assert_eq!(store().ensure_dir(true), None);
}

#[test]
fn only_recipe_files_are_loaded() {
    let recipes = store().load_all(&entries(), &parse);
    let slugs: Vec<&str> = recipes.iter().map(|r| r.slug()).collect();
    assert_eq!(slugs, vec!["work", "standup"]);
    assert_eq!(recipes[1].path, "/m/recipes/standup.md");
    assert_eq!(recipes[1].body, "prompt\n");
}

#[test]
fn a_directory_is_listed() {
    let list = store().list(&entries(), &parse);
    let slugs: Vec<&str> = list.iter().map(|l| l.slug.as_str()).collect();
    assert_eq!(slugs, vec!["standup", "work"]);
    assert!(store().list(&Vec::new(), &parse).is_empty());
}

#[test]
fn a_directory_has_a_recipe_for_an_event() {
    let found = store().select_for_event(&entries(), "Team STANDUP", &[], &parse).unwrap();
    assert_eq!(found.slug, "standup");
    let found = store().select_for_event(&entries(), "lunch", &[], &parse).unwrap();
    assert_eq!(found.slug, "work");
    assert_eq!(store().get_fallback(&entries(), &parse).unwrap().slug, "work");
    assert!(store().get_fallback(&Vec::new(), &parse).is_none());
}

#[test]
fn a_recipe_is_got_by_its_slug() {
    let file = FileState::Found(Ok(source("standup", "")));
    let recipe = store().get("standup", &file, &parse).unwrap();
    assert_eq!(recipe.slug(), "standup");
    assert_eq!(recipe.path, "/m/recipes/standup.md");

    match store().get("standup", &FileState::Missing, &parse) {
        Err(RecipeError::NotFound(slug)) => assert_eq!(slug, "standup"),
        other => panic!("{:?}", other),
    }
    match store().get("standup", &FileState::Found(Err("denied".to_string())), &parse) {
        Err(RecipeError::Io(message)) => assert_eq!(message, "denied"),
        other => panic!("{:?}", other),
    }
}

#[test]
fn a_saved_recipe_is_found_again() {
    let mut recipe = recipe("retro", 3, false, &[]);
    recipe.body = "\nbody\n---\n".to_string();
    let plan = store().save(&recipe, false, &emit);
    assert_eq!(plan.create_dir, Some("/m/recipes".to_string()));
    assert_eq!(plan.path, "/m/recipes/retro.md");
    assert_eq!(plan.path, store().recipe_path("retro"));
    assert_eq!(plan.mode, FILE_MODE);
    assert_eq!(plan.mode, 0o600);
    assert_eq!(plan.content, recipe.to_markdown(&emit));
    assert_eq!(store().save(&recipe, true, &emit).create_dir, None);

    let back = store().get("retro", &FileState::Found(Ok(plan.content.clone())), &parse).unwrap();
    assert_eq!(back.body, recipe.body);
    assert_eq!(back.frontmatter.priority, 3);

    let list = store().list(&vec![entry("retro.md", &plan.content)], &parse);
    assert_eq!(list.len(), 1);
    assert_eq!(list[0].slug, "retro");
}

#[test]
fn a_recipe_lies_directly_in_the_directory() {
    for slug in ["a", "manager-1on1", "a--b"] {
        assert!(validate_slug(slug, "p").is_ok());
        assert!(!slug.contains(['/', '\\', '.']));
        let path = store().recipe_path(slug);
        let name = path.strip_prefix("/m/recipes/").unwrap();
        assert_eq!(name, format!("{}.md", slug));
        assert!(!name.contains('/'));
    }
}

#[test]
fn slugs_have_their_own_files() {
    assert_ne!(store().recipe_path("a"), store().recipe_path("b"));
    assert!(store().recipe_path("a").starts_with("/m/recipes/"));
}

#[test]
fn a_recipe_is_deleted_if_it_is_there() {
    assert_eq!(store().delete("a", true).unwrap(), "/m/recipes/a.md");
    match store().delete("a", false) {
        Err(RecipeError::NotFound(slug)) => assert_eq!(slug, "a"),
        other => panic!("{:?}", other),
    }
}

#[test]
fn failures_of_the_disk_are_io_errors() {
    assert!(io_outcome(Ok(())).is_ok());
    match io_outcome(Err("disk full".to_string())) {
        Err(RecipeError::Io(message)) => assert_eq!(message, "disk full"),
        other => panic!("{:?}", other),
    }
}

fn parse_fields(yaml: &str) -> Result<ProfileFrontmatter, String> {
    let value: Value = serde_yaml::from_str(yaml).map_err(|e| e.to_string())?;
    Ok(ProfileFrontmatter {
        name: text_at(&value, "name").ok_or("missing field `name`")?,
        role: text_at(&value, "role").unwrap_or_default(),
        company: text_at(&value, "company").unwrap_or_default(),
        team: text_at(&value, "team").unwrap_or_default(),
        focus: text_at(&value, "focus").unwrap_or_default(),
    })
}

fn emit_fields(fields: &ProfileFrontmatter) -> Result<String, String> {
    let mut map = serde_yaml::Mapping::new();
    map.insert(Value::from("name"), Value::from(fields.name.as_str()));
    map.insert(Value::from("role"), Value::from(fields.role.as_str()));
    map.insert(Value::from("company"), Value::from(fields.company.as_str()));
    map.insert(Value::from("team"), Value::from(fields.team.as_str()));
    map.insert(Value::from("focus"), Value::from(fields.focus.as_str()));
    serde_yaml::to_string(&Value::Mapping(map)).map_err(|e| e.to_string())
}

fn profile() -> Profile {
    Profile {
        name: "Davy".to_string(),
        role: "PM".to_string(),
        company: "Lingraphica".to_string(),
        team: "Elysian".to_string(),
        focus: "Practice App: speech".to_string(),
        context: "\nOptimize for recall.\n---\nAnd more.\n".to_string(),
    }
}

#[test]
fn a_profile_is_read() {
    let text = "---\nname: Davy Guo\nrole: PM\n---\n\nProse.\n";
    let read = store().load_profile(&FileState::Found(Ok(text.to_string())), &parse_fields).unwrap();
    assert_eq!(read.name, "Davy Guo");
    assert_eq!(read.role, "PM");
    assert_eq!(read.team, "");
    assert_eq!(read.context, "Prose.\n");
}

#[test]
fn a_saved_profile_reads_back() {
    let plan = store().save_profile(&profile(), &emit_fields);
    assert_eq!(plan.path, "/m/profile.md");
    assert_eq!(plan.create_dir, None);
    assert_eq!(plan.mode, FILE_MODE);
    let read = store().load_profile(&FileState::Found(Ok(plan.content)), &parse_fields).unwrap();
    assert_eq!(read.name, "Davy");
    assert_eq!(read.role, "PM");
    assert_eq!(read.company, "Lingraphica");
    assert_eq!(read.team, "Elysian");
    assert_eq!(read.focus, "Practice App: speech");
    assert_eq!(read.context, profile().context);
    assert_eq!(read.frontmatter().focus, "Practice App: speech");
}

#[test]
fn a_profile_can_be_missing_or_unreadable() {
    match store().load_profile(&FileState::Missing, &parse_fields) {
        Err(RecipeError::ProfileNotFound) => {}
        other => panic!("{:?}", other),
    }
    match store().load_profile(&FileState::Found(Err("denied".to_string())), &parse_fields) {
        Err(RecipeError::Io(message)) => assert_eq!(message, "denied"),
        other => panic!("{:?}", other),
    }
}

#[test]
fn a_profile_can_be_invalid() {
    match store().load_profile(&FileState::Found(Ok("prose".to_string())), &parse_fields) {
        Err(RecipeError::Invalid { path, message }) => {
            assert_eq!(path, "/m/profile.md");
            assert_eq!(message, "profile.md must have YAML frontmatter");
        }
        other => panic!("{:?}", other),
    }
    match store().load_profile(&FileState::Found(Ok("---\nrole: x\n---\n".to_string())), &parse_fields) {
        Err(RecipeError::Invalid { path, message }) => {
            assert_eq!(path, "/m/profile.md");
            assert_eq!(message, "missing field `name`");
        }
        other => panic!("{:?}", other),
    }
}

#[test]
fn a_profile_whose_yaml_failed_has_no_frontmatter() {
    let content = profile().with_yaml(Err("no".to_string()));
    assert!(content.starts_with("---\n---\n\n"));
    assert_eq!(split_frontmatter(&content).0, "");
}
