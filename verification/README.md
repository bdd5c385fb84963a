# minutes

The verified core of a meeting assistant.

- `src/` is the library. Its contracts are stated over texts (sequences of
  characters) and proved by Verus.
  - `text`, `path`: what is needed of strings and of paths, as they are on Unix.
  - `markdown`: frontmatter between fences, and the body behind it.
  - `pattern`: regular expressions, tried on a text.
  - `recipe`, `profile`: recipe files and the user's profile.
  - `listing`: the list of recipes, and the choice of one for a calendar event.
  - `store`: the directory that holds them.
  - `chat`, `rich_path`: a turn of a streaming chat, and the search path of the
    assistant's process.
  - `laws`, and the functions named `law_..` in the other modules: what holds of
    the library as a whole.
- `app/` is ordinary Rust around it: files, the environment, YAML, JSON and the
  process.
- `tests/` runs the library.

YAML and JSON are read and written by functions that are handed to the library;
it says what they are called on and what becomes of their replies. What is
trusted of code outside is in three functions: `text::to_lowercase`
(`str::to_lowercase`), `pattern::try_regex` (`regex::Regex::new` and
`Regex::is_match`) and `path::home_dir` (`dirs::home_dir`).
