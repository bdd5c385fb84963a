//! Verified core of a meeting assistant: recipes (prompts chosen by the kind of
//! a meeting), the user's profile, and the turns of a streaming chat.

pub mod chat;
pub mod chat_laws;
pub mod error;
pub mod laws;
pub mod listing;
pub mod listing_laws;
pub mod markdown;
pub mod markdown_laws;
pub mod path;
pub mod path_laws;
pub mod pattern;
pub mod profile;
pub mod recipe;
pub mod recipe_laws;
pub mod rich_path;
pub mod rich_path_laws;
pub mod store;
pub mod store_laws;
pub mod text;
pub mod text_laws;
