//! What can go wrong with recipes and the profile.

use vstd::prelude::*;

verus! {

/// An error of the recipe library.
#[derive(Debug, Clone)]
pub enum RecipeError {
    /// A file cannot be read as a recipe or a profile.
    Invalid { path: String, message: String },
    /// The slug of a recipe is not one.
    InvalidSlug { path: String, slug: String },
    /// Reading or writing failed.
    Io(String),
    /// There is no recipe with this slug.
    NotFound(String),
    /// There is no profile.
    ProfileNotFound,
}

/// An error, with its texts.
#[verifier::ext_equal]
pub enum ErrorView {
    Invalid { path: Seq<char>, message: Seq<char> },
    InvalidSlug { path: Seq<char>, slug: Seq<char> },
    Io(Seq<char>),
    NotFound(Seq<char>),
    ProfileNotFound,
}

impl View for RecipeError {
    type V = ErrorView;

    open spec fn view(&self) -> ErrorView {
        match *self {
            RecipeError::Invalid { path, message } => ErrorView::Invalid {
                path: path@,
                message: message@,
            },
            RecipeError::InvalidSlug { path, slug } => ErrorView::InvalidSlug {
                path: path@,
                slug: slug@,
            },
            RecipeError::Io(message) => ErrorView::Io(message@),
            RecipeError::NotFound(slug) => ErrorView::NotFound(slug@),
            RecipeError::ProfileNotFound => ErrorView::ProfileNotFound,
        }
    }
}

/// The outcome of an operation, as a value or an error.
pub open spec fn outcome<T: View>(r: Result<T, RecipeError>) -> Result<T::V, ErrorView> {
    match r {
        Ok(value) => Ok(value@),
        Err(error) => Err(error@),
    }
}

/// The outcome of reading or writing outside the library: a value, or the
/// message of the failure.
pub open spec fn reply<T: View>(r: Result<T, String>) -> Result<T::V, Seq<char>> {
    match r {
        Ok(value) => Ok(value@),
        Err(message) => Err(message@),
    }
}

/// Called on a text with these characters, `parse` can give this reply.
pub open spec fn parses_to<T: View, F: Fn(&str) -> Result<T, String>>(
    parse: F,
    text: Seq<char>,
    given: Result<T::V, Seq<char>>,
) -> bool {
    exists|s: &str, r: Result<T, String>|
        s@ == text && #[trigger] call_ensures(parse, (s,), r) && reply(r) == given
}

/// `parse` can be called on every text.
pub open spec fn parses_all<T: View, F: Fn(&str) -> Result<T, String>>(parse: F) -> bool {
    forall|s: &str| #[trigger] call_requires(parse, (s,))
}

/// The outcome of an operation on the disk, its failure as an error of the
/// library.
pub fn io_outcome(done: Result<(), String>) -> (r: Result<(), RecipeError>)
    ensures
        outcome(r) == match reply(done) {
            Ok(_) => Ok::<(), ErrorView>(()),
            Err(message) => Err(ErrorView::Io(message)),
        },
{
    match done {
        Ok(_) => Ok(()),
        Err(message) => Err(RecipeError::Io(message)),
    }
}

} // verus!
