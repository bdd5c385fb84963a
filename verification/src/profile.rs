//! The user's profile: who they are, for all recipes alike.

use vstd::prelude::*;

use crate::error::{outcome, reply, ErrorView, RecipeError};
use crate::markdown::{frame, framed, split, split_frontmatter};
use crate::recipe::{written, written_yaml};

verus! {

/// The profile: the fields of its frontmatter, and the prose of its body.
#[derive(Debug, Clone)]
pub struct Profile {
    pub name: String,
    pub role: String,
    pub company: String,
    pub team: String,
    pub focus: String,
    /// The prose that is put into prompts.
    pub context: String,
}

/// The frontmatter of a profile.
#[derive(Debug, Clone)]
pub struct ProfileFrontmatter {
    pub name: String,
    pub role: String,
    pub company: String,
    pub team: String,
    pub focus: String,
}

/// [`ProfileFrontmatter`], with its texts.
#[verifier::ext_equal]
pub struct ProfileFields {
    pub name: Seq<char>,
    pub role: Seq<char>,
    pub company: Seq<char>,
    pub team: Seq<char>,
    pub focus: Seq<char>,
}

/// [`Profile`], with its texts.
#[verifier::ext_equal]
pub struct ProfileView {
    pub fields: ProfileFields,
    pub context: Seq<char>,
}

impl View for ProfileFrontmatter {
    type V = ProfileFields;

    open spec fn view(&self) -> ProfileFields {
        ProfileFields {
            name: self.name@,
            role: self.role@,
            company: self.company@,
            team: self.team@,
            focus: self.focus@,
        }
    }
}

impl View for Profile {
    type V = ProfileView;

    open spec fn view(&self) -> ProfileView {
        ProfileView {
            fields: ProfileFields {
                name: self.name@,
                role: self.role@,
                company: self.company@,
                team: self.team@,
                focus: self.focus@,
            },
            context: self.context@,
        }
    }
}

/// What becomes of the text of a profile whose frontmatter, read as YAML, gives
/// `parsed`: an error if it has no frontmatter or that does not read; else the
/// profile, its prose the body of the file.
pub open spec fn profile_of(
    source: Seq<char>,
    path: Seq<char>,
    parsed: Result<ProfileFields, Seq<char>>,
) -> Result<ProfileView, ErrorView> {
    let (frontmatter, body) = split(source);
    if frontmatter.len() == 0 {
        Err(ErrorView::Invalid { path, message: "profile.md must have YAML frontmatter"@ })
    } else {
        match parsed {
            Err(message) => Err(ErrorView::Invalid { path, message }),
            Ok(fields) => Ok(ProfileView { fields, context: body }),
        }
    }
}

impl Profile {
    /// Read a profile from the text of its file. `parsed` is what its
    /// frontmatter, read as YAML, gives.
    pub fn from_parsed(
        source_text: &str,
        path: &str,
        parsed: Result<ProfileFrontmatter, String>,
    ) -> (r: Result<Profile, RecipeError>)
        ensures
            outcome(r) == profile_of(source_text@, path@, reply(parsed)),
    {
        let (fm_text, body) = split_frontmatter(source_text);
        if fm_text.is_empty() {
            return Err(
                RecipeError::Invalid {
                    path: path.to_string(),
                    message: "profile.md must have YAML frontmatter".to_string(),
                },
            );
        }
        match parsed {
            Ok(fields) => Ok(
                Profile {
                    name: fields.name,
                    role: fields.role,
                    company: fields.company,
                    team: fields.team,
                    focus: fields.focus,
                    context: body.to_string(),
                },
            ),
            Err(message) => Err(RecipeError::Invalid { path: path.to_string(), message }),
        }
    }

    /// The frontmatter of the profile.
    pub fn frontmatter(&self) -> (fields: ProfileFrontmatter)
        ensures
            fields@ == self@.fields,
    {
        ProfileFrontmatter {
            name: self.name.clone(),
            role: self.role.clone(),
            company: self.company.clone(),
            team: self.team.clone(),
            focus: self.focus.clone(),
        }
    }

    /// The profile as a markdown file, its frontmatter written as `yaml`.
    pub fn with_yaml(&self, yaml: Result<String, String>) -> (content: String)
        ensures
            content@ == framed(written(reply(yaml)), self@.context),
    {
        frame(written_yaml(yaml).as_str(), self.context.as_str())
    }
}

} // verus!
