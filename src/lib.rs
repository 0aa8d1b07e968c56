//! Color algebra and reference resolution for the Akari theme palettes.
pub mod color;
pub mod error;
pub mod expr;
pub mod palette;
pub mod text;
pub mod tools;

pub use color::{Factor, Rgb};
pub use error::Error;
pub use expr::{parse_color_expr, ColorExpr, Section};

use vstd::prelude::*;

verus! {

/// The two palettes of the theme.
#[derive(Debug, Clone, Copy, PartialEq, Eq, Structural)]
pub enum Variant {
    Night,
    Dawn,
}

impl Variant {
    pub open spec fn name_spec(self) -> Seq<char> {
        match self {
            Variant::Night => "night"@,
            Variant::Dawn => "dawn"@,
        }
    }

    pub open spec fn title_spec(self) -> Seq<char> {
        match self {
            Variant::Night => "Night"@,
            Variant::Dawn => "Dawn"@,
        }
    }

    /// Lowercase name, as file names use it.
    pub fn name(self) -> (r: &'static str)
        ensures
            r@ == self.name_spec(),
    {
        match self {
            Variant::Night => "night",
            Variant::Dawn => "dawn",
        }
    }

    /// Capitalized name, as titles use it.
    pub fn title(self) -> (r: &'static str)
        ensures
            r@ == self.title_spec(),
    {
        match self {
            Variant::Night => "Night",
            Variant::Dawn => "Dawn",
        }
    }

    /// File that holds the variant's palette document.
    pub fn palette_filename(self) -> (r: &'static str)
        ensures
            self == Variant::Night ==> r@ == "akari-night.toml"@,
            self == Variant::Dawn ==> r@ == "akari-dawn.toml"@,
    {
        match self {
            Variant::Night => "akari-night.toml",
            Variant::Dawn => "akari-dawn.toml",
        }
    }
}

/// Content of an artifact.
#[derive(Debug, Clone)]
pub enum ArtifactContent {
    /// Text to be written.
    Text(String),
    /// Path of a file to be copied.
    Copy(String),
}

/// A generated or copied file.
#[derive(Debug, Clone)]
pub struct Artifact {
    /// Path relative to the output root, such as `helix/akari-night.toml`.
    pub rel_path: String,
    pub content: ArtifactContent,
}

impl Artifact {
    /// A file with the given text.
    pub fn text(rel_path: String, content: String) -> (r: Artifact)
        ensures
            r.rel_path == rel_path,
            r.content == ArtifactContent::Text(content),
    {
        Artifact { rel_path, content: ArtifactContent::Text(content) }
    }

    /// A copy of the file at `src`.
    pub fn copy(rel_path: String, src: String) -> (r: Artifact)
        ensures
            r.rel_path == rel_path,
            r.content == ArtifactContent::Copy(src),
    {
        Artifact { rel_path, content: ArtifactContent::Copy(src) }
    }
}

} // verus!
