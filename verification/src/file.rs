//! A tracked file inside a project's directory: classification by extension
//! and resolution of the image shown for it.
//!
//! Classification is a case-insensitive extension match. A file can be an
//! image itself, a model that an external renderer can rasterize to an
//! image, or an editable text file; the categories are not exclusive.
use vstd::prelude::*;
use crate::text::{suffix_ci, ends_with_ignore_case, parent_dir_spec, base_name_spec, parent_dir, base_name};
use vstd::string::StringExecFns;

verus! {

/// A file discovered within a project's directory tree. `default` marks the
/// file chosen as the project's representative image source; at most one
/// file of a project carries it.
#[derive(Debug)]
pub struct ProjectFile {
    pub id: i64,
    pub path: String,
    pub notes: Option<String>,
    pub project_id: i64,
    pub default: bool,
}

impl Clone for ProjectFile {
    /// A clone equals the original.
    fn clone(&self) -> (r: Self)
        ensures
            r == *self,
    {
        ProjectFile {
            id: self.id,
            path: self.path.clone(),
            notes: match &self.notes {
                Some(s) => Some(s.clone()),
                None => None,
            },
            project_id: self.project_id,
            default: self.default,
        }
    }
}

/// The path names an image file (.png, .jpg, .jpeg, .gif).
pub open spec fn is_image_path(s: Seq<char>) -> bool {
    ||| suffix_ci(s, ".png"@)
    ||| suffix_ci(s, ".jpg"@)
    ||| suffix_ci(s, ".jpeg"@)
    ||| suffix_ci(s, ".gif"@)
}

/// The path names a 3D-model file (.stl, .3mf) that the external renderer
/// can turn into an image.
pub open spec fn is_model_path(s: Seq<char>) -> bool {
    suffix_ci(s, ".stl"@) || suffix_ci(s, ".3mf"@)
}

/// The path names a plain-text file whose notes are the file content.
pub open spec fn is_text_path(s: Seq<char>) -> bool {
    ||| suffix_ci(s, ".txt"@)
    ||| suffix_ci(s, ".md"@)
    ||| suffix_ci(s, ".json"@)
    ||| suffix_ci(s, ".toml"@)
    ||| suffix_ci(s, ".yaml"@)
    ||| suffix_ci(s, ".yml"@)
    ||| suffix_ci(s, ".ini"@)
}

/// A file is displayable when it is an image or a model.
pub open spec fn is_displayable_path(s: Seq<char>) -> bool {
    is_image_path(s) || is_model_path(s)
}

/// The path of the cached thumbnail for a model file: a dot-prefixed
/// reserved directory beside the file, holding `<fileName>.png`.
pub open spec fn generated_image_path_spec(p: Seq<char>) -> Seq<char> {
    parent_dir_spec(p) + "/.3DManager/"@ + base_name_spec(p) + ".png"@
}

/// What resolving a model file's image requires next, given whether the
/// cached thumbnail already exists on disk.
pub enum ImageStep {
    /// The file is an image: show its own path.
    UseOwnPath,
    /// A cached thumbnail exists at this path: show it without regenerating.
    UseCached(String),
    /// Invoke the external renderer to produce an image at this path.
    Render(String),
    /// The file is neither an image nor a model: nothing to show.
    NoImage,
}

impl ProjectFile {
    /// The file is an image by extension.
    pub fn is_image_type(&self) -> (r: bool)
        ensures
            r == is_image_path(self.path@),
    {
        ends_with_ignore_case(self.path.as_str(), ".png") || ends_with_ignore_case(
            self.path.as_str(),
            ".jpg",
        ) || ends_with_ignore_case(self.path.as_str(), ".jpeg") || ends_with_ignore_case(
            self.path.as_str(),
            ".gif",
        )
    }

    /// The file is a model by extension, so an image can be generated for it.
    pub fn can_generate_to_image(&self) -> (r: bool)
        ensures
            r == is_model_path(self.path@),
    {
        ends_with_ignore_case(self.path.as_str(), ".stl") || ends_with_ignore_case(
            self.path.as_str(),
            ".3mf",
        )
    }

    /// The file is editable as plain text.
    pub fn is_text_type(&self) -> (r: bool)
        ensures
            r == is_text_path(self.path@),
    {
        ||| ends_with_ignore_case(self.path.as_str(), ".txt")
        ||| ends_with_ignore_case(self.path.as_str(), ".md")
        ||| ends_with_ignore_case(self.path.as_str(), ".json")
        ||| ends_with_ignore_case(self.path.as_str(), ".toml")
        ||| ends_with_ignore_case(self.path.as_str(), ".yaml")
        ||| ends_with_ignore_case(self.path.as_str(), ".yml")
        ||| ends_with_ignore_case(self.path.as_str(), ".ini")
    }

    /// The file can be displayed: it is an image or a model.
    pub fn is_image_or_can_generate_to_image(&self) -> (r: bool)
        ensures
            r == is_displayable_path(self.path@),
    {
        if self.is_image_type() || self.can_generate_to_image() {
            return true;
        }
        false
    }

    /// The path where this file's generated thumbnail is cached: the
    /// reserved dot-prefixed directory next to the file, `<fileName>.png`
    /// inside it.
    pub fn get_generated_image_path(&self) -> (r: String)
        ensures
            r@ == generated_image_path_spec(self.path@),
    {
        let mut r = parent_dir(self.path.as_str());
        r.append("/.3DManager/");
        let name = base_name(self.path.as_str());
        r.append(name.as_str());
        r.append(".png");
        proof {
            assert(r@ =~= generated_image_path_spec(self.path@));
        }
        r
    }

    /// Decides how to obtain this file's display image, given whether the
    /// cached thumbnail is already present. The thumbnail cache is addressed
    /// by file name alone, so a present cache entry is reused even when the
    /// model changed since it was rendered (a documented limitation).
    pub fn image_step(&self, cached_thumbnail_exists: bool) -> (r: ImageStep)
        ensures
            is_image_path(self.path@) ==> r == ImageStep::UseOwnPath,
            !is_image_path(self.path@) && is_model_path(self.path@) && cached_thumbnail_exists
                ==> (r matches ImageStep::UseCached(t) && t@ == generated_image_path_spec(
                self.path@,
            )),
            !is_image_path(self.path@) && is_model_path(self.path@) && !cached_thumbnail_exists
                ==> (r matches ImageStep::Render(t) && t@ == generated_image_path_spec(
                self.path@,
            )),
            !is_displayable_path(self.path@) ==> r == ImageStep::NoImage,
    {
        if self.is_image_type() {
            ImageStep::UseOwnPath
        } else if self.can_generate_to_image() {
            let target = self.get_generated_image_path();
            if cached_thumbnail_exists {
                ImageStep::UseCached(target)
            } else {
                ImageStep::Render(target)
            }
        } else {
            ImageStep::NoImage
        }
    }

    /// The path of the image displayed for this file. An image file shows
    /// itself. A model file shows the rendered thumbnail when one was
    /// obtained (`rendered`), and nothing when rendering failed. Any other
    /// file shows nothing (the empty path).
    pub fn get_image_path(&self, rendered: Option<String>) -> (r: String)
        ensures
            is_image_path(self.path@) ==> r@ == self.path@,
            !is_image_path(self.path@) && is_model_path(self.path@) ==> r@ == match rendered {
                Some(g) => g@,
                None => Seq::<char>::empty(),
            },
            !is_displayable_path(self.path@) ==> r@ == Seq::<char>::empty(),
    {
        if self.is_image_type() {
            return self.path.clone();
        }
        if self.can_generate_to_image() {
            return match rendered {
                Some(g) => g,
                None => String::new(),
            };
        }
        String::new()
    }
}

} // verus!
