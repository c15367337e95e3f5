//! The virtual source overlay: one synthetic path resolves to in-memory
//! generated text, every other relative path is delegated to a configured
//! include directory.
//!
//! The overlay itself decides; actually touching storage (canonicalizing,
//! testing for a regular file, reading) is the caller's side of the
//! boundary, driven by the [`Resolution`] this module hands back.

use vstd::prelude::*;

verus! {

use crate::coords::str_eq;

/// A relative path was requested but no include directory is configured.
pub struct NoIncludePathError {}

impl NoIncludePathError {
    pub fn new() -> (r: NoIncludePathError) {
        NoIncludePathError {}
    }

    /// What went wrong, as text.
    pub fn message(&self) -> (r: &'static str)
        ensures
            r@ == "No include path available"@,
    {
        "No include path available"
    }
}

/// How a request resolves: the in-memory content itself, or the joined path
/// under the include directory that the caller must read from storage.
pub enum Resolution {
    Content(String),
    ReadFile(String),
}

/// Resolves the external compiler's source requests: the synthetic content
/// path answers with the in-memory text; everything else falls back to the
/// include directory, when one is configured.
pub struct InMemoryResolver {
    pub content_path: String,
    pub content: String,
    pub include_dir: Option<String>,
}

impl InMemoryResolver {
    /// Resolves one relative path. The synthetic content path yields the
    /// in-memory text verbatim; any other path yields the include-directory
    /// join for the caller to read, or the no-include-directory error when
    /// none is configured.
    pub fn get_contents(&self, rel_path: &str) -> (r: Result<Resolution, NoIncludePathError>)
        ensures
            rel_path@ == self.content_path@ ==> (r matches Ok(Resolution::Content(c)) && c@
                == self.content@),
            rel_path@ != self.content_path@ && self.include_dir is None ==> r is Err,
            rel_path@ != self.content_path@ && self.include_dir is Some ==> (r matches Ok(
                Resolution::ReadFile(p),
            ) && p@ == self.include_dir.unwrap()@ + "/"@ + rel_path@),
    {
        if str_eq(rel_path, self.content_path.as_str()) {
            return Ok(Resolution::Content(self.content.clone()));
        }
        match &self.include_dir {
            Option::None => Err(NoIncludePathError::new()),
            Option::Some(dir) => {
                let mut path = dir.clone();
                path.append("/");
                path.append(rel_path);
                proof {
                    assert(path@ =~= self.include_dir.unwrap()@ + "/"@ + rel_path@);
                }
                Ok(Resolution::ReadFile(path))
            },
        }
    }
}

} // verus!
