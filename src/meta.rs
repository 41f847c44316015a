use vstd::prelude::*;

verus! {

/// Per-directory metadata, read from a sidecar file. Every field may be
/// absent; absence falls back to a default chosen by whoever reads it.
#[derive(Debug, Clone)]
pub struct Meta {
    pub title: Option<String>,
    /// Name of the page template to render through.
    pub extends: Option<String>,
    pub generate_digest: Option<bool>,
    pub omit_digest: Option<bool>,
    pub description: Option<String>,
    pub digest_description: Option<String>,
    pub keywords: Option<Vec<String>>,
    pub tags: Option<Vec<String>>,
    pub merge_tags_keywords: Option<bool>,
    /// Replaces the directory of a directory-index page in its output path.
    pub page_slug: Option<String>,
    pub digest_title: Option<String>,
}

impl Meta {
    /// Every field absent.
    pub open spec fn is_empty(&self) -> bool {
        &&& self.title is None
        &&& self.extends is None
        &&& self.generate_digest is None
        &&& self.omit_digest is None
        &&& self.description is None
        &&& self.digest_description is None
        &&& self.keywords is None
        &&& self.tags is None
        &&& self.merge_tags_keywords is None
        &&& self.page_slug is None
        &&& self.digest_title is None
    }

    /// The record with every field absent.
    pub fn empty() -> (r: Meta)
        ensures
            r.is_empty(),
    {
        Meta {
            title: None,
            extends: None,
            generate_digest: None,
            omit_digest: None,
            description: None,
            digest_description: None,
            keywords: None,
            tags: None,
            merge_tags_keywords: None,
            page_slug: None,
            digest_title: None,
        }
    }
}

impl Default for Meta {
    fn default() -> (r: Meta)
        ensures
            r.is_empty(),
    {
        Meta::empty()
    }
}

/// Whether a page gets a stripped markdown copy for the digest: an explicit
/// omit flag wins, then an explicit generate flag, then the build-wide default.
pub open spec fn copy_wanted(omit: Option<bool>, generate: Option<bool>, default: bool) -> bool {
    if omit == Some(true) {
        false
    } else if generate is Some {
        generate.unwrap()
    } else {
        default
    }
}

/// Decides whether the page described by `meta` gets a digest copy.
pub fn should_copy_markdown(meta: &Meta, default: bool) -> (r: bool)
    ensures
        r == copy_wanted(meta.omit_digest, meta.generate_digest, default),
{
    if let Some(true) = meta.omit_digest {
        false
    } else if let Some(g) = meta.generate_digest {
        g
    } else {
        default
    }
}

/// Digest-inclusion precedence: `omit_digest: true` means no copy whatever
/// `generate_digest` says; `generate_digest: false` without the omit flag
/// means no copy even when the build-wide default asks for one; with neither
/// flag the build-wide default decides.
pub proof fn lemma_copy_precedence(meta: Meta, default: bool)
    ensures
        meta.omit_digest == Some(true) ==> !copy_wanted(meta.omit_digest, meta.generate_digest, default),
        meta.omit_digest != Some(true) && meta.generate_digest == Some(false)
            ==> !copy_wanted(meta.omit_digest, meta.generate_digest, default),
        meta.omit_digest is None && meta.generate_digest is None
            ==> copy_wanted(meta.omit_digest, meta.generate_digest, default) == default,
{
}

} // verus!
