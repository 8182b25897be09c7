//! Crawl classification rules: which filesystem entries the pipeline
//! extracts, which it unpacks, and which it drops, plus the recursive
//! pattern the discovery task builds from each watched glob.

use vstd::prelude::*;

use crate::text::{seq_eq_ci, str_eq_ci};

verus! {

/// What the crawler does with a discovered entry.
#[derive(Clone, Copy, Debug, PartialEq, Eq, Structural)]
pub enum EntryKind {
    /// A supported image: queued for extraction.
    ImageFile,
    /// A zip archive: its entries are examined in place.
    Archive,
    /// Anything else: dropped, not even queued.
    Unsupported,
}

/// The supported image extensions, compared ASCII-case-insensitively.
pub open spec fn is_supported_image_ext(e: Seq<char>) -> bool {
    ||| seq_eq_ci(e, "png"@)
    ||| seq_eq_ci(e, "bmp"@)
    ||| seq_eq_ci(e, "jpg"@)
    ||| seq_eq_ci(e, "jpeg"@)
    ||| seq_eq_ci(e, "jfif"@)
    ||| seq_eq_ci(e, "gif"@)
    ||| seq_eq_ci(e, "tiff"@)
    ||| seq_eq_ci(e, "pnm"@)
    ||| seq_eq_ci(e, "webp"@)
    ||| seq_eq_ci(e, "ico"@)
    ||| seq_eq_ci(e, "tga"@)
    ||| seq_eq_ci(e, "exr"@)
}

/// How an entry with the given extension is classified: `zip` is an
/// archive, the supported image extensions are images, everything else
/// is dropped.
pub open spec fn classify_spec(ext: Seq<char>) -> EntryKind {
    if seq_eq_ci(ext, "zip"@) {
        EntryKind::Archive
    } else if is_supported_image_ext(ext) {
        EntryKind::ImageFile
    } else {
        EntryKind::Unsupported
    }
}

fn is_image_ext(ext: &str) -> (r: bool)
    ensures
        r == is_supported_image_ext(ext@),
{
    str_eq_ci(ext, "png") || str_eq_ci(ext, "bmp") || str_eq_ci(ext, "jpg") || str_eq_ci(
        ext,
        "jpeg",
    ) || str_eq_ci(ext, "jfif") || str_eq_ci(ext, "gif") || str_eq_ci(ext, "tiff") || str_eq_ci(
        ext,
        "pnm",
    ) || str_eq_ci(ext, "webp") || str_eq_ci(ext, "ico") || str_eq_ci(ext, "tga") || str_eq_ci(
        ext,
        "exr",
    )
}

/// Classifies a filesystem entry by its extension (without the dot),
/// ASCII-case-insensitively.
pub fn classify_extension(ext: &str) -> (k: EntryKind)
    ensures
        k == classify_spec(ext@),
{
    if str_eq_ci(ext, "zip") {
        EntryKind::Archive
    } else if is_image_ext(ext) {
        EntryKind::ImageFile
    } else {
        EntryKind::Unsupported
    }
}

/// `s` ends with `suffix`, character for character.
pub open spec fn ends_with_spec(s: Seq<char>, suffix: Seq<char>) -> bool {
    s.len() >= suffix.len() && s.subrange(s.len() - suffix.len(), s.len() as int) == suffix
}

fn ends_with_str(s: &str, suffix: &str) -> (r: bool)
    ensures
        r == ends_with_spec(s@, suffix@),
{
    let n = s.unicode_len();
    let m = suffix.unicode_len();
    if m > n {
        return false;
    }
    let mut j: usize = 0;
    while j < m
        invariant
            n == s@.len(),
            m == suffix@.len(),
            m <= n,
            0 <= j <= m,
            forall|t: int| 0 <= t < j ==> s@[n - m + t] == suffix@[t],
        decreases m - j,
    {
        if s.get_char(n - m + j) != suffix.get_char(j) {
            proof {
                let sub = s@.subrange(n - m, n as int);
                assert(sub[j as int] == s@[n - m + j]);
            }
            return false;
        }
        j = j + 1;
    }
    proof {
        let sub = s@.subrange(n - m, n as int);
        assert forall|t: int| 0 <= t < m implies sub[t] == suffix@[t] by {
            assert(sub[t] == s@[n - m + t]);
        }
        assert(sub =~= suffix@);
    }
    true
}

/// A zip entry name counts as an image when it ends in one of the
/// supported extensions, compared case-sensitively and without
/// requiring a dot before it.
pub open spec fn zip_entry_supported(name: Seq<char>) -> bool {
    ||| ends_with_spec(name, "png"@)
    ||| ends_with_spec(name, "bmp"@)
    ||| ends_with_spec(name, "jpg"@)
    ||| ends_with_spec(name, "jpeg"@)
    ||| ends_with_spec(name, "jfif"@)
    ||| ends_with_spec(name, "gif"@)
    ||| ends_with_spec(name, "tiff"@)
    ||| ends_with_spec(name, "pnm"@)
    ||| ends_with_spec(name, "webp"@)
    ||| ends_with_spec(name, "ico"@)
    ||| ends_with_spec(name, "tga"@)
    ||| ends_with_spec(name, "exr"@)
}

/// Whether a zip entry's name marks it as a supported image.
pub fn is_supported_zip_entry(name: &str) -> (r: bool)
    ensures
        r == zip_entry_supported(name@),
{
    ends_with_str(name, "png") || ends_with_str(name, "bmp") || ends_with_str(name, "jpg")
        || ends_with_str(name, "jpeg") || ends_with_str(name, "jfif") || ends_with_str(name, "gif")
        || ends_with_str(name, "tiff") || ends_with_str(name, "pnm") || ends_with_str(name, "webp")
        || ends_with_str(name, "ico") || ends_with_str(name, "tga") || ends_with_str(name, "exr")
}

/// The discovery pattern built from a watched glob: the glob, a
/// recursive wildcard, and a file wildcard, joined by the separator.
pub open spec fn recursive_pattern_spec(g: Seq<char>, sep: char) -> Seq<char> {
    g + seq![sep] + "**"@ + seq![sep] + "*.*"@
}

/// Builds the recursive discovery pattern for one watched glob.
pub fn expand_glob_pattern(g: &str, sep: char) -> (r: String)
    ensures
        r@ == recursive_pattern_spec(g@, sep),
{
    let mut out = g.to_owned();
    out.push(sep);
    out.append("**");
    out.push(sep);
    out.append("*.*");
    proof {
        assert(out@ =~= recursive_pattern_spec(g@, sep));
    }
    out
}

} // verus!
