//! The two external collaborators the record pipeline leans on: the
//! thumbnail codec and EXIF tag extraction.  Both are pure functions of
//! their input bytes, reached through trusted wrappers; their results
//! are named, never restated.

use vstd::prelude::*;

use crate::record::{
    dedup_tags_spec, hash_opt_valid, record_valid, tags_view, Record, RecordError,
};

verus! {

/// What the thumbnail codec produces for RGB pixel data of the given
/// dimensions.
pub uninterp spec fn qoi_encoding(pixels: Seq<u8>, width: u32, height: u32) -> Seq<u8>;

/// What the thumbnail codec reads back out of a byte blob: dimensions
/// and pixel data, or nothing when the blob is not a valid encoding.
pub uninterp spec fn qoi_decoding(bytes: Seq<u8>) -> Option<(u32, u32, Seq<u8>)>;

/// Relies on `qoi::encode_to_vec`: the encoding is a pure function of
/// the pixel bytes and dimensions; on exact three-channel input of
/// valid dimensions it succeeds, its output begins with a header (so is
/// never empty), and decoding it losslessly restores dimensions and
/// pixels.
#[verifier::external_body]
fn qoi_encode_rgb(pixels: &Vec<u8>, width: u32, height: u32) -> (r: Vec<u8>)
    requires
        pixels@.len() == 3 * (width as nat) * (height as nat),
        1 <= (width as nat) * (height as nat) <= 400_000_000,
    ensures
        r@ == qoi_encoding(pixels@, width, height),
        qoi_decoding(r@) == Some((width, height, pixels@)),
        r@.len() > 0,
{
    qoi::encode_to_vec(pixels.as_slice(), width, height).unwrap()
}

/// Relies on `qoi::decode_to_vec`: decoding is a pure function of the
/// bytes, yielding the header's dimensions and the pixel data.
#[verifier::external_body]
fn qoi_decode(bytes: &Vec<u8>) -> (r: Option<(u32, u32, Vec<u8>)>)
    ensures
        r is Some <==> qoi_decoding(bytes@) is Some,
        r is Some ==> {
            let d = qoi_decoding(bytes@)->0;
            (r->0).0 == d.0 && (r->0).1 == d.1 && ((r->0).2)@ == d.2
        },
{
    match qoi::decode_to_vec(bytes.as_slice()) {
        Ok((header, px)) => Some((header.width, header.height, px)),
        Err(_) => None,
    }
}

/// What EXIF extraction reads out of raw image bytes: tag name/value
/// pairs, in the container's field order.
pub uninterp spec fn exif_tags(bytes: Seq<u8>) -> Seq<(Seq<char>, Seq<char>)>;

/// Relies on `exif::Reader::read_from_container` and the crate's tag
/// and value renderings: the extracted pairs are a pure function of the
/// raw bytes; extraction is best-effort and yields nothing on any
/// parse failure.
#[verifier::external_body]
fn extract_tags_raw(bytes: &Vec<u8>) -> (r: Vec<(String, String)>)
    ensures
        tags_view(r@) == exif_tags(bytes@),
{
    let mut cursor = std::io::Cursor::new(bytes.as_slice());
    match exif::Reader::new().read_from_container(&mut cursor) {
        Ok(data) => data.fields().map(
            |f| (f.tag.to_string(), f.display_value().to_string()),
        ).collect(),
        Err(_) => Vec::new(),
    }
}

impl Record {
    /// Assembles a transient record from a decoded image: compresses
    /// the RGB thumbnail pixels, extracts EXIF tags from the raw file
    /// bytes (names deduplicated, first occurrence winning), and
    /// validates path and hash vectors.  The thumbnail pixel data must
    /// exactly fill the stated thumbnail dimensions.
    pub fn from_decoded(
        filename: String,
        path: String,
        width: u32,
        height: u32,
        thumb_pixels: Vec<u8>,
        thumbnail_width: u32,
        thumbnail_height: u32,
        raw_bytes: &Vec<u8>,
        phash: Option<Vec<u8>>,
        visual_hash: Option<Vec<u8>>,
    ) -> (r: Result<Record, RecordError>)
        ensures
            !(thumb_pixels@.len() == 3 * (thumbnail_width as nat) * (thumbnail_height as nat) && 1
                <= (thumbnail_width as nat) * (thumbnail_height as nat) <= 400_000_000) ==> r
                == Err::<Record, RecordError>(RecordError::BadThumbnail),
            thumb_pixels@.len() == 3 * (thumbnail_width as nat) * (thumbnail_height as nat) && 1 <= (
            thumbnail_width as nat) * (thumbnail_height as nat) <= 400_000_000 && path@.len() == 0
                ==> r == Err::<Record, RecordError>(RecordError::EmptyPath),
            thumb_pixels@.len() == 3 * (thumbnail_width as nat) * (thumbnail_height as nat) && 1 <= (
            thumbnail_width as nat) * (thumbnail_height as nat) <= 400_000_000 && path@.len() > 0
                && !(hash_opt_valid(phash.deep_view()) && hash_opt_valid(visual_hash.deep_view()))
                ==> r == Err::<Record, RecordError>(RecordError::BadHashLength),
            thumb_pixels@.len() == 3 * (thumbnail_width as nat) * (thumbnail_height as nat) && 1 <= (
            thumbnail_width as nat) * (thumbnail_height as nat) <= 400_000_000 && path@.len() > 0
                && hash_opt_valid(phash.deep_view()) && hash_opt_valid(visual_hash.deep_view())
                ==> {
                &&& r is Ok
                &&& record_valid(r->Ok_0@)
                &&& r->Ok_0.id == 0
                &&& r->Ok_0.filename == filename
                &&& r->Ok_0.path == path
                &&& r->Ok_0.width == width
                &&& r->Ok_0.height == height
                &&& r->Ok_0.thumbnail@ == qoi_encoding(
                    thumb_pixels@,
                    thumbnail_width,
                    thumbnail_height,
                )
                &&& qoi_decoding(r->Ok_0.thumbnail@) == Some(
                    (thumbnail_width, thumbnail_height, thumb_pixels@),
                )
                &&& r->Ok_0.thumbnail_width == thumbnail_width
                &&& r->Ok_0.thumbnail_height == thumbnail_height
                &&& tags_view(r->Ok_0.tags@) == dedup_tags_spec(exif_tags(raw_bytes@))
                &&& r->Ok_0.phash == phash
                &&& r->Ok_0.visual_hash == visual_hash
                &&& r->Ok_0.distance_from_query is None
            },
    {
        let px_len = thumb_pixels.len();
        proof {
            assert((thumbnail_width as int) * (thumbnail_height as int)
                < 0x1_0000_0000_0000_0000int) by (nonlinear_arith)
                requires
                    thumbnail_width <= 0xFFFF_FFFFu32,
                    thumbnail_height <= 0xFFFF_FFFFu32,
            ;
        }
        let n_pixels = (thumbnail_width as u64) * (thumbnail_height as u64);
        proof {
            assert(3 * (thumbnail_width as int) * (thumbnail_height as int) == 3 * ((
            thumbnail_width as int) * (thumbnail_height as int))) by (nonlinear_arith);
        }
        if n_pixels < 1 || n_pixels > 400_000_000 || (px_len as u64) != 3 * n_pixels {
            return Err(RecordError::BadThumbnail);
        }
        let thumbnail = qoi_encode_rgb(&thumb_pixels, thumbnail_width, thumbnail_height);
        let tags = extract_tags_raw(raw_bytes);
        Record::from_parts(
            filename,
            path,
            width,
            height,
            thumbnail,
            thumbnail_width,
            thumbnail_height,
            tags,
            phash,
            visual_hash,
        )
    }

    /// Decodes the stored thumbnail back into its pixel data and
    /// dimensions; a blob the codec cannot read yields nothing.
    pub fn get_thumbnail(&self) -> (r: Option<(Vec<u8>, u32, u32)>)
        ensures
            r is Some <==> qoi_decoding(self.thumbnail@) is Some,
            r is Some ==> {
                let d = qoi_decoding(self.thumbnail@)->0;
                ((r->0).0)@ == d.2 && (r->0).1 == d.0 && (r->0).2 == d.1
            },
    {
        match qoi_decode(&self.thumbnail) {
            Option::Some((w, h, px)) => Some((px, w, h)),
            Option::None => None,
        }
    }
}

} // verus!
