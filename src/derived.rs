use vstd::prelude::*;

use crate::entity::{
    app_namespace, string_views, EntityDraft, EntityView, StringAnnotation, APP_NAMESPACE, ENTITY_BTL,
};
use crate::error::BlobError;
use crate::query::{decimal_text, push_decimal};

verus! {

/// Side of the square thumbnail derived from every upload, in pixels.
pub const THUMBNAIL_SIDE: u32 = 100;

/// The JPEG bytes of the image in `blob` resized to fill `width` by `height`
/// with the Lanczos3 filter, or `None` where decoding or encoding fails.
pub uninterp spec fn jpeg_thumbnail_of(blob: Seq<u8>, width: u32, height: u32) -> Option<Seq<u8>>;

pub open spec fn bytes_view(o: Option<Vec<u8>>) -> Option<Seq<u8>> {
    match o {
        Some(v) => Some(v@),
        None => None,
    }
}

/// Relies on image's `load_from_memory`, `DynamicImage::resize_to_fill` with
/// `FilterType::Lanczos3` and `DynamicImage::write_to` with
/// `ImageFormat::Jpeg`, taken together as one transform: its outcome depends
/// on the bytes and the target size alone.
#[verifier::external_body]
fn jpeg_thumbnail(blob: &Vec<u8>, width: u32, height: u32) -> (r: Option<Vec<u8>>)
    requires
        width >= 1,
        height >= 1,
    ensures
        bytes_view(r) == jpeg_thumbnail_of(blob@, width, height),
{
    let img = image::load_from_memory(blob).ok()?;
    let small = img.resize_to_fill(width, height, image::imageops::FilterType::Lanczos3);
    let mut out = std::io::Cursor::new(Vec::new());
    small.write_to(&mut out, image::ImageFormat::Jpeg).ok()?;
    Some(out.into_inner())
}

/// The `resize` annotation text, such as `100x100`.
pub open spec fn resize_text(width: u32, height: u32) -> Seq<char> {
    decimal_text(width as nat).push('x') + decimal_text(height as nat)
}

/// The thumbnail entity of the upload rooted at `root_key`.
pub open spec fn thumbnail_view(
    thumbnail: Seq<u8>,
    root_key: Seq<char>,
    filename: Seq<char>,
    width: u32,
    height: u32,
) -> EntityView {
    EntityView {
        data: thumbnail,
        btl: ENTITY_BTL,
        strings: seq![
            ("parent"@, root_key),
            ("type"@, "thumbnail"@),
            ("app"@, app_namespace()),
            ("resize"@, resize_text(width, height)),
            ("filename"@, "thumb_"@ + filename),
            ("mime-type"@, "image/jpeg"@),
        ],
        numbers: Seq::empty(),
    }
}

/// Builds the thumbnail entity from thumbnail bytes already produced.
pub fn thumbnail_entity(
    thumbnail: Vec<u8>,
    root_key: &str,
    filename: &str,
    width: u32,
    height: u32,
) -> (r: EntityDraft)
    ensures
        r@ == thumbnail_view(thumbnail@, root_key@, filename@, width, height),
{
    let mut resize = String::new();
    push_decimal(&mut resize, width as u64);
    resize.append("x");
    proof {
        reveal_strlit("x");
    }
    push_decimal(&mut resize, height as u64);
    assert(resize@ =~= resize_text(width, height));
    let mut thumb_name = String::from_str("thumb_");
    thumb_name.append(filename);
    let mut strings: Vec<StringAnnotation> = Vec::new();
    strings.push(StringAnnotation::new("parent", root_key));
    strings.push(StringAnnotation::new("type", "thumbnail"));
    strings.push(StringAnnotation::new("app", APP_NAMESPACE));
    strings.push(StringAnnotation { key: String::from_str("resize"), value: resize });
    strings.push(StringAnnotation { key: String::from_str("filename"), value: thumb_name });
    strings.push(StringAnnotation::new("mime-type", "image/jpeg"));
    let r = EntityDraft {
        data: thumbnail,
        btl: ENTITY_BTL,
        string_annotations: strings,
        numeric_annotations: Vec::new(),
    };
    assert(r@.strings =~= thumbnail_view(thumbnail@, root_key@, filename@, width, height).strings);
    assert(r@.numbers =~= Seq::<(Seq<char>, u64)>::empty());
    r
}

/// Derives the square thumbnail of the whole uploaded blob and builds the
/// entity that links it to the root. Fails exactly when the image cannot be
/// decoded or the thumbnail cannot be encoded.
pub fn derive_thumbnail(blob: &Vec<u8>, root_key: &str, filename: &str) -> (r: Result<
    EntityDraft,
    BlobError,
>)
    ensures
        match jpeg_thumbnail_of(blob@, THUMBNAIL_SIDE, THUMBNAIL_SIDE) {
            Some(t) => r matches Ok(e) && e@ == thumbnail_view(
                t,
                root_key@,
                filename@,
                THUMBNAIL_SIDE,
                THUMBNAIL_SIDE,
            ),
            None => r matches Err(BlobError::DerivedArtifactFailed),
        },
{
    match jpeg_thumbnail(blob, THUMBNAIL_SIDE, THUMBNAIL_SIDE) {
        Some(t) => Ok(thumbnail_entity(t, root_key, filename, THUMBNAIL_SIDE, THUMBNAIL_SIDE)),
        None => Err(BlobError::DerivedArtifactFailed),
    }
}

} // verus!

verus! {

/// The value of the first annotation in `s` with key `key`, if any.
pub open spec fn first_string(s: Seq<(Seq<char>, Seq<char>)>, key: Seq<char>) -> Option<
    Seq<char>,
>
    decreases s.len(),
{
    if s.len() == 0 {
        None
    } else if s[0].0 == key {
        Some(s[0].1)
    } else {
        first_string(s.drop_first(), key)
    }
}

/// The root key text that a derived artifact (or a non-root chunk) names in
/// its first `parent` annotation.
pub fn parent_of(strings: &Vec<StringAnnotation>) -> (r: Option<String>)
    ensures
        match first_string(string_views(strings@), "parent"@) {
            Some(p) => r matches Some(s) && s@ == p,
            None => r is None,
        },
{
    let wanted = "parent".to_string();
    let mut i: usize = 0;
    assert(string_views(strings@).skip(0) =~= string_views(strings@));
    while i < strings.len()
        invariant
            i <= strings.len(),
            wanted@ == "parent"@,
            first_string(string_views(strings@), "parent"@) == first_string(
                string_views(strings@).skip(i as int),
                "parent"@,
            ),
        decreases strings.len() - i,
    {
        let ghost rest = string_views(strings@).skip(i as int);
        assert(rest.drop_first() =~= string_views(strings@).skip(i + 1));
        if strings[i].key == wanted {
            return Some(strings[i].value.clone());
        }
        i += 1;
    }
    None
}

} // verus!
