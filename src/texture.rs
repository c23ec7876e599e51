use vstd::prelude::*;
use crate::asset::{Asset, EqTexture, LabeledAsset, WrapMode, labels_of};
use crate::label::{texture_label, texture_label_spec};

verus! {

#[verifier::external_type_specification]
#[verifier::external_body]
pub struct ExImageError(image::ImageError);

/// What decoding `bytes` as a bitmap gives: width, height and RGBA8 pixels,
/// or nothing when the bytes are not a bitmap.
pub uninterp spec fn bmp_rgba8(bytes: Seq<u8>) -> Option<(u32, u32, Seq<u8>)>;

/// Relies on image::load_from_memory_with_format (BMP) followed by
/// DynamicImage::into_rgba8: the outcome depends on the bytes alone.
#[verifier::external_body]
fn decode_bmp(bytes: &[u8]) -> (r: Result<(u32, u32, Vec<u8>), image::ImageError>)
    ensures
        r is Ok <==> bmp_rgba8(bytes@) is Some,
        r is Ok ==> (r->Ok_0.0, r->Ok_0.1, r->Ok_0.2@) == bmp_rgba8(bytes@)->Some_0,
{
    let image = image::load_from_memory_with_format(bytes, image::ImageFormat::Bmp)?.into_rgba8();
    Ok((image.width(), image.height(), image.into_raw()))
}

/// Whether `t` is the texture made from decoded RGBA8 pixels.
pub open spec fn texture_from(t: EqTexture, width: u32, height: u32, data: Seq<u8>) -> bool {
    &&& t.width == width
    &&& t.height == height
    &&& t.data@ == data
    &&& t.wrap_u == WrapMode::MirrorRepeat
    &&& t.wrap_v == WrapMode::MirrorRepeat
}

/// The texture asset for decoded RGBA8 pixels, mirrored on both axes.
pub fn build_texture(width: u32, height: u32, data: Vec<u8>) -> (t: EqTexture)
    ensures
        texture_from(t, width, height, data@),
{
    EqTexture {
        width,
        height,
        data,
        wrap_u: WrapMode::MirrorRepeat,
        wrap_v: WrapMode::MirrorRepeat,
    }
}

/// Decodes the bitmap entry `name` and registers its texture under
/// `Texture[name]`. Fails, registering nothing, when the bytes do not decode.
pub fn load_bmp(reg: &mut Vec<LabeledAsset>, name: &str, bytes: &[u8]) -> (r: Option<String>)
    ensures
        r is Some <==> bmp_rgba8(bytes@) is Some,
        r is None ==> final(reg)@ == old(reg)@,
        r is Some ==> {
            let (w, h, data) = bmp_rgba8(bytes@)->Some_0;
            &&& r->Some_0@ == texture_label_spec(name@)
            &&& final(reg)@.len() == old(reg)@.len() + 1
            &&& final(reg)@.drop_last() == old(reg)@
            &&& labels_of(final(reg)@) == labels_of(old(reg)@).push(texture_label_spec(name@))
            &&& final(reg)@.last().label@ == texture_label_spec(name@)
            &&& final(reg)@.last().asset is Texture
            &&& texture_from(final(reg)@.last().asset->Texture_0, w, h, data)
        },
{
    match decode_bmp(bytes) {
        Ok((width, height, data)) => {
            let label = texture_label(name);
            let texture = build_texture(width, height, data);
            reg.push(LabeledAsset { label: label.clone(), asset: Asset::Texture(texture) });
            assert(final(reg)@.drop_last() =~= old(reg)@);
            assert(labels_of(final(reg)@) =~= labels_of(old(reg)@).push(label@));
            Some(label)
        },
        Err(_) => None,
    }
}

} // verus!
