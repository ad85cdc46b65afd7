//! The images embedded in a glTF file, stored as PNG files named after their
//! model: RGBA images are encoded as they are, RGB ones are first given an
//! opaque alpha channel, images in any other pixel format are skipped.
use crate::gltf_mesh::{rgb_to_rgba, rgba_from_rgb};
use image::ImageEncoder;
use vstd::prelude::*;

verus! {

/// The pixel layouts the converter tells apart.
#[derive(Clone, Copy, Debug, PartialEq, Eq)]
pub enum GltfPixelFormat {
    R8G8B8,
    R8G8B8A8,
    Other,
}

/// One decoded glTF image: size, pixel layout and raw pixel bytes.
pub struct GltfImage {
    pub width: u32,
    pub height: u32,
    pub format: GltfPixelFormat,
    pub pixels: Vec<u8>,
}

pub ghost struct GltfImageView {
    pub width: u32,
    pub height: u32,
    pub format: GltfPixelFormat,
    pub pixels: Seq<u8>,
}

impl View for GltfImage {
    type V = GltfImageView;

    open spec fn view(&self) -> GltfImageView {
        GltfImageView { width: self.width, height: self.height, format: self.format, pixels: self.pixels@ }
    }
}

/// Why an embedded image could not be stored.
#[derive(Clone, Copy, Debug, PartialEq, Eq)]
pub enum TextureConvertError {
    /// An RGBA image holds fewer bytes than its size needs.
    PixelsTooShort,
    /// An RGB image, once expanded to RGBA, holds fewer bytes than its size needs.
    RgbaPixelsTooShort,
    /// The PNG encoder refused the image.
    EncodeFailed,
}

/// The decimal digits of `n`, most significant first.
pub open spec fn decimal(n: nat) -> Seq<char>
    decreases n,
{
    if n < 10 {
        seq![(48 + n) as char]
    } else {
        decimal(n / 10).push((48 + n % 10) as char)
    }
}

/// The file name under which image `idx` of a model is stored.
pub open spec fn texture_name(model_name: Seq<char>, idx: nat) -> Seq<char> {
    model_name + seq!['_', 't', 'e', 'x', 't', 'u', 'r', 'e', '_'] + decimal(idx) + seq!['.', 'p', 'n', 'g']
}

/// The one-character string of decimal digit `d`.
fn digit_str(d: usize) -> (r: &'static str)
    requires
        d < 10,
    ensures
        r@ == seq![(48 + d) as char],
{
    proof {
        reveal_strlit("0");
        reveal_strlit("1");
        reveal_strlit("2");
        reveal_strlit("3");
        reveal_strlit("4");
        reveal_strlit("5");
        reveal_strlit("6");
        reveal_strlit("7");
        reveal_strlit("8");
        reveal_strlit("9");
    }
    let r = if d == 0 {
        "0"
    } else if d == 1 {
        "1"
    } else if d == 2 {
        "2"
    } else if d == 3 {
        "3"
    } else if d == 4 {
        "4"
    } else if d == 5 {
        "5"
    } else if d == 6 {
        "6"
    } else if d == 7 {
        "7"
    } else if d == 8 {
        "8"
    } else {
        "9"
    };
    assert(r@ =~= seq![(48 + d) as char]);
    r
}

/// Appends the decimal digits of `n` to `s`.
pub fn push_decimal(s: &mut String, n: usize)
    ensures
        final(s)@ == old(s)@ + decimal(n as nat),
    decreases n,
{
    if n >= 10 {
        push_decimal(s, n / 10);
    }
    s.append(digit_str(n % 10));
    proof {
        if n < 10 {
            assert(decimal(n as nat) == seq![(48 + n) as char]);
        } else {
            assert(decimal(n as nat) == decimal((n / 10) as nat).push((48 + n % 10) as char));
        }
    }
    assert(s@ =~= old(s)@ + decimal(n as nat));
}

/// The stored file name `{model_name}_texture_{idx}.png`.
fn texture_file_name(model_name: &String, idx: usize) -> (r: String)
    ensures
        r@ == texture_name(model_name@, idx as nat),
{
    proof {
        reveal_strlit("_texture_");
        reveal_strlit(".png");
        assert("_texture_"@ =~= seq!['_', 't', 'e', 'x', 't', 'u', 'r', 'e', '_']);
        assert(".png"@ =~= seq!['.', 'p', 'n', 'g']);
    }
    let mut name = model_name.clone();
    name.append("_texture_");
    push_decimal(&mut name, idx);
    name.append(".png");
    name
}

/// The PNG file that the `image` crate's `PngEncoder` writes for an RGBA
/// image of this size and these pixels, or `None` where it reports an error.
pub uninterp spec fn png_encode_rgba(width: u32, height: u32, rgba: Seq<u8>) -> Option<Seq<u8>>;

/// Calls `ImageEncoder::write_image` of `image::codecs::png::PngEncoder` with
/// `ExtendedColorType::Rgba8` into a fresh byte vector.  Its contract claims
/// the named result of these arguments; `requires` rules out the buffer
/// lengths on which `write_image` panics.
#[verifier::external_body]
fn encode_png_rgba(width: u32, height: u32, rgba: &[u8]) -> (r: Option<Vec<u8>>)
    requires
        rgba@.len() == width * height * 4,
    ensures
        opt_bytes_view(r) == png_encode_rgba(width, height, rgba@),
{
    let mut png: Vec<u8> = Vec::new();
    match image::codecs::png::PngEncoder::new(&mut png).write_image(rgba, width, height, image::ExtendedColorType::Rgba8) {
        Ok(()) => Some(png),
        Err(_) => None,
    }
}

/// The RGBA bytes that are stored for an image of a supported layout.
pub open spec fn rgba_of(img: GltfImageView) -> Seq<u8> {
    match img.format {
        GltfPixelFormat::R8G8B8 => rgba_from_rgb(img.pixels),
        _ => img.pixels,
    }
}

/// The inputs on which the conversion does not panic: the RGBA bytes of a
/// supported image are not longer than its size needs.
pub open spec fn convertible(img: GltfImageView) -> bool {
    img.format != GltfPixelFormat::Other ==> rgba_of(img).len() <= img.width * img.height * 4
}

/// What storing image `idx` of a model gives: nothing for an unsupported
/// layout, the error of a too short pixel buffer or of the encoder, else the
/// file name and the PNG bytes.
pub open spec fn converted_texture(model_name: Seq<char>, idx: nat, img: GltfImageView) -> Result<
    Option<(Seq<char>, Seq<u8>)>,
    TextureConvertError,
> {
    if img.format == GltfPixelFormat::Other {
        Ok(None)
    } else if rgba_of(img).len() < img.width * img.height * 4 {
        if img.format == GltfPixelFormat::R8G8B8 {
            Err(TextureConvertError::RgbaPixelsTooShort)
        } else {
            Err(TextureConvertError::PixelsTooShort)
        }
    } else {
        stored_file(model_name, idx, png_encode_rgba(img.width, img.height, rgba_of(img)))
    }
}

/// The stored file for image `idx` of a model given what the PNG encoder
/// returned: the file name and the PNG bytes, or the encoder's failure.
pub open spec fn stored_file(model_name: Seq<char>, idx: nat, png: Option<Seq<u8>>) -> Result<
    Option<(Seq<char>, Seq<u8>)>,
    TextureConvertError,
> {
    match png {
        Some(bytes) => Ok(Some((texture_name(model_name, idx), bytes))),
        None => Err(TextureConvertError::EncodeFailed),
    }
}

pub open spec fn opt_bytes_view(v: Option<Vec<u8>>) -> Option<Seq<u8>> {
    match v {
        Some(b) => Some(b@),
        None => None,
    }
}

/// Names the encoded file of image `idx` of a model, or reports that the
/// encoder refused it.
pub fn stored_texture_file(model_name: &String, idx: usize, png: Option<Vec<u8>>) -> (r: Result<
    Option<(String, Vec<u8>)>,
    TextureConvertError,
>)
    ensures
        converted_view(r) == stored_file(model_name@, idx as nat, opt_bytes_view(png)),
{
    match png {
        Some(bytes) => Ok(Some((texture_file_name(model_name, idx), bytes))),
        None => Err(TextureConvertError::EncodeFailed),
    }
}

pub open spec fn opt_file_view(r: Option<(String, Vec<u8>)>) -> Option<(Seq<char>, Seq<u8>)> {
    match r {
        Some((name, png)) => Some((name@, png@)),
        None => None,
    }
}

pub open spec fn converted_view(r: Result<Option<(String, Vec<u8>)>, TextureConvertError>) -> Result<
    Option<(Seq<char>, Seq<u8>)>,
    TextureConvertError,
> {
    match r {
        Ok(f) => Ok(opt_file_view(f)),
        Err(e) => Err(e),
    }
}

/// Converts image `idx` of a model into a stored PNG file.
pub fn convert_gltf_texture(model_name: &String, idx: usize, image: &GltfImage) -> (r: Result<
    Option<(String, Vec<u8>)>,
    TextureConvertError,
>)
    requires
        convertible(image@),
    ensures
        converted_view(r) == converted_texture(model_name@, idx as nat, image@),
{
    let rgba = match image.format {
        GltfPixelFormat::R8G8B8 => rgb_to_rgba(&image.pixels),
        GltfPixelFormat::R8G8B8A8 => image.pixels.clone(),
        GltfPixelFormat::Other => {
            return Ok(None);
        },
    };
    assert(rgba@ == rgba_of(image@));
    let w = image.width as u128;
    let h = image.height as u128;
    assert(w * h <= 0xffff_ffff_ffff_ffff_ffff_ffff) by (nonlinear_arith)
        requires
            w <= 0xffff_ffff,
            h <= 0xffff_ffff,
    ;
    let needed: u128 = w * h * 4;
    if (rgba.len() as u128) < needed {
        return match image.format {
            GltfPixelFormat::R8G8B8 => Err(TextureConvertError::RgbaPixelsTooShort),
            _ => Err(TextureConvertError::PixelsTooShort),
        };
    }
    let png = encode_png_rgba(image.width, image.height, rgba.as_slice());
    stored_texture_file(model_name, idx, png)
}

/// The texture name a primitive records: the stored file name of the image
/// its base colour texture samples, if it has one.
pub fn primitive_texture_name(model_name: &String, image_index: Option<usize>) -> (r: Option<String>)
    ensures
        match image_index {
            Some(i) => r matches Some(name) && name@ == texture_name(model_name@, i as nat),
            None => r is None,
        },
{
    match image_index {
        Some(i) => Some(texture_file_name(model_name, i)),
        None => None,
    }
}

/// A primitive that samples image `i` of a model records exactly the name
/// under which that image is stored, so the renderer finds its texture.
pub proof fn lemma_primitive_names_stored_file(model_name: Seq<char>, i: nat, img: GltfImageView)
    requires
        converted_texture(model_name, i, img) matches Ok(Some(file)),
    ensures
        converted_texture(model_name, i, img) matches Ok(Some(file)) && file.0 == texture_name(model_name, i),
{
}

/// The files stored for the first images of a model, or the first error.
pub open spec fn converted_textures(model_name: Seq<char>, images: Seq<GltfImageView>) -> Result<
    Seq<(Seq<char>, Seq<u8>)>,
    TextureConvertError,
>
    decreases images.len(),
{
    if images.len() == 0 {
        Ok(Seq::empty())
    } else {
        match converted_textures(model_name, images.drop_last()) {
            Err(e) => Err(e),
            Ok(files) => match converted_texture(model_name, (images.len() - 1) as nat, images.last()) {
                Err(e) => Err(e),
                Ok(None) => Ok(files),
                Ok(Some(f)) => Ok(files.push(f)),
            },
        }
    }
}

pub open spec fn gltf_images_view(images: Seq<GltfImage>) -> Seq<GltfImageView> {
    images.map_values(|i: GltfImage| i@)
}

pub open spec fn files_view(files: Seq<(String, Vec<u8>)>) -> Seq<(Seq<char>, Seq<u8>)> {
    files.map_values(|f: (String, Vec<u8>)| (f.0@, f.1@))
}

/// Converts all images of a model, in order, into stored PNG files; stops at
/// the first image that cannot be stored.
pub fn convert_gltf_textures(model_name: &String, images: &Vec<GltfImage>) -> (r: Result<
    Vec<(String, Vec<u8>)>,
    TextureConvertError,
>)
    requires
        forall|i: int| 0 <= i < images@.len() ==> convertible(#[trigger] images@[i]@),
    ensures
        match r {
            Ok(files) => converted_textures(model_name@, gltf_images_view(images@)) == Ok::<
                Seq<(Seq<char>, Seq<u8>)>,
                TextureConvertError,
            >(files_view(files@)),
            Err(e) => converted_textures(model_name@, gltf_images_view(images@)) == Err::<
                Seq<(Seq<char>, Seq<u8>)>,
                TextureConvertError,
            >(e),
        },
{
    let ghost iv = gltf_images_view(images@);
    let mut files: Vec<(String, Vec<u8>)> = Vec::new();
    let mut k: usize = 0;
    proof {
        assert(iv.take(0) =~= Seq::<GltfImageView>::empty());
        assert(files_view(files@) =~= Seq::<(Seq<char>, Seq<u8>)>::empty());
    }
    while k < images.len()
        invariant
            k <= images@.len(),
            iv == gltf_images_view(images@),
            forall|i: int| 0 <= i < images@.len() ==> convertible(#[trigger] images@[i]@),
            converted_textures(model_name@, iv.take(k as int)) == Ok::<
                Seq<(Seq<char>, Seq<u8>)>,
                TextureConvertError,
            >(files_view(files@)),
        decreases images@.len() - k,
    {
        proof {
            assert(iv.take(k as int + 1).drop_last() =~= iv.take(k as int));
            assert(iv.take(k as int + 1).last() == images@[k as int]@);
        }
        match convert_gltf_texture(model_name, k, &images[k]) {
            Err(e) => {
                proof {
                    lemma_converted_error_sticks(model_name@, iv, k as int + 1, e);
                }
                return Err(e);
            },
            Ok(None) => {},
            Ok(Some(file)) => {
                let ghost before = files@;
                files.push(file);
                proof {
                    assert(files_view(files@) =~= files_view(before).push((file.0@, file.1@)));
                }
            },
        }
        k = k + 1;
    }
    proof {
        assert(iv.take(k as int) =~= iv);
    }
    Ok(files)
}

/// Once the conversion of a prefix fails, the conversion of the whole list
/// fails with the same error.
proof fn lemma_converted_error_sticks(model_name: Seq<char>, images: Seq<GltfImageView>, n: int, e: TextureConvertError)
    requires
        0 <= n <= images.len(),
        converted_textures(model_name, images.take(n)) == Err::<Seq<(Seq<char>, Seq<u8>)>, TextureConvertError>(e),
    ensures
        converted_textures(model_name, images) == Err::<Seq<(Seq<char>, Seq<u8>)>, TextureConvertError>(e),
    decreases images.len() - n,
{
    if n < images.len() {
        assert(images.take(n + 1).drop_last() =~= images.take(n));
        lemma_converted_error_sticks(model_name, images, n + 1, e);
    } else {
        assert(images.take(n) =~= images);
    }
}

} // verus!
