//! CPU side of the texture array: reading the stored texture files, the
//! magenta fallback at layer 0, the name-to-layer map, and the per-layer
//! resize before upload.
use crate::name_table::TextureTable;
use vstd::prelude::*;

verus! {

/// A decoded texture as 8-bit RGBA rows, top row first.
#[derive(Clone, Debug)]
pub struct TextureImage {
    pub width: u32,
    pub height: u32,
    pub rgba: Vec<u8>,
}

pub ghost struct ImageView {
    pub width: u32,
    pub height: u32,
    pub rgba: Seq<u8>,
}

impl View for TextureImage {
    type V = ImageView;

    open spec fn view(&self) -> ImageView {
        ImageView { width: self.width, height: self.height, rgba: self.rgba@ }
    }
}

/// The pixel buffer holds exactly `width * height` RGBA pixels.
pub open spec fn image_consistent(img: ImageView) -> bool {
    img.rgba.len() == img.width * img.height * 4
}

/// A consistent image with at least one pixel.
pub open spec fn image_nonempty(img: ImageView) -> bool {
    image_consistent(img) && img.width >= 1 && img.height >= 1
}

/// The texture shown where a mesh names no texture or an unknown one: one
/// opaque magenta pixel.
pub open spec fn fallback_image() -> ImageView {
    ImageView { width: 1, height: 1, rgba: seq![255u8, 0u8, 255u8, 255u8] }
}

proof fn lemma_fallback_nonempty()
    ensures
        image_nonempty(fallback_image()),
{
    let img = fallback_image();
    assert(img.rgba.len() == 4);
    assert(img.width * img.height * 4 == 4) by (nonlinear_arith)
        requires
            img.width == 1,
            img.height == 1,
    ;
}

/// Width and height of the image that the `image` crate decodes from the
/// given file bytes, or `None` where it cannot decode them.
pub uninterp spec fn image_decode_size(bytes: Seq<u8>) -> Option<(u32, u32)>;

/// The image that the `image` crate's `resize_to_fill` with a triangle
/// filter makes of the given 8-bit RGBA image for the given target size,
/// converted to 8-bit RGBA.
pub uninterp spec fn image_resize_to_fill(img: ImageView, width: u32, height: u32) -> ImageView;

/// The image that the `image` crate's `resize_to_fill` with a triangle
/// filter makes, for the given target size, of the image decoded from the
/// given file bytes in its own colour type, converted to 8-bit RGBA
/// afterwards.
pub uninterp spec fn image_file_resize_to_fill(bytes: Seq<u8>, width: u32, height: u32) -> ImageView;

/// Calls `image::load_from_memory` (format guessed from the bytes) and, on
/// success, reads the decoded image's width and height.  Its contract claims
/// the named size for these bytes.
#[verifier::external_body]
fn decoded_size(bytes: &[u8]) -> (r: Option<(u32, u32)>)
    ensures
        r == image_decode_size(bytes@),
{
    match image::load_from_memory(bytes) {
        Ok(img) => Some((img.width(), img.height())),
        Err(_) => None,
    }
}

/// Calls `DynamicImage::resize_to_fill` with `FilterType::Triangle` on the
/// image rebuilt from its RGBA buffer by `RgbaImage::from_raw`, then
/// `to_rgba8`.  Its contract claims the named result for these arguments, and
/// that the result has exactly the target size with a buffer of that many
/// pixels, as the documentation of `resize_to_fill` states.
#[verifier::external_body]
fn resize_image_to_fill(img: &TextureImage, width: u32, height: u32) -> (r: TextureImage)
    requires
        image_nonempty(img@),
        width >= 1,
        height >= 1,
    ensures
        r@ == image_resize_to_fill(img@, width, height),
        r.width == width,
        r.height == height,
        image_consistent(r@),
{
    let buffer = image::RgbaImage::from_raw(img.width, img.height, img.rgba.clone()).unwrap();
    let resized = image::DynamicImage::ImageRgba8(buffer)
        .resize_to_fill(width, height, image::imageops::FilterType::Triangle)
        .to_rgba8();
    TextureImage { width: resized.width(), height: resized.height(), rgba: resized.into_raw() }
}

/// Decodes the file bytes with `image::load_from_memory`, calls
/// `DynamicImage::resize_to_fill` with `FilterType::Triangle` on the image in
/// its own colour type, then `to_rgba8`.  The bytes must decode (the decoding
/// is a function of the bytes, so a decoding that succeeded once succeeds
/// again) to an image with at least one pixel.  Its contract claims the named
/// result for these arguments, and that the result has exactly the target
/// size with a buffer of that many pixels.
#[verifier::external_body]
fn resize_file_to_fill(bytes: &[u8], width: u32, height: u32) -> (r: TextureImage)
    requires
        image_decode_size(bytes@) matches Some((w, h)) && w >= 1 && h >= 1,
        width >= 1,
        height >= 1,
    ensures
        r@ == image_file_resize_to_fill(bytes@, width, height),
        r.width == width,
        r.height == height,
        image_consistent(r@),
{
    let resized = image::load_from_memory(bytes)
        .unwrap()
        .resize_to_fill(width, height, image::imageops::FilterType::Triangle)
        .to_rgba8();
    TextureImage { width: resized.width(), height: resized.height(), rgba: resized.into_raw() }
}

/// The one-pixel magenta fallback texture.
pub fn fallback_texture() -> (r: TextureImage)
    ensures
        r@ == fallback_image(),
{
    let mut rgba: Vec<u8> = Vec::new();
    rgba.push(255);
    rgba.push(0);
    rgba.push(255);
    rgba.push(255);
    assert(rgba@ =~= seq![255u8, 0u8, 255u8, 255u8]);
    TextureImage { width: 1, height: 1, rgba }
}

/// Where the pixels of a texture layer come from.
pub enum LayerSource {
    /// 8-bit RGBA pixels, as the fallback is made.
    Pixels(TextureImage),
    /// An encoded texture file; it is decoded again, into its own colour
    /// type, when the layer is resized.
    File(Vec<u8>),
}

pub ghost enum LayerSourceView {
    Pixels(ImageView),
    File(Seq<u8>),
}

impl View for LayerSource {
    type V = LayerSourceView;

    open spec fn view(&self) -> LayerSourceView {
        match self {
            LayerSource::Pixels(img) => LayerSourceView::Pixels(img@),
            LayerSource::File(bytes) => LayerSourceView::File(bytes@),
        }
    }
}

/// One layer of the CPU texture data: its decoded size and its source.
pub struct TextureLayer {
    pub width: u32,
    pub height: u32,
    pub source: LayerSource,
}

pub ghost struct LayerView {
    pub width: u32,
    pub height: u32,
    pub source: LayerSourceView,
}

impl View for TextureLayer {
    type V = LayerView;

    open spec fn view(&self) -> LayerView {
        LayerView { width: self.width, height: self.height, source: self.source@ }
    }
}

/// The recorded size is the size of the source: the pixels' size, or the
/// size the file decodes to.
pub open spec fn layer_valid(l: LayerView) -> bool {
    match l.source {
        LayerSourceView::Pixels(img) => img.width == l.width && img.height == l.height && image_consistent(img),
        LayerSourceView::File(bytes) => image_decode_size(bytes) == Some((l.width, l.height)),
    }
}

/// A valid layer with at least one pixel.
pub open spec fn layer_nonempty(l: LayerView) -> bool {
    layer_valid(l) && l.width >= 1 && l.height >= 1
}

/// The fallback layer: the magenta pixel.
pub open spec fn fallback_layer() -> LayerView {
    LayerView { width: 1, height: 1, source: LayerSourceView::Pixels(fallback_image()) }
}

/// One stored texture file: its name and its encoded bytes.
pub struct TextureEntry {
    pub name: String,
    pub data: Vec<u8>,
}

pub ghost struct TextureEntryView {
    pub name: Seq<char>,
    pub data: Seq<u8>,
}

impl View for TextureEntry {
    type V = TextureEntryView;

    open spec fn view(&self) -> TextureEntryView {
        TextureEntryView { name: self.name@, data: self.data@ }
    }
}

pub open spec fn entries_view(entries: Seq<TextureEntry>) -> Seq<TextureEntryView> {
    entries.map_values(|e: TextureEntry| e@)
}

/// The layers and the name-to-layer map after one more file: a file that
/// decodes becomes the next layer and its name maps to that layer; a file
/// that does not decode changes nothing.
pub open spec fn with_file(
    loaded: (Seq<LayerView>, Map<Seq<char>, u32>),
    name: Seq<char>,
    bytes: Seq<u8>,
) -> (Seq<LayerView>, Map<Seq<char>, u32>) {
    match image_decode_size(bytes) {
        Some((w, h)) => (
            loaded.0.push(LayerView { width: w, height: h, source: LayerSourceView::File(bytes) }),
            loaded.1.insert(name, loaded.0.len() as u32),
        ),
        None => loaded,
    }
}

/// The texture layers and the name-to-layer map after reading `entries` in
/// order: the fallback first, then each file that decodes, recorded under its
/// name at the layer it was given; files that do not decode are skipped.
pub open spec fn loaded_textures(entries: Seq<TextureEntryView>) -> (Seq<LayerView>, Map<Seq<char>, u32>)
    decreases entries.len(),
{
    if entries.len() == 0 {
        (seq![fallback_layer()], Map::empty())
    } else {
        with_file(loaded_textures(entries.drop_last()), entries.last().name, entries.last().data)
    }
}

/// The CPU texture data: all layers in order, and the layer of each name.
pub struct TextureSet {
    pub texture_cpu_data: Vec<TextureLayer>,
    pub texture_map: TextureTable,
}

pub open spec fn layers_view(layers: Seq<TextureLayer>) -> Seq<LayerView> {
    layers.map_values(|l: TextureLayer| l@)
}

impl TextureSet {
    /// The layers and the name map.
    pub open spec fn loaded(&self) -> (Seq<LayerView>, Map<Seq<char>, u32>) {
        (layers_view(self.texture_cpu_data@), self.texture_map.spec_map())
    }

    /// The layers hold the fallback first, every layer is valid, and the map
    /// is well formed.
    pub open spec fn wf(&self) -> bool {
        &&& self.texture_map.wf()
        &&& self.texture_cpu_data@.len() >= 1
        &&& self.texture_cpu_data@[0]@ == fallback_layer()
        &&& forall|i: int| 0 <= i < self.texture_cpu_data@.len() ==> layer_valid(#[trigger] self.texture_cpu_data@[i]@)
    }

    /// Only the fallback layer, and no name.
    pub fn new() -> (r: TextureSet)
        ensures
            r.wf(),
            r.loaded() == (seq![fallback_layer()], Map::<Seq<char>, u32>::empty()),
    {
        let mut texture_cpu_data: Vec<TextureLayer> = Vec::new();
        let fallback = fallback_texture();
        texture_cpu_data.push(TextureLayer { width: 1, height: 1, source: LayerSource::Pixels(fallback) });
        proof {
            assert(layers_view(texture_cpu_data@) =~= seq![fallback_layer()]);
            lemma_fallback_nonempty();
        }
        TextureSet { texture_cpu_data, texture_map: TextureTable::new() }
    }

    /// Reads the texture file called `name`: if it decodes, it becomes the
    /// next layer and the name maps to that layer; otherwise nothing changes.
    pub fn add_file(&mut self, name: String, data: Vec<u8>)
        requires
            old(self).wf(),
        ensures
            final(self).wf(),
            final(self).loaded() == with_file(old(self).loaded(), name@, data@),
    {
        match decoded_size(data.as_slice()) {
            Some((w, h)) => {
                let layer = #[verifier::truncate] (self.texture_cpu_data.len() as u32);
                self.texture_map.insert(name, layer);
                let ghost before = self.texture_cpu_data@;
                let new_layer = TextureLayer { width: w, height: h, source: LayerSource::File(data) };
                self.texture_cpu_data.push(new_layer);
                proof {
                    assert(layers_view(self.texture_cpu_data@) =~= layers_view(before).push(new_layer@));
                    assert(self.texture_cpu_data@[before.len() as int] == new_layer);
                }
            },
            None => {},
        }
    }
}

/// Reads the stored texture files into texture layers behind the fallback
/// and maps each decodable file's name to its layer.
pub fn load_textures(entries: &Vec<TextureEntry>) -> (r: TextureSet)
    ensures
        r.wf(),
        r.loaded() == loaded_textures(entries_view(entries@)),
{
    let ghost ev = entries_view(entries@);
    let mut set = TextureSet::new();
    let mut k: usize = 0;
    while k < entries.len()
        invariant
            k <= entries@.len(),
            ev == entries_view(entries@),
            set.wf(),
            set.loaded() == loaded_textures(ev.take(k as int)),
        decreases entries@.len() - k,
    {
        let entry = &entries[k];
        proof {
            assert(ev.take(k as int + 1).drop_last() =~= ev.take(k as int));
            assert(ev.take(k as int + 1).last() == entry@);
        }
        set.add_file(entry.name.clone(), entry.data.clone());
        k = k + 1;
    }
    proof {
        assert(ev.take(k as int) =~= ev);
    }
    set
}

/// After loading, layer 0 is the fallback, there is at most one layer per
/// file behind it, and every texture name maps to a layer behind the
/// fallback that exists: a mesh's texture id never points past the array and
/// names the fallback only when its texture is missing.
pub proof fn lemma_texture_layers_in_range(entries: Seq<TextureEntryView>)
    requires
        entries.len() < u32::MAX,
    ensures
        loaded_textures(entries).0.len() >= 1,
        loaded_textures(entries).0.len() <= entries.len() + 1,
        loaded_textures(entries).0[0] == fallback_layer(),
        forall|name: Seq<char>|
            #[trigger] loaded_textures(entries).1.contains_key(name) ==> 1 <= loaded_textures(entries).1[name]
                < loaded_textures(entries).0.len(),
    decreases entries.len(),
{
    if entries.len() > 0 {
        let rest = entries.drop_last();
        lemma_texture_layers_in_range(rest);
        let (layers, map) = loaded_textures(rest);
        match image_decode_size(entries.last().data) {
            Some((w, h)) => {
                let l = LayerView { width: w, height: h, source: LayerSourceView::File(entries.last().data) };
                assert(layers.len() as u32 == layers.len());
                assert(layers.push(l)[0] == layers[0]);
                assert forall|name: Seq<char>| #[trigger] loaded_textures(entries).1.contains_key(name) implies 1
                    <= loaded_textures(entries).1[name] < loaded_textures(entries).0.len() by {
                    if name != entries.last().name {
                        assert(map.contains_key(name));
                    }
                }
            },
            None => {},
        }
    }
}

/// Side of the square texture layers on the GPU.
pub const TEXTURE_LAYER_SIZE: u32 = 2048;

/// What resizing a layer's source to fill a `width` by `height` layer gives,
/// as 8-bit RGBA: the fallback's pixels are resized as they are; a file is
/// decoded and resized in its own colour type, then converted.
pub open spec fn layer_resized(source: LayerSourceView, width: u32, height: u32) -> ImageView {
    match source {
        LayerSourceView::Pixels(img) => image_resize_to_fill(img, width, height),
        LayerSourceView::File(bytes) => image_file_resize_to_fill(bytes, width, height),
    }
}

/// Every layer resized to fill a [`TEXTURE_LAYER_SIZE`]-square layer, in order.
pub fn prepare_texture_layers(layers: &Vec<TextureLayer>) -> (r: Vec<TextureImage>)
    requires
        forall|i: int| 0 <= i < layers@.len() ==> layer_nonempty(#[trigger] layers@[i]@),
    ensures
        r@.len() == layers@.len(),
        forall|i: int|
            0 <= i < layers@.len() ==> #[trigger] r@[i]@ == layer_resized(
                layers@[i]@.source,
                TEXTURE_LAYER_SIZE,
                TEXTURE_LAYER_SIZE,
            ),
        forall|i: int|
            0 <= i < r@.len() ==> #[trigger] r@[i].width == TEXTURE_LAYER_SIZE && r@[i].height == TEXTURE_LAYER_SIZE,
{
    let mut out: Vec<TextureImage> = Vec::new();
    let mut k: usize = 0;
    while k < layers.len()
        invariant
            k <= layers@.len(),
            out@.len() == k,
            forall|i: int| 0 <= i < layers@.len() ==> layer_nonempty(#[trigger] layers@[i]@),
            forall|i: int|
                0 <= i < k ==> #[trigger] out@[i]@ == layer_resized(
                    layers@[i]@.source,
                    TEXTURE_LAYER_SIZE,
                    TEXTURE_LAYER_SIZE,
                ),
            forall|i: int|
                0 <= i < k ==> #[trigger] out@[i].width == TEXTURE_LAYER_SIZE && out@[i].height
                    == TEXTURE_LAYER_SIZE,
        decreases layers@.len() - k,
    {
        assert(layer_nonempty(layers@[k as int]@));
        let resized = match &layers[k].source {
            LayerSource::Pixels(img) => resize_image_to_fill(img, TEXTURE_LAYER_SIZE, TEXTURE_LAYER_SIZE),
            LayerSource::File(bytes) => resize_file_to_fill(bytes.as_slice(), TEXTURE_LAYER_SIZE, TEXTURE_LAYER_SIZE),
        };
        out.push(resized);
        k = k + 1;
    }
    out
}

} // verus!
