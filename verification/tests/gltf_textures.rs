use asf_kai::gltf_textures::{
    convert_gltf_texture, convert_gltf_textures, primitive_texture_name, push_decimal, stored_texture_file, GltfImage,
    GltfPixelFormat,
    TextureConvertError,
};

fn image(width: u32, height: u32, format: GltfPixelFormat, pixels: Vec<u8>) -> GltfImage {
    GltfImage { width, height, format, pixels }
}

fn decode(png: Vec<u8>) -> Vec<u8> {
    image::load_from_memory(&png).unwrap().to_rgba8().into_raw()
}

#[test]
fn rgba_image_is_stored_as_png_under_the_model_name() {
    let r = convert_gltf_texture(&"duck".to_string(), 0, &image(1, 1, GltfPixelFormat::R8G8B8A8, vec![1, 2, 3, 4]));
    let (name, png) = r.unwrap().unwrap();
    assert_eq!(name, "duck_texture_0.png");
    assert_eq!(&png[1..4], b"PNG");
    assert_eq!(decode(png), vec![1, 2, 3, 4]);
}

#[test]
fn rgb_image_gets_an_opaque_alpha_channel() {
    let r = convert_gltf_texture(&"m".to_string(), 12, &image(2, 1, GltfPixelFormat::R8G8B8, vec![9, 8, 7, 6, 5, 4]));
    let (name, png) = r.unwrap().unwrap();
    assert_eq!(name, "m_texture_12.png");
    assert_eq!(decode(png), vec![9, 8, 7, 255, 6, 5, 4, 255]);
}

#[test]
fn other_pixel_formats_are_skipped() {
    let r = convert_gltf_texture(&"m".to_string(), 1, &image(1, 1, GltfPixelFormat::Other, vec![0, 0]));
    assert_eq!(r, Ok(None));
}

#[test]
fn too_short_rgba_pixels_are_an_error() {
    let r = convert_gltf_texture(&"m".to_string(), 0, &image(2, 2, GltfPixelFormat::R8G8B8A8, vec![0; 8]));
    assert_eq!(r, Err(TextureConvertError::PixelsTooShort));
}

#[test]
fn too_short_rgb_pixels_are_an_error() {
    let r = convert_gltf_texture(&"m".to_string(), 0, &image(2, 2, GltfPixelFormat::R8G8B8, vec![0; 9]));
    assert_eq!(r, Err(TextureConvertError::RgbaPixelsTooShort));
}

#[test]
fn empty_image_is_refused_by_the_encoder() {
    let r = convert_gltf_texture(&"m".to_string(), 0, &image(0, 0, GltfPixelFormat::R8G8B8A8, vec![]));
    assert_eq!(r, Err(TextureConvertError::EncodeFailed));
}

#[test]
fn conversion_of_all_images_stops_at_the_first_error() {
    let images = vec![
        image(1, 1, GltfPixelFormat::R8G8B8A8, vec![1, 2, 3, 4]),
        image(1, 1, GltfPixelFormat::Other, vec![]),
        image(1, 1, GltfPixelFormat::R8G8B8A8, vec![1]),
        image(1, 1, GltfPixelFormat::R8G8B8A8, vec![1, 2, 3, 4]),
    ];
    assert_eq!(convert_gltf_textures(&"m".to_string(), &images), Err(TextureConvertError::PixelsTooShort));
}

#[test]
fn conversion_of_all_images_keeps_their_indices_in_the_names() {
    let images = vec![
        image(1, 1, GltfPixelFormat::Other, vec![]),
        image(1, 1, GltfPixelFormat::R8G8B8, vec![1, 2, 3]),
    ];
    let files = convert_gltf_textures(&"ship".to_string(), &images).unwrap();
    assert_eq!(files.len(), 1);
    assert_eq!(files[0].0, "ship_texture_1.png");
}

#[test]
fn primitive_names_the_stored_texture_file() {
    let stored = convert_gltf_texture(&"ship".to_string(), 3, &image(1, 1, GltfPixelFormat::R8G8B8A8, vec![0; 4]))
        .unwrap()
        .unwrap()
        .0;
    assert_eq!(primitive_texture_name(&"ship".to_string(), Some(3)), Some(stored));
    assert_eq!(primitive_texture_name(&"ship".to_string(), None), None);
}

#[test]
fn encoded_bytes_are_stored_under_the_texture_name() {
    let r = stored_texture_file(&"crate".to_string(), 7, Some(vec![1, 2, 3]));
    assert_eq!(r, Ok(Some(("crate_texture_7.png".to_string(), vec![1, 2, 3]))));
    assert_eq!(stored_texture_file(&"crate".to_string(), 7, None), Err(TextureConvertError::EncodeFailed));
}

#[test]
fn decimal_digits_are_appended() {
    let mut s = String::from("n");
    push_decimal(&mut s, 0);
    assert_eq!(s, "n0");
    push_decimal(&mut s, 1234);
    assert_eq!(s, "n01234");
    let mut t = String::new();
    push_decimal(&mut t, 1_000_000_007);
    assert_eq!(t, "1000000007");
}
