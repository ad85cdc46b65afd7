use asf_kai::gltf_textures::{convert_gltf_texture, GltfImage, GltfPixelFormat};
use asf_kai::name_table::TextureTable;
use asf_kai::textures::{
    fallback_texture, load_textures, prepare_texture_layers, LayerSource, TextureEntry, TextureLayer, TextureSet,
    TEXTURE_LAYER_SIZE,
};

fn png_of(width: u32, height: u32, rgba: Vec<u8>) -> Vec<u8> {
    let img = GltfImage { width, height, format: GltfPixelFormat::R8G8B8A8, pixels: rgba };
    let (_, png) = convert_gltf_texture(&"t".to_string(), 0, &img).unwrap().unwrap();
    png
}

#[test]
fn fallback_is_one_magenta_pixel() {
    let f = fallback_texture();
    assert_eq!((f.width, f.height), (1, 1));
    assert_eq!(f.rgba, vec![255, 0, 255, 255]);
}

#[test]
fn load_textures_puts_fallback_first_and_skips_undecodable_files() {
    let red = png_of(1, 1, vec![255, 0, 0, 255]);
    let blue = png_of(2, 1, vec![0, 0, 255, 255, 0, 0, 255, 128]);
    let entries = vec![
        TextureEntry { name: "red.png".to_string(), data: red.clone() },
        TextureEntry { name: "junk.png".to_string(), data: vec![1, 2, 3, 4] },
        TextureEntry { name: "blue.png".to_string(), data: blue.clone() },
    ];
    let set = load_textures(&entries);
    assert_eq!(set.texture_cpu_data.len(), 3);
    match &set.texture_cpu_data[0].source {
        LayerSource::Pixels(img) => assert_eq!(img.rgba, vec![255, 0, 255, 255]),
        LayerSource::File(_) => panic!("the fallback is held as pixels"),
    }
    assert_eq!((set.texture_cpu_data[1].width, set.texture_cpu_data[1].height), (1, 1));
    assert!(matches!(&set.texture_cpu_data[1].source, LayerSource::File(b) if *b == red));
    assert_eq!((set.texture_cpu_data[2].width, set.texture_cpu_data[2].height), (2, 1));
    assert!(matches!(&set.texture_cpu_data[2].source, LayerSource::File(b) if *b == blue));
    assert_eq!(set.texture_map.get(&"red.png".to_string()), Some(&1));
    assert_eq!(set.texture_map.get(&"blue.png".to_string()), Some(&2));
    assert_eq!(set.texture_map.get(&"junk.png".to_string()), None);
    assert_eq!(set.texture_map.len(), 2);
}

#[test]
fn load_textures_without_files_keeps_only_the_fallback() {
    let set = load_textures(&Vec::new());
    assert_eq!(set.texture_cpu_data.len(), 1);
    assert_eq!(set.texture_map.len(), 0);
}

#[test]
fn texture_map_layers_point_inside_the_array() {
    let entries = vec![
        TextureEntry { name: "a.png".to_string(), data: png_of(1, 1, vec![1, 2, 3, 4]) },
        TextureEntry { name: "b.png".to_string(), data: png_of(1, 1, vec![5, 6, 7, 8]) },
    ];
    let set = load_textures(&entries);
    for name in ["a.png", "b.png"] {
        let layer = *set.texture_map.get(&name.to_string()).unwrap() as usize;
        assert!(layer >= 1 && layer < set.texture_cpu_data.len());
    }
}

#[test]
fn texture_layers_fill_the_square_layer() {
    let fallback = TextureLayer { width: 1, height: 1, source: LayerSource::Pixels(fallback_texture()) };
    let layers = prepare_texture_layers(&vec![fallback]);
    assert_eq!(layers.len(), 1);
    assert_eq!((layers[0].width, layers[0].height), (TEXTURE_LAYER_SIZE, TEXTURE_LAYER_SIZE));
    assert_eq!(layers[0].rgba.len(), (TEXTURE_LAYER_SIZE * TEXTURE_LAYER_SIZE * 4) as usize);
    assert_eq!(&layers[0].rgba[0..4], &[255, 0, 255, 255]);
}

#[test]
fn texture_table_lookup() {
    let mut t = TextureTable::new();
    t.insert("x".to_string(), 3);
    t.insert("x".to_string(), 4);
    assert_eq!(t.get(&"x".to_string()), Some(&4));
    assert_eq!(t.len(), 1);
}

#[test]
fn decodable_files_become_the_next_layer() {
    let mut set = TextureSet::new();
    set.add_file("a.png".to_string(), vec![0, 1, 2]);
    assert_eq!(set.texture_cpu_data.len(), 1);
    set.add_file("b.png".to_string(), png_of(1, 1, vec![1, 2, 3, 4]));
    assert_eq!(set.texture_cpu_data.len(), 2);
    assert_eq!(set.texture_map.get(&"b.png".to_string()), Some(&1));
    assert_eq!(set.texture_map.get(&"a.png".to_string()), None);
}

#[test]
fn file_layers_are_resized_in_their_own_colour_type() {
    let mut pixels: Vec<u16> = Vec::new();
    for v in [0u16, 65535, 257, 40000, 1, 65534, 30000, 12345] {
        pixels.extend_from_slice(&[v, 65535 - v, v / 2, 65535]);
    }
    let img = image::ImageBuffer::<image::Rgba<u16>, Vec<u16>>::from_raw(4, 2, pixels).unwrap();
    let mut png = std::io::Cursor::new(Vec::new());
    image::DynamicImage::ImageRgba16(img).write_to(&mut png, image::ImageFormat::Png).unwrap();
    let png = png.into_inner();
    let set = load_textures(&vec![TextureEntry { name: "deep.png".to_string(), data: png.clone() }]);
    assert_eq!((set.texture_cpu_data[1].width, set.texture_cpu_data[1].height), (4, 2));
    let layers = prepare_texture_layers(&set.texture_cpu_data);
    let expected = image::load_from_memory(&png)
        .unwrap()
        .resize_to_fill(TEXTURE_LAYER_SIZE, TEXTURE_LAYER_SIZE, image::imageops::FilterType::Triangle)
        .to_rgba8()
        .into_raw();
    assert_eq!(layers[1].rgba, expected);
    assert_eq!((layers[1].width, layers[1].height), (TEXTURE_LAYER_SIZE, TEXTURE_LAYER_SIZE));
}
