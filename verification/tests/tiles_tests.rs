use xp::heightmap::{heightmap_indices, heightmap_samples, heightmap_window};
use xp::tiles::{
    add_mapping, classify_pixel, configuration_from_name, prebaked_tiles, Tile, TileConfiguration, TileMapping,
    TileType, Tiles,
};

const G: [u8; 3] = [0, 255, 0];
const S: [u8; 3] = [0, 0, 255];
const E: [u8; 3] = [255, 0, 0];

fn encode_png(width: u32, height: u32, pixels: &[[u8; 3]]) -> Vec<u8> {
    let raw: Vec<u8> = pixels.iter().flat_map(|p| p.iter().copied()).collect();
    let image = image::RgbImage::from_raw(width, height, raw).unwrap();
    let mut bytes = std::io::Cursor::new(Vec::new());
    image::DynamicImage::ImageRgb8(image).write_to(&mut bytes, image::ImageOutputFormat::Png).unwrap();
    bytes.into_inner()
}

fn sample_map() -> Vec<[u8; 3]> {
    vec![
        G, G, G, G, E, //
        G, S, S, G, G, //
        G, S, S, S, G, //
        G, G, S, G, G, //
        G, G, G, G, G, //
    ]
}

fn stone(configuration: TileConfiguration) -> Tile {
    Tile::new(TileType::Stone, configuration)
}

#[test]
fn pixels_classify_by_exact_colour() {
    assert_eq!(classify_pixel([0, 255, 0]), 0);
    assert_eq!(classify_pixel([0, 0, 255]), 1);
    assert_eq!(classify_pixel([0, 254, 0]), 255);
    assert_eq!(classify_pixel([1, 0, 255]), 255);
}

#[test]
fn tile_types_follow_the_neighbours() {
    let tiles = Tiles::from_pixels(5, 5, &sample_map());
    assert_eq!(tiles.get_tile_type(0, 0), (stone(TileConfiguration::NoSides), 0));
    assert_eq!(tiles.get_tile_type(-1, -1), (stone(TileConfiguration::Corner), 0));
    assert_eq!(tiles.get_tile_type(0, -1), (stone(TileConfiguration::Corner), 1));
    assert_eq!(tiles.get_tile_type(-1, 0), (stone(TileConfiguration::Corner), 3));
    assert_eq!(tiles.get_tile_type(1, 0), (stone(TileConfiguration::USide), 1));
    assert_eq!(tiles.get_tile_type(0, 1), (stone(TileConfiguration::USide), 2));
    assert_eq!(tiles.get_tile_type(2, 2), (Tile::new(TileType::Grass, TileConfiguration::NoSides), 0));
    assert_eq!(tiles.get_tile_type(2, -2), (Tile::new(TileType::Empty, TileConfiguration::NoSides), 0));
}

#[test]
fn every_turn_of_a_pattern_is_recognised() {
    // a 3x3 map whose centre is stone and whose four neighbours are set
    let cases: [([u32; 4], TileConfiguration, u32); 15] = [
        ([0, 0, 0, 0], TileConfiguration::All, 0),
        ([0, 0, 1, 1], TileConfiguration::Corner, 0),
        ([1, 0, 0, 1], TileConfiguration::Corner, 1),
        ([1, 1, 0, 0], TileConfiguration::Corner, 2),
        ([0, 1, 1, 0], TileConfiguration::Corner, 3),
        ([0, 0, 0, 1], TileConfiguration::USide, 0),
        ([1, 0, 0, 0], TileConfiguration::USide, 1),
        ([0, 1, 0, 0], TileConfiguration::USide, 2),
        ([0, 0, 1, 0], TileConfiguration::USide, 3),
        ([0, 1, 0, 1], TileConfiguration::BothSides, 0),
        ([1, 0, 1, 0], TileConfiguration::BothSides, 1),
        ([1, 0, 1, 1], TileConfiguration::OneSide, 0),
        ([1, 1, 0, 1], TileConfiguration::OneSide, 1),
        ([1, 1, 1, 0], TileConfiguration::OneSide, 2),
        ([0, 1, 1, 1], TileConfiguration::OneSide, 3),
    ];
    let colour = |v: u32| if v == 1 { S } else { G };
    for (pattern, configuration, turns) in cases {
        let [left, up, right, down] = pattern;
        let map = vec![
            G, colour(up), G, //
            colour(left), S, colour(right), //
            G, colour(down), G, //
        ];
        let tiles = Tiles::from_pixels(3, 3, &map);
        assert_eq!(tiles.get_tile_type(0, 0), (stone(configuration), turns));
    }
    // a neighbour that is neither grass nor stone gives no sides
    let map = vec![G, E, G, G, S, G, G, G, G];
    assert_eq!(Tiles::from_pixels(3, 3, &map).get_tile_type(0, 0), (stone(TileConfiguration::NoSides), 0));
}

#[test]
fn placements_visit_the_inner_cells_in_order() {
    let tiles = Tiles::from_pixels(5, 5, &sample_map());
    assert_eq!(
        tiles.tile_placements(),
        vec![
            (-1, -1, stone(TileConfiguration::Corner), 0),
            (-1, 0, stone(TileConfiguration::Corner), 3),
            (0, -1, stone(TileConfiguration::Corner), 1),
            (0, 0, stone(TileConfiguration::NoSides), 0),
        ]
    );
}

#[test]
fn tilemap_loads_from_png_bytes() {
    let bytes = encode_png(5, 5, &sample_map());
    let tiles = Tiles::load_tilemap(&bytes).expect("an RGB image");
    assert_eq!(tiles.get_tile_type(-1, -1), (stone(TileConfiguration::Corner), 0));
    assert_eq!(tiles.get_tile_type(2, -2), (Tile::new(TileType::Empty, TileConfiguration::NoSides), 0));
    assert_eq!(tiles.get_tile_type(2, 2), (Tile::new(TileType::Grass, TileConfiguration::NoSides), 0));
}

#[test]
fn tilemap_rejects_other_images() {
    assert!(Tiles::load_tilemap(&[1, 2, 3, 4]).is_none());
    let gray = image::GrayImage::from_raw(2, 2, vec![0, 1, 2, 3]).unwrap();
    let mut bytes = std::io::Cursor::new(Vec::new());
    image::DynamicImage::ImageLuma8(gray).write_to(&mut bytes, image::ImageOutputFormat::Png).unwrap();
    assert!(Tiles::load_tilemap(&bytes.into_inner()).is_none());
}

#[test]
fn mesh_names_select_configurations() {
    assert_eq!(configuration_from_name("nosides"), Some(TileConfiguration::NoSides));
    assert_eq!(configuration_from_name("oneside"), Some(TileConfiguration::OneSide));
    assert_eq!(configuration_from_name("bothsides"), Some(TileConfiguration::BothSides));
    assert_eq!(configuration_from_name("corner"), Some(TileConfiguration::Corner));
    assert_eq!(configuration_from_name("uside"), Some(TileConfiguration::USide));
    assert_eq!(configuration_from_name("all"), Some(TileConfiguration::All));
    assert_eq!(configuration_from_name("Corner"), None);
    assert_eq!(configuration_from_name(""), None);
}

#[test]
fn mapping_registers_named_meshes() {
    let mut mapping: TileMapping<u32> = TileMapping::new();
    for (i, tile) in prebaked_tiles().iter().enumerate() {
        mapping.insert(*tile, i as u32);
    }
    assert_eq!(mapping.get(&Tile::new(TileType::Grass, TileConfiguration::NoSides)), Some(1));
    assert_eq!(mapping.get(&stone(TileConfiguration::OneSide)), Some(7));
    add_mapping(&mut mapping, 20, TileType::Test, "corner");
    add_mapping(&mut mapping, 21, TileType::Test, "roof");
    add_mapping(&mut mapping, 22, TileType::Stone, "all");
    assert_eq!(mapping.get(&Tile::new(TileType::Test, TileConfiguration::Corner)), Some(20));
    assert_eq!(mapping.get(&Tile::new(TileType::Test, TileConfiguration::NoSides)), None);
    assert_eq!(mapping.get(&stone(TileConfiguration::All)), Some(22));
}

#[test]
fn prebaked_tiles_in_registration_order() {
    let tiles = prebaked_tiles();
    assert_eq!(tiles[0], Tile::new(TileType::Empty, TileConfiguration::NoSides));
    assert_eq!(tiles[1], Tile::new(TileType::Grass, TileConfiguration::NoSides));
    assert_eq!(tiles[2], stone(TileConfiguration::NoSides));
    assert_eq!(tiles[3], stone(TileConfiguration::All));
    assert_eq!(tiles[4], stone(TileConfiguration::USide));
    assert_eq!(tiles[5], stone(TileConfiguration::Corner));
    assert_eq!(tiles[6], stone(TileConfiguration::BothSides));
    assert_eq!(tiles[7], stone(TileConfiguration::OneSide));
}

#[test]
fn load_errors_wrap_the_mesh_error() {
    let e: xp::tiles::TileLoadError<&str> = "broken mesh".into();
    assert!(matches!(e, xp::tiles::TileLoadError::MeshLoadError("broken mesh")));
    let e: xp::tiles::WorldLoadError<u8> = 3u8.into();
    assert!(matches!(e, xp::tiles::WorldLoadError::MeshLoadError(3)));
}

#[test]
fn heightmap_samples_read_the_red_channel() {
    // a 4 by 3 image whose red value is 10 * column + row
    let mut pixels = Vec::new();
    for row in 0..3u8 {
        for column in 0..4u8 {
            pixels.push([10 * column + row, 200, 7]);
        }
    }
    let bytes = encode_png(4, 3, &pixels);
    // one cell from column 2, row 1 on: columns 2..=3, rows 1..=2, column by column
    assert_eq!(heightmap_samples(&bytes, 2, 1, 1), Some(vec![21, 22, 31, 32]));
    assert_eq!(heightmap_samples(&bytes, 0, 0, 2), Some(vec![0, 1, 2, 10, 11, 12, 20, 21, 22]));
    assert_eq!(heightmap_samples(&bytes, 3, 0, 1), None);
    assert_eq!(heightmap_samples(&bytes, 0, 1, 2), None);
    assert_eq!(heightmap_samples(&[0, 1, 2], 0, 0, 0), None);
    assert_eq!(heightmap_indices(0), Vec::<u32>::new());
    assert_eq!(heightmap_indices(2), (0..24).collect::<Vec<u32>>());
}

#[test]
fn heightmap_window_takes_columns_of_the_window() {
    // a 4 by 3 image, row by row, whose value is 10 * column + row
    let mut px = Vec::new();
    for row in 0..3u8 {
        for column in 0..4u8 {
            px.push(10 * column + row);
        }
    }
    assert_eq!(heightmap_window(4, 3, &px, 2, 1, 1), Some(vec![21, 22, 31, 32]));
    assert_eq!(heightmap_window(4, 3, &px, 1, 0, 0), Some(vec![10]));
    assert_eq!(heightmap_window(4, 3, &px, 3, 0, 1), None);
    assert_eq!(heightmap_window(4, 3, &px, 0, 1, 2), None);
}
