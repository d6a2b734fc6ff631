use max2_assets::error::FormatError;
use max2_assets::grid::RgbGrid;
use max2_assets::wld::{
    check_wld_file_header, color_sector, extract_wld, height_level, read_chunk_order,
    render_heightmap, render_map, render_minimap, render_sector_types, Surface,
};

fn palette() -> [u8; 768] {
    let mut colors = [0u8; 768];
    for i in 0..256 {
        colors[3 * i] = (i as u8).wrapping_mul(3);
        colors[3 * i + 1] = i as u8;
        colors[3 * i + 2] = 255 - i as u8;
    }
    colors
}

fn rgb(i: u8) -> [u8; 3] {
    [i.wrapping_mul(3), i, 255 - i]
}

fn shape(image: &RgbGrid) -> (u32, u32) {
    (image.width(), image.height())
}

fn pixel(image: &RgbGrid, x: u32, y: u32) -> [u8; 3] {
    let at = ((y * image.width() + x) * 3) as usize;
    let samples = image.samples();
    [samples[at], samples[at + 1], samples[at + 2]]
}

struct Terrain {
    width: u16,
    height: u16,
    minimap: Vec<u8>,
    order: Vec<u16>,
    heights: Vec<u16>,
    count: u16,
    sectors: Vec<u8>,
    types: Vec<u8>,
}

fn map(width: u16, height: u16) -> Terrain {
    let cells = width as usize * height as usize;
    let vertices = (width as usize + 1) * (height as usize + 1);
    Terrain {
        width,
        height,
        minimap: (0..cells).map(|i| (i + 10) as u8).collect(),
        order: (0..cells as u16).collect(),
        heights: (0..vertices).map(|i| (i * 40) as u16).collect(),
        count: cells as u16,
        sectors: (0..cells).flat_map(|k| vec![(k + 1) as u8; 1024]).collect(),
        types: vec![0; 4 * (width as usize / 2) * (height as usize / 2)],
    }
}

fn file(map: &Terrain) -> Vec<u8> {
    let mut bytes = b"WLD".to_vec();
    bytes.extend([0x77, 0x77]);
    bytes.extend(map.width.to_le_bytes());
    bytes.extend(map.height.to_le_bytes());
    bytes.extend(&map.minimap);
    for entry in &map.order {
        bytes.extend(entry.to_le_bytes());
    }
    for vertex in &map.heights {
        bytes.extend(vertex.to_le_bytes());
    }
    bytes.extend(map.count.to_le_bytes());
    bytes.extend(&map.sectors);
    bytes.extend(palette());
    bytes.extend(&map.types);
    bytes
}

#[test]
fn terrain_is_known_by_its_magic() {
    assert_eq!(check_wld_file_header(b"WLD"), Ok(()));
    assert_eq!(check_wld_file_header(b"WLD and more"), Ok(()));
    assert_eq!(check_wld_file_header(b"WL"), Err(FormatError::BadMagic));
    assert_eq!(check_wld_file_header(b"RES0"), Err(FormatError::BadMagic));
    assert_eq!(extract_wld(b"RES0 is no map").err(), Some(FormatError::BadMagic));
    assert_eq!(extract_wld(b"").err(), Some(FormatError::BadMagic));
}

#[test]
fn height_above_255_shows_as_255() {
    assert_eq!(height_level(300), 255);
    assert_eq!(height_level(256), 255);
    assert_eq!(height_level(65535), 255);
    assert_eq!(height_level(255), 255);
    assert_eq!(height_level(254), 254);
    assert_eq!(height_level(0), 0);
}

#[test]
fn heightmap_has_one_grey_pixel_for_each_vertex() {
    let mut bytes = vec![0xccu8; 3];
    for vertex in [0u16, 1, 300, 255, 256, 77] {
        bytes.extend(vertex.to_le_bytes());
    }
    let image = render_heightmap(2, 1, &bytes, 3).unwrap();
    assert_eq!(shape(&image), (3, 2));
    assert_eq!(
        image.samples(),
        vec![0, 0, 0, 1, 1, 1, 255, 255, 255, 255, 255, 255, 255, 255, 255, 77, 77, 77]
    );
    assert_eq!(render_heightmap(2, 1, &bytes, 4).err(), Some(FormatError::Truncated));
    assert_eq!(render_heightmap(2, 2, &bytes, 3).err(), Some(FormatError::Truncated));
    assert_eq!(render_heightmap(u32::MAX, 0, &bytes, 3).err(), Some(FormatError::Corrupt));
    assert_eq!(render_heightmap(0, u32::MAX, &bytes, 3).err(), Some(FormatError::Corrupt));
    assert_eq!(render_heightmap(0, 0, &bytes, u64::MAX).err(), Some(FormatError::Truncated));
}

#[test]
fn minimap_has_one_pixel_for_each_sector() {
    let colors = palette();
    let image = render_minimap(2, 2, &[4, 5, 6, 7], &colors).unwrap();
    assert_eq!(shape(&image), (2, 2));
    let mut expected = Vec::new();
    for i in 4..8 {
        expected.extend(rgb(i));
    }
    assert_eq!(image.samples(), expected);
    assert_eq!(render_minimap(2, 2, &[4, 5, 6], &colors).err(), Some(FormatError::Truncated));
}

#[test]
fn chunk_order_is_the_stored_order_turned_round() {
    let mut bytes = vec![0u8; 2];
    for entry in [2u16, 0, 3, 1] {
        bytes.extend(entry.to_le_bytes());
    }
    assert_eq!(read_chunk_order(&bytes, 2, 4), Ok(vec![1, 3, 0, 2]));
    assert_eq!(read_chunk_order(&bytes, 2, 0), Ok(vec![]));
    assert_eq!(read_chunk_order(&bytes, 3, 4), Err(FormatError::Truncated));
    assert_eq!(read_chunk_order(&bytes, 2, 5), Err(FormatError::Truncated));
}

#[test]
fn chunk_order_ignores_entries_that_name_no_cell() {
    let mut bytes = Vec::new();
    for entry in [9u16, 1, 1, 4] {
        bytes.extend(entry.to_le_bytes());
    }
    assert_eq!(read_chunk_order(&bytes, 0, 4), Ok(vec![0, 2, 0, 0]));
}

#[test]
fn sector_colours_are_looked_up_one_by_one() {
    let colors = palette();
    assert_eq!(color_sector(&[1, 200], &colors), [rgb(1), rgb(200)].concat());
    assert_eq!(color_sector(&[], &colors), Vec::<u8>::new());
}

#[test]
fn sectors_are_placed_by_the_chunk_order() {
    let colors = palette();
    let sectors: Vec<u8> = (0..4).flat_map(|k| vec![k + 1; 1024]).collect();
    let image = render_map(2, 2, &vec![0, 1, 2, 3], &sectors, 0, &colors).unwrap();
    assert_eq!(shape(&image), (64, 64));
    assert_eq!(pixel(&image, 0, 0), rgb(1));
    assert_eq!(pixel(&image, 31, 31), rgb(1));
    assert_eq!(pixel(&image, 32, 0), rgb(2));
    assert_eq!(pixel(&image, 63, 31), rgb(2));
    assert_eq!(pixel(&image, 0, 32), rgb(3));
    assert_eq!(pixel(&image, 32, 32), rgb(4));
    assert_eq!(pixel(&image, 63, 63), rgb(4));
    let turned = render_map(2, 2, &vec![3, 2, 1, 0], &sectors, 0, &colors).unwrap();
    assert_eq!(pixel(&turned, 0, 0), rgb(4));
    assert_eq!(pixel(&turned, 32, 0), rgb(3));
    assert_eq!(pixel(&turned, 0, 32), rgb(2));
    assert_eq!(pixel(&turned, 32, 32), rgb(1));
}

#[test]
fn sector_keeps_its_own_rows_and_columns() {
    let colors = palette();
    let sector: Vec<u8> = (0..1024).map(|i| (i % 251) as u8).collect();
    let image = render_map(1, 1, &vec![0], &sector, 0, &colors).unwrap();
    assert_eq!(pixel(&image, 5, 0), rgb(5));
    assert_eq!(pixel(&image, 0, 1), rgb(32));
    assert_eq!(pixel(&image, 31, 31), rgb((1023 % 251) as u8));
}

#[test]
fn cell_row_divides_by_the_height_and_column_by_the_width() {
    let colors = palette();
    let sectors: Vec<u8> = (0..3).flat_map(|k| vec![k + 1; 1024]).collect();
    let image = render_map(3, 2, &vec![0, 2, 3], &sectors, 0, &colors).unwrap();
    assert_eq!(shape(&image), (96, 64));
    assert_eq!(pixel(&image, 0, 0), rgb(1));
    assert_eq!(pixel(&image, 64, 0), [0, 0, 0]);
    assert_eq!(pixel(&image, 64, 32), rgb(2));
    assert_eq!(pixel(&image, 32, 0), [0, 0, 0]);
    assert_eq!(pixel(&image, 0, 32), rgb(3));
    let tall = render_map(2, 3, &vec![5], &sectors, 0, &colors).unwrap();
    assert_eq!(pixel(&tall, 32, 32), rgb(1));
    assert_eq!(pixel(&tall, 32, 64), [0, 0, 0]);
}

#[test]
fn cell_shows_the_last_sector_that_names_it() {
    let colors = palette();
    let sectors: Vec<u8> = (0..3).flat_map(|k| vec![k + 1; 1024]).collect();
    let image = render_map(2, 2, &vec![1, 0, 1], &sectors, 0, &colors).unwrap();
    assert_eq!(pixel(&image, 32, 0), rgb(3));
    assert_eq!(pixel(&image, 63, 31), rgb(3));
    assert_eq!(pixel(&image, 0, 0), rgb(2));
    assert_eq!(pixel(&image, 0, 32), [0, 0, 0]);
    assert_eq!(pixel(&image, 32, 32), [0, 0, 0]);
}

#[test]
fn sector_outside_the_map_is_corrupt() {
    let colors = palette();
    let sectors = vec![1u8; 2048];
    let place = |w: u32, h: u32, order: Vec<u32>| render_map(w, h, &order, &sectors, 0, &colors).err();
    assert_eq!(place(3, 2, vec![4]), Some(FormatError::Corrupt));
    assert_eq!(place(3, 2, vec![0, 5]), Some(FormatError::Corrupt));
    assert_eq!(place(2, 2, vec![0, 4]), Some(FormatError::Corrupt));
    assert_eq!(place(0, 2, vec![0]), Some(FormatError::Corrupt));
    assert_eq!(place(2, 0, vec![0]), Some(FormatError::Corrupt));
    assert_eq!(place(0x0800_0000, 1, vec![]), Some(FormatError::Corrupt));
    assert_eq!(place(2, 2, vec![0, 1]), None);
    assert_eq!(place(2, 2, vec![0, 1, 2]), Some(FormatError::Truncated));
    assert_eq!(place(0, 0, vec![]), None);
}

#[test]
fn surface_tags_have_their_colours() {
    assert_eq!(Surface::from_tag(0), Ok(Surface::Grass));
    assert_eq!(Surface::from_tag(1), Ok(Surface::Water));
    assert_eq!(Surface::from_tag(2), Ok(Surface::Shore));
    assert_eq!(Surface::from_tag(3), Ok(Surface::Block));
    assert_eq!(Surface::from_tag(4), Ok(Surface::Slower));
    assert_eq!(Surface::from_tag(5), Ok(Surface::Slowest));
    assert_eq!(Surface::from_tag(6), Err(FormatError::UnknownType));
    assert_eq!(Surface::from_tag(255), Err(FormatError::UnknownType));
    assert_eq!(Surface::Grass.color(), (49, 97, 8));
    assert_eq!(Surface::Water.color(), (24, 73, 107));
    assert_eq!(Surface::Shore.color(), (82, 158, 206));
    assert_eq!(Surface::Block.color(), (206, 32, 0));
    assert_eq!(Surface::Slower.color(), (189, 186, 16));
    assert_eq!(Surface::Slowest.color(), (231, 142, 24));
}

#[test]
fn surface_types_are_stored_as_four_quarters() {
    let mut bytes = vec![0u8; 5];
    bytes.extend([0, 1, 2, 3]);
    bytes.extend([1, 1, 1, 1]);
    bytes.extend([2, 2, 7, 2]);
    bytes.extend([5, 4, 3, 9]);
    let types = render_sector_types(4, 4, &bytes, 5).unwrap();
    assert_eq!(shape(&types.image), (4, 4));
    assert_eq!(types.unknown, vec![7, 9]);
    let grass = [49, 97, 8];
    let water = [24, 73, 107];
    let shore = [82, 158, 206];
    let block = [206, 32, 0];
    let rows = [
        [grass, water, water, water],
        [shore, block, water, water],
        [shore, shore, [231, 142, 24], [189, 186, 16]],
        [[0, 0, 0], shore, block, [0, 0, 0]],
    ];
    for y in 0..4 {
        for x in 0..4 {
            assert_eq!(pixel(&types.image, x, y), rows[y as usize][x as usize]);
        }
    }
}

#[test]
fn odd_edges_leave_a_black_border() {
    let types = render_sector_types(3, 3, &[1, 2, 3, 4], 0).unwrap();
    assert_eq!(types.unknown, Vec::<u8>::new());
    assert_eq!(pixel(&types.image, 0, 0), [24, 73, 107]);
    assert_eq!(pixel(&types.image, 1, 0), [82, 158, 206]);
    assert_eq!(pixel(&types.image, 0, 1), [206, 32, 0]);
    assert_eq!(pixel(&types.image, 1, 1), [189, 186, 16]);
    for at in [(2, 0), (2, 1), (0, 2), (1, 2), (2, 2)] {
        assert_eq!(pixel(&types.image, at.0, at.1), [0, 0, 0]);
    }
    let empty = render_sector_types(1, 1, &[], 0).unwrap();
    assert_eq!(empty.image.samples(), vec![0, 0, 0]);
}

#[test]
fn quarter_tags_lie_row_by_row() {
    let mut bytes = Vec::new();
    bytes.extend([1, 9, 3, 0, 200, 5]);
    bytes.extend([0, 0, 1, 0, 0, 0]);
    bytes.extend([2, 2, 2, 3, 3, 3]);
    bytes.extend([4, 0, 0, 0, 0, 5]);
    let types = render_sector_types(6, 4, &bytes, 0).unwrap();
    assert_eq!(shape(&types.image), (6, 4));
    assert_eq!(types.unknown, vec![9, 200]);
    let grass = [49, 97, 8];
    let water = [24, 73, 107];
    let shore = [82, 158, 206];
    let block = [206, 32, 0];
    let slower = [189, 186, 16];
    let slowest = [231, 142, 24];
    let black = [0, 0, 0];
    let rows = [
        [water, black, block, grass, grass, water],
        [grass, black, slowest, grass, grass, grass],
        [shore, shore, shore, slower, grass, grass],
        [block, block, block, grass, grass, slowest],
    ];
    for y in 0..4 {
        for x in 0..6 {
            assert_eq!(pixel(&types.image, x, y), rows[y as usize][x as usize]);
        }
    }
}

#[test]
fn map_higher_than_wide_has_its_surface_types() {
    let types = render_sector_types(2, 4, &[0, 1, 2, 3, 4, 5, 1, 0], 0).unwrap();
    assert_eq!(shape(&types.image), (2, 4));
    assert_eq!(types.unknown, Vec::<u8>::new());
    let expected = [
        [[49, 97, 8], [82, 158, 206]],
        [[24, 73, 107], [206, 32, 0]],
        [[189, 186, 16], [24, 73, 107]],
        [[231, 142, 24], [49, 97, 8]],
    ];
    for y in 0..4 {
        for x in 0..2 {
            assert_eq!(pixel(&types.image, x, y), expected[y as usize][x as usize]);
        }
    }
    let mut tall = map(2, 4);
    tall.order = vec![0; 8];
    tall.types = vec![0, 1, 2, 3, 4, 5, 1, 0];
    let terrain = extract_wld(&file(&tall)).unwrap();
    assert_eq!(shape(&terrain.types.image), (2, 4));
    assert_eq!(pixel(&terrain.types.image, 1, 1), [206, 32, 0]);
    assert_eq!(pixel(&terrain.types.image, 0, 3), [231, 142, 24]);
    assert_eq!(shape(&terrain.minimap), (2, 4));
    assert_eq!(shape(&terrain.heightmap), (3, 5));
}

#[test]
fn surface_types_must_be_whole() {
    let bytes = vec![0u8; 32];
    assert!(render_sector_types(4, 4, &bytes, 16).is_ok());
    assert_eq!(render_sector_types(4, 4, &bytes, 17).err(), Some(FormatError::Truncated));
    assert_eq!(render_sector_types(6, 6, &bytes, 0).err(), Some(FormatError::Truncated));
    assert_eq!(render_sector_types(4, 4, &bytes, u64::MAX).err(), Some(FormatError::Truncated));
    assert!(render_sector_types(2, 8, &bytes, 0).is_ok());
    assert!(render_sector_types(4, 6, &bytes, 0).is_ok());
    assert!(render_sector_types(8, 4, &bytes, 0).is_ok());
    assert!(render_sector_types(1, 9, &bytes, 0).is_ok());
}

#[test]
fn terrain_decodes_to_its_five_images() {
    let mut source = map(2, 2);
    source.heights[4] = 300;
    source.types = vec![3, 1, 6, 0];
    let terrain = extract_wld(&file(&source)).unwrap();
    assert_eq!((terrain.width, terrain.height), (2, 2));
    assert_eq!(shape(&terrain.heightmap), (3, 3));
    assert_eq!(pixel(&terrain.heightmap, 1, 0), [40, 40, 40]);
    assert_eq!(pixel(&terrain.heightmap, 1, 1), [255, 255, 255]);
    assert_eq!(pixel(&terrain.heightmap, 0, 1), [120, 120, 120]);
    assert_eq!(terrain.palette.samples(), palette().to_vec());
    assert_eq!(shape(&terrain.minimap), (2, 2));
    assert_eq!(pixel(&terrain.minimap, 1, 1), rgb(13));
    assert_eq!(shape(&terrain.map), (64, 64));
    assert_eq!(pixel(&terrain.map, 0, 0), rgb(1));
    assert_eq!(pixel(&terrain.map, 32, 0), rgb(2));
    assert_eq!(pixel(&terrain.map, 0, 32), rgb(3));
    assert_eq!(pixel(&terrain.map, 32, 32), rgb(4));
    assert_eq!(shape(&terrain.types.image), (2, 2));
    assert_eq!(pixel(&terrain.types.image, 0, 0), [206, 32, 0]);
    assert_eq!(pixel(&terrain.types.image, 1, 0), [24, 73, 107]);
    assert_eq!(pixel(&terrain.types.image, 0, 1), [0, 0, 0]);
    assert_eq!(pixel(&terrain.types.image, 1, 1), [49, 97, 8]);
    assert_eq!(terrain.types.unknown, vec![6]);
}

#[test]
fn stored_order_tells_where_each_sector_goes() {
    let mut source = map(2, 2);
    source.order = vec![2, 0, 3, 1];
    let terrain = extract_wld(&file(&source)).unwrap();
    assert_eq!(pixel(&terrain.map, 32, 0), rgb(1));
    assert_eq!(pixel(&terrain.map, 32, 32), rgb(2));
    assert_eq!(pixel(&terrain.map, 0, 0), rgb(3));
    assert_eq!(pixel(&terrain.map, 0, 32), rgb(4));
}

#[test]
fn palette_lies_behind_the_counted_sectors() {
    let mut source = map(1, 1);
    source.count = 3;
    source.sectors = vec![9u8; 3 * 1024];
    source.types = vec![];
    let terrain = extract_wld(&file(&source)).unwrap();
    assert_eq!(terrain.palette.samples(), palette().to_vec());
    assert_eq!(pixel(&terrain.map, 0, 0), rgb(9));
    assert_eq!(pixel(&terrain.minimap, 0, 0), rgb(10));
    source.count = 2;
    let early = extract_wld(&file(&source)).unwrap();
    assert_eq!(early.palette.samples(), vec![9u8; 768]);
    assert_eq!(pixel(&early.minimap, 0, 0), [9, 9, 9]);
}

#[test]
fn terrain_must_be_whole() {
    let source = map(2, 2);
    let bytes = file(&source);
    assert!(extract_wld(&bytes).is_ok());
    for cut in [3, 8, 12, 20, 38, 40, 41 + 4096, 41 + 4096 + 767, bytes.len() - 1] {
        assert_eq!(extract_wld(&bytes[..cut]).err(), Some(FormatError::Truncated));
    }
    let wide = map(4, 2);
    assert_eq!(extract_wld(&file(&wide)).err(), Some(FormatError::Corrupt));
}
