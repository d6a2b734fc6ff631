use max2_assets::directory::Asset;
use max2_assets::error::FormatError;
use max2_assets::extract::{extract_asset, extract_max2_res, extract_max2_res_palettes, Extracted};
use max2_assets::extractbmp::extract_bmp_asset;
use max2_assets::extractimg::extract_img_asset;
use max2_assets::grid::{check_grid_fits, RgbGrid, RgbaGrid};
use max2_assets::img::{decode_img, extract_img, Transparency};
use max2_assets::imgcontainer::{decode_row, extract_img_container, extract_img_from_container};
use max2_assets::imgwithpalette::extract_img_with_palette;
use max2_assets::palette::{
    paint_indexed, paint_keyed, palette_color, read_palette, render_palette,
};

fn palette() -> [u8; 768] {
    let mut colors = [0u8; 768];
    for i in 0..256 {
        colors[3 * i] = i as u8;
        colors[3 * i + 1] = 255 - i as u8;
        colors[3 * i + 2] = (i / 2 + 7) as u8;
    }
    colors
}

fn rgb(i: u8) -> [u8; 3] {
    [i, 255 - i, i / 2 + 7]
}

fn rgba(i: u8) -> [u8; 4] {
    [i, 255 - i, i / 2 + 7, 255]
}

fn asset(offset: u64, length: u64, type_: u32) -> Asset {
    Asset { offset, length, type_, name: String::from("IMG") }
}

fn rgb_of(image: Result<RgbGrid, FormatError>) -> Result<(u32, u32, Vec<u8>), FormatError> {
    image.map(|grid| (grid.width(), grid.height(), grid.samples()))
}

fn rgba_of(image: Result<RgbaGrid, FormatError>) -> Result<(u32, u32, Vec<u8>), FormatError> {
    image.map(|grid| (grid.width(), grid.height(), grid.samples()))
}

#[test]
fn palette_gives_three_bytes_for_each_index() {
    let colors = palette();
    for i in 0..256usize {
        assert_eq!(
            palette_color(&colors, i),
            Ok((colors[3 * i], colors[3 * i + 1], colors[3 * i + 2]))
        );
    }
    assert_eq!(palette_color(&colors, 10), Ok((10, 245, 12)));
    assert_eq!(palette_color(&colors, 255), Ok((255, 0, 134)));
}

#[test]
fn index_above_255_is_corrupt() {
    let colors = palette();
    assert_eq!(palette_color(&colors, 256), Err(FormatError::Corrupt));
    assert_eq!(palette_color(&colors, 300), Err(FormatError::Corrupt));
    assert_eq!(palette_color(&colors, usize::MAX), Err(FormatError::Corrupt));
}

#[test]
fn palette_is_copied_from_its_bytes() {
    let colors = palette();
    let mut source = vec![9u8; 5];
    source.extend(colors);
    assert_eq!(read_palette(&source, 5), Ok(colors));
    assert_eq!(read_palette(&source, 6), Err(FormatError::Truncated));
    assert_eq!(read_palette(&source, u64::MAX), Err(FormatError::Truncated));
}

#[test]
fn blank_grid_is_all_zero() {
    let grid = RgbGrid::blank(3, 2).unwrap();
    assert_eq!((grid.width(), grid.height()), (3, 2));
    assert_eq!(grid.samples(), vec![0u8; 18]);
    let grid = RgbaGrid::with_size(2, 5);
    assert_eq!((grid.width(), grid.height()), (2, 5));
    assert_eq!(grid.samples(), vec![0u8; 40]);
    let empty = RgbaGrid::blank(0, 7).unwrap();
    assert_eq!((empty.width(), empty.height()), (0, 7));
    assert_eq!(empty.samples(), Vec::<u8>::new());
}

#[test]
fn grid_too_large_for_the_machine_is_refused() {
    assert!(check_grid_fits(65535, 65535, 4));
    assert!(check_grid_fits(0, u32::MAX, 4));
    assert!(check_grid_fits(46340, 46340, 1));
    assert!(check_grid_fits(u32::MAX, u32::MAX, 0));
    assert_eq!(check_grid_fits(0x6000_0000, 0, 4), usize::BITS >= 64);
    assert_eq!(RgbGrid::blank(0x6000_0000, 0).is_some(), usize::BITS >= 64);
    assert_eq!(RgbaGrid::blank(0x6000_0000, 0).is_some(), usize::BITS >= 64);
    assert_eq!(check_grid_fits(u32::MAX, u32::MAX, 3), usize::BITS > 64);
    assert_eq!(check_grid_fits(u32::MAX, u32::MAX, 1), (isize::MAX as u128) >= (u32::MAX as u128).pow(2));
}

#[test]
fn set_overwrites_one_pixel() {
    let mut grid = RgbGrid::with_size(3, 2);
    grid.set(1, 0, 10, 20, 30);
    grid.set(2, 1, 40, 50, 60);
    assert_eq!(
        grid.samples(),
        vec![0, 0, 0, 10, 20, 30, 0, 0, 0, 0, 0, 0, 0, 0, 0, 40, 50, 60]
    );
    grid.set(1, 0, 1, 2, 3);
    assert_eq!(grid.samples()[3..6], [1, 2, 3]);
    let mut grid = RgbaGrid::with_size(2, 2);
    grid.set(0, 1, 9, 8, 7, 6);
    assert_eq!(grid.samples(), vec![0, 0, 0, 0, 0, 0, 0, 0, 9, 8, 7, 6, 0, 0, 0, 0]);
}

#[test]
fn box_is_filled_row_by_row() {
    let mut grid = RgbGrid::with_size(4, 3);
    let colors: Vec<u8> = (1..=12).collect();
    grid.fill_box(1, 1, 2, 2, &colors);
    let mut expected = vec![0u8; 36];
    expected[15..21].copy_from_slice(&colors[0..6]);
    expected[27..33].copy_from_slice(&colors[6..12]);
    assert_eq!(grid.samples(), expected);
    let mut grid = RgbaGrid::with_size(3, 2);
    grid.fill_box(2, 0, 1, 2, &[1, 2, 3, 4, 5, 6, 7, 8]);
    let mut expected = vec![0u8; 24];
    expected[8..12].copy_from_slice(&[1, 2, 3, 4]);
    expected[20..24].copy_from_slice(&[5, 6, 7, 8]);
    assert_eq!(grid.samples(), expected);
    grid.fill_box(0, 0, 0, 2, &[]);
    assert_eq!(grid.samples(), expected);
}

#[test]
fn palette_is_painted_as_a_square() {
    let colors = palette();
    let image = render_palette(&colors);
    assert_eq!((image.width(), image.height()), (16, 16));
    assert_eq!(image.samples(), colors.to_vec());
    let all = extract_max2_res_palettes(&vec![colors, [7u8; 768]]);
    assert_eq!(all.len(), 2);
    assert_eq!(all[0].samples(), colors.to_vec());
    assert_eq!(all[1].samples(), vec![7u8; 768]);
}

#[test]
fn indexed_pixels_take_their_palette_colours() {
    let colors = palette();
    let image = paint_indexed(3, 2, &[0, 1, 2, 200, 201, 255, 99], &colors);
    let mut expected = Vec::new();
    for i in [0u8, 1, 2, 200, 201, 255] {
        expected.extend(rgb(i));
    }
    assert_eq!(rgb_of(image), Ok((3, 2, expected)));
    assert_eq!(rgb_of(paint_indexed(0, 0, &[], &colors)), Ok((0, 0, vec![])));
}

#[test]
fn fewer_indices_than_pixels_are_truncated() {
    let colors = palette();
    assert_eq!(rgb_of(paint_indexed(3, 2, &[0; 5], &colors)), Err(FormatError::Truncated));
    assert_eq!(
        rgba_of(paint_keyed(2, 2, &[0; 3], &colors, (0, 0, 0))),
        Err(FormatError::Truncated)
    );
    assert_eq!(rgb_of(paint_indexed(65535, 65535, &[0; 5], &colors)), Err(FormatError::Truncated));
}

#[test]
fn key_colour_is_transparent() {
    let mut colors = palette();
    colors[3 * 9..3 * 9 + 3].copy_from_slice(&rgb(4));
    let image = paint_keyed(2, 2, &[4, 5, 9, 0], &colors, (4, 251, 9));
    let mut expected = vec![0u8; 4];
    expected.extend(rgba(5));
    expected.extend([0u8; 4]);
    expected.extend(rgba(0));
    assert_eq!(rgba_of(image), Ok((2, 2, expected)));
}

fn img_asset(width: u16, height: u16, palette_id: u16, indices: &[u8]) -> Vec<u8> {
    let mut bytes = Vec::new();
    bytes.extend(width.to_le_bytes());
    bytes.extend(height.to_le_bytes());
    bytes.extend([0xaa; 4]);
    bytes.extend(palette_id.to_le_bytes());
    bytes.extend_from_slice(indices);
    bytes
}

#[test]
fn image_takes_the_first_palette_colour_as_transparent() {
    let mut second = palette();
    second[3 * 7..3 * 7 + 3].copy_from_slice(&rgb(0));
    let palettes = vec![[0u8; 768], second];
    let mut bytes = vec![0x55u8; 6];
    bytes.extend(img_asset(2, 3, 1, &[0, 1, 7, 3, 255, 0, 9, 9]));
    let image = extract_img(&bytes, &palettes, &asset(6, 18, 5));
    let mut expected = Vec::new();
    for i in [0u8, 1, 7, 3, 255, 0] {
        if i == 0 || i == 7 {
            expected.extend([0u8; 4]);
        } else {
            expected.extend(rgba(i));
        }
    }
    assert_eq!(rgba_of(image), Ok((2, 3, expected.clone())));
    match extract_asset(&bytes, &palettes, &asset(6, 18, 5)) {
        Ok(Extracted::Rgba(grid)) => assert_eq!(grid.samples(), expected),
        _ => panic!("no image with transparency"),
    }
}

#[test]
fn image_may_take_a_fixed_colour_as_transparent() {
    let palettes = vec![palette()];
    let bytes = img_asset(2, 2, 0, &[0, 1, 2, 3]);
    let image = extract_img_asset(&bytes, &asset(0, 14, 5), &palettes, (2, 253, 8));
    let mut expected = Vec::new();
    expected.extend(rgba(0));
    expected.extend(rgba(1));
    expected.extend([0u8; 4]);
    expected.extend(rgba(3));
    assert_eq!(rgba_of(image), Ok((2, 2, expected.clone())));
    let same = decode_img(&bytes, &palettes, &asset(0, 14, 5), Transparency::Color(2, 253, 8));
    assert_eq!(rgba_of(same), Ok((2, 2, expected)));
    let none = extract_img_asset(&bytes, &asset(0, 14, 5), &palettes, (1, 1, 1));
    assert_eq!(rgba_of(none).unwrap().2[0..4], rgba(0));
}

#[test]
fn image_errors_name_what_is_wrong() {
    let palettes = vec![palette()];
    let bytes = img_asset(2, 2, 0, &[0, 1, 2, 3]);
    let decode = |a: Asset| rgba_of(extract_img(&bytes, &palettes, &a)).err();
    assert_eq!(decode(asset(0, 9, 5)), Some(FormatError::Truncated));
    assert_eq!(decode(asset(0, 13, 5)), Some(FormatError::Truncated));
    assert_eq!(decode(asset(0, 15, 5)), Some(FormatError::Truncated));
    assert_eq!(decode(asset(1, 14, 5)), Some(FormatError::Truncated));
    assert_eq!(decode(asset(0, 14, 5)), None);
    let other = img_asset(2, 2, 1, &[0, 1, 2, 3]);
    assert_eq!(
        rgba_of(extract_img(&other, &palettes, &asset(0, 14, 5))).err(),
        Some(FormatError::Corrupt)
    );
    assert_eq!(
        rgba_of(extract_img(&bytes, &vec![], &asset(0, 14, 5))).err(),
        Some(FormatError::Corrupt)
    );
}

fn bmp_asset(width: u16, height: u16, colors: &[u8; 768], stream: &[u8]) -> Vec<u8> {
    let mut bytes = vec![0xeeu8; 4];
    bytes.extend(width.to_le_bytes());
    bytes.extend(height.to_le_bytes());
    bytes.extend_from_slice(colors);
    bytes.extend_from_slice(stream);
    bytes
}

#[test]
fn image_with_its_own_palette_is_expanded_first() {
    let colors = palette();
    let stream = [0xfd, 0xff, 8, 0x02, 0x00, 30, 31, 0xff, 0xff, 40];
    let mut bytes = vec![1u8; 3];
    bytes.extend(bmp_asset(3, 2, &colors, &stream));
    let whole = asset(3, 776 + 10, 1);
    let mut expected = Vec::new();
    for i in [8u8, 8, 8, 30, 31, 40] {
        expected.extend(rgb(i));
    }
    assert_eq!(rgb_of(extract_img_with_palette(&bytes, &whole)), Ok((3, 2, expected.clone())));
    assert_eq!(rgb_of(extract_bmp_asset(&bytes, &whole)), Ok((3, 2, expected.clone())));
    match extract_asset(&bytes, &vec![], &whole) {
        Ok(Extracted::Rgb(grid)) => assert_eq!(grid.samples(), expected),
        _ => panic!("no image"),
    }
}

#[test]
fn image_with_its_own_palette_must_be_whole() {
    let colors = palette();
    let stream = [0x04, 0x00, 1, 2, 3, 4];
    let bytes = bmp_asset(2, 2, &colors, &stream);
    let decode = |a: Asset| rgb_of(extract_img_with_palette(&bytes, &a)).err();
    assert_eq!(decode(asset(0, 782, 1)), None);
    assert_eq!(decode(asset(0, 775, 1)), Some(FormatError::Truncated));
    assert_eq!(decode(asset(0, 776, 1)), Some(FormatError::Truncated));
    assert_eq!(decode(asset(0, 781, 1)), Some(FormatError::Truncated));
    assert_eq!(decode(asset(0, 783, 1)), Some(FormatError::Truncated));
    assert_eq!(rgb_of(extract_bmp_asset(&bytes, &asset(0, 776, 1))).err(), Some(FormatError::Truncated));
}

fn row_of(pixels: &[Option<u8>]) -> Vec<u8> {
    let mut samples = Vec::new();
    for pixel in pixels {
        match pixel {
            Some(i) => samples.extend(rgba(*i)),
            None => samples.extend([0u8; 4]),
        }
    }
    samples
}

#[test]
fn sparse_row_skips_its_margin_and_paints_its_run() {
    let colors = palette();
    let source = [5u8, 2, 10, 20, 255, 0];
    let mut pixels = vec![None; 20];
    pixels[5] = Some(10);
    pixels[6] = Some(20);
    assert_eq!(decode_row(&source, 0, 20, &colors), Ok(row_of(&pixels)));
}

#[test]
fn sparse_row_may_be_empty_or_start_at_once() {
    let colors = palette();
    assert_eq!(decode_row(&[255, 9], 0, 3, &colors), Ok(row_of(&[None, None, None])));
    assert_eq!(
        decode_row(&[0, 1, 77, 255, 0], 0, 3, &colors),
        Ok(row_of(&[Some(77), None, None]))
    );
    assert_eq!(
        decode_row(&[0, 0, 1, 1, 5, 0, 0, 255, 0], 0, 3, &colors),
        Ok(row_of(&[None, Some(5), None]))
    );
    assert_eq!(decode_row(&[], 0, 0, &colors), Ok(vec![]));
}

#[test]
fn sparse_row_ends_at_its_width_without_a_terminator() {
    let colors = palette();
    assert_eq!(
        decode_row(&[0, 2, 1, 2, 1, 1, 3], 0, 4, &colors),
        Ok(row_of(&[Some(1), Some(2), None, Some(3)]))
    );
    assert_eq!(
        decode_row(&[9, 9, 1, 0, 6, 0], 2, 3, &colors),
        Ok(row_of(&[None, None, None]))
    );
}

#[test]
fn sparse_row_may_not_paint_past_its_width() {
    let colors = palette();
    assert_eq!(decode_row(&[2, 2, 1, 2, 255, 0], 0, 3, &colors), Err(FormatError::Corrupt));
    assert_eq!(decode_row(&[0, 4, 1, 2, 3, 4], 0, 3, &colors), Err(FormatError::Corrupt));
    assert_eq!(decode_row(&[3, 1, 9], 0, 3, &colors), Err(FormatError::Corrupt));
}

#[test]
fn sparse_row_must_be_whole() {
    let colors = palette();
    assert_eq!(decode_row(&[], 0, 3, &colors), Err(FormatError::Truncated));
    assert_eq!(decode_row(&[255], 0, 3, &colors), Err(FormatError::Truncated));
    assert_eq!(decode_row(&[0, 2, 1], 0, 3, &colors), Err(FormatError::Truncated));
    assert_eq!(decode_row(&[0, 1, 1], 0, 3, &colors), Err(FormatError::Truncated));
    assert_eq!(decode_row(&[0, 1, 1], 4, 3, &colors), Err(FormatError::Truncated));
}

fn sub_image(at: u32, width: u16, height: u16, rows: &[&[u8]]) -> Vec<u8> {
    let mut bytes = Vec::new();
    bytes.extend(width.to_le_bytes());
    bytes.extend(height.to_le_bytes());
    bytes.extend([0x33; 4]);
    let mut row_at = at + 8 + 4 * rows.len() as u32;
    for row in rows {
        bytes.extend(row_at.to_le_bytes());
        row_at += row.len() as u32;
    }
    for row in rows {
        bytes.extend_from_slice(row);
    }
    bytes
}

fn container(palette_id: u16, images: &[(u16, u16, Vec<&[u8]>)]) -> Vec<u8> {
    let mut bytes = Vec::new();
    bytes.extend((images.len() as u16).to_le_bytes());
    bytes.extend(palette_id.to_le_bytes());
    let mut table = Vec::new();
    let mut bodies = Vec::new();
    let mut at = 4 + 4 * images.len() as u32;
    for (width, height, rows) in images {
        table.extend(at.to_le_bytes());
        let body = sub_image(at, *width, *height, rows);
        at += body.len() as u32;
        bodies.extend(body);
    }
    bytes.extend(table);
    bytes.extend(bodies);
    bytes
}

#[test]
fn container_holds_its_images_in_table_order() {
    let palettes = vec![[0u8; 768], palette()];
    let first: Vec<&[u8]> = vec![&[5, 2, 10, 20, 255, 0]];
    let second: Vec<&[u8]> = vec![&[255, 0], &[1, 1, 9, 255, 0], &[0, 3, 1, 2, 3]];
    let body = container(1, &[(20, 1, first), (3, 3, second)]);
    let mut bytes = vec![0u8; 11];
    bytes.extend(&body);
    let images = extract_img_container(&bytes, &palettes, &asset(11, body.len() as u64, 2)).unwrap();
    assert_eq!(images.len(), 2);
    let mut pixels = vec![None; 20];
    pixels[5] = Some(10);
    pixels[6] = Some(20);
    assert_eq!((images[0].width(), images[0].height()), (20, 1));
    assert_eq!(images[0].samples(), row_of(&pixels));
    assert_eq!((images[1].width(), images[1].height()), (3, 3));
    assert_eq!(
        images[1].samples(),
        row_of(&[None, None, None, None, Some(9), None, Some(1), Some(2), Some(3)])
    );
    match extract_asset(&bytes, &palettes, &asset(11, 0, 2)) {
        Ok(Extracted::Frames(frames)) => assert_eq!(frames.len(), 2),
        _ => panic!("no frames"),
    }
}

#[test]
fn sub_image_is_found_from_the_asset_start() {
    let colors = palette();
    let rows: Vec<&[u8]> = vec![&[0, 1, 4, 255, 0], &[1, 1, 6]];
    let mut bytes = vec![0u8; 27];
    bytes.extend(sub_image(20, 2, 2, &rows));
    let image = extract_img_from_container(&bytes, &colors, 7, 27);
    assert_eq!(rgba_of(image), Ok((2, 2, row_of(&[Some(4), None, None, Some(6)]))));
    let moved = extract_img_from_container(&bytes, &colors, 8, 27);
    assert_eq!(rgba_of(moved).err(), Some(FormatError::Corrupt));
    let far = extract_img_from_container(&bytes, &colors, u64::MAX, 27);
    assert_eq!(rgba_of(far).err(), Some(FormatError::Truncated));
}

#[test]
fn container_errors_name_what_is_wrong() {
    let palettes = vec![palette()];
    let rows: Vec<&[u8]> = vec![&[0, 1, 4, 255, 0], &[1, 2, 6, 7]];
    let body = container(0, &[(2, 2, rows.clone())]);
    let decode = |bytes: &[u8], list: &Vec<[u8; 768]>| {
        extract_img_container(bytes, list, &asset(0, 0, 2)).err()
    };
    assert_eq!(decode(&body, &palettes), Some(FormatError::Corrupt));
    assert_eq!(decode(&container(1, &[(2, 2, rows.clone())]), &palettes), Some(FormatError::Corrupt));
    let good: Vec<&[u8]> = vec![&[0, 1, 4, 255, 0], &[1, 1, 6]];
    let body = container(0, &[(2, 2, good)]);
    assert_eq!(decode(&body, &palettes), None);
    for cut in [0, 3, 7, 15, 23, body.len() - 1] {
        assert_eq!(decode(&body[..cut], &palettes), Some(FormatError::Truncated));
    }
    let mut far = body.clone();
    far[4..8].copy_from_slice(&u32::MAX.to_le_bytes());
    assert_eq!(decode(&far, &palettes), Some(FormatError::Truncated));
    assert_eq!(
        extract_img_container(&body, &palettes, &asset(u64::MAX - 3, 0, 2)).err(),
        Some(FormatError::Truncated)
    );
}

#[test]
fn archive_with_palettes_is_decoded_as_a_whole() {
    let colors = palette();
    let mut table = Vec::new();
    let image = img_asset(1, 1, 0, &[3]);
    let text = b"hi";
    let table_len = 2 * 13 + 1 + 1;
    let image_at = 14 + table_len + 2 + 768;
    let text_at = image_at + image.len();
    for (at, len, tag, name) in [(image_at, image.len(), 5u32, b"I"), (text_at, 2, 4u32, b"T")] {
        table.extend((at as u32).to_le_bytes());
        table.extend((len as u32).to_le_bytes());
        table.extend(tag.to_le_bytes());
        table.push(1);
        table.extend_from_slice(name);
    }
    assert_eq!(table.len(), table_len);
    let mut bytes = vec![0u8; 14];
    bytes[0..4].copy_from_slice(b"RES0");
    bytes[6..10].copy_from_slice(&14u32.to_le_bytes());
    bytes[10..14].copy_from_slice(&(table_len as u32).to_le_bytes());
    bytes.extend(&table);
    bytes.extend(1u16.to_le_bytes());
    bytes.extend(colors);
    bytes.extend(&image);
    bytes.extend(text);
    let contents = extract_max2_res(&bytes).unwrap();
    assert_eq!(contents.directory.assets.len(), 2);
    assert_eq!(contents.palettes, vec![colors]);
    assert_eq!(contents.palette_images.len(), 1);
    assert_eq!(contents.palette_images[0].samples(), colors.to_vec());
    assert_eq!(contents.outcomes.len(), 2);
    match &contents.outcomes[0] {
        Ok(Extracted::Rgba(grid)) => assert_eq!(grid.samples(), rgba(3).to_vec()),
        _ => panic!("no image"),
    }
    match &contents.outcomes[1] {
        Ok(Extracted::Bytes(data)) => assert_eq!(data, &text.to_vec()),
        _ => panic!("no text"),
    }
}
