use image_stitch::canvas::{Canvas, Pixel};
use image_stitch::dimension::Dimensions;
use image_stitch::error::StitchError;
use image_stitch::img::{place_image, process_images, stitch};
use image_stitch::layout::{compute_layout, Layout};
use image_stitch::order::{index_images, keep_flagged, order_images};
use image_stitch::write_direction::WriteDirection;
use image_stitch::Opt;

fn dims(x: u32, y: u32) -> Dimensions {
    Dimensions::from_tuple((x, y)).unwrap()
}

fn solid(w: u32, h: u32, p: Pixel) -> Canvas {
    Canvas::from_pixels(w, h, vec![p; (w * h) as usize]).unwrap()
}

fn names(list: &[&str]) -> Vec<String> {
    list.iter().map(|s| s.to_string()).collect()
}

fn layout(n: usize, t: Dimensions, max: u32, d: WriteDirection) -> Layout {
    compute_layout(n, t, max, d).unwrap()
}

#[test]
fn layout_has_a_cell_for_every_image() {
    for n in 1..20usize {
        for max in [1u32, 5, 10, 35, 99, 1000] {
            for d in [WriteDirection::X, WriteDirection::Y] {
                let l = layout(n, dims(10, 7), max, d);
                assert!(l.major >= 1);
                assert!(l.minor >= 1);
                assert!((l.major as usize) * (l.minor as usize) >= n);
            }
        }
    }
}

#[test]
fn layout_seven_tiles_in_rows_of_three() {
    let l = layout(7, dims(10, 10), 35, WriteDirection::X);
    assert_eq!((l.major, l.minor, l.width, l.height), (3, 3, 30, 30));
}

#[test]
fn four_tiles_in_a_two_by_two_grid() {
    let l = layout(4, dims(100, 100), 250, WriteDirection::X);
    assert_eq!(l.major, 2);
    assert_eq!(l.minor, 2);
    assert_eq!((l.width, l.height), (200, 200));
    assert_eq!(l.cell_origin(0), (0, 0));
    assert_eq!(l.cell_origin(1), (100, 0));
    assert_eq!(l.cell_origin(2), (0, 100));
    assert_eq!(l.cell_origin(3), (100, 100));
}

#[test]
fn five_tiles_filled_column_first_with_one_per_column() {
    let l = layout(5, dims(50, 50), 50, WriteDirection::Y);
    assert_eq!(l.major, 1);
    assert_eq!(l.minor, 5);
    assert_eq!((l.width, l.height), (250, 50));
    for k in 0..5usize {
        assert_eq!(l.cell_origin(k), (50 * k as u32, 0));
    }
}

#[test]
fn column_first_order_goes_down_then_across() {
    let l = layout(5, dims(10, 20), 45, WriteDirection::Y);
    assert_eq!((l.major, l.minor, l.width, l.height), (2, 3, 30, 40));
    assert_eq!(l.cell_origin(1), (0, 20));
    assert_eq!(l.cell_origin(2), (10, 0));
    assert_eq!(l.cell_origin(4), (20, 0));
}

#[test]
fn no_images_is_an_error() {
    assert_eq!(
        compute_layout(0, dims(10, 10), 100, WriteDirection::X),
        Err(StitchError::EmptyInput)
    );
    let none: Vec<Canvas> = Vec::new();
    assert!(matches!(stitch(&none, Some(100), WriteDirection::X), Err(StitchError::EmptyInput)));
}

#[test]
fn extent_below_one_tile_still_gives_one_tile() {
    let l = layout(3, dims(100, 40), 50, WriteDirection::X);
    assert_eq!(l.major, 1);
    assert_eq!((l.width, l.height), (100, 120));
    assert!(l.width > 50);
}

#[test]
fn absent_maximum_gives_a_single_column() {
    let imgs = vec![solid(3, 2, [1, 1, 1, 1]), solid(3, 2, [2, 2, 2, 2])];
    let sheet = stitch(&imgs, None, WriteDirection::X).unwrap();
    assert_eq!((sheet.width, sheet.height), (3, 4));
}

#[test]
fn canvas_too_large_is_an_error() {
    assert_eq!(
        compute_layout(3, dims(1, u32::MAX), 1, WriteDirection::X),
        Err(StitchError::CanvasTooLarge)
    );
}

#[test]
fn sheet_places_each_image_in_its_cell() {
    let colours: Vec<Pixel> = vec![[1, 0, 0, 255], [0, 2, 0, 255], [0, 0, 3, 255], [4, 4, 4, 255]];
    let imgs: Vec<Canvas> = colours.iter().map(|c| solid(100, 100, *c)).collect();
    let sheet = stitch(&imgs, Some(250), WriteDirection::X).unwrap();
    assert_eq!((sheet.width, sheet.height), (200, 200));
    assert_eq!(sheet.get_pixel(0, 0), colours[0]);
    assert_eq!(sheet.get_pixel(150, 50), colours[1]);
    assert_eq!(sheet.get_pixel(99, 199), colours[2]);
    assert_eq!(sheet.get_pixel(199, 199), colours[3]);
}

#[test]
fn unused_cells_stay_blank() {
    let imgs = vec![solid(2, 2, [9, 9, 9, 9]); 3];
    let sheet = stitch(&imgs, Some(4), WriteDirection::X).unwrap();
    assert_eq!((sheet.width, sheet.height), (4, 4));
    let mut written = 0;
    for y in 0..4 {
        for x in 0..4 {
            let p = sheet.get_pixel(x, y);
            if x >= 2 && y >= 2 {
                assert_eq!(p, [0, 0, 0, 0]);
            } else {
                assert_eq!(p, [9, 9, 9, 9]);
                written += 1;
            }
        }
    }
    assert_eq!(written, 12);
}

#[test]
fn tile_pixels_keep_their_position() {
    let mut px = Vec::new();
    for i in 0..6u8 {
        px.push([i, i, i, 255]);
    }
    let a = Canvas::from_pixels(3, 2, px).unwrap();
    let b = solid(3, 2, [7, 7, 7, 7]);
    let sheet = stitch(&vec![b, a], Some(6), WriteDirection::X).unwrap();
    assert_eq!((sheet.width, sheet.height), (6, 2));
    assert_eq!(sheet.get_pixel(3, 0), [0, 0, 0, 255]);
    assert_eq!(sheet.get_pixel(5, 0), [2, 2, 2, 255]);
    assert_eq!(sheet.get_pixel(4, 1), [4, 4, 4, 255]);
    assert_eq!(sheet.get_pixel(2, 1), [7, 7, 7, 7]);
}

#[test]
fn stitching_twice_gives_identical_canvases() {
    let imgs = vec![solid(5, 3, [1, 2, 3, 4]), solid(5, 3, [5, 6, 7, 8]), solid(5, 3, [9, 9, 9, 9])];
    let a = stitch(&imgs, Some(12), WriteDirection::Y).unwrap();
    let b = stitch(&imgs, Some(12), WriteDirection::Y).unwrap();
    assert_eq!((a.width, a.height), (b.width, b.height));
    assert_eq!(a.pixels, b.pixels);
}

#[test]
fn composing_again_changes_nothing() {
    let imgs = vec![solid(2, 2, [1, 1, 1, 1]), solid(2, 2, [2, 2, 2, 2]), solid(2, 2, [3, 3, 3, 3])];
    let l = layout(3, dims(2, 2), 4, WriteDirection::Y);
    let mut c = Canvas::new(l.width, l.height);
    process_images(&imgs, &l, &mut c).unwrap();
    let once = c.pixels.clone();
    process_images(&imgs, &l, &mut c).unwrap();
    assert_eq!(c.pixels, once);
}

#[test]
fn mismatched_image_is_refused() {
    let imgs = vec![solid(2, 2, [1, 1, 1, 1]), solid(3, 2, [2, 2, 2, 2])];
    assert!(matches!(
        stitch(&imgs, Some(10), WriteDirection::X),
        Err(StitchError::DimensionMismatch)
    ));
    let l = layout(2, dims(2, 2), 10, WriteDirection::X);
    let mut c = Canvas::new(l.width, l.height);
    assert_eq!(place_image(&mut c, &l, 1, &imgs[1]), Err(StitchError::DimensionMismatch));
    assert!(c.pixels.iter().all(|p| *p == [0, 0, 0, 0]));
    assert_eq!(place_image(&mut c, &l, 1, &imgs[0]), Ok(()));
    assert_eq!(c.get_pixel(2, 0), [1, 1, 1, 1]);
    assert_eq!(c.get_pixel(0, 0), [0, 0, 0, 0]);
}

#[test]
fn empty_first_image_is_refused() {
    let imgs = vec![Canvas::new(0, 4)];
    assert!(matches!(stitch(&imgs, Some(10), WriteDirection::X), Err(StitchError::EmptyImage)));
}

#[test]
fn zero_side_gives_no_dimensions() {
    assert_eq!(Dimensions::from_tuple((0, 3)), None);
    assert_eq!(Dimensions::from_tuple((3, 0)), None);
    assert_eq!(Dimensions::from_tuple((3, 4)), Some(Dimensions { x: 3, y: 4 }));
}

#[test]
fn pixel_count_must_match_size() {
    assert!(Canvas::from_pixels(2, 2, vec![[0; 4]; 3]).is_none());
    assert!(Canvas::from_pixels(2, 2, vec![[0; 4]; 4]).is_some());
}

#[test]
fn tile_overwrites_only_its_rectangle() {
    let mut c = solid(4, 3, [5, 5, 5, 5]);
    c.place_tile(&solid(2, 2, [8, 8, 8, 8]), 1, 1);
    assert_eq!(c.get_pixel(1, 1), [8, 8, 8, 8]);
    assert_eq!(c.get_pixel(2, 2), [8, 8, 8, 8]);
    assert_eq!(c.get_pixel(0, 1), [5, 5, 5, 5]);
    assert_eq!(c.get_pixel(3, 2), [5, 5, 5, 5]);
    assert_eq!(c.get_pixel(1, 0), [5, 5, 5, 5]);
}

#[test]
fn names_are_sorted_naturally() {
    let r = order_images(&names(&["img2.png", "img10.png", "img1.png"]));
    assert_eq!(r, names(&["img1.png", "img2.png", "img10.png"]));
}

#[test]
fn only_decodable_images_are_kept() {
    let r = index_images(&names(&["b.png", "notes.txt", "a.JPG", "README", "c.gif", "d.dds"]));
    assert_eq!(r, names(&["b.png", "a.JPG", "c.gif"]));
    let r = order_images(&names(&["x10.bmp", "list.txt", "x9.bmp"]));
    assert_eq!(r, names(&["x9.bmp", "x10.bmp"]));
}

#[test]
fn flags_select_names() {
    let r = keep_flagged(&names(&["a", "b", "c"]), &vec![true, false, true]);
    assert_eq!(r, names(&["a", "c"]));
}

#[test]
fn absent_maximum_is_one_pixel() {
    let mut o = Opt {
        output: "output/output.png".to_string(),
        input: ".".to_string(),
        max: None,
        direction: WriteDirection::X,
    };
    assert_eq!(o.max_extent(), 1);
    o.max = Some(640);
    assert_eq!(o.max_extent(), 640);
}
