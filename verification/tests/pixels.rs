use fractal_render::image_utils::{transparent_image, IPoint, Point, RGB};

fn px(v: u8) -> RGB {
    RGB { r: v, g: v.wrapping_add(1), b: v.wrapping_add(2), a: 255 }
}

#[test]
fn point_new_keeps_coordinates() {
    let p = Point::new(3usize, 7usize);
    assert_eq!(p.x, 3);
    assert_eq!(p.y, 7);
    let q = Point::new(-2i32, 5i32);
    assert_eq!(q, Point { x: -2, y: 5 });
}

#[test]
fn ipoint_default_is_origin() {
    let p = IPoint::default();
    assert_eq!(p, Point { x: 0, y: 0 });
}

#[test]
fn black_is_opaque_and_transparent_is_not() {
    assert_eq!(RGB::black(), RGB { r: 0, g: 0, b: 0, a: 255 });
    assert_eq!(RGB::transparent(), RGB { r: 0, g: 0, b: 0, a: 0 });
}

#[test]
fn opaque_sets_full_alpha() {
    assert_eq!(RGB::opaque(1, 2, 3), RGB { r: 1, g: 2, b: 3, a: 255 });
}

#[test]
fn rand_is_opaque_and_varies() {
    let mut seen = Vec::new();
    for _ in 0..64 {
        let c = RGB::rand();
        assert_eq!(c.a, 255);
        if !seen.contains(&c) {
            seen.push(c);
        }
    }
    assert!(seen.len() > 1);
}

#[test]
fn transparent_image_has_the_length_asked_for() {
    assert!(transparent_image(0).is_empty());
    let image = transparent_image(7);
    assert_eq!(image, vec![RGB::transparent(); 7]);
}

#[test]
fn create_image_data_interleaves_channels() {
    let src = vec![RGB { r: 1, g: 2, b: 3, a: 4 }, RGB { r: 5, g: 6, b: 7, a: 8 }];
    let mut dst = vec![9u8; 3];
    RGB::create_image_data(&src, &mut dst);
    assert_eq!(dst, vec![1, 2, 3, 4, 5, 6, 7, 8]);
}

#[test]
fn create_image_data_of_nothing_is_empty() {
    let mut dst = vec![1u8, 2, 3];
    RGB::create_image_data(&[], &mut dst);
    assert!(dst.is_empty());
}

#[test]
fn resize_image_doubles_a_square() {
    let (a, b, c, d) = (px(10), px(20), px(30), px(40));
    let src = vec![a, b, c, d];
    let mut dst = vec![px(99); 3];
    RGB::resize_image(&src, &IPoint::new(2, 2), &mut dst, &IPoint::new(4, 4));
    let expected = vec![a, a, b, b, a, a, b, b, c, c, d, d, c, c, d, d];
    assert_eq!(dst, expected);
}

#[test]
fn resize_image_scales_by_height_when_the_source_is_wide() {
    let (a, b) = (px(10), px(20));
    let src = vec![a, b];
    let mut dst = Vec::new();
    RGB::resize_image(&src, &IPoint::new(2, 1), &mut dst, &IPoint::new(5, 3));
    let row = vec![a, a, a, b, b];
    let mut expected = Vec::new();
    for _ in 0..3 {
        expected.extend(row.iter().copied());
    }
    assert_eq!(dst, expected);
}

#[test]
fn resize_image_scales_by_width_when_the_source_is_tall() {
    let (a, b, c) = (px(10), px(20), px(30));
    let src = vec![a, b, c];
    let mut dst = Vec::new();
    RGB::resize_image(&src, &IPoint::new(1, 3), &mut dst, &IPoint::new(2, 2));
    assert_eq!(dst, vec![b, b, b, b]);
}

#[test]
fn resize_image_to_the_same_size_is_a_copy() {
    let src: Vec<RGB> = (0..12).map(|i| px(i as u8 * 3)).collect();
    let mut dst = Vec::new();
    RGB::resize_image(&src, &IPoint::new(4, 3), &mut dst, &IPoint::new(4, 3));
    assert_eq!(dst, src);
}

#[test]
fn resize_image_from_nothing_is_transparent() {
    let mut dst = vec![px(1); 2];
    RGB::resize_image(&[], &IPoint::new(0, 0), &mut dst, &IPoint::new(3, 2));
    assert_eq!(dst, vec![RGB::transparent(); 6]);
}

#[test]
fn resize_image_to_nothing_is_empty() {
    let src = vec![px(1), px(2)];
    let mut dst = vec![px(1); 2];
    RGB::resize_image(&src, &IPoint::new(2, 1), &mut dst, &IPoint::new(0, 5));
    assert!(dst.is_empty());
}
