use pokeget::pokemon::{Attributes, Pokemon};
use pokeget::sprites::{combine_sprites, Image};

fn sprite(width: u32, height: u32, fill: u8) -> Pokemon {
    let data = vec![fill; (4 * width * height) as usize];
    Pokemon {
        path: String::new(),
        name: String::new(),
        sprite: Image {
            width,
            height,
            data,
        },
        attributes: Attributes {
            form: String::new(),
            female: false,
            shiny: false,
        },
    }
}

#[test]
fn composing_nothing_yields_an_empty_image() {
    let out = combine_sprites(&Vec::new());
    assert_eq!(out.width, 0);
    assert_eq!(out.height, 0);
    assert!(out.data.is_empty());
}

#[test]
fn composing_one_sprite_is_pixel_identical() {
    let mut one = sprite(3, 2, 0);
    // Distinct bytes so any shuffle would show.
    for (i, b) in one.sprite.data.iter_mut().enumerate() {
        *b = i as u8;
    }
    let expected = one.sprite.data.clone();
    let out = combine_sprites(&vec![one]);
    assert_eq!(out.width, 3);
    assert_eq!(out.height, 2);
    assert_eq!(out.data, expected);
}

#[test]
fn composing_two_heights_bottom_aligns_the_shorter() {
    // A short bright sprite beside a tall dark one.
    let short = sprite(1, 1, 7);
    let tall = sprite(1, 3, 9);
    let out = combine_sprites(&vec![short, tall]);
    assert_eq!(out.width, 2);
    assert_eq!(out.height, 3);
    // Row 0: transparent filler, then the tall sprite.
    assert_eq!(&out.data[0..4], &[0, 0, 0, 0]);
    assert_eq!(&out.data[4..8], &[9, 9, 9, 9]);
    // Row 1: still filler beside the tall sprite.
    assert_eq!(&out.data[8..12], &[0, 0, 0, 0]);
    assert_eq!(&out.data[12..16], &[9, 9, 9, 9]);
    // Row 2: the short sprite sits on the common baseline.
    assert_eq!(&out.data[16..20], &[7, 7, 7, 7]);
    assert_eq!(&out.data[20..24], &[9, 9, 9, 9]);
}

#[test]
fn composed_width_sums_and_height_takes_the_tallest() {
    let a = sprite(2, 5, 1);
    let b = sprite(3, 1, 2);
    let c = sprite(4, 4, 3);
    let out = combine_sprites(&vec![a, b, c]);
    assert_eq!(out.width, 9);
    assert_eq!(out.height, 5);
    assert_eq!(out.data.len(), 4 * 9 * 5);
    // Top row: only the tallest sprite has pixels yet.
    let mut top = vec![1u8; 8];
    top.extend(vec![0u8; 12]);
    top.extend(vec![0u8; 16]);
    assert_eq!(&out.data[0..36], top.as_slice());
    // Bottom row: every sprite reaches the common baseline.
    let mut bottom = vec![1u8; 8];
    bottom.extend(vec![2u8; 12]);
    bottom.extend(vec![3u8; 16]);
    assert_eq!(&out.data[4 * 9 * 4..], bottom.as_slice());
}
