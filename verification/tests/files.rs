use model_inference::files::{has_image_extension, image_extension};

#[test]
fn the_five_image_extensions_are_taken() {
    assert!(has_image_extension("a.png"));
    assert!(has_image_extension("a.jpg"));
    assert!(has_image_extension("a.jpeg"));
    assert!(has_image_extension("a.bmp"));
    assert!(has_image_extension("a.webp"));
}

#[test]
fn the_case_of_an_extension_does_not_matter() {
    assert!(has_image_extension("photo.PNG"));
    assert!(has_image_extension("photo.JPG"));
    assert!(has_image_extension("photo.JpEg"));
    assert!(has_image_extension("photo.Bmp"));
    assert!(has_image_extension("photo.wEBp"));
}

#[test]
fn other_extensions_are_left_out() {
    assert!(!has_image_extension("a.gif"));
    assert!(!has_image_extension("a.tiff"));
    assert!(!has_image_extension("a.txt"));
    assert!(!has_image_extension("a.pngx"));
    assert!(!has_image_extension("a.xpng"));
    assert!(!has_image_extension("a.png.txt"));
    assert!(!has_image_extension("a.jp"));
}

#[test]
fn a_name_without_a_dot_has_no_extension() {
    assert!(!has_image_extension("png"));
    assert!(!has_image_extension("apng"));
    assert!(!has_image_extension(""));
    assert!(!has_image_extension("jpeg"));
}

#[test]
fn a_leading_dot_starts_no_extension() {
    assert!(!has_image_extension(".png"));
    assert!(!has_image_extension(".jpeg"));
    assert!(has_image_extension("..png"));
    assert!(has_image_extension(".hidden.png"));
}

#[test]
fn only_the_last_extension_counts() {
    assert!(has_image_extension("archive.tar.png"));
    assert!(has_image_extension("a.txt.webp"));
    assert!(!has_image_extension("a.webp."));
}

#[test]
fn names_in_any_script_are_read() {
    assert!(has_image_extension("圖片.jpg"));
    assert!(has_image_extension("été.PNG"));
    assert!(!has_image_extension("圖片.ｐｎｇ"));
}

#[test]
fn the_extension_of_an_image_name_is_given_as_written() {
    assert_eq!(image_extension("a.png").as_deref(), Some("png"));
    assert_eq!(image_extension("a.PNG").as_deref(), Some("PNG"));
    assert_eq!(image_extension("photo.JpEg").as_deref(), Some("JpEg"));
    assert_eq!(image_extension("a.b.webp").as_deref(), Some("webp"));
    assert_eq!(image_extension("圖片.bmp").as_deref(), Some("bmp"));
    assert_eq!(image_extension("x.jpg").as_deref(), Some("jpg"));
}

#[test]
fn other_names_have_no_image_extension() {
    for name in ["", "png", ".png", "a.gif", "a.png.txt", "a.pngx", "a.", "a.jp"] {
        assert_eq!(image_extension(name), None, "for {:?}", name);
    }
}

#[test]
fn a_name_has_an_image_extension_exactly_where_it_is_an_image_name() {
    for name in ["a.png", "a.gif", ".jpeg", "b.JPEG", "c.webp.bak", "d.BMP", "e"] {
        assert_eq!(image_extension(name).is_some(), has_image_extension(name));
    }
}
