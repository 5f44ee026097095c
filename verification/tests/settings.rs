use ferraria::settings::{crop_path, parse, preview_args, settings, small_path, ArgError};

fn words(w: &[&str]) -> Vec<String> {
    w.iter().map(|s| String::from(*s)).collect()
}

#[test]
fn numbers_are_digits_that_fit() {
    assert_eq!(parse("0", 9), Some(0));
    assert_eq!(parse("+42", 100), Some(42));
    assert_eq!(parse("007", 7), Some(7));
    assert_eq!(parse("65535", 65535), Some(65535));
    assert_eq!(parse("65536", 65535), None);
    assert_eq!(parse("18446744073709551615", u64::MAX), Some(u64::MAX));
    assert_eq!(parse("18446744073709551616", u64::MAX), None);
    assert_eq!(parse("99999999999999999999999", u64::MAX), None);
    assert_eq!(parse("", 9), None);
    assert_eq!(parse("+", 9), None);
    assert_eq!(parse("-1", 9), None);
    assert_eq!(parse("++1", 9), None);
    assert_eq!(parse(" 1", 9), None);
    assert_eq!(parse("1a", 100), None);
}

#[test]
fn settings_fall_back_to_their_defaults() {
    let s = settings(None, None, None);
    assert_eq!((s.port, s.seed, s.web_dir.as_str()), (3000, 42, "web"));
    let s = settings(
        Some(String::from("8080")),
        Some(String::from("12345678901")),
        Some(String::from("/srv/pages")),
    );
    assert_eq!((s.port, s.seed, s.web_dir.as_str()), (8080, 12345678901, "/srv/pages"));
    let s = settings(Some(String::from("70000")), Some(String::from("abc")), None);
    assert_eq!((s.port, s.seed), (3000, 42));
}

#[test]
fn previews_take_a_size_and_parts() {
    let p = preview_args(&words(&["42", "out.png", "8", "crop=1,2,3,4", "6", "crop=5,6,7,8"])).unwrap();
    assert_eq!((p.seed, p.out.as_str(), p.downscale), (42, "out.png", Some(6)));
    assert_eq!(p.crops, vec![(1, 2, 3, 4), (5, 6, 7, 8)]);
    let p = preview_args(&words(&["7", "a"])).unwrap();
    assert_eq!((p.seed, p.downscale, p.crops.len()), (7, None, 0));
}

#[test]
fn previews_refuse_what_they_cannot_read() {
    let err = |w: &[&str]| preview_args(&words(w)).err().unwrap();
    assert_eq!(err(&[]), ArgError::Usage);
    assert_eq!(err(&["x"]), ArgError::BadNumber);
    assert_eq!(err(&["42"]), ArgError::Usage);
    assert_eq!(err(&["42", "out.png", "small"]), ArgError::BadNumber);
    assert_eq!(err(&["42", "out.png", "crop=1,2,3"]), ArgError::CropShape);
    assert_eq!(err(&["42", "out.png", "crop=1,2,3,4,5"]), ArgError::CropShape);
    assert_eq!(err(&["42", "out.png", "crop="]), ArgError::BadNumber);
    assert_eq!(err(&["42", "out.png", "crop=1,,3,4"]), ArgError::BadNumber);
    assert_eq!(err(&["42", "out.png", "crop=1,2,3,"]), ArgError::BadNumber);
    assert_eq!(err(&["42", "out.png", "crop=1,2", "x"]), ArgError::CropShape);
}

#[test]
fn file_names_keep_their_stem() {
    assert_eq!(small_path("out.png"), "out.small.png");
    assert_eq!(small_path("a/b.png.png"), "a/b.small.png");
    assert_eq!(small_path("plain"), "plain.small.png");
    assert_eq!(small_path(".png"), ".small.png");
    assert_eq!(crop_path("out.png", 0), "out.crop0.png");
    assert_eq!(crop_path("world", 12), "world.crop12.png");
}
