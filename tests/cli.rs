use raytracer::cli::{valid_count, Arguments, SceneType};

#[test]
fn count_above_zero_is_accepted() {
    assert_eq!(valid_count("5"), Ok(5));
    assert_eq!(valid_count("100"), Ok(100));
    assert_eq!(valid_count("+7"), Ok(7));
    assert_eq!(valid_count("4294967295"), Ok(4294967295));
}

#[test]
fn zero_count_is_refused() {
    assert_eq!(valid_count("0"), Err("count must be greater than 0".to_string()));
    assert_eq!(valid_count("000"), Err("count must be greater than 0".to_string()));
}

#[test]
fn text_that_is_no_number_is_refused() {
    assert_eq!(valid_count("abc"), Err("invalid digit found in string".to_string()));
    assert_eq!(valid_count("-3"), Err("invalid digit found in string".to_string()));
    assert_eq!(valid_count(" 3"), Err("invalid digit found in string".to_string()));
    assert_eq!(valid_count(""), Err("cannot parse integer from empty string".to_string()));
}

#[test]
fn count_too_large_is_refused() {
    assert_eq!(valid_count("4294967296"), Err("number too large to fit in target type".to_string()));
}

#[test]
fn arguments_hold_their_settings() {
    let a = Arguments {
        output: "output.png".to_string(),
        samples_per_pixel: 100,
        bounce_depth: 50,
        scene: SceneType::CoverPhoto,
    };
    assert_eq!(a.scene, SceneType::CoverPhoto);
    assert_eq!(a.samples_per_pixel, 100);
}
