use auto_play::image::Image;
use auto_play::extraction::find_extremes;
use auto_play::template_matching::{MatchError, MatchTemplateMethod, match_template};

fn img(w: u32, h: u32, data: Vec<i128>) -> Image {
    Image::from_vec(w, h, data).unwrap()
}

#[test]
fn test_ccorr_tiny() {
    let image = img(2, 2, vec![1, 2, 3, 4]);
    let template = img(1, 1, vec![2]);
    let s = match_template(&image, &template, MatchTemplateMethod::CrossCorrelation, false)
        .unwrap();
    assert_eq!(s.width(), 2);
    assert_eq!(s.height(), 2);
    assert_eq!(s.as_raw(), &vec![2, 4, 6, 8]);
}

#[test]
fn test_ssd_tiny() {
    let image = img(2, 2, vec![1, 2, 3, 4]);
    let template = img(1, 1, vec![2]);
    let s = match_template(&image, &template, MatchTemplateMethod::SumOfSquaredDifference, false)
        .unwrap();
    assert_eq!(s.as_raw(), &vec![1, 0, 1, 4]);
}

#[test]
fn test_ssd_normed_value() {
    // At (0, 0): difference 1, image energy 1, template energy 4,
    // denominator isqrt(4) = 2, so 65536 / 2.
    let image = img(2, 1, vec![1, 2]);
    let template = img(1, 1, vec![2]);
    let s = match_template(
        &image, &template, MatchTemplateMethod::SumOfSquaredDifferenceNormed, false,
    )
    .unwrap();
    assert_eq!(s.as_raw(), &vec![32768, 0]);
}

#[test]
fn test_ccorr_normed_value() {
    // num = 3*4 + 4*3 = 24, energies 25 and 25, denominator 25:
    // 24 * 65536 / 25 = 62914 (truncated).
    let image = img(2, 1, vec![3, 4]);
    let template = img(2, 1, vec![4, 3]);
    let s = match_template(&image, &template, MatchTemplateMethod::CrossCorrelationNormed, false)
        .unwrap();
    assert_eq!(s.as_raw(), &vec![62914]);
}

#[test]
fn test_ccorr_normed_negative_bounded() {
    let image = img(2, 1, vec![-3, 4]);
    let template = img(2, 1, vec![4, -3]);
    let s = match_template(&image, &template, MatchTemplateMethod::CrossCorrelationNormed, false)
        .unwrap();
    assert_eq!(s.as_raw(), &vec![-62914]);
    for v in s.as_raw() {
        assert!(-65536 <= *v && *v <= 65536);
    }
}

#[test]
fn test_normed_surfaces_within_unit() {
    // Every value of the two normalized correlation surfaces stays within
    // one fixed-point unit, whatever the inputs.
    let image = img(4, 4, (0..16).map(|v| (v * 37 % 11) as i128 - 5).collect());
    let template = img(2, 2, vec![9, -3, 0, 7]);
    for method in [
        MatchTemplateMethod::CrossCorrelationNormed,
        MatchTemplateMethod::CorrelationCoefficientNormed,
    ] {
        let s = match_template(&image, &template, method, false).unwrap();
        for v in s.as_raw() {
            assert!(-65536 <= *v && *v <= 65536);
        }
    }
}

#[test]
fn test_exact_match_ssd_zero() {
    // The template equals the image's sub-rectangle at (1, 1): the
    // difference surface is zero there and that zero is its global minimum.
    let image = img(3, 3, vec![1, 2, 3, 4, 5, 6, 7, 8, 9]);
    let template = img(2, 2, vec![5, 6, 8, 9]);
    let s = match_template(&image, &template, MatchTemplateMethod::SumOfSquaredDifference, false)
        .unwrap();
    let ext = find_extremes(&s);
    assert_eq!(ext.min_value, 0);
    assert_eq!(ext.min_value_location, (1, 1));
    for v in s.as_raw() {
        assert!(*v >= 0);
    }
}

#[test]
fn test_padding_dims() {
    let image = img(4, 3, vec![0; 12]);
    let template = img(2, 2, vec![0; 4]);
    let s = match_template(&image, &template, MatchTemplateMethod::CrossCorrelation, false)
        .unwrap();
    assert_eq!((s.width(), s.height()), (3, 2));
    let s = match_template(&image, &template, MatchTemplateMethod::CrossCorrelation, true)
        .unwrap();
    assert_eq!((s.width(), s.height()), (5, 4));
}

#[test]
fn test_padding_values() {
    // Full correlation of a 2x2 image with an all-ones 2x2 template:
    // windows reaching past the image read zeros.
    let image = img(2, 2, vec![1, 2, 3, 4]);
    let template = img(2, 2, vec![1, 1, 1, 1]);
    let s = match_template(&image, &template, MatchTemplateMethod::CrossCorrelation, true)
        .unwrap();
    assert_eq!((s.width(), s.height()), (3, 3));
    assert_eq!(s.as_raw(), &vec![10, 6, 0, 7, 4, 0, 0, 0, 0]);
}

#[test]
fn test_dimension_error() {
    let image = img(2, 2, vec![0; 4]);
    let template = img(3, 3, vec![0; 9]);
    assert_eq!(
        match_template(&image, &template, MatchTemplateMethod::CrossCorrelation, false)
            .unwrap_err(),
        MatchError::DimensionError,
    );
    // With padding the same pair is accepted.
    assert!(match_template(&image, &template, MatchTemplateMethod::CrossCorrelation, true)
        .is_ok());
}

#[test]
fn test_empty_input_rejected() {
    let empty = img(0, 0, vec![]);
    let template = img(1, 1, vec![1]);
    assert_eq!(
        match_template(&empty, &template, MatchTemplateMethod::CrossCorrelation, true)
            .unwrap_err(),
        MatchError::DimensionError,
    );
    assert_eq!(
        match_template(&template, &empty, MatchTemplateMethod::CrossCorrelation, true)
            .unwrap_err(),
        MatchError::DimensionError,
    );
}

#[test]
fn test_ccoeff_constant_template() {
    // A constant template is zero after mean subtraction, so the
    // correlation-coefficient surface vanishes.
    let image = img(3, 3, vec![7; 9]);
    let template = img(2, 2, vec![5; 4]);
    let s = match_template(&image, &template, MatchTemplateMethod::CorrelationCoefficient, false)
        .unwrap();
    assert_eq!(s.as_raw(), &vec![0, 0, 0, 0]);
}

#[test]
fn test_ccoeff_zero_mean_value() {
    // Zero-mean image samples are -50 and 50, zero-mean template samples
    // are -5 and 5: their product sums to 500.
    let image = img(2, 1, vec![0, 100]);
    let template = img(2, 1, vec![10, 20]);
    let s = match_template(&image, &template, MatchTemplateMethod::CorrelationCoefficient, false)
        .unwrap();
    assert_eq!(s.as_raw(), &vec![500]);
}

#[test]
fn test_image_constructors() {
    assert!(Image::from_vec(2, 2, vec![1, 2, 3]).is_none());
    let filled = Image::new_filled(3, 2, 7);
    assert_eq!(filled.as_raw(), &vec![7; 6]);
    assert_eq!(filled.get_pixel(2, 1), 7);
    let im = img(2, 2, vec![1, 2, 3, 4]);
    assert_eq!(im.get_pixel(0, 1), 3);
    assert!(im.check_bounded(4));
    assert!(!im.check_bounded(3));
    assert_eq!(im.duplicate().as_raw(), im.as_raw());
}
