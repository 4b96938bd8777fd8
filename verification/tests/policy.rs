use auto_play::image::Image;
use auto_play::extraction::{find_extremes, find_matches};
use auto_play::matcher::{BestMatcher, MatcherOptions, MultiMatcher, SingleMatcher};
use auto_play::template_matching::MatchTemplateMethod;
use auto_play::template_matching::MatchTemplateMethod::{
    CorrelationCoefficient, CorrelationCoefficientNormed, CrossCorrelation,
    CrossCorrelationNormed, SumOfSquaredDifference, SumOfSquaredDifferenceNormed,
};
use auto_play::template_matching::is_a_more_match_than_b;

fn img(w: u32, h: u32, data: Vec<i128>) -> Image {
    Image::from_vec(w, h, data).unwrap()
}

#[test]
fn test_find_extremes_first_occurrence() {
    let s = img(2, 2, vec![5, 1, 1, 9]);
    let ext = find_extremes(&s);
    assert_eq!(ext.min_value, 1);
    assert_eq!(ext.min_value_location, (1, 0));
    assert_eq!(ext.max_value, 9);
    assert_eq!(ext.max_value_location, (1, 1));
}

#[test]
fn test_nms_merges_nearby_peaks() {
    // Two peaks within a 5x5 template box of each other merge into the
    // better one.
    let mut data = vec![0i128; 400];
    data[2 * 20 + 2] = 100;
    data[3 * 20 + 3] = 110;
    let surface = img(20, 20, data);
    let matches = find_matches(&surface, 5, 5, MatchTemplateMethod::CrossCorrelation, 50);
    assert_eq!(matches.len(), 1);
    assert_eq!(matches[0].location, (3, 3));
    assert_eq!(matches[0].value, 110);
}

#[test]
fn test_nms_keeps_distant_peaks() {
    let mut data = vec![0i128; 400];
    data[2 * 20 + 2] = 100;
    data[10 * 20 + 10] = 110;
    let surface = img(20, 20, data);
    let matches = find_matches(&surface, 5, 5, MatchTemplateMethod::CrossCorrelation, 50);
    assert_eq!(matches.len(), 2);
    // Sorted better first: the higher peak leads.
    assert_eq!(matches[0].location, (10, 10));
    assert_eq!(matches[1].location, (2, 2));
}

#[test]
fn test_nms_lower_is_better_direction() {
    let mut data = vec![1000i128; 100];
    data[5] = 3;
    data[50] = 7;
    let surface = img(10, 10, data);
    let matches = find_matches(&surface, 2, 2, MatchTemplateMethod::SumOfSquaredDifference, 10);
    assert_eq!(matches.len(), 2);
    assert_eq!(matches[0].value, 3);
    assert_eq!(matches[1].value, 7);
}

#[test]
fn test_threshold_direction_single() {
    // Lower is better: the small squared difference wins.
    let image = img(2, 1, vec![2, 50]);
    let template = img(1, 1, vec![0]);
    let options = MatcherOptions::method_default(MatchTemplateMethod::SumOfSquaredDifference)
        .with_threshold(10);
    let res = SingleMatcher::match_template(&image, &template, &options).unwrap();
    let m = res.result.unwrap();
    assert_eq!((m.rect.x, m.rect.y), (0, 0));
    assert_eq!(m.value, 4);

    // Higher is better: the large correlation wins on the same surface
    // values.
    let image = img(2, 1, vec![5, 50]);
    let template = img(1, 1, vec![1]);
    let options = MatcherOptions::method_default(MatchTemplateMethod::CrossCorrelation)
        .with_threshold(10);
    let res = SingleMatcher::match_template(&image, &template, &options).unwrap();
    let m = res.result.unwrap();
    assert_eq!((m.rect.x, m.rect.y), (1, 0));
    assert_eq!(m.value, 50);
}

#[test]
fn test_single_matcher_none_below_threshold() {
    let image = img(2, 1, vec![30, 50]);
    let template = img(1, 1, vec![0]);
    let options = MatcherOptions::method_default(MatchTemplateMethod::SumOfSquaredDifference)
        .with_threshold(10);
    let res = SingleMatcher::match_template(&image, &template, &options).unwrap();
    assert!(res.result.is_none());
}

#[test]
fn test_single_matcher_rect_size() {
    let image = img(3, 3, vec![1, 2, 3, 4, 5, 6, 7, 8, 9]);
    let template = img(2, 2, vec![5, 6, 8, 9]);
    let options = MatcherOptions::method_default(MatchTemplateMethod::SumOfSquaredDifference);
    let res = SingleMatcher::match_template(&image, &template, &options).unwrap();
    let m = res.result.unwrap();
    assert_eq!((m.rect.x, m.rect.y), (1, 1));
    assert_eq!((m.rect.width, m.rect.height), (2, 2));
    assert_eq!(m.value, 0);
}

#[test]
fn test_single_matcher_dimension_error() {
    let image = img(1, 1, vec![0]);
    let template = img(2, 2, vec![0; 4]);
    let options = MatcherOptions::method_default(MatchTemplateMethod::CrossCorrelation);
    assert!(SingleMatcher::match_template(&image, &template, &options).is_err());
}

#[test]
fn test_multi_matcher() {
    let image = img(5, 1, vec![100, 0, 0, 100, 0]);
    let template = img(1, 1, vec![1]);
    let options = MatcherOptions::method_default(MatchTemplateMethod::CrossCorrelation)
        .with_threshold(50);
    let res = MultiMatcher::match_template(&image, &template, &options).unwrap();
    assert_eq!(res.result.len(), 2);
    assert_eq!(res.result[0].location, (0, 0));
    assert_eq!(res.result[1].location, (3, 0));
    for m in &res.result {
        assert!(m.value > 50);
    }
}

#[test]
fn test_best_matcher_picks_best_candidate() {
    // Normalized correlations of 0.6, 1.0, and 0.8 in fixed point: the
    // middle image wins.
    let images = vec![
        img(2, 1, vec![3, 4]),
        img(2, 1, vec![1, 0]),
        img(2, 1, vec![4, 3]),
    ];
    let template = img(2, 1, vec![1, 0]);
    let options = MatcherOptions::method_default(MatchTemplateMethod::CrossCorrelationNormed)
        .with_threshold(32768);
    let res = BestMatcher::match_template(&images, &template, &options).unwrap();
    let (idx, m) = res.result.unwrap();
    assert_eq!(idx, 1);
    assert_eq!(m.value, 65536);
    assert_eq!(res.single_results.len(), 3);
}

#[test]
fn test_best_matcher_none_when_all_fail() {
    let images = vec![img(2, 1, vec![3, 4]), img(2, 1, vec![4, 3])];
    let template = img(2, 1, vec![1, 0]);
    let options = MatcherOptions::method_default(MatchTemplateMethod::CrossCorrelationNormed)
        .with_threshold(65536);
    let res = BestMatcher::match_template(&images, &template, &options).unwrap();
    assert!(res.result.is_none());
    assert_eq!(res.single_results.len(), 2);
}

#[test]
fn test_method_default_table() {
    for (method, threshold) in [
        (SumOfSquaredDifference, 1966080),
        (SumOfSquaredDifferenceNormed, 13107),
        (CrossCorrelation, 1966080),
        (CrossCorrelationNormed, 52429),
        (CorrelationCoefficient, 1966080),
        (CorrelationCoefficientNormed, 52429),
    ] {
        let options = MatcherOptions::method_default(method);
        assert_eq!(options.method, method);
        assert_eq!(options.threshold, threshold);
        assert!(!options.padding);
    }
}

#[test]
fn test_matcher_options_builders() {
    let options = MatcherOptions::default();
    assert_eq!(options.method, MatchTemplateMethod::SumOfSquaredDifferenceNormed);
    assert_eq!(options.threshold, 13107);
    assert!(!options.padding);
    let options = options
        .with_method(MatchTemplateMethod::CrossCorrelation)
        .with_threshold(123)
        .padded();
    assert_eq!(options.method, MatchTemplateMethod::CrossCorrelation);
    assert_eq!(options.threshold, 123);
    assert!(options.padding);
}

#[test]
fn test_better_direction() {
    assert!(is_a_more_match_than_b(1, 2, SumOfSquaredDifference));
    assert!(is_a_more_match_than_b(1, 2, SumOfSquaredDifferenceNormed));
    assert!(!is_a_more_match_than_b(2, 1, SumOfSquaredDifference));
    assert!(is_a_more_match_than_b(2, 1, CrossCorrelation));
    assert!(is_a_more_match_than_b(2, 1, CrossCorrelationNormed));
    assert!(is_a_more_match_than_b(2, 1, CorrelationCoefficient));
    assert!(is_a_more_match_than_b(2, 1, CorrelationCoefficientNormed));
    assert!(!is_a_more_match_than_b(1, 1, CrossCorrelation));
}
