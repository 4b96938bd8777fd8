use vstd::prelude::*;

use crate::image::Image;
use crate::extraction::{find_extremes, find_matches, loc_index, nms_matches, sort_spec,
    sorted_better_first};
use crate::template_matching::{
    MatchError, MatchTemplateMethod, PIX_LIMIT, dims_ok, is_surface_for, is_a_more_match_than_b,
    match_template, spec_more_match,
};

verus! {

/// An axis-aligned box on the source image.
#[derive(Copy, Clone, Debug, PartialEq, Eq, Structural)]
pub struct Rect {
    pub x: u32,
    pub y: u32,
    pub width: u32,
    pub height: u32,
}

/// One accepted match: the template-sized box anchored at the matched
/// location, and the surface value there.
#[derive(Copy, Clone, Debug, PartialEq, Eq)]
pub struct Match {
    pub rect: Rect,
    pub value: i128,
}

/// Configuration of the policy matchers.
///
/// `threshold` is a surface value in the engine's fixed-point scale: 65536
/// stands for a real value of 1.0.
#[derive(Copy, Clone, Debug, PartialEq, Eq)]
pub struct MatcherOptions {
    pub method: MatchTemplateMethod,
    pub threshold: i128,
    pub padding: bool,
}

impl Default for MatcherOptions {
    /// Normalized sum of squared differences with a threshold of 0.2 (as
    /// 13107 in fixed point) and no padding.
    fn default() -> (r: Self)
        ensures
            r.method == MatchTemplateMethod::SumOfSquaredDifferenceNormed,
            r.threshold == 13107,
            r.padding == false,
    {
        MatcherOptions {
            method: MatchTemplateMethod::SumOfSquaredDifferenceNormed,
            threshold: 13107,
            padding: false,
        }
    }
}

/// The calibrated default threshold for a method, in the engine's
/// fixed-point scale: 30.0 for the raw methods, 0.2 for normalized sum of
/// squared differences, and 0.8 for the other normalized methods.
pub open spec fn spec_default_threshold(method: MatchTemplateMethod) -> i128 {
    match method {
        MatchTemplateMethod::SumOfSquaredDifference => 1966080,
        MatchTemplateMethod::CrossCorrelation => 1966080,
        MatchTemplateMethod::CorrelationCoefficient => 1966080,
        MatchTemplateMethod::SumOfSquaredDifferenceNormed => 13107,
        MatchTemplateMethod::CrossCorrelationNormed => 52429,
        MatchTemplateMethod::CorrelationCoefficientNormed => 52429,
    }
}

impl MatcherOptions {
    /// Options for `method` with its calibrated default threshold, matching
    /// the documented table, and no padding.
    pub fn method_default(method: MatchTemplateMethod) -> (r: Self)
        ensures
            r.method == method,
            r.threshold == spec_default_threshold(method),
            r.padding == false,
    {
        let threshold: i128 = match method {
            MatchTemplateMethod::SumOfSquaredDifference
            | MatchTemplateMethod::CrossCorrelation
            | MatchTemplateMethod::CorrelationCoefficient => 1966080,
            MatchTemplateMethod::SumOfSquaredDifferenceNormed => 13107,
            MatchTemplateMethod::CrossCorrelationNormed
            | MatchTemplateMethod::CorrelationCoefficientNormed => 52429,
        };
        MatcherOptions { method, threshold, padding: false }
    }

    pub fn with_method(self, method: MatchTemplateMethod) -> (r: Self)
        ensures
            r.method == method,
            r.threshold == self.threshold,
            r.padding == self.padding,
    {
        MatcherOptions { method, ..self }
    }

    pub fn with_threshold(self, threshold: i128) -> (r: Self)
        ensures
            r.method == self.method,
            r.threshold == threshold,
            r.padding == self.padding,
    {
        MatcherOptions { threshold, ..self }
    }

    pub fn padded(self) -> (r: Self)
        ensures
            r.method == self.method,
            r.threshold == self.threshold,
            r.padding == true,
    {
        MatcherOptions { padding: true, ..self }
    }
}

/// Match one template on an image to get at most one result.
pub struct SingleMatcher;

pub struct SingleMatcherResult {
    pub result: Option<Match>,
    pub matched_image: Image,
}

/// The contract of one single-match run: the surface is the engine's, and
/// the result is the global extremum when and only when it beats the
/// threshold in the method's direction; its location is the first (row
/// major) to attain the extremum.
pub open spec fn single_result_ok(
    res: SingleMatcherResult,
    image: crate::image::ImageView,
    template: crate::image::ImageView,
    options: MatcherOptions,
) -> bool {
    let s = res.matched_image@;
    &&& is_surface_for(s, image, template, options.method, options.padding)
    &&& match res.result {
        Some(m) => {
            &&& m.rect.width == template.width
            &&& m.rect.height == template.height
            &&& m.rect.x < s.width
            &&& m.rect.y < s.height
            &&& s.pix(m.rect.x as int, m.rect.y as int) == m.value
            &&& spec_more_match(m.value as int, options.threshold as int, options.method)
            &&& forall|k: int| 0 <= k < s.data.len()
                ==> !spec_more_match(#[trigger] s.data[k] as int, m.value as int, options.method)
            &&& forall|k: int| 0 <= k < loc_index((m.rect.x, m.rect.y), s.width)
                ==> spec_more_match(m.value as int, #[trigger] s.data[k] as int, options.method)
        },
        None => forall|k: int| 0 <= k < s.data.len()
            ==> !spec_more_match(
                #[trigger] s.data[k] as int, options.threshold as int, options.method),
    }
}

impl SingleMatcher {
    /// Computes the surface and accepts its global extremum when it beats
    /// the threshold.
    pub fn match_template(
        image: &Image,
        template: &Image,
        options: &MatcherOptions,
    ) -> (r: Result<SingleMatcherResult, MatchError>)
        requires
            image@.wf(),
            template@.wf(),
            image@.bounded(PIX_LIMIT as int),
            template@.bounded(PIX_LIMIT as int),
        ensures
            r.is_ok() <==> dims_ok(image@, template@, options.padding),
            match r {
                Ok(res) => single_result_ok(res, image@, template@, *options),
                Err(e) => e == MatchError::DimensionError,
            },
    {
        let matched_image = match match_template(image, template, options.method, options.padding) {
            Ok(s) => s,
            Err(e) => {
                return Err(e);
            }
        };
        let extremes = find_extremes(&matched_image);
        let lower = matches!(
            options.method,
            MatchTemplateMethod::SumOfSquaredDifference
                | MatchTemplateMethod::SumOfSquaredDifferenceNormed
        );
        let (best_value, best_loc) = if lower {
            (extremes.min_value, extremes.min_value_location)
        } else {
            (extremes.max_value, extremes.max_value_location)
        };
        let result = if is_a_more_match_than_b(best_value, options.threshold, options.method) {
            Some(Match {
                rect: Rect {
                    x: best_loc.0,
                    y: best_loc.1,
                    width: template.width(),
                    height: template.height(),
                },
                value: best_value,
            })
        } else {
            None
        };
        Ok(SingleMatcherResult { result, matched_image })
    }
}

/// Match one template on an image to get every suppressed peak.
pub struct MultiMatcher;

pub struct MultiMatcherResult {
    pub result: Vec<crate::template_matching::Match>,
    pub matched_image: Image,
}

impl MultiMatcher {
    /// Computes the surface, extracts its suppressed peaks, and keeps those
    /// that beat the threshold (which the extraction already guarantees, so
    /// the check is a no-op kept from the design).
    pub fn match_template(
        image: &Image,
        template: &Image,
        options: &MatcherOptions,
    ) -> (r: Result<MultiMatcherResult, MatchError>)
        requires
            image@.wf(),
            template@.wf(),
            image@.bounded(PIX_LIMIT as int),
            template@.bounded(PIX_LIMIT as int),
        ensures
            r.is_ok() <==> dims_ok(image@, template@, options.padding),
            match r {
                Ok(res) => {
                    let s = res.matched_image@;
                    &&& is_surface_for(s, image@, template@, options.method, options.padding)
                    &&& res.result@ == sort_spec(
                        nms_matches(s, template@.width, template@.height, options.method,
                            options.threshold),
                        options.method,
                    )
                    &&& sorted_better_first(res.result@, options.method)
                    &&& forall|i: int| 0 <= i < res.result@.len()
                        ==> spec_more_match(
                            #[trigger] res.result@[i].value as int,
                            options.threshold as int, options.method)
                },
                Err(e) => e == MatchError::DimensionError,
            },
    {
        let matched_image = match match_template(image, template, options.method, options.padding) {
            Ok(s) => s,
            Err(e) => {
                return Err(e);
            }
        };
        let found = find_matches(
            &matched_image,
            template.width(),
            template.height(),
            options.method,
            options.threshold,
        );
        proof {
            crate::extraction::lemma_nms_matches_pass_threshold(
                matched_image@, template@.width, template@.height,
                options.method, options.threshold);
            let nseq = nms_matches(matched_image@, template@.width, template@.height,
                options.method, options.threshold);
            assert forall|j: int| 0 <= j < found@.len()
                implies spec_more_match(#[trigger] found@[j].value as int,
                    options.threshold as int, options.method) by {
                let m = found@[j];
                vstd::seq_lib::to_multiset_contains(found@, m);
                assert(found@.contains(m));
                assert(found@.to_multiset().count(m) > 0);
                vstd::seq_lib::to_multiset_contains(nseq, m);
                assert(nseq.contains(m));
                let j2 = choose|j2: int| 0 <= j2 < nseq.len() && nseq[j2] == m;
                assert(spec_more_match(nseq[j2].value as int,
                    options.threshold as int, options.method));
            }
        }
        let mut result: Vec<crate::template_matching::Match> = Vec::new();
        let n = found.len();
        let mut i: usize = 0;
        while i < n
            invariant
                n == found@.len(),
                i <= n,
                result@ == found@.subrange(0, i as int),
                forall|j: int| 0 <= j < found@.len()
                    ==> spec_more_match(#[trigger] found@[j].value as int,
                        options.threshold as int, options.method),
            decreases n - i,
        {
            let m = found[i];
            if is_a_more_match_than_b(m.value, options.threshold, options.method) {
                result.push(m);
            }
            proof {
                assert(result@ =~= found@.subrange(0, i + 1));
            }
            i += 1;
        }
        proof {
            assert(found@.subrange(0, n as int) =~= found@);
        }
        Ok(MultiMatcherResult { result, matched_image })
    }
}

/// Match one template on many images and pick the best single result.
pub struct BestMatcher;

pub struct BestMatcherResult {
    pub result: Option<(usize, Match)>,
    pub single_results: Vec<SingleMatcherResult>,
}

impl BestMatcher {
    /// Runs the single matcher on every candidate image and returns the
    /// index and match with the best value in the method's direction; on
    /// equal values the later candidate wins. `None` when no candidate
    /// passes the threshold.
    pub fn match_template(
        images: &Vec<Image>,
        template: &Image,
        options: &MatcherOptions,
    ) -> (r: Result<BestMatcherResult, MatchError>)
        requires
            template@.wf(),
            template@.bounded(PIX_LIMIT as int),
            forall|i: int| 0 <= i < images@.len() ==> (#[trigger] images@[i])@.wf(),
            forall|i: int| 0 <= i < images@.len()
                ==> (#[trigger] images@[i])@.bounded(PIX_LIMIT as int),
        ensures
            r.is_ok() <==> forall|i: int| 0 <= i < images@.len()
                ==> dims_ok((#[trigger] images@[i])@, template@, options.padding),
            match r {
                Ok(res) => {
                    &&& res.single_results@.len() == images@.len()
                    &&& forall|i: int| 0 <= i < images@.len()
                        ==> single_result_ok(#[trigger] res.single_results@[i],
                            images@[i]@, template@, *options)
                    &&& match res.result {
                        Some((best_i, m)) => {
                            &&& best_i < images@.len()
                            &&& res.single_results@[best_i as int].result == Some(m)
                            &&& forall|j: int| 0 <= j < images@.len()
                                ==> match (#[trigger] res.single_results@[j]).result {
                                    Some(mj) => !spec_more_match(
                                        mj.value as int, m.value as int, options.method),
                                    None => true,
                                }
                            &&& forall|j: int| best_i < j < images@.len()
                                ==> match (#[trigger] res.single_results@[j]).result {
                                    Some(mj) => spec_more_match(
                                        m.value as int, mj.value as int, options.method),
                                    None => true,
                                }
                        },
                        None => forall|j: int| 0 <= j < images@.len()
                            ==> (#[trigger] res.single_results@[j]).result is None,
                    }
                },
                Err(e) => e == MatchError::DimensionError,
            },
    {
        let n = images.len();
        let mut single_results: Vec<SingleMatcherResult> = Vec::new();
        let mut best: Option<(usize, Match)> = None;
        let mut i: usize = 0;
        while i < n
            invariant
                n == images@.len(),
                i <= n,
                template@.wf(),
                template@.bounded(PIX_LIMIT as int),
                forall|j: int| 0 <= j < images@.len() ==> (#[trigger] images@[j])@.wf(),
                forall|j: int| 0 <= j < images@.len()
                    ==> (#[trigger] images@[j])@.bounded(PIX_LIMIT as int),
                single_results@.len() == i,
                forall|j: int| 0 <= j < i
                    ==> single_result_ok(#[trigger] single_results@[j],
                        images@[j]@, template@, *options),
                forall|j: int| 0 <= j < i
                    ==> dims_ok((#[trigger] images@[j])@, template@, options.padding),
                match best {
                    Some((best_i, m)) => {
                        &&& (best_i as int) < i
                        &&& single_results@[best_i as int].result == Some(m)
                        &&& forall|j: int| 0 <= j < i
                            ==> match (#[trigger] single_results@[j]).result {
                                Some(mj) => !spec_more_match(
                                    mj.value as int, m.value as int, options.method),
                                None => true,
                            }
                        &&& forall|j: int| best_i < j < i
                            ==> match (#[trigger] single_results@[j]).result {
                                Some(mj) => spec_more_match(
                                    m.value as int, mj.value as int, options.method),
                                None => true,
                            }
                    },
                    None => forall|j: int| 0 <= j < i
                        ==> (#[trigger] single_results@[j]).result is None,
                },
            decreases n - i,
        {
            let res = match SingleMatcher::match_template(&images[i], template, options) {
                Ok(res) => res,
                Err(e) => {
                    return Err(e);
                }
            };
            match &res.result {
                Some(m) => {
                    let replace = match &best {
                        Some((_, bm)) => !is_a_more_match_than_b(
                            bm.value, m.value, options.method),
                        None => true,
                    };
                    if replace {
                        best = Some((i, *m));
                    }
                }
                None => {}
            }
            single_results.push(res);
            i += 1;
        }
        Ok(BestMatcherResult { result: best, single_results })
    }
}

} // verus!
