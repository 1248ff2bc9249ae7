use grid_analysis::error::{AnalysisError, EncodingFault, InputFault, ProcessingFault};
use grid_analysis::pipeline::{Border, Event, Pipeline, Range, Sigma, Stage, Step, Variant};
use grid_analysis::raster::data_url;

const SEGMENT: Variant = Variant::Segmentation { invert: false };

fn bits(rows: &[&[f32]]) -> Vec<Vec<u32>> {
    rows.iter().map(|r| r.iter().map(|v| v.to_bits()).collect()).collect()
}

fn ramp() -> Vec<Vec<u32>> {
    bits(&[&[0.0, 1.0, 2.0], &[3.0, 4.0, 5.0], &[6.0, 7.0, 8.0]])
}

/// The ramp rescaled to 0..=255, halves rounded to even.
const RAMP_LEVELS: [u8; 9] = [0, 32, 64, 96, 128, 159, 191, 223, 255];

fn matrix(width: usize, height: usize, levels: &[u8]) -> Event {
    Event::Matrix { width, height, levels: levels.to_vec() }
}

/// A stream that opens as a PNG of the given size does.
fn stream(width: u32, height: u32, body: &[u8]) -> Vec<u8> {
    let mut bytes: Vec<u8> = vec![137, 80, 78, 71, 13, 10, 26, 10, 0, 0, 0, 13, 73, 72, 68, 82];
    bytes.extend_from_slice(&width.to_be_bytes());
    bytes.extend_from_slice(&height.to_be_bytes());
    bytes.extend_from_slice(&[8, 0, 0, 0, 0]);
    bytes.extend_from_slice(body);
    bytes
}

fn current_levels(p: &Pipeline) -> Vec<u8> {
    p.current().expect("a matrix is at hand").levels().clone()
}

#[test]
fn empty_grid_is_refused_before_any_step() {
    let none: Vec<Vec<u32>> = Vec::new();
    for variant in [Variant::Preview, SEGMENT, Variant::Segmentation { invert: true }] {
        match Pipeline::start(variant, &none) {
            Err(error) => assert_eq!(error, AnalysisError::Input(InputFault::NoRows)),
            Ok(_) => panic!("an empty grid must not start a run"),
        }
        match Pipeline::start(variant, &vec![Vec::new()]) {
            Err(error) => assert_eq!(error, AnalysisError::Input(InputFault::NoColumns)),
            Ok(_) => panic!("a grid without columns must not start a run"),
        }
    }
}

#[test]
fn ragged_grid_is_refused_before_any_step() {
    let rows = bits(&[&[1.0, 2.0, 3.0], &[4.0, 5.0], &[6.0, 7.0, 8.0]]);
    match Pipeline::start(SEGMENT, &rows) {
        Err(error) => {
            assert_eq!(error, AnalysisError::Input(InputFault::Ragged { row: 1 }));
            assert_eq!(error.message(), "input error: the grid's rows differ in length");
        },
        Ok(_) => panic!("a ragged grid must not start a run"),
    }
}

#[test]
fn ramp_is_sent_to_byte_normalisation() {
    let p = Pipeline::start(SEGMENT, &ramp()).unwrap();
    assert_eq!(p.step(), Step::Normalize { range: Range::Byte });
    assert!(p.current().is_none());
    assert_eq!(p.variant(), SEGMENT);
    assert_eq!((p.grid().width(), p.grid().height()), (3, 3));
}

#[test]
fn normalised_ramp_runs_from_low_to_high() {
    let mut p = Pipeline::start(SEGMENT, &ramp()).unwrap();
    let next = p.advance(matrix(3, 3, &RAMP_LEVELS));
    assert_eq!(next, Ok(Step::Encode { stage: Stage::Normalized }));
    let m = p.current().unwrap();
    assert_eq!(m.level(0, 0), 0);
    assert_eq!(m.level(2, 2), 255);
    assert_eq!(m.level(1, 1), 128);
    assert_eq!(m.levels(), &RAMP_LEVELS.to_vec());
}

#[test]
fn normalisation_that_misses_an_extreme_is_refused() {
    let mut high_off = RAMP_LEVELS;
    high_off[8] = 254;
    let mut low_off = RAMP_LEVELS;
    low_off[0] = 1;
    for levels in [high_off, low_off] {
        let mut p = Pipeline::start(SEGMENT, &ramp()).unwrap();
        assert_eq!(
            p.advance(matrix(3, 3, &levels)),
            Err(AnalysisError::Processing(ProcessingFault::OffScale))
        );
        assert_eq!(p.step(), Step::Aborted);
        assert!(p.current().is_none());
    }
}

#[test]
fn halfway_sample_may_round_either_way() {
    // 4 lies at 127.5 on the scale from 0 to 8
    for (middle, admitted) in [(126u8, false), (127, true), (128, true), (129, false)] {
        let mut levels = RAMP_LEVELS;
        levels[4] = middle;
        let mut p = Pipeline::start(SEGMENT, &ramp()).unwrap();
        let outcome = p.advance(matrix(3, 3, &levels));
        if admitted {
            assert_eq!(outcome, Ok(Step::Encode { stage: Stage::Normalized }));
            assert_eq!(p.current().unwrap().level(1, 1), middle);
        } else {
            assert_eq!(outcome, Err(AnalysisError::Processing(ProcessingFault::OffScale)));
        }
    }
}

#[test]
fn every_sample_is_held_to_the_scale() {
    // the places on the scale: 0, 31.875, 63.75, 95.625, 127.5, 159.375, 191.25, 223.125, 255
    let floors: [u8; 9] = [0, 31, 63, 95, 127, 159, 191, 223, 255];
    let ceilings: [u8; 9] = [0, 32, 64, 96, 128, 160, 192, 224, 255];
    for levels in [floors, ceilings] {
        let mut p = Pipeline::start(SEGMENT, &ramp()).unwrap();
        assert_eq!(p.advance(matrix(3, 3, &levels)), Ok(Step::Encode { stage: Stage::Normalized }));
    }
    for at in 1..8 {
        for levels in [floors, ceilings] {
            let mut below = levels;
            below[at] = floors[at] - 1;
            let mut above = levels;
            above[at] = ceilings[at] + 1;
            for off in [below, above] {
                let mut p = Pipeline::start(SEGMENT, &ramp()).unwrap();
                assert_eq!(
                    p.advance(matrix(3, 3, &off)),
                    Err(AnalysisError::Processing(ProcessingFault::OffScale)),
                    "sample {} at level {}",
                    at,
                    off[at]
                );
            }
        }
    }
}

#[test]
fn normalisation_that_reverses_two_samples_is_refused() {
    // on the scale from 0 to 100, 10.0 lies at 25.5 and 10.1 at 25.755
    let rows = bits(&[&[0.0, 10.0, 10.1, 100.0]]);
    let mut p = Pipeline::start(SEGMENT, &rows).unwrap();
    assert_eq!(
        p.advance(matrix(4, 1, &[0, 26, 25, 255])),
        Err(AnalysisError::Processing(ProcessingFault::Disorder))
    );
    assert_eq!(p.step(), Step::Aborted);
    // either level for both, or the lower one first, is in order
    for levels in [[0u8, 25, 25, 255], [0, 26, 26, 255], [0, 25, 26, 255]] {
        let mut p = Pipeline::start(SEGMENT, &rows).unwrap();
        assert_eq!(p.advance(matrix(4, 1, &levels)), Ok(Step::Encode { stage: Stage::Normalized }));
    }
}

#[test]
fn grid_with_an_infinite_sample_is_flat() {
    for rows in [
        bits(&[&[0.0, 1.0, f32::INFINITY]]),
        bits(&[&[f32::NEG_INFINITY, 1.0, 2.0]]),
        bits(&[&[f32::NEG_INFINITY, f32::INFINITY]]),
    ] {
        let p = Pipeline::start(SEGMENT, &rows).unwrap();
        assert_eq!(p.step(), Step::Encode { stage: Stage::Normalized });
        assert!(current_levels(&p).iter().all(|v| *v == 0));
    }
}

#[test]
fn smoothing_that_leaves_the_neighbourhood_range_is_refused() {
    let mut p = Pipeline::start(SEGMENT, &ramp()).unwrap();
    p.advance(matrix(3, 3, &RAMP_LEVELS)).unwrap();
    p.advance(Event::Png(stream(3, 3, &[]))).unwrap();
    // the corner's neighbourhood holds 0, 32, 96 and 128
    let mut smoothed = RAMP_LEVELS;
    smoothed[0] = 129;
    assert_eq!(
        p.advance(matrix(3, 3, &smoothed)),
        Err(AnalysisError::Processing(ProcessingFault::OffRange))
    );
    assert_eq!(p.step(), Step::Aborted);
}

#[test]
fn smoothing_within_the_neighbourhood_range_is_admitted() {
    let mut p = Pipeline::start(SEGMENT, &ramp()).unwrap();
    p.advance(matrix(3, 3, &RAMP_LEVELS)).unwrap();
    p.advance(Event::Png(stream(3, 3, &[]))).unwrap();
    // what a 1-2-1 kernel with a mirrored border makes of the ramp
    let smoothed: [u8; 9] = [64, 80, 96, 112, 128, 144, 160, 175, 191];
    assert_eq!(p.advance(matrix(3, 3, &smoothed)), Ok(Step::Encode { stage: Stage::Gaussian }));
    assert_eq!(current_levels(&p), smoothed.to_vec());
}

#[test]
fn unit_range_smoothing_may_be_one_level_off() {
    let flat_grid: Vec<Vec<u32>> = vec![vec![1.0f32.to_bits(); 7]; 7];
    let mut p = Pipeline::start(Variant::Preview, &flat_grid).unwrap();
    // a flat grid: the normalised matrix is all low
    p.advance(Event::Png(stream(7, 7, &[]))).unwrap();
    let mut smoothed = vec![0u8; 49];
    smoothed[24] = 1;
    assert_eq!(p.advance(matrix(7, 7, &smoothed)), Ok(Step::Encode { stage: Stage::Gaussian }));
    let mut p = Pipeline::start(Variant::Preview, &flat_grid).unwrap();
    p.advance(Event::Png(stream(7, 7, &[]))).unwrap();
    smoothed[24] = 2;
    assert_eq!(
        p.advance(matrix(7, 7, &smoothed)),
        Err(AnalysisError::Processing(ProcessingFault::OffRange))
    );
}

#[test]
fn constant_grid_is_all_low_without_normalisation() {
    let rows = bits(&[&[5.0, 5.0], &[5.0, 5.0]]);
    let mut p = Pipeline::start(SEGMENT, &rows).unwrap();
    assert_eq!(p.step(), Step::Encode { stage: Stage::Normalized });
    assert_eq!(current_levels(&p), vec![0, 0, 0, 0]);
    // the run goes on to its end
    assert_eq!(
        p.advance(Event::Png(stream(2, 2, &[]))),
        Ok(Step::Smooth { kernel: 3, sigma: Sigma::Derived, border: Border::Reflect })
    );
    assert_eq!(p.advance(matrix(2, 2, &[0; 4])), Ok(Step::Encode { stage: Stage::Gaussian }));
    assert_eq!(p.advance(Event::Png(stream(2, 2, &[]))), Ok(Step::Binarize));
    assert_eq!(p.advance(matrix(2, 2, &[0; 4])), Ok(Step::Encode { stage: Stage::Threshold }));
    assert_eq!(p.advance(Event::Png(stream(2, 2, &[]))), Ok(Step::Finished));
    assert_eq!(p.finish().unwrap().len(), 3);
}

#[test]
fn grids_without_a_spread_are_flat() {
    for rows in [
        bits(&[&[0.0, -0.0]]),
        bits(&[&[f32::NAN, f32::NAN]]),
        bits(&[&[f32::NAN, 3.0], &[3.0, 3.0]]),
        bits(&[&[7.0]]),
    ] {
        let p = Pipeline::start(Variant::Preview, &rows).unwrap();
        assert_eq!(p.step(), Step::Encode { stage: Stage::Normalized });
        assert!(current_levels(&p).iter().all(|v| *v == 0));
        assert_eq!(current_levels(&p).len(), rows.len() * rows[0].len());
    }
}

/// Plays the numeric back end on a grid of two well-separated modes.
fn run_two_modes(variant: Variant) -> (Pipeline, Vec<u8>) {
    let rows = bits(&[
        &[1.0, 2.0, 251.0, 254.0],
        &[0.0, 3.0, 253.0, 255.0],
        &[2.0, 1.0, 252.0, 250.0],
    ]);
    let flat: Vec<f32> = rows.iter().flatten().map(|b| f32::from_bits(*b)).collect();
    let mut p = Pipeline::start(variant, &rows).unwrap();
    assert_eq!(p.step(), Step::Normalize { range: Range::Byte });
    let normalised: Vec<u8> = flat.iter().map(|v| *v as u8).collect();
    assert_eq!(p.advance(matrix(4, 3, &normalised)), Ok(Step::Encode { stage: Stage::Normalized }));
    let first = stream(4, 3, &normalised);
    assert_eq!(
        p.advance(Event::Png(first)),
        Ok(Step::Smooth { kernel: 3, sigma: Sigma::Derived, border: Border::Reflect })
    );
    let smoothed: Vec<u8> = vec![2, 2, 250, 252, 1, 2, 251, 253, 2, 2, 251, 252];
    assert_eq!(p.advance(matrix(4, 3, &smoothed)), Ok(Step::Encode { stage: Stage::Gaussian }));
    assert_eq!(p.advance(Event::Png(stream(4, 3, &smoothed))), Ok(Step::Binarize));
    (p, smoothed)
}

#[test]
fn two_modes_come_out_as_two_regions() {
    let (mut p, smoothed) = run_two_modes(SEGMENT);
    let binary: Vec<u8> = smoothed.iter().map(|v| if *v > 2 { 255 } else { 0 }).collect();
    assert_eq!(p.advance(matrix(4, 3, &binary)), Ok(Step::Encode { stage: Stage::Threshold }));
    let m = p.current().unwrap();
    for r in 0..3 {
        for c in 0..4 {
            assert_eq!(m.level(r, c), if c < 2 { 0 } else { 255 }, "cell {},{}", r, c);
        }
    }
    assert_eq!(p.advance(Event::Png(stream(4, 3, &binary))), Ok(Step::Finished));
    let set = p.finish().unwrap();
    let names: Vec<String> = set.named().into_iter().map(|pair| pair.0).collect();
    assert_eq!(names, vec!["Normalized", "Gaussian", "Threshold"]);
}

#[test]
fn regions_that_cross_the_modes_are_refused() {
    let (mut p, _) = run_two_modes(SEGMENT);
    let crossed: Vec<u8> = vec![0, 0, 255, 255, 0, 255, 0, 255, 0, 0, 255, 255];
    assert_eq!(
        p.advance(matrix(4, 3, &crossed)),
        Err(AnalysisError::Processing(ProcessingFault::NotASplit))
    );
    assert_eq!(p.step(), Step::Aborted);
}

#[test]
fn third_level_in_a_binarised_matrix_is_refused() {
    let (mut p, _) = run_two_modes(SEGMENT);
    let grey: Vec<u8> = vec![0, 0, 255, 255, 0, 0, 254, 255, 0, 0, 255, 255];
    assert_eq!(
        p.advance(matrix(4, 3, &grey)),
        Err(AnalysisError::Processing(ProcessingFault::NotBinary))
    );
}

#[test]
fn inverted_segmentation_shows_the_complement() {
    let (mut p, smoothed) = run_two_modes(Variant::Segmentation { invert: true });
    let binary: Vec<u8> = smoothed.iter().map(|v| if *v > 100 { 255 } else { 0 }).collect();
    assert_eq!(p.advance(matrix(4, 3, &binary)), Ok(Step::Encode { stage: Stage::Threshold }));
    let shown = current_levels(&p);
    let complement: Vec<u8> = binary.iter().map(|v| 255 - *v).collect();
    assert_eq!(shown, complement);
    assert!(shown.iter().all(|v| *v == 0 || *v == 255));
}

#[test]
fn preview_stops_after_smoothing() {
    let mut p = Pipeline::start(Variant::Preview, &ramp()).unwrap();
    assert_eq!(p.step(), Step::Normalize { range: Range::Unit });
    assert_eq!(
        p.advance(matrix(3, 3, &RAMP_LEVELS)),
        Ok(Step::Encode { stage: Stage::Normalized })
    );
    assert_eq!(
        p.advance(Event::Png(stream(3, 3, &[1]))),
        Ok(Step::Smooth { kernel: 5, sigma: Sigma::One, border: Border::Constant })
    );
    assert_eq!(p.advance(matrix(3, 3, &[9; 9])), Ok(Step::Encode { stage: Stage::Gaussian }));
    assert_eq!(p.advance(Event::Png(stream(3, 3, &[2]))), Ok(Step::Finished));
    assert_eq!(p.step(), Step::Finished);
    let set = p.finish().unwrap();
    assert_eq!(set.len(), 2);
    assert_eq!(set.stage(0), Stage::Normalized);
    assert_eq!(set.stage(1), Stage::Gaussian);
    assert!(set.get(Stage::Threshold).is_none());
}

#[test]
fn rasters_are_the_inline_text_of_the_streams() {
    let mut p = Pipeline::start(Variant::Preview, &ramp()).unwrap();
    p.advance(matrix(3, 3, &RAMP_LEVELS)).unwrap();
    let first = stream(3, 3, b"first");
    p.advance(Event::Png(first.clone())).unwrap();
    p.advance(matrix(3, 3, &[9; 9])).unwrap();
    let second = stream(3, 3, b"second");
    p.advance(Event::Png(second.clone())).unwrap();
    let set = p.finish().unwrap();
    assert_eq!(set.get(Stage::Normalized), Some(&data_url(&first).unwrap()));
    assert_eq!(set.get(Stage::Gaussian), Some(&data_url(&second).unwrap()));
    assert_eq!(set.raster(0), &data_url(&first).unwrap());
    assert_eq!(set.raster(1), &data_url(&second).unwrap());
    assert!(set.raster(0).starts_with("data:image/png;base64,iVBORw0KGgoAAAANSUhEUgAAAAMAAAAD"));
    let named = set.named();
    assert_eq!(named[0], ("Normalized".to_string(), data_url(&first).unwrap()));
    assert_eq!(named[1], ("Gaussian".to_string(), data_url(&second).unwrap()));
}

#[test]
fn smoothing_must_keep_the_dimensions() {
    for (w, h, n) in [(3usize, 3usize, 8usize), (3, 2, 6), (2, 3, 6), (9, 1, 9), (3, 3, 10)] {
        let mut p = Pipeline::start(SEGMENT, &ramp()).unwrap();
        p.advance(matrix(3, 3, &RAMP_LEVELS)).unwrap();
        p.advance(Event::Png(stream(3, 3, &[]))).unwrap();
        assert_eq!(
            p.advance(matrix(w, h, &vec![7; n])),
            Err(AnalysisError::Processing(ProcessingFault::Dimensions)),
            "{}x{} with {} levels",
            w,
            h,
            n
        );
        assert_eq!(p.step(), Step::Aborted);
    }
}

#[test]
fn admitted_matrices_have_the_grid_dimensions() {
    let (mut p, smoothed) = run_two_modes(SEGMENT);
    let m = p.current().unwrap();
    assert_eq!((m.width(), m.height()), (4, 3));
    assert_eq!(m.levels(), &smoothed);
    let binary: Vec<u8> = smoothed.iter().map(|v| if *v > 2 { 255 } else { 0 }).collect();
    p.advance(matrix(4, 3, &binary)).unwrap();
    let m = p.current().unwrap();
    assert_eq!((m.width(), m.height()), (4, 3));
}

#[test]
fn stream_must_be_a_png_of_the_matrix_size() {
    for bad in [stream(3, 2, &[]), stream(2, 3, &[]), b"not a png".to_vec(), Vec::new()] {
        let mut p = Pipeline::start(SEGMENT, &ramp()).unwrap();
        p.advance(matrix(3, 3, &RAMP_LEVELS)).unwrap();
        assert_eq!(
            p.advance(Event::Png(bad)),
            Err(AnalysisError::Processing(ProcessingFault::Raster))
        );
        assert_eq!(p.step(), Step::Aborted);
    }
}

#[test]
fn reported_failure_aborts_and_drops_what_was_collected() {
    let mut p = Pipeline::start(SEGMENT, &ramp()).unwrap();
    p.advance(matrix(3, 3, &RAMP_LEVELS)).unwrap();
    p.advance(Event::Png(stream(3, 3, &[]))).unwrap();
    let error = p.advance(Event::Failure("kernel size must be odd".to_string())).unwrap_err();
    assert_eq!(
        error,
        AnalysisError::Processing(ProcessingFault::Backend("kernel size must be odd".to_string()))
    );
    assert_eq!(error.message(), "kernel size must be odd");
    assert_eq!(p.step(), Step::Aborted);
    assert!(p.current().is_none());
    assert_eq!(p.finish().err(), Some(AnalysisError::Processing(ProcessingFault::Unfinished)));
}

#[test]
fn unfinished_run_hands_out_nothing() {
    let p = Pipeline::start(SEGMENT, &ramp()).unwrap();
    assert_eq!(p.finish().err(), Some(AnalysisError::Processing(ProcessingFault::Unfinished)));
    let (p, _) = run_two_modes(SEGMENT);
    assert_eq!(p.finish().err(), Some(AnalysisError::Processing(ProcessingFault::Unfinished)));
}

#[test]
fn events_out_of_turn_abort_a_running_pipeline() {
    let mut p = Pipeline::start(SEGMENT, &ramp()).unwrap();
    assert_eq!(
        p.advance(Event::Png(stream(3, 3, &[]))),
        Err(AnalysisError::Processing(ProcessingFault::OutOfTurn))
    );
    assert_eq!(p.step(), Step::Aborted);
    let mut p = Pipeline::start(SEGMENT, &ramp()).unwrap();
    p.advance(matrix(3, 3, &RAMP_LEVELS)).unwrap();
    assert_eq!(
        p.advance(matrix(3, 3, &RAMP_LEVELS)),
        Err(AnalysisError::Processing(ProcessingFault::OutOfTurn))
    );
    assert_eq!(p.step(), Step::Aborted);
    assert_eq!(
        p.advance(matrix(3, 3, &RAMP_LEVELS)),
        Err(AnalysisError::Processing(ProcessingFault::OutOfTurn))
    );
}

#[test]
fn events_after_the_end_change_nothing() {
    let mut p = Pipeline::start(Variant::Preview, &bits(&[&[1.0, 1.0]])).unwrap();
    p.advance(Event::Png(stream(2, 1, &[]))).unwrap();
    p.advance(matrix(2, 1, &[0, 0])).unwrap();
    assert_eq!(p.advance(Event::Png(stream(2, 1, &[]))), Ok(Step::Finished));
    assert_eq!(
        p.advance(Event::Failure("late".to_string())),
        Err(AnalysisError::Processing(ProcessingFault::OutOfTurn))
    );
    assert_eq!(p.step(), Step::Finished);
    assert_eq!(p.finish().unwrap().len(), 2);
}

#[test]
fn same_events_give_the_same_rasters() {
    let mut runs: Vec<Vec<(String, String)>> = Vec::new();
    for _ in 0..2 {
        let (mut p, smoothed) = run_two_modes(SEGMENT);
        let binary: Vec<u8> = smoothed.iter().map(|v| if *v > 2 { 255 } else { 0 }).collect();
        p.advance(matrix(4, 3, &binary)).unwrap();
        p.advance(Event::Png(stream(4, 3, &binary))).unwrap();
        runs.push(p.finish().unwrap().named());
    }
    assert_eq!(runs[0], runs[1]);
    assert_eq!(runs[0].len(), 3);
}

#[test]
fn stage_names_are_the_result_keys() {
    assert_eq!(Stage::Normalized.name(), "Normalized");
    assert_eq!(Stage::Gaussian.name(), "Gaussian");
    assert_eq!(Stage::Threshold.name(), "Threshold");
}

#[test]
fn every_error_has_its_message() {
    let cases = [
        (AnalysisError::Input(InputFault::NoRows), "input error: the grid has no rows"),
        (AnalysisError::Input(InputFault::NoColumns), "input error: the grid has no columns"),
        (
            AnalysisError::Input(InputFault::Ragged { row: 4 }),
            "input error: the grid's rows differ in length",
        ),
        (AnalysisError::Input(InputFault::TooLarge), "input error: the grid is too large"),
        (AnalysisError::Load("no such file".to_string()), "no such file"),
        (
            AnalysisError::Processing(ProcessingFault::Backend("bad depth".to_string())),
            "bad depth",
        ),
        (
            AnalysisError::Processing(ProcessingFault::OutOfTurn),
            "processing error: result offered out of turn",
        ),
        (
            AnalysisError::Processing(ProcessingFault::Dimensions),
            "processing error: matrix dimensions do not match the grid",
        ),
        (
            AnalysisError::Processing(ProcessingFault::OffScale),
            "processing error: normalised level off the grid's scale",
        ),
        (
            AnalysisError::Processing(ProcessingFault::Disorder),
            "processing error: normalised levels reverse the samples' order",
        ),
        (
            AnalysisError::Processing(ProcessingFault::OffRange),
            "processing error: smoothed level outside its neighbourhood's range",
        ),
        (
            AnalysisError::Processing(ProcessingFault::NotBinary),
            "processing error: binarised matrix holds a third level",
        ),
        (
            AnalysisError::Processing(ProcessingFault::NotASplit),
            "processing error: binarised matrix does not split its source",
        ),
        (
            AnalysisError::Processing(ProcessingFault::Raster),
            "processing error: raster is not a PNG of the matrix's size",
        ),
        (
            AnalysisError::Processing(ProcessingFault::Unfinished),
            "processing error: the run did not finish",
        ),
        (
            AnalysisError::Encoding(EncodingFault::TooLong),
            "encoding error: raster too long for inline text",
        ),
    ];
    for (error, text) in cases {
        assert_eq!(error.message(), text);
    }
}
