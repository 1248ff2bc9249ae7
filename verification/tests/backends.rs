use grid_analysis::pipeline::{Border, Event, Pipeline, Range, Sigma, Stage, Step, Variant};

/// A stand-in for the numeric back end, in single-precision arithmetic
/// where the real one uses it.
struct Backend {
    width: usize,
    height: usize,
    raw: Vec<f32>,
}

fn round_half_even(x: f32) -> f32 {
    let floor = x.floor();
    let rest = x - floor;
    if rest > 0.5 || (rest == 0.5 && floor % 2.0 != 0.0) {
        floor + 1.0
    } else {
        floor
    }
}

fn to_level(x: f32) -> u8 {
    let r = round_half_even(x);
    if r.is_nan() || r <= 0.0 {
        0
    } else if r >= 255.0 {
        255
    } else {
        r as u8
    }
}

fn mirror(i: isize, n: usize) -> usize {
    if n == 1 {
        0
    } else if i < 0 {
        (-i) as usize
    } else if i as usize >= n {
        2 * (n - 1) - i as usize
    } else {
        i as usize
    }
}

impl Backend {
    fn normalize(&self) -> Vec<u8> {
        let mut low = f64::INFINITY;
        let mut high = f64::NEG_INFINITY;
        for v in &self.raw {
            if (*v as f64) < low {
                low = *v as f64;
            }
            if (*v as f64) > high {
                high = *v as f64;
            }
        }
        let scale = 255.0 / (high - low);
        let a = scale as f32;
        let b = (-low * scale) as f32;
        self.raw.iter().map(|v| to_level(*v * a + b)).collect()
    }

    fn smooth(&self, source: &[u8]) -> Vec<u8> {
        let weights = [1u32, 2, 1];
        let mut out = Vec::new();
        for r in 0..self.height {
            for c in 0..self.width {
                let mut sum = 0u32;
                for dr in 0..3 {
                    for dc in 0..3 {
                        let rr = mirror(r as isize + dr as isize - 1, self.height);
                        let cc = mirror(c as isize + dc as isize - 1, self.width);
                        sum += weights[dr] * weights[dc] * source[rr * self.width + cc] as u32;
                    }
                }
                out.push(((sum + 8) / 16) as u8);
            }
        }
        out
    }

    /// The threshold with the greatest spread between the two classes.
    fn binarize(&self, source: &[u8]) -> Vec<u8> {
        let mut histogram = [0f64; 256];
        for v in source {
            histogram[*v as usize] += 1.0;
        }
        let total = source.len() as f64;
        let mean: f64 = (0..256).map(|i| i as f64 * histogram[i]).sum::<f64>() / total;
        let (mut best, mut best_at) = (0.0, 0usize);
        let (mut weight, mut mass) = (0.0, 0.0);
        for t in 0..256 {
            weight += histogram[t] / total;
            mass += t as f64 * histogram[t] / total;
            if weight <= 0.0 || weight >= 1.0 {
                continue;
            }
            let below = mass / weight;
            let above = (mean - mass) / (1.0 - weight);
            let spread = weight * (1.0 - weight) * (below - above) * (below - above);
            if spread > best {
                best = spread;
                best_at = t;
            }
        }
        source.iter().map(|v| if *v as usize > best_at { 255 } else { 0 }).collect()
    }

    fn encode(&self, levels: &[u8]) -> Vec<u8> {
        let mut bytes: Vec<u8> = vec![137, 80, 78, 71, 13, 10, 26, 10, 0, 0, 0, 13, 73, 72, 68, 82];
        bytes.extend_from_slice(&(self.width as u32).to_be_bytes());
        bytes.extend_from_slice(&(self.height as u32).to_be_bytes());
        bytes.extend_from_slice(&[8, 0, 0, 0, 0]);
        bytes.extend_from_slice(levels);
        bytes
    }

    fn perform(&self, step: Step, current: Option<Vec<u8>>) -> Event {
        let (width, height) = (self.width, self.height);
        match step {
            Step::Normalize { range: Range::Byte } => {
                Event::Matrix { width, height, levels: self.normalize() }
            },
            Step::Smooth { kernel: 3, sigma: Sigma::Derived, border: Border::Reflect } => {
                Event::Matrix { width, height, levels: self.smooth(&current.unwrap()) }
            },
            Step::Binarize => {
                Event::Matrix { width, height, levels: self.binarize(&current.unwrap()) }
            },
            Step::Encode { .. } => Event::Png(self.encode(&current.unwrap())),
            other => Event::Failure(format!("step {:?} is not supported", other)),
        }
    }
}

/// Runs a segmentation to its end and hands back the binary matrix.
fn segment(width: usize, height: usize, raw: Vec<f32>) -> Vec<u8> {
    let rows: Vec<Vec<u32>> =
        raw.chunks(width).map(|row| row.iter().map(|v| v.to_bits()).collect()).collect();
    let backend = Backend { width, height, raw };
    let mut pipeline = Pipeline::start(Variant::Segmentation { invert: false }, &rows).unwrap();
    let mut binary = Vec::new();
    let mut step = pipeline.step();
    while step != Step::Finished {
        assert_ne!(step, Step::Aborted);
        let current = pipeline.current().map(|m| m.levels().clone());
        if step == (Step::Encode { stage: Stage::Threshold }) {
            binary = current.clone().unwrap();
        }
        let event = backend.perform(step, current);
        step = pipeline.advance(event).unwrap_or_else(|e| panic!("refused: {}", e.message()));
    }
    assert_eq!(pipeline.finish().unwrap().len(), 3);
    binary
}

/// A sequence of numbers that looks random and is the same on every run.
fn scatter(count: usize, seed: u64) -> Vec<f32> {
    let mut state = seed;
    (0..count)
        .map(|_| {
            state = state.wrapping_mul(6364136223846793005).wrapping_add(1442695040888963407);
            ((state >> 40) as f32) / 16777216.0
        })
        .collect()
}

#[test]
fn single_precision_back_end_is_admitted_on_scattered_grids() {
    for seed in 1..20u64 {
        let raw: Vec<f32> = scatter(24 * 17, seed).iter().map(|u| 1500.0 * u - 320.0).collect();
        let binary = segment(24, 17, raw);
        assert!(binary.iter().all(|v| *v == 0 || *v == 255));
    }
}

#[test]
fn single_precision_back_end_is_admitted_across_magnitudes() {
    for (offset, span) in
        [(0.0f32, 1.0e-30f32), (0.0, 1.0e30), (-5.0e8, 1.0e9), (1000.0, 3.0), (-0.001, 0.002)]
    {
        let raw: Vec<f32> = scatter(15 * 15, 7).iter().map(|u| offset + span * u).collect();
        let binary = segment(15, 15, raw);
        assert_eq!(binary.len(), 225);
    }
}

#[test]
fn two_plateaus_are_told_apart() {
    // the left half of the grid lies near 20, the right half near 180
    let noise = scatter(16 * 12, 3);
    let raw: Vec<f32> = (0..16 * 12)
        .map(|i| if i % 16 < 8 { 20.0 + 6.0 * noise[i] } else { 180.0 - 6.0 * noise[i] })
        .collect();
    let binary = segment(16, 12, raw);
    for r in 0..12 {
        for c in 0..16 {
            assert_eq!(binary[r * 16 + c], if c < 8 { 0 } else { 255 }, "cell {},{}", r, c);
        }
    }
}

#[test]
fn single_row_and_single_column_run_through() {
    let row = segment(9, 1, vec![3.0, 1.0, 4.0, 1.0, 5.0, 9.0, 2.0, 6.0, 5.0]);
    assert_eq!(row.len(), 9);
    let column = segment(1, 9, vec![3.0, 1.0, 4.0, 1.0, 5.0, 9.0, 2.0, 6.0, 5.0]);
    assert_eq!(column.len(), 9);
    let pair = segment(2, 1, vec![-1.0, 1.0]);
    assert_eq!(pair.len(), 2);
}
