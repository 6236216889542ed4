use image::{DynamicImage, Rgba, RgbaImage};
use pxls::session::Job;
use pxls::worker::{run_job, JobResult};
use pxls::{DistanceAlgorithm, Image, OutputSettings, PaletteSettings, Pixel, ProgressSink};
use std::sync::atomic::AtomicBool;
use std::sync::mpsc::channel;
use std::sync::Arc;

const DARK: Pixel = Pixel { r: 0, g: 0, b: 0, a: 255 };
const LIGHT: Pixel = Pixel { r: 255, g: 255, b: 255, a: 255 };

fn halves() -> Arc<Image> {
    let buffer = RgbaImage::from_fn(4, 4, |x, _| {
        let p = if x < 2 { DARK } else { LIGHT };
        Rgba([p.r, p.g, p.b, p.a])
    });
    Arc::new(Image::from_dynamic(DynamicImage::ImageRgba8(buffer)))
}

fn output(px: u32, scale: u32, scaling: bool) -> OutputSettings {
    OutputSettings {
        output_px_size: px,
        dithering_likelihood: 4,
        dithering_scale: scale,
        scale_output_to_original: scaling,
    }
}

#[test]
fn palette_job_gives_the_palette() {
    let (tx, rx) = channel();
    let mut sink = ProgressSink::new(tx);
    let input = halves();
    let asked = PaletteSettings { chunks_per_dimension: 2, closeness_threshold: 10 };
    let job = Job::ExtractPalette {
        input: Arc::clone(&input),
        palette_settings: asked,
        algorithm: DistanceAlgorithm::Euclidean,
    };
    match run_job(job, &mut sink, Arc::new(AtomicBool::new(false))) {
        Some(JobResult::Palette { input: from, palette, palette_settings }) => {
            assert!(Arc::ptr_eq(&from, &input));
            assert_eq!(*palette, vec![DARK, LIGHT]);
            assert_eq!(palette_settings, asked);
        }
        _ => panic!("a palette was expected"),
    }
    assert_eq!(rx.try_iter().count(), 4);
}

#[test]
fn render_job_gives_the_coarse_output() {
    let (tx, rx) = channel();
    let mut sink = ProgressSink::new(tx);
    let input = halves();
    let palette = Arc::new(vec![DARK, LIGHT]);
    let drawn_with = PaletteSettings { chunks_per_dimension: 2, closeness_threshold: 10 };
    let asked = output(2, 1, true);
    let job = Job::Render {
        input: Arc::clone(&input),
        palette: Arc::clone(&palette),
        palette_settings: drawn_with,
        output_settings: asked,
        algorithm: DistanceAlgorithm::Manhattan,
    };
    match run_job(job, &mut sink, Arc::new(AtomicBool::new(false))) {
        Some(JobResult::Rendered(rendering)) => {
            assert!(Arc::ptr_eq(&rendering.input, &input));
            assert!(Arc::ptr_eq(&rendering.palette, &palette));
            assert_eq!(rendering.settings.palette, drawn_with);
            assert_eq!(rendering.settings.output.output_px_size, 2);
            assert!(rendering.settings.output.scale_output_to_original);
            assert_eq!(rendering.settings.algorithm, DistanceAlgorithm::Manhattan);
            // the output is coarse although scaling was asked for
            assert_eq!(rendering.output.dimensions(), (2, 2));
            assert_eq!(rendering.output.get_pixel(0, 0), DARK);
            assert_eq!(rendering.output.get_pixel(1, 0), LIGHT);
            assert_eq!(rendering.output.get_pixel(0, 1), DARK);
            assert_eq!(rendering.output.get_pixel(1, 1), LIGHT);
        }
        _ => panic!("a rendering was expected"),
    }
    assert_eq!(rx.try_iter().collect::<Vec<(u64, u64)>>(), vec![(1, 4), (2, 4), (3, 4), (4, 4)]);
}

#[test]
fn render_job_that_cannot_be_held_gives_nothing() {
    let mut sink = ProgressSink::silent();
    let job = Job::Render {
        input: halves(),
        palette: Arc::new(vec![DARK, LIGHT]),
        palette_settings: PaletteSettings::default(),
        output_settings: output(1, u32::MAX, false),
        algorithm: DistanceAlgorithm::Manhattan,
    };
    assert!(run_job(job, &mut sink, Arc::new(AtomicBool::new(false))).is_none());
}

#[test]
fn stopped_jobs_give_what_was_done() {
    let mut sink = ProgressSink::silent();
    let stop = Arc::new(AtomicBool::new(true));
    let job = Job::ExtractPalette {
        input: halves(),
        palette_settings: PaletteSettings { chunks_per_dimension: 2, closeness_threshold: 10 },
        algorithm: DistanceAlgorithm::Euclidean,
    };
    match run_job(job, &mut sink, Arc::clone(&stop)) {
        Some(JobResult::Palette { palette, .. }) => assert!(palette.is_empty()),
        _ => panic!("a palette was expected"),
    }
    let job = Job::Render {
        input: halves(),
        palette: Arc::new(vec![DARK, LIGHT]),
        palette_settings: PaletteSettings::default(),
        output_settings: output(2, 2, false),
        algorithm: DistanceAlgorithm::Manhattan,
    };
    match run_job(job, &mut sink, stop) {
        Some(JobResult::Rendered(rendering)) => {
            assert_eq!(rendering.output.dimensions(), (4, 4));
            assert!(rendering.output.same_as(&Image::new(4, 4)));
        }
        _ => panic!("a rendering was expected"),
    }
}
