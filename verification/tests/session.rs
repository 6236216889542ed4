use image::{DynamicImage, Rgba, RgbaImage};
use pxls::session::{Job, RenderSettings, RenderedResult, Session, Stage};
use pxls::{DistanceAlgorithm, Image, OutputSettings, PaletteSettings, Pixel};
use std::sync::Arc;

fn settings(chunks: u32, likelihood: u32, scale: u32) -> RenderSettings {
    RenderSettings {
        palette: PaletteSettings { chunks_per_dimension: chunks, closeness_threshold: 50 },
        output: OutputSettings {
            output_px_size: 3,
            dithering_likelihood: likelihood,
            dithering_scale: scale,
            scale_output_to_original: false,
        },
        algorithm: DistanceAlgorithm::Euclidean,
    }
}

fn picture(shade: u8) -> Arc<Image> {
    let buffer = RgbaImage::from_pixel(2, 2, Rgba([shade, shade, shade, 255]));
    Arc::new(Image::from_dynamic(DynamicImage::ImageRgba8(buffer)))
}

fn dot(mark: u8) -> Image {
    let mut dot = Image::new(1, 1);
    dot.put_pixel(0, 0, Pixel::opaque(mark, mark, mark));
    dot
}

fn result(input: &Arc<Image>, s: RenderSettings, mark: u8) -> RenderedResult {
    RenderedResult {
        input: Arc::clone(input),
        palette: Arc::new(vec![Pixel::opaque(mark, 0, 0)]),
        output: dot(mark),
        settings: s,
    }
}

/// A session that shows the last of three results; the first two were made
/// from the same input.
fn busy_session() -> (Session, Arc<Image>, Arc<Image>) {
    let first = picture(10);
    let second = picture(20);
    let mut session = Session::new();
    session.image_rendered(result(&first, settings(10, 4, 2), 1));
    session.image_rendered(result(&first, settings(20, 4, 2), 2));
    session.image_rendered(result(&second, settings(10, 4, 2), 3));
    (session, first, second)
}

fn marks(session: &Session) -> Vec<u8> {
    let mut marks = Vec::new();
    for i in 0..session.history_len() {
        marks.push(session.result(i).unwrap().output.get_pixel(0, 0).r);
    }
    marks
}

#[test]
fn new_session_is_idle() {
    let session = Session::new();
    assert_eq!(session.stage(), Stage::Idle);
    assert_eq!(session.history_len(), 0);
    assert!(session.current().is_none());
    assert!(session.result(0).is_none());
}

#[test]
fn new_input_starts_a_palette() {
    let mut session = Session::new();
    let input = picture(10);
    let job = session.input_loaded(Arc::clone(&input), settings(10, 4, 2));
    assert_eq!(session.stage(), Stage::ExtractingPalette { done: 0, total: 1 });
    match job {
        Job::ExtractPalette { input: asked, palette_settings, algorithm } => {
            assert!(Arc::ptr_eq(&asked, &input));
            assert_eq!(palette_settings, settings(10, 4, 2).palette);
            assert_eq!(algorithm, DistanceAlgorithm::Euclidean);
        }
        _ => panic!("a palette job was expected"),
    }
}

#[test]
fn new_input_interrupts_a_display() {
    let (mut session, _, _) = busy_session();
    let _ = session.input_loaded(picture(30), settings(10, 4, 2));
    assert_eq!(session.stage(), Stage::ExtractingPalette { done: 0, total: 1 });
    assert_eq!(marks(&session), vec![1, 2, 3]);
}

#[test]
fn palette_starts_a_rendering() {
    let mut session = Session::new();
    let input = picture(10);
    let _ = session.input_loaded(Arc::clone(&input), settings(10, 4, 2));
    let palette = Arc::new(vec![Pixel::opaque(1, 2, 3)]);
    let drawn_with = PaletteSettings { chunks_per_dimension: 7, closeness_threshold: 9 };
    let job = session.palette_ready(
        Arc::clone(&input),
        Arc::clone(&palette),
        drawn_with,
        settings(10, 5, 3),
    );
    assert_eq!(session.stage(), Stage::Rendering { done: 0, total: 1 });
    match job {
        Job::Render { input: asked, palette: with, palette_settings, output_settings, algorithm } => {
            assert!(Arc::ptr_eq(&asked, &input));
            assert!(Arc::ptr_eq(&with, &palette));
            assert_eq!(palette_settings, drawn_with);
            assert_eq!(output_settings, settings(10, 5, 3).output);
            assert_eq!(algorithm, DistanceAlgorithm::Euclidean);
        }
        _ => panic!("a render job was expected"),
    }
}

#[test]
fn rendering_joins_the_history_and_is_shown() {
    let (session, _, second) = busy_session();
    assert_eq!(session.stage(), Stage::Displaying(2));
    assert_eq!(session.history_len(), 3);
    assert_eq!(marks(&session), vec![1, 2, 3]);
    assert!(Arc::ptr_eq(&session.current().unwrap().input, &second));
    assert!(session.result(3).is_none());
}

#[test]
fn progress_is_kept_while_working() {
    let mut session = Session::new();
    session.progress(3, 9);
    assert_eq!(session.stage(), Stage::Idle);
    let input = picture(10);
    let _ = session.input_loaded(Arc::clone(&input), settings(10, 4, 2));
    session.progress(3, 9);
    assert_eq!(session.stage(), Stage::ExtractingPalette { done: 3, total: 9 });
    let _ = session.palette_ready(input, Arc::new(Vec::new()), settings(10, 4, 2).palette, settings(10, 4, 2));
    session.progress(5, 16);
    assert_eq!(session.stage(), Stage::Rendering { done: 5, total: 16 });
    let (mut shown, _, _) = busy_session();
    shown.progress(1, 2);
    assert_eq!(shown.stage(), Stage::Displaying(2));
}

#[test]
fn cached_result_is_found_by_settings_and_input() {
    let (mut session, _, _) = busy_session();
    // shown: input two. Only the third result was made from it.
    assert_eq!(session.find_cached(settings(10, 4, 2)), Some(2));
    assert_eq!(session.find_cached(settings(20, 4, 2)), None);
    assert_eq!(session.select(0).unwrap().palette.chunks_per_dimension, 10);
    // shown: input one.
    assert_eq!(session.find_cached(settings(10, 4, 2)), Some(0));
    assert_eq!(session.find_cached(settings(20, 4, 2)), Some(1));
    assert_eq!(session.find_cached(settings(30, 4, 2)), None);
    assert_eq!(session.find_cached(settings(10, 5, 2)), None);
    assert_eq!(Session::new().find_cached(settings(10, 4, 2)), None);
}

#[test]
fn cached_result_is_found_by_the_pixels_of_the_input() {
    let mut session = Session::new();
    session.image_rendered(result(&picture(10), settings(10, 4, 2), 1));
    session.image_rendered(result(&picture(10), settings(20, 4, 2), 2));
    session.image_rendered(result(&picture(11), settings(30, 4, 2), 3));
    let _ = session.select(1);
    assert_eq!(session.find_cached(settings(10, 4, 2)), Some(0));
    assert_eq!(session.find_cached(settings(30, 4, 2)), None);
}

#[test]
fn cached_result_ignores_the_likelihood_without_dithering() {
    let mut session = Session::new();
    session.image_rendered(result(&picture(10), settings(10, 2, 1), 1));
    assert_eq!(session.find_cached(settings(10, 5, 1)), Some(0));
    assert_eq!(session.find_cached(settings(10, 2, 2)), None);
}

#[test]
fn first_of_several_cached_results_is_taken() {
    let input = picture(10);
    let mut session = Session::new();
    session.image_rendered(result(&input, settings(10, 4, 2), 1));
    session.image_rendered(result(&input, settings(20, 4, 2), 2));
    session.image_rendered(result(&input, settings(20, 4, 2), 3));
    assert_eq!(session.find_cached(settings(20, 4, 2)), Some(1));
}

#[test]
fn refresh_shows_a_cached_result() {
    let (mut session, _, _) = busy_session();
    let _ = session.select(1);
    let job = session.refresh(settings(10, 4, 2), true, true);
    assert!(job.is_none());
    assert_eq!(session.stage(), Stage::Displaying(0));
    assert_eq!(marks(&session), vec![1, 2, 3]);
}

#[test]
fn refresh_draws_a_new_palette_when_its_settings_changed() {
    let (mut session, first, _) = busy_session();
    let _ = session.select(1);
    let job = session.refresh(settings(30, 4, 2), true, true);
    assert_eq!(session.stage(), Stage::ExtractingPalette { done: 0, total: 1 });
    match job {
        Some(Job::ExtractPalette { input, palette_settings, algorithm }) => {
            assert!(Arc::ptr_eq(&input, &first));
            assert_eq!(palette_settings.chunks_per_dimension, 30);
            assert_eq!(algorithm, DistanceAlgorithm::Euclidean);
        }
        _ => panic!("a palette job was expected"),
    }
    assert_eq!(marks(&session), vec![1, 2, 3]);
}

#[test]
fn refresh_renders_anew_when_only_the_output_settings_changed() {
    let (mut session, first, _) = busy_session();
    let _ = session.select(1);
    let shown_palette = Arc::clone(&session.current().unwrap().palette);
    let mut wanted = settings(20, 4, 3);
    wanted.algorithm = DistanceAlgorithm::Manhattan;
    let job = session.refresh(wanted, false, true);
    assert_eq!(session.stage(), Stage::Rendering { done: 0, total: 1 });
    match job {
        Some(Job::Render { input, palette, palette_settings, output_settings, algorithm }) => {
            assert!(Arc::ptr_eq(&input, &first));
            assert!(Arc::ptr_eq(&palette, &shown_palette));
            assert_eq!(palette_settings.chunks_per_dimension, 20);
            assert_eq!(output_settings.dithering_scale, 3);
            assert_eq!(algorithm, DistanceAlgorithm::Manhattan);
        }
        _ => panic!("a render job was expected"),
    }
}

#[test]
fn refresh_without_a_change_does_nothing() {
    let (mut session, _, _) = busy_session();
    assert!(session.refresh(settings(99, 4, 2), false, false).is_none());
    assert_eq!(session.stage(), Stage::Displaying(2));
}

#[test]
fn refresh_does_nothing_unless_a_result_is_shown() {
    let mut session = Session::new();
    assert!(session.refresh(settings(10, 4, 2), true, true).is_none());
    assert_eq!(session.stage(), Stage::Idle);
    let _ = session.input_loaded(picture(10), settings(10, 4, 2));
    assert!(session.refresh(settings(20, 4, 2), true, true).is_none());
    assert_eq!(session.stage(), Stage::ExtractingPalette { done: 0, total: 1 });
}

#[test]
fn select_shows_a_result_and_gives_its_settings() {
    let (mut session, _, _) = busy_session();
    let chosen = session.select(1).unwrap();
    assert_eq!(chosen.palette.chunks_per_dimension, 20);
    assert_eq!(session.stage(), Stage::Displaying(1));
    assert!(session.select(3).is_none());
    assert_eq!(session.stage(), Stage::Displaying(1));
    assert!(Session::new().select(0).is_none());
}

#[test]
fn clear_history_makes_the_session_idle() {
    let (mut session, _, _) = busy_session();
    session.clear_history();
    assert_eq!(session.stage(), Stage::Idle);
    assert_eq!(session.history_len(), 0);
}

#[test]
fn removing_the_last_result_shows_the_one_before() {
    let (mut session, _, _) = busy_session();
    let now = session.remove_current().unwrap();
    assert_eq!(now.palette.chunks_per_dimension, 20);
    assert_eq!(session.stage(), Stage::Displaying(1));
    assert_eq!(marks(&session), vec![1, 2]);
}

#[test]
fn removing_an_inner_result_shows_the_next() {
    let (mut session, _, _) = busy_session();
    let _ = session.select(0);
    let now = session.remove_current().unwrap();
    assert_eq!(now.palette.chunks_per_dimension, 20);
    assert_eq!(session.stage(), Stage::Displaying(0));
    assert_eq!(marks(&session), vec![2, 3]);
}

#[test]
fn removing_the_only_result_makes_the_session_idle() {
    let mut session = Session::new();
    session.image_rendered(result(&picture(10), settings(10, 4, 2), 1));
    assert!(session.remove_current().is_none());
    assert_eq!(session.stage(), Stage::Idle);
    assert_eq!(session.history_len(), 0);
    assert!(session.remove_current().is_none());
}

#[test]
fn keeping_only_the_current_result_drops_the_others() {
    let (mut session, _, _) = busy_session();
    let _ = session.select(1);
    let kept = session.keep_only_current().unwrap();
    assert_eq!(kept.palette.chunks_per_dimension, 20);
    assert_eq!(session.stage(), Stage::Displaying(0));
    assert_eq!(marks(&session), vec![2]);
    assert!(Session::new().keep_only_current().is_none());
}

#[test]
fn render_settings_match_like_their_parts() {
    assert!(settings(10, 4, 2).matches(&settings(10, 4, 2)));
    assert!(settings(10, 4, 1).matches(&settings(10, 9, 1)));
    assert!(!settings(10, 4, 2).matches(&settings(10, 9, 2)));
    assert!(!settings(10, 4, 2).matches(&settings(11, 4, 2)));
    let mut other = settings(10, 4, 2);
    other.algorithm = DistanceAlgorithm::Hue;
    assert!(!settings(10, 4, 2).matches(&other));
    other = settings(10, 4, 2);
    other.palette.closeness_threshold = 51;
    assert!(!settings(10, 4, 2).matches(&other));
}

#[test]
fn abandoned_job_falls_back_to_the_newest_result() {
    let (mut session, _, _) = busy_session();
    let _ = session.select(0);
    let _ = session.refresh(settings(30, 4, 2), true, false);
    assert_eq!(session.stage(), Stage::ExtractingPalette { done: 0, total: 1 });
    session.job_abandoned();
    assert_eq!(session.stage(), Stage::Displaying(2));
    session.job_abandoned();
    assert_eq!(session.stage(), Stage::Displaying(2));
    assert_eq!(marks(&session), vec![1, 2, 3]);
}

#[test]
fn abandoned_first_job_leaves_the_session_idle() {
    let mut session = Session::new();
    session.job_abandoned();
    assert_eq!(session.stage(), Stage::Idle);
    let input = picture(10);
    let _ = session.input_loaded(Arc::clone(&input), settings(10, 4, 2));
    let _ = session.palette_ready(input, Arc::new(Vec::new()), settings(10, 4, 2).palette, settings(10, 4, 2));
    session.job_abandoned();
    assert_eq!(session.stage(), Stage::Idle);
}

#[test]
fn changed_palette_settings_start_a_palette_from_the_input_shown() {
    let (mut session, _, second) = busy_session();
    let asked = PaletteSettings { chunks_per_dimension: 3, closeness_threshold: 4 };
    match session.change_palette_settings_or_algo(asked, DistanceAlgorithm::Hue) {
        Some(Job::ExtractPalette { input, palette_settings, algorithm }) => {
            assert!(Arc::ptr_eq(&input, &second));
            assert_eq!(palette_settings, asked);
            assert_eq!(algorithm, DistanceAlgorithm::Hue);
        }
        _ => panic!("a palette job was expected"),
    }
    assert_eq!(session.stage(), Stage::ExtractingPalette { done: 0, total: 1 });
    assert_eq!(marks(&session), vec![1, 2, 3]);
    // while the palette is drawn, a further change asks nothing
    assert!(session.change_palette_settings_or_algo(asked, DistanceAlgorithm::Hue).is_none());
    assert_eq!(session.stage(), Stage::ExtractingPalette { done: 0, total: 1 });
}

#[test]
fn changed_output_settings_start_a_rendering_with_the_palette_shown() {
    let (mut session, _, second) = busy_session();
    let shown_palette = Arc::clone(&session.current().unwrap().palette);
    let asked = settings(99, 1, 3).output;
    match session.change_output_settings(asked, DistanceAlgorithm::Product) {
        Some(Job::Render { input, palette, palette_settings, output_settings, algorithm }) => {
            assert!(Arc::ptr_eq(&input, &second));
            assert!(Arc::ptr_eq(&palette, &shown_palette));
            assert_eq!(palette_settings.chunks_per_dimension, 10);
            assert_eq!(output_settings, asked);
            assert_eq!(algorithm, DistanceAlgorithm::Product);
        }
        _ => panic!("a render job was expected"),
    }
    assert_eq!(session.stage(), Stage::Rendering { done: 0, total: 1 });
    assert!(session.change_output_settings(asked, DistanceAlgorithm::Product).is_none());
    assert!(Session::new().change_output_settings(asked, DistanceAlgorithm::Product).is_none());
}
