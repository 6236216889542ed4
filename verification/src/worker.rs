//! What the worker does with one job.

use crate::dither::{
    block_total, can_render, dither_original_with_palette, outcome, rendering_fits,
};
use crate::palette::{chunk_total, get_palette, palette_after};
use crate::pixel::Pixel;
use crate::raster::Image;
use crate::session::{Job, RenderSettings, RenderedResult};
use crate::settings::{OutputSettings, PaletteSettings};
use crate::signals::{block_reports, ProgressSink};
use std::sync::atomic::AtomicBool;
use std::sync::Arc;
use vstd::prelude::*;

verus! {

/// What comes back from the worker.
#[derive(Clone, Debug)]
pub enum JobResult {
    /// The palette that was drawn from `input`.
    Palette { input: Arc<Image>, palette: Arc<Vec<Pixel>>, palette_settings: PaletteSettings },
    /// A finished rendering.
    Rendered(RenderedResult),
}

/// `settings` with scaling switched off: the worker hands back the coarse
/// output, which is scaled up only when it is saved.
pub open spec fn unscaled(settings: OutputSettings) -> OutputSettings {
    OutputSettings { scale_output_to_original: false, ..settings }
}

/// Does one job and gives what is to go back. A palette job gives the
/// palette drawn from its input. A render job gives the coarse rendering of
/// its input, with the settings that were asked for on record; where the
/// output could not be held in memory it gives nothing. Either job looks at
/// `stop` before each block and reports to `progress` after each.
pub fn run_job(job: Job, progress: &mut ProgressSink, stop: Arc<AtomicBool>) -> (result: Option<
    JobResult,
>)
    ensures
        match job {
            Job::ExtractPalette { input, palette_settings, algorithm } => {
                &&& result matches Some(JobResult::Palette { input: i, palette, palette_settings: p })
                &&& i == input
                &&& p == palette_settings
                &&& exists|k: nat|
                    k <= chunk_total(input@, palette_settings) && palette@
                        == #[trigger] palette_after(input@, palette_settings, algorithm, k)
                        && final(progress)@ == old(progress)@ + block_reports(
                        k,
                        chunk_total(input@, palette_settings),
                    )
            },
            Job::Render { input, palette, palette_settings, output_settings, algorithm } => {
                if can_render(input@, unscaled(output_settings)) {
                    &&& result matches Some(JobResult::Rendered(rendering))
                    &&& rendering.input == input
                    &&& rendering.palette == palette
                    &&& rendering.settings.palette == palette_settings
                    &&& rendering.settings.output == output_settings
                    &&& rendering.settings.algorithm == algorithm
                    &&& rendering.output.wf()
                    &&& exists|k: nat|
                        k <= block_total(input@, unscaled(output_settings)) && rendering.output@
                            == #[trigger] outcome(
                            input@,
                            palette@,
                            algorithm,
                            unscaled(output_settings),
                            k,
                        ) && final(progress)@ == old(progress)@ + block_reports(
                            k,
                            block_total(input@, unscaled(output_settings)),
                        )
                } else {
                    result is None && final(progress)@ == old(progress)@
                }
            },
        },
{
    match job {
        Job::ExtractPalette { input, palette_settings, algorithm } => {
            let palette: Vec<Pixel> = get_palette(
                &input,
                palette_settings,
                algorithm,
                progress,
                stop,
            );
            Some(JobResult::Palette { input, palette: Arc::new(palette), palette_settings })
        },
        Job::Render { input, palette, palette_settings, output_settings, algorithm } => {
            let coarse: OutputSettings = OutputSettings {
                output_px_size: output_settings.output_px_size,
                dithering_likelihood: output_settings.dithering_likelihood,
                dithering_scale: output_settings.dithering_scale,
                scale_output_to_original: false,
            };
            if !rendering_fits(input.width(), input.height(), coarse) {
                return None;
            }
            let output: Image = dither_original_with_palette(
                &input,
                palette.as_slice(),
                algorithm,
                coarse,
                progress,
                stop,
            );
            Some(
                JobResult::Rendered(
                    RenderedResult {
                        input,
                        palette,
                        output,
                        settings: RenderSettings {
                            palette: palette_settings,
                            output: output_settings,
                            algorithm,
                        },
                    },
                ),
            )
        },
    }
}

} // verus!
