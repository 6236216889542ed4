//! The course of an editing session: which stage it is in, what it asks of
//! the worker, and the history of what has been rendered.

use crate::distance::DistanceAlgorithm;
use crate::pixel::Pixel;
use crate::raster::{Grid, Image};
use crate::settings::{OutputSettings, PaletteSettings};
use std::sync::Arc;
use vstd::prelude::*;

verus! {

/// All that a rendering depends on besides its input.
#[derive(Clone, Copy, Debug)]
pub struct RenderSettings {
    pub palette: PaletteSettings,
    pub output: OutputSettings,
    pub algorithm: DistanceAlgorithm,
}

impl RenderSettings {
    /// Whether rendering with `self` and with `other` gives the same result.
    pub open spec fn same_as(self, other: Self) -> bool {
        self.algorithm == other.algorithm && self.palette == other.palette && self.output.same_as(
            other.output,
        )
    }

    /// Whether rendering with `self` and with `other` gives the same result.
    pub fn matches(&self, other: &RenderSettings) -> (same: bool)
        ensures
            same == self.same_as(*other),
    {
        self.algorithm == other.algorithm && self.palette == other.palette && self.output
            == other.output
    }
}

/// One finished rendering: what went in, what came out, and the settings it
/// was made with. A result is never changed once it is made.
#[derive(Clone, Debug)]
pub struct RenderedResult {
    pub input: Arc<Image>,
    pub palette: Arc<Vec<Pixel>>,
    pub output: Image,
    pub settings: RenderSettings,
}

/// What the worker is asked to do.
#[derive(Clone, Debug)]
pub enum Job {
    /// Draw a palette from `input`.
    ExtractPalette {
        input: Arc<Image>,
        palette_settings: PaletteSettings,
        algorithm: DistanceAlgorithm,
    },
    /// Render `input` with `palette`.
    Render {
        input: Arc<Image>,
        palette: Arc<Vec<Pixel>>,
        palette_settings: PaletteSettings,
        output_settings: OutputSettings,
        algorithm: DistanceAlgorithm,
    },
}

/// Where a session stands.
#[derive(Clone, Copy, Debug, PartialEq, Eq, Structural)]
pub enum Stage {
    /// Nothing is shown and nothing is being worked on.
    Idle,
    /// A palette is being drawn; `done` of `total` blocks are scanned.
    ExtractingPalette { done: u64, total: u64 },
    /// The output is being rendered; `done` of `total` blocks are painted.
    Rendering { done: u64, total: u64 },
    /// The result at this place of the history is shown.
    Displaying(usize),
}

/// An editing session: its stage and the history of its results.
pub struct Session {
    stage: Stage,
    history: Vec<RenderedResult>,
}

/// A second handle on the same shared value, made with
/// `std::sync::Arc::clone`: the value itself is not copied, and the new
/// handle gives the value that the old one gives.
#[verifier::external_body]
fn share<T>(handle: &Arc<T>) -> (shared: Arc<T>)
    ensures
        shared == *handle,
{
    Arc::clone(handle)
}

/// The place of the first result of `history` that was made from the input
/// `input` with settings that give the same as `settings`; `None` where
/// there is none.
pub open spec fn first_match(
    history: Seq<RenderedResult>,
    input: Grid,
    settings: RenderSettings,
) -> Option<int> {
    if exists|i: int| is_match(history, input, settings, i) {
        Some(choose|i: int| is_first_match(history, input, settings, i))
    } else {
        None
    }
}

/// The result at place `i` was made from `input` with settings that give the
/// same as `settings`.
pub open spec fn is_match(
    history: Seq<RenderedResult>,
    input: Grid,
    settings: RenderSettings,
    i: int,
) -> bool {
    0 <= i < history.len() && settings.same_as(history[i].settings) && history[i].input@
        == input
}

/// `i` is the first place with a match.
pub open spec fn is_first_match(
    history: Seq<RenderedResult>,
    input: Grid,
    settings: RenderSettings,
    i: int,
) -> bool {
    is_match(history, input, settings, i) && forall|j: int|
        0 <= j < i ==> !is_match(history, input, settings, j)
}

impl Session {
    /// The stage of the session.
    pub closed spec fn spec_stage(&self) -> Stage {
        self.stage
    }

    /// The results so far, oldest first.
    pub closed spec fn spec_history(&self) -> Seq<RenderedResult> {
        self.history@
    }

    /// A result that is shown is one of the history.
    pub open spec fn wf(&self) -> bool {
        self.spec_stage() matches Stage::Displaying(i) ==> i < self.spec_history().len()
    }

    /// The place of the result that is shown, where one is.
    pub open spec fn shown(&self) -> Option<int> {
        match self.spec_stage() {
            Stage::Displaying(i) => Some(i as int),
            _ => None,
        }
    }

    /// A session in which nothing has happened yet.
    pub fn new() -> (session: Session)
        ensures
            session.wf(),
            session.spec_stage() == Stage::Idle,
            session.spec_history() == Seq::<RenderedResult>::empty(),
    {
        Session { stage: Stage::Idle, history: Vec::new() }
    }

    /// The stage of the session.
    pub fn stage(&self) -> (stage: Stage)
        ensures
            stage == self.spec_stage(),
    {
        self.stage
    }

    /// The number of results in the history.
    pub fn history_len(&self) -> (len: usize)
        ensures
            len == self.spec_history().len(),
    {
        self.history.len()
    }

    /// The result at place `index` of the history, where there is one.
    pub fn result(&self, index: usize) -> (found: Option<&RenderedResult>)
        ensures
            found is Some <==> index < self.spec_history().len(),
            found matches Some(result) ==> *result == self.spec_history()[index as int],
    {
        if index < self.history.len() {
            Some(&self.history[index])
        } else {
            None
        }
    }

    /// The result that is shown, where one is.
    pub fn current(&self) -> (found: Option<&RenderedResult>)
        requires
            self.wf(),
        ensures
            found is Some <==> self.shown() is Some,
            found matches Some(result) ==> *result == self.spec_history()[self.shown()->0],
    {
        match self.stage {
            Stage::Displaying(index) => Some(&self.history[index]),
            _ => None,
        }
    }

    /// A new input has been read in: whatever the stage was, a palette is now
    /// to be drawn from it. The history stays as it is.
    pub fn input_loaded(&mut self, input: Arc<Image>, settings: RenderSettings) -> (job: Job)
        ensures
            final(self).wf(),
            final(self).spec_stage() == (Stage::ExtractingPalette { done: 0, total: 1 }),
            final(self).spec_history() == old(self).spec_history(),
            job == (Job::ExtractPalette {
                input,
                palette_settings: settings.palette,
                algorithm: settings.algorithm,
            }),
    {
        self.stage = Stage::ExtractingPalette { done: 0, total: 1 };
        Job::ExtractPalette {
            input,
            palette_settings: settings.palette,
            algorithm: settings.algorithm,
        }
    }

    /// A palette has come back from the worker: the input is now to be
    /// rendered with it, under the output settings and the metric that are
    /// now set. The history stays as it is.
    pub fn palette_ready(
        &mut self,
        input: Arc<Image>,
        palette: Arc<Vec<Pixel>>,
        palette_settings: PaletteSettings,
        settings: RenderSettings,
    ) -> (job: Job)
        ensures
            final(self).wf(),
            final(self).spec_stage() == (Stage::Rendering { done: 0, total: 1 }),
            final(self).spec_history() == old(self).spec_history(),
            job == (Job::Render {
                input,
                palette,
                palette_settings,
                output_settings: settings.output,
                algorithm: settings.algorithm,
            }),
    {
        self.stage = Stage::Rendering { done: 0, total: 1 };
        Job::Render {
            input,
            palette,
            palette_settings,
            output_settings: settings.output,
            algorithm: settings.algorithm,
        }
    }

    /// A rendering has come back from the worker: it joins the history as
    /// its newest result and is shown.
    pub fn image_rendered(&mut self, result: RenderedResult)
        ensures
            final(self).wf(),
            final(self).spec_history() == old(self).spec_history().push(result),
            final(self).spec_stage() == Stage::Displaying(
                old(self).spec_history().len() as usize,
            ),
    {
        let place: usize = self.history.len();
        self.history.push(result);
        self.stage = Stage::Displaying(place);
    }

    /// The worker has reported progress: while a palette is drawn or an
    /// output rendered, the report replaces the last one; at any other stage
    /// it is dropped.
    pub fn progress(&mut self, done: u64, total: u64)
        requires
            old(self).wf(),
        ensures
            final(self).wf(),
            final(self).spec_history() == old(self).spec_history(),
            final(self).spec_stage() == match old(self).spec_stage() {
                Stage::ExtractingPalette { .. } => Stage::ExtractingPalette { done, total },
                Stage::Rendering { .. } => Stage::Rendering { done, total },
                other => other,
            },
    {
        match self.stage {
            Stage::ExtractingPalette { .. } => {
                self.stage = Stage::ExtractingPalette { done, total };
            },
            Stage::Rendering { .. } => {
                self.stage = Stage::Rendering { done, total };
            },
            _ => {},
        }
    }

    /// The worker has given a job up without a result. While a palette is
    /// drawn or an output rendered, the session falls back to showing the
    /// newest result, or to idling where there is none; at any other stage
    /// nothing changes. The history stays as it is.
    pub fn job_abandoned(&mut self)
        requires
            old(self).wf(),
        ensures
            final(self).wf(),
            final(self).spec_history() == old(self).spec_history(),
            final(self).spec_stage() == match old(self).spec_stage() {
                Stage::Idle => Stage::Idle,
                Stage::Displaying(i) => Stage::Displaying(i),
                _ => if old(self).spec_history().len() == 0 {
                    Stage::Idle
                } else {
                    Stage::Displaying((old(self).spec_history().len() - 1) as usize)
                },
            },
    {
        match self.stage {
            Stage::ExtractingPalette { .. } | Stage::Rendering { .. } => {
                if self.history.len() == 0 {
                    self.stage = Stage::Idle;
                } else {
                    self.stage = Stage::Displaying(self.history.len() - 1);
                }
            },
            _ => {},
        }
    }

    /// The place of the first result that was made from the input of the
    /// result shown, with settings that give the same as `settings`. `None`
    /// where there is none, or where no result is shown.
    pub fn find_cached(&self, settings: RenderSettings) -> (found: Option<usize>)
        requires
            self.wf(),
        ensures
            match self.shown() {
                None => found is None,
                Some(current) => match first_match(
                    self.spec_history(),
                    self.spec_history()[current].input@,
                    settings,
                ) {
                    None => found is None,
                    Some(i) => found == Some(i as usize),
                },
            },
            found matches Some(i) ==> i < self.spec_history().len(),
    {
        match self.stage {
            Stage::Displaying(current) => {
                let ghost input: Grid = self.history@[current as int].input@;
                let mut i: usize = 0;
                while i < self.history.len()
                    invariant
                        i <= self.history.len(),
                        self.stage == Stage::Displaying(current),
                        current < self.history.len(),
                        input == self.history@[current as int].input@,
                        forall|j: int| 0 <= j < i ==> !is_match(self.history@, input, settings, j),
                    decreases self.history.len() - i,
                {
                    if settings.matches(&self.history[i].settings) && self.history[i].input.same_as(
                        &self.history[current].input,
                    ) {
                        proof {
                            assert(self.history@[i as int].input@ == input);
                            assert(is_match(self.history@, input, settings, i as int));
                            assert(is_first_match(self.history@, input, settings, i as int));
                            let c = choose|c: int| is_first_match(self.history@, input, settings, c);
                            assert(c == i) by {
                                if c < i {
                                    assert(!is_match(self.history@, input, settings, c));
                                } else if i < c {
                                    assert(!is_match(self.history@, input, settings, i as int));
                                }
                            }
                            assert(first_match(self.history@, input, settings) == Some(i as int));
                        }
                        return Some(i);
                    }
                    i = i + 1;
                }
                None
            },
            _ => None,
        }
    }

    /// The palette settings or the metric have changed: where a result is
    /// shown, a palette is to be drawn anew from its input. At any other
    /// stage nothing happens. The history stays as it is.
    pub fn change_palette_settings_or_algo(
        &mut self,
        palette_settings: PaletteSettings,
        distance_algorithm: DistanceAlgorithm,
    ) -> (job: Option<Job>)
        requires
            old(self).wf(),
        ensures
            final(self).wf(),
            final(self).spec_history() == old(self).spec_history(),
            match old(self).shown() {
                None => job is None && final(self).spec_stage() == old(self).spec_stage(),
                Some(current) => final(self).spec_stage() == (Stage::ExtractingPalette {
                    done: 0,
                    total: 1,
                }) && job == Some(
                    Job::ExtractPalette {
                        input: old(self).spec_history()[current].input,
                        palette_settings,
                        algorithm: distance_algorithm,
                    },
                ),
            },
    {
        match self.stage {
            Stage::Displaying(current) => {
                let input: Arc<Image> = share(&self.history[current].input);
                self.stage = Stage::ExtractingPalette { done: 0, total: 1 };
                Some(Job::ExtractPalette { input, palette_settings, algorithm: distance_algorithm })
            },
            _ => None,
        }
    }

    /// The output settings have changed: where a result is shown, its input
    /// is to be rendered anew with its palette. At any other stage nothing
    /// happens. The history stays as it is.
    pub fn change_output_settings(
        &mut self,
        output_settings: OutputSettings,
        distance_algorithm: DistanceAlgorithm,
    ) -> (job: Option<Job>)
        requires
            old(self).wf(),
        ensures
            final(self).wf(),
            final(self).spec_history() == old(self).spec_history(),
            match old(self).shown() {
                None => job is None && final(self).spec_stage() == old(self).spec_stage(),
                Some(current) => final(self).spec_stage() == (Stage::Rendering {
                    done: 0,
                    total: 1,
                }) && job == Some(
                    Job::Render {
                        input: old(self).spec_history()[current].input,
                        palette: old(self).spec_history()[current].palette,
                        palette_settings: old(self).spec_history()[current].settings.palette,
                        output_settings,
                        algorithm: distance_algorithm,
                    },
                ),
            },
    {
        match self.stage {
            Stage::Displaying(current) => {
                let input: Arc<Image> = share(&self.history[current].input);
                let palette: Arc<Vec<Pixel>> = share(&self.history[current].palette);
                let palette_settings: PaletteSettings = self.history[current].settings.palette;
                self.stage = Stage::Rendering { done: 0, total: 1 };
                Some(
                    Job::Render {
                        input,
                        palette,
                        palette_settings,
                        output_settings,
                        algorithm: distance_algorithm,
                    },
                )
            },
            _ => None,
        }
    }

    /// Settings have changed. Where a result is shown: if the history holds
    /// a result made from the same input with settings that give the same,
    /// the first such result is shown and nothing is asked of the worker.
    /// Otherwise a palette is drawn anew from the input of the result shown
    /// if `palette_changed`, and else, if `output_changed`, that input is
    /// rendered anew with the palette of the result shown. At any other
    /// stage nothing happens.
    pub fn refresh(
        &mut self,
        settings: RenderSettings,
        palette_changed: bool,
        output_changed: bool,
    ) -> (job: Option<Job>)
        requires
            old(self).wf(),
        ensures
            final(self).wf(),
            final(self).spec_history() == old(self).spec_history(),
            match old(self).shown() {
                None => job is None && final(self).spec_stage() == old(self).spec_stage(),
                Some(current) => {
                    let shown = old(self).spec_history()[current];
                    match first_match(old(self).spec_history(), shown.input@, settings) {
                        Some(i) => job is None && final(self).spec_stage() == Stage::Displaying(
                            i as usize,
                        ),
                        None => if palette_changed {
                            final(self).spec_stage() == (Stage::ExtractingPalette {
                                done: 0,
                                total: 1,
                            }) && job == Some(
                                Job::ExtractPalette {
                                    input: shown.input,
                                    palette_settings: settings.palette,
                                    algorithm: settings.algorithm,
                                },
                            )
                        } else if output_changed {
                            final(self).spec_stage() == (Stage::Rendering { done: 0, total: 1 })
                                && job == Some(
                                Job::Render {
                                    input: shown.input,
                                    palette: shown.palette,
                                    palette_settings: shown.settings.palette,
                                    output_settings: settings.output,
                                    algorithm: settings.algorithm,
                                },
                            )
                        } else {
                            job is None && final(self).spec_stage() == old(self).spec_stage()
                        },
                    }
                },
            },
    {
        match self.find_cached(settings) {
            Some(i) => {
                self.stage = Stage::Displaying(i);
                None
            },
            None => {
                if palette_changed {
                    self.change_palette_settings_or_algo(settings.palette, settings.algorithm)
                } else if output_changed {
                    self.change_output_settings(settings.output, settings.algorithm)
                } else {
                    None
                }
            },
        }
    }

    /// Shows the result at place `index` of the history and gives the
    /// settings it was made with. Where no result is shown, or the history
    /// has no such place, nothing changes.
    pub fn select(&mut self, index: usize) -> (settings: Option<RenderSettings>)
        requires
            old(self).wf(),
        ensures
            final(self).wf(),
            final(self).spec_history() == old(self).spec_history(),
            if old(self).shown() is Some && index < old(self).spec_history().len() {
                final(self).spec_stage() == Stage::Displaying(index) && settings == Some(
                    old(self).spec_history()[index as int].settings,
                )
            } else {
                final(self).spec_stage() == old(self).spec_stage() && settings is None
            },
    {
        match self.stage {
            Stage::Displaying(_) => {
                if index < self.history.len() {
                    self.stage = Stage::Displaying(index);
                    Some(self.history[index].settings)
                } else {
                    None
                }
            },
            _ => None,
        }
    }

    /// Empties the history; the session is idle again.
    pub fn clear_history(&mut self)
        ensures
            final(self).wf(),
            final(self).spec_history() == Seq::<RenderedResult>::empty(),
            final(self).spec_stage() == Stage::Idle,
    {
        self.history.clear();
        self.stage = Stage::Idle;
    }

    /// Removes the result that is shown from the history. If it was the only
    /// one, the session is idle again. Otherwise the result that takes its
    /// place is shown, or the last one if the one removed was the last, and
    /// the settings of the result now shown are given. Where no result is
    /// shown, nothing changes.
    pub fn remove_current(&mut self) -> (settings: Option<RenderSettings>)
        requires
            old(self).wf(),
        ensures
            final(self).wf(),
            match old(self).shown() {
                None => {
                    &&& final(self).spec_stage() == old(self).spec_stage()
                    &&& final(self).spec_history() == old(self).spec_history()
                    &&& settings is None
                },
                Some(current) => {
                    let before = old(self).spec_history();
                    if before.len() == 1 {
                        &&& final(self).spec_history() == Seq::<RenderedResult>::empty()
                        &&& final(self).spec_stage() == Stage::Idle
                        &&& settings is None
                    } else {
                        let next = if current == before.len() - 1 {
                            current - 1
                        } else {
                            current
                        };
                        &&& final(self).spec_history() == before.remove(current)
                        &&& final(self).spec_stage() == Stage::Displaying(next as usize)
                        &&& settings == Some(before.remove(current)[next].settings)
                    }
                },
            },
    {
        match self.stage {
            Stage::Displaying(current) => {
                if self.history.len() == 1 {
                    self.history.clear();
                    self.stage = Stage::Idle;
                    None
                } else {
                    self.history.remove(current);
                    let next: usize = if current == self.history.len() {
                        current - 1
                    } else {
                        current
                    };
                    self.stage = Stage::Displaying(next);
                    Some(self.history[next].settings)
                }
            },
            _ => None,
        }
    }

    /// Drops every result but the one that is shown, and gives its settings.
    /// Where no result is shown, nothing changes.
    pub fn keep_only_current(&mut self) -> (settings: Option<RenderSettings>)
        requires
            old(self).wf(),
        ensures
            final(self).wf(),
            match old(self).shown() {
                None => {
                    &&& final(self).spec_stage() == old(self).spec_stage()
                    &&& final(self).spec_history() == old(self).spec_history()
                    &&& settings is None
                },
                Some(current) => {
                    &&& final(self).spec_history() == seq![old(self).spec_history()[current]]
                    &&& final(self).spec_stage() == Stage::Displaying(0)
                    &&& settings == Some(old(self).spec_history()[current].settings)
                },
            },
    {
        match self.stage {
            Stage::Displaying(current) => {
                let kept: RenderedResult = self.history.swap_remove(current);
                let settings: RenderSettings = kept.settings;
                self.history.clear();
                self.history.push(kept);
                self.stage = Stage::Displaying(0);
                assert(self.history@ =~= seq![kept]);
                Some(settings)
            },
            _ => None,
        }
    }
}

} // verus!
