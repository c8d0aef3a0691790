//! Choice of a rendering strategy from the options of a request, the
//! sampling that goes with it, and the rendering itself.

use crate::block_art::block_frame;
use crate::block_art::img_to_asciistring;
use crate::braille_art::braille_frame;
use crate::braille_art::img_to_braillestring;
use crate::color::html_color_page;
use crate::color::img_to_cblock;
use crate::color::img_to_chtml;
use crate::color::is_color_frame;
use crate::error::RenderError;
use crate::frame::frame_text;
use crate::raster::has_cells;
use crate::raster::refusal_of;
use crate::sampling::fit_compression;
use crate::sampling::fitting_stride;
use colored::ColoredString;
use image::DynamicImage;
use vstd::prelude::*;

verus! {

/// Most samples that a line of block glyphs may hold on a terminal, plus one.
pub const BLOCK_TERMINAL_LIMIT: u32 = 67;

/// Most samples that a line of braille may hold on a terminal, plus one.
pub const BRAILLE_TERMINAL_LIMIT: u32 = 400;

/// How an image is turned into glyphs.
#[derive(Clone, Copy, Debug, PartialEq, Eq, Structural)]
pub enum Strategy {
    /// Shading glyphs, one for each sample.
    Block,
    /// Braille characters, one for each two by four samples.
    Braille,
    /// Solid blocks in the colour of each sample, for a terminal.
    ColorBlock,
    /// Solid blocks in the colour of each pixel, as an HTML page.
    ColorHtml,
}

/// Where the rendered art goes.
#[derive(Clone, Copy, Debug, PartialEq, Eq, Structural)]
pub enum Target {
    /// An HTML file.
    Html,
    /// A plain text file.
    Text,
    /// The terminal.
    Terminal,
}

/// The options of a request, as given.
#[derive(Clone, Copy, Debug, PartialEq, Eq, Structural)]
pub struct Options {
    /// Block glyphs are asked for.
    pub block: bool,
    /// Braille is asked for.
    pub braille: bool,
    /// An HTML file is asked for.
    pub html: bool,
    /// A text file is asked for.
    pub text: bool,
    /// Empty braille cells are to be spaces.
    pub whitespace: bool,
    /// Colour is asked for.
    pub colored: bool,
}

/// A request that names exactly one strategy and one target.
#[derive(Clone, Copy, Debug, PartialEq, Eq, Structural)]
pub struct Job {
    /// The strategy.
    pub strategy: Strategy,
    /// The target.
    pub target: Target,
    /// Whether empty braille cells are spaces.
    pub whitespace: bool,
}

/// How an image is sampled and its glyphs written.
#[derive(Clone, Copy, Debug, PartialEq, Eq, Structural)]
pub struct Settings {
    /// The stride between samples.
    pub compress: u32,
    /// How often the glyph of a sample is written.
    pub charamount: usize,
    /// Whether dark and light change places.
    pub swap: bool,
}

/// What a rendering gives: text, or rows of coloured cells.
#[derive(Debug, PartialEq, Eq)]
pub enum Frame {
    /// Lines of glyphs.
    Text(String),
    /// Rows of coloured cells.
    Cells(Vec<Vec<ColoredString>>),
}

/// Whether options name exactly one glyph set and at most one kind of file.
pub open spec fn is_supported(options: Options) -> bool {
    options.block != options.braille && !(options.html && options.text)
}

/// The target that options name: a file where one is asked for, else the
/// terminal.
pub open spec fn target_of(options: Options) -> Target {
    if options.html {
        Target::Html
    } else if options.text {
        Target::Text
    } else {
        Target::Terminal
    }
}

/// The strategy that options name. Colour is for block glyphs only, and not
/// for text files.
pub open spec fn strategy_of(options: Options) -> Strategy {
    if options.braille {
        Strategy::Braille
    } else if options.colored && options.html {
        Strategy::ColorHtml
    } else if options.colored && !options.text {
        Strategy::ColorBlock
    } else {
        Strategy::Block
    }
}

/// The job that options name.
pub open spec fn job_of(options: Options) -> Job {
    Job {
        strategy: strategy_of(options),
        target: target_of(options),
        whitespace: options.whitespace,
    }
}

impl Job {
    /// Whether the strategy suits the target: coloured blocks go to the
    /// terminal, coloured HTML to an HTML file.
    pub open spec fn well_formed(self) -> bool {
        &&& self.strategy == Strategy::ColorBlock ==> self.target == Target::Terminal
        &&& self.strategy == Strategy::ColorHtml ==> self.target == Target::Html
    }
}

/// The sampling of a job for an image of `width` pixels. On the terminal the
/// stride is the least that fits the line, glyphs are written three times and
/// dark and light change places. In a file every pixel is sampled and glyphs
/// are written twice; a single image rendered as braille for HTML is sampled
/// at every second pixel.
pub open spec fn settings_of(job: Job, width: u32, batch: bool) -> Settings {
    if job.target == Target::Terminal {
        Settings {
            compress: fitting_stride(
                width as int,
                if job.strategy == Strategy::Braille {
                    400
                } else {
                    67
                },
            ) as u32,
            charamount: 3,
            swap: true,
        }
    } else {
        Settings {
            compress: if job.strategy == Strategy::Braille && job.target == Target::Html && !batch {
                2
            } else {
                1
            },
            charamount: 2,
            swap: false,
        }
    }
}

/// Whether a frame is what a job makes of an image under given settings.
pub open spec fn is_frame_of(frame: Frame, img: DynamicImage, job: Job, settings: Settings) -> bool {
    match job.strategy {
        Strategy::Block => frame matches Frame::Text(text) && text@ == frame_text(
            block_frame(
                img,
                settings.compress as int,
                settings.compress as int,
                settings.charamount as int,
                settings.swap,
            ),
        ),
        Strategy::Braille => frame matches Frame::Text(text) && text@ == frame_text(
            braille_frame(img, settings.compress as int, job.whitespace, settings.swap),
        ),
        Strategy::ColorBlock => frame matches Frame::Cells(rows) && is_color_frame(
            rows@,
            img,
            settings.compress as int,
        ),
        Strategy::ColorHtml => frame matches Frame::Text(text) && text@ == html_color_page(img),
    }
}

/// Whether an image can be sampled for a job's strategy under given
/// settings: it holds integer samples and a whole cell of the strategy.
pub open spec fn can_render(img: DynamicImage, job: Job, settings: Settings) -> bool {
    match job.strategy {
        Strategy::Block => has_cells(img, settings.compress as int, 1, 1),
        Strategy::Braille => has_cells(img, settings.compress as int, 2, 4),
        Strategy::ColorBlock => has_cells(img, settings.compress as int, 1, 1),
        Strategy::ColorHtml => has_cells(img, 1, 1, 1),
    }
}

/// Turns the options of a request into a job, before any image is read.
/// Options that name both glyph sets or none, or both kinds of file, are
/// refused.
pub fn select(options: Options) -> (out: Result<Job, RenderError>)
    ensures
        out is Ok <==> is_supported(options),
        out matches Ok(job) ==> job == job_of(options) && job.well_formed(),
        out matches Err(reason) ==> reason == RenderError::UnsupportedConfiguration,
{
    if options.block == options.braille || (options.html && options.text) {
        return Err(RenderError::UnsupportedConfiguration);
    }
    let target = if options.html {
        Target::Html
    } else if options.text {
        Target::Text
    } else {
        Target::Terminal
    };
    let strategy = if options.braille {
        Strategy::Braille
    } else if options.colored && options.html {
        Strategy::ColorHtml
    } else if options.colored && !options.text {
        Strategy::ColorBlock
    } else {
        Strategy::Block
    };
    Ok(Job { strategy, target, whitespace: options.whitespace })
}

/// The sampling of a job for an image of `width` pixels, alone or as one of
/// a batch.
pub fn settings_for(job: Job, width: u32, batch: bool) -> (settings: Settings)
    ensures
        settings == settings_of(job, width, batch),
        settings.compress >= 1,
{
    match job.target {
        Target::Terminal => {
            let limit: u32 = match job.strategy {
                Strategy::Braille => BRAILLE_TERMINAL_LIMIT,
                _ => BLOCK_TERMINAL_LIMIT,
            };
            Settings { compress: fit_compression(width, limit), charamount: 3, swap: true }
        },
        Target::Html => {
            let compress: u32 = match job.strategy {
                Strategy::Braille => if batch {
                    1
                } else {
                    2
                },
                _ => 1,
            };
            Settings { compress, charamount: 2, swap: false }
        },
        Target::Text => Settings { compress: 1, charamount: 2, swap: false },
    }
}

/// The sampling of the next image of a sequence that is shown as one
/// animation: that of the images before it, so that every frame has the
/// size of the first, and for the first image its own.
pub fn sequence_settings(earlier: Option<Settings>, job: Job, width: u32) -> (settings: Settings)
    ensures
        settings == match earlier {
            Some(chosen) => chosen,
            None => settings_of(job, width, true),
        },
{
    match earlier {
        Some(chosen) => chosen,
        None => settings_for(job, width, true),
    }
}

/// Renders an image by the strategy of a job. The request is refused where
/// the image holds floating-point samples, and where it holds no whole cell
/// of the strategy.
pub fn render(img: &DynamicImage, job: Job, settings: Settings) -> (out: Result<
    Frame,
    RenderError,
>)
    ensures
        out is Ok <==> can_render(*img, job, settings),
        out matches Ok(frame) ==> is_frame_of(frame, *img, job, settings),
        out matches Err(reason) ==> reason == refusal_of(*img),
{
    match job.strategy {
        Strategy::Block => {
            match img_to_asciistring(img, settings.compress, settings.charamount, settings.swap) {
                Ok(text) => Ok(Frame::Text(text)),
                Err(reason) => Err(reason),
            }
        },
        Strategy::Braille => {
            match img_to_braillestring(img, settings.compress, job.whitespace, settings.swap) {
                Ok(text) => Ok(Frame::Text(text)),
                Err(reason) => Err(reason),
            }
        },
        Strategy::ColorBlock => {
            match img_to_cblock(img, settings.compress) {
                Ok(rows) => Ok(Frame::Cells(rows)),
                Err(reason) => Err(reason),
            }
        },
        Strategy::ColorHtml => {
            match img_to_chtml(img) {
                Ok(page) => Ok(Frame::Text(page)),
                Err(reason) => Err(reason),
            }
        },
    }
}

} // verus!
