use colored::Colorize;
use image::DynamicImage;
use image::Rgb;
use image::Rgb32FImage;
use image::RgbImage;
use img_to_ascii::strategy::render;
use img_to_ascii::strategy::select;
use img_to_ascii::strategy::sequence_settings;
use img_to_ascii::strategy::settings_for;
use img_to_ascii::strategy::Frame;
use img_to_ascii::strategy::Job;
use img_to_ascii::strategy::Options;
use img_to_ascii::strategy::Settings;
use img_to_ascii::strategy::Strategy;
use img_to_ascii::strategy::Target;
use img_to_ascii::RenderError;

fn options(block: bool, braille: bool, html: bool, text: bool, colored: bool) -> Options {
    Options { block, braille, html, text, whitespace: false, colored }
}

fn job(strategy: Strategy, target: Target) -> Job {
    Job { strategy, target, whitespace: false }
}

#[test]
fn block_requests() {
    assert_eq!(
        select(options(true, false, true, false, false)),
        Ok(job(Strategy::Block, Target::Html))
    );
    assert_eq!(
        select(options(true, false, false, true, false)),
        Ok(job(Strategy::Block, Target::Text))
    );
    assert_eq!(
        select(options(true, false, false, false, false)),
        Ok(job(Strategy::Block, Target::Terminal))
    );
}

#[test]
fn coloured_requests() {
    assert_eq!(
        select(options(true, false, true, false, true)),
        Ok(job(Strategy::ColorHtml, Target::Html))
    );
    assert_eq!(
        select(options(true, false, false, false, true)),
        Ok(job(Strategy::ColorBlock, Target::Terminal))
    );
    assert_eq!(
        select(options(true, false, false, true, true)),
        Ok(job(Strategy::Block, Target::Text))
    );
}

#[test]
fn braille_requests_ignore_colour() {
    for colored in [false, true] {
        assert_eq!(
            select(options(false, true, true, false, colored)),
            Ok(job(Strategy::Braille, Target::Html))
        );
        assert_eq!(
            select(options(false, true, false, true, colored)),
            Ok(job(Strategy::Braille, Target::Text))
        );
        assert_eq!(
            select(options(false, true, false, false, colored)),
            Ok(job(Strategy::Braille, Target::Terminal))
        );
    }
}

#[test]
fn whitespace_is_carried_over() {
    let asked = Options {
        block: false,
        braille: true,
        html: false,
        text: false,
        whitespace: true,
        colored: false,
    };
    assert_eq!(
        select(asked),
        Ok(Job { strategy: Strategy::Braille, target: Target::Terminal, whitespace: true })
    );
}

#[test]
fn conflicting_requests_are_refused() {
    for colored in [false, true] {
        for html in [false, true] {
            for text in [false, true] {
                assert_eq!(
                    select(options(false, false, html, text, colored)),
                    Err(RenderError::UnsupportedConfiguration)
                );
                assert_eq!(
                    select(options(true, true, html, text, colored)),
                    Err(RenderError::UnsupportedConfiguration)
                );
            }
        }
        assert_eq!(
            select(options(true, false, true, true, colored)),
            Err(RenderError::UnsupportedConfiguration)
        );
        assert_eq!(
            select(options(false, true, true, true, colored)),
            Err(RenderError::UnsupportedConfiguration)
        );
    }
}

#[test]
fn settings_for_files() {
    let plain = Settings { compress: 1, charamount: 2, swap: false };
    assert_eq!(settings_for(job(Strategy::Block, Target::Html), 1920, false), plain);
    assert_eq!(settings_for(job(Strategy::Block, Target::Text), 1920, true), plain);
    assert_eq!(settings_for(job(Strategy::Braille, Target::Text), 1920, false), plain);
    assert_eq!(settings_for(job(Strategy::Braille, Target::Html), 1920, true), plain);
    assert_eq!(settings_for(job(Strategy::ColorHtml, Target::Html), 1920, false), plain);
    assert_eq!(
        settings_for(job(Strategy::Braille, Target::Html), 1920, false),
        Settings { compress: 2, charamount: 2, swap: false }
    );
}

#[test]
fn settings_for_the_terminal() {
    assert_eq!(
        settings_for(job(Strategy::Block, Target::Terminal), 1920, false),
        Settings { compress: 29, charamount: 3, swap: true }
    );
    assert_eq!(
        settings_for(job(Strategy::ColorBlock, Target::Terminal), 66, false),
        Settings { compress: 1, charamount: 3, swap: true }
    );
    assert_eq!(
        settings_for(job(Strategy::Braille, Target::Terminal), 1920, true),
        Settings { compress: 5, charamount: 3, swap: true }
    );
    assert_eq!(
        settings_for(job(Strategy::Braille, Target::Terminal), 399, false),
        Settings { compress: 1, charamount: 3, swap: true }
    );
}

#[test]
fn render_follows_the_strategy() {
    let img = DynamicImage::ImageRgb8(RgbImage::from_pixel(2, 4, Rgb([0, 0, 0])));
    let plain = Settings { compress: 1, charamount: 2, swap: false };
    match render(&img, job(Strategy::Block, Target::Text), plain) {
        Ok(Frame::Text(text)) => assert_eq!(text, "████\n████\n████\n████\n"),
        _ => panic!("block art is text"),
    }
    match render(&img, job(Strategy::Braille, Target::Text), plain) {
        Ok(Frame::Text(text)) => assert_eq!(text, "⣿\n"),
        _ => panic!("braille art is text"),
    }
    match render(&img, job(Strategy::ColorBlock, Target::Terminal), plain) {
        Ok(Frame::Cells(rows)) => {
            assert_eq!(rows.len(), 4);
            assert_eq!(rows[3], vec!["███".truecolor(0, 0, 0), "███".truecolor(0, 0, 0)]);
        }
        _ => panic!("coloured blocks are cells"),
    }
    match render(&img, job(Strategy::ColorHtml, Target::Html), plain) {
        Ok(Frame::Text(page)) => {
            assert!(page.starts_with("<pre>\n<font color='#000000'>█</font>"));
            assert!(page.ends_with("</font>\n</pre>"));
            assert_eq!(page.matches("<font").count(), 16);
        }
        _ => panic!("a colour page is text"),
    }
}

#[test]
fn render_refuses_what_holds_no_cell() {
    let img = DynamicImage::ImageRgb8(RgbImage::from_pixel(2, 3, Rgb([0, 0, 0])));
    let plain = Settings { compress: 1, charamount: 2, swap: false };
    assert!(matches!(
        render(&img, job(Strategy::Braille, Target::Text), plain),
        Err(RenderError::InvalidSampleGeometry)
    ));
    let none = Settings { compress: 0, charamount: 2, swap: false };
    assert!(matches!(
        render(&img, job(Strategy::Block, Target::Text), none),
        Err(RenderError::InvalidSampleGeometry)
    ));
    assert!(matches!(
        render(&img, job(Strategy::ColorBlock, Target::Terminal), none),
        Err(RenderError::InvalidSampleGeometry)
    ));
    assert!(matches!(render(&img, job(Strategy::ColorHtml, Target::Html), none), Ok(_)));
}

#[test]
fn render_refuses_floating_point_samples() {
    let img = DynamicImage::ImageRgb32F(Rgb32FImage::from_pixel(2, 4, Rgb([0.0, 0.0, 0.0])));
    let plain = Settings { compress: 1, charamount: 2, swap: false };
    for strategy in [Strategy::Block, Strategy::Braille, Strategy::ColorBlock] {
        assert!(matches!(
            render(&img, job(strategy, Target::Terminal), plain),
            Err(RenderError::UnsupportedImage)
        ));
    }
    assert!(matches!(
        render(&img, job(Strategy::ColorHtml, Target::Html), plain),
        Err(RenderError::UnsupportedImage)
    ));
}

#[test]
fn a_sequence_keeps_the_settings_of_its_first_image() {
    let braille = job(Strategy::Braille, Target::Terminal);
    let first = sequence_settings(None, braille, 1920);
    assert_eq!(first, Settings { compress: 5, charamount: 3, swap: true });
    assert_eq!(sequence_settings(Some(first), braille, 10), first);
    assert_eq!(sequence_settings(Some(first), braille, 4000), first);
    let blocks = job(Strategy::Block, Target::Terminal);
    assert_eq!(
        sequence_settings(None, blocks, 134),
        Settings { compress: 3, charamount: 3, swap: true }
    );
}
