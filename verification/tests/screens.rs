use svgpath::decimal::Decimal;
use svgpath::ditty::{BackgroundDitty, Ditty, DrawOp, ImageSize, PathDitty};
use svgpath::gameloop::{Action, Event, GameLoop, Phase, FRAME_TICKS};
use svgpath::spath::{read_path, PathElem};
use svgpath::svg::{collect_paths, get_paths, Attribute, Markup, SvgError};

fn line(x1: i32, y1: i32, x2: i32, y2: i32) -> DrawOp {
    DrawOp::Line { x1, y1, x2, y2 }
}

fn color(r: u8, g: u8, b: u8) -> DrawOp {
    DrawOp::Color { r, g, b }
}

#[test]
fn background_is_centred() {
    let mut ditty = BackgroundDitty::new();
    assert!(!ditty.can_render(640, 480));
    assert_eq!(ditty.init(), Some("logo.bmp"));
    ditty.loaded(ImageSize { width: 100, height: 50 });
    assert!(ditty.can_render(640, 480));
    assert_eq!(
        ditty.render(640, 480),
        vec![DrawOp::Image { x: 270, y: 215, width: 100, height: 50 }]
    );
    // Halves are taken before the difference.
    ditty.loaded(ImageSize { width: 3, height: 5 });
    assert_eq!(ditty.render(7, 9), vec![DrawOp::Image { x: 2, y: 2, width: 3, height: 5 }]);
}

#[test]
fn background_larger_than_the_display_cannot_be_drawn() {
    let mut ditty = BackgroundDitty::new();
    ditty.loaded(ImageSize { width: 800, height: 50 });
    assert!(!ditty.can_render(640, 480));
    ditty.loaded(ImageSize { width: 641, height: 481 });
    assert!(ditty.can_render(640, 480));
    assert_eq!(
        BackgroundDitty::draw_tex(&ImageSize { width: 641, height: 481 }, 640, 480),
        DrawOp::Image { x: 0, y: 0, width: 641, height: 481 }
    );
    assert_eq!(
        BackgroundDitty::draw_tex(&ImageSize { width: 0, height: 0 }, u32::MAX, u32::MAX),
        DrawOp::Image { x: i32::MAX, y: i32::MAX, width: 0, height: 0 }
    );
}

#[test]
fn paths_are_drawn_as_coloured_lines() {
    let path = read_path("M10 10 L20 20 Q1 1 30 10 Z").unwrap();
    let mut ditty = PathDitty::new(vec![path]);
    assert_eq!(ditty.init(), None);
    assert!(ditty.can_render(1, 1));
    assert_eq!(
        ditty.render(640, 480),
        vec![
            color(255, 0, 0),
            line(10, 10, 20, 20),
            color(0, 255, 0),
            line(20, 20, 30, 10),
            color(255, 0, 0),
            line(30, 10, 10, 10),
            color(0, 0, 0),
        ]
    );
}

#[test]
fn every_path_starts_at_the_origin() {
    let a = read_path("L5 5").unwrap();
    let b = read_path("l7 7").unwrap();
    let mut ditty = PathDitty::new(vec![a, b]);
    assert_eq!(
        ditty.render(10, 10),
        vec![color(255, 0, 0), line(0, 0, 5, 5), color(255, 0, 0), line(0, 0, 7, 7), color(0, 0, 0)]
    );
    let mut none = PathDitty::new(vec![]);
    assert_eq!(none.render(10, 10), vec![color(0, 0, 0)]);
}

#[test]
fn cubic_curve_shows_its_skeleton() {
    let path = read_path("M1 1 C5 6 7 8 9 10").unwrap();
    let mut ditty = PathDitty::new(vec![path]);
    assert_eq!(
        ditty.render(10, 10),
        vec![
            color(64, 64, 64),
            line(1, 1, 5, 6),
            line(9, 10, 7, 8),
            color(255, 128, 0),
            DrawOp::Rect { x: 4, y: 5, width: 2, height: 2 },
            DrawOp::Rect { x: 6, y: 7, width: 2, height: 2 },
            line(1, 1, 9, 10),
            color(0, 0, 0),
        ]
    );
}

#[test]
fn arcs_are_drawn_as_yellow_chords() {
    let d = |v: i64| Decimal::from_i64(v);
    let arc = PathElem::ArcTo {
        rx: d(1),
        ry: d(1),
        x_rotation: d(0),
        lrg_arc: false,
        sweep: true,
        x: d(3),
        y: d(4),
    };
    let mut ditty = PathDitty::new(vec![vec![arc]]);
    assert_eq!(
        ditty.render(10, 10),
        vec![color(255, 255, 0), line(0, 0, 3, 4), color(0, 0, 0)]
    );
}

#[test]
fn coordinates_are_cut_off_toward_zero() {
    let lit = |s: &str| Decimal::parse(s.as_bytes()).unwrap();
    assert_eq!(lit("1.9").to_i32(), 1);
    assert_eq!(lit("-1.9").to_i32(), -1);
    assert_eq!(lit("0.999").to_i32(), 0);
    assert_eq!(lit("-0.5").to_i32(), 0);
    assert_eq!(lit("2147483647.5").to_i32(), i32::MAX);
    assert_eq!(lit("2147483648").to_i32(), i32::MAX);
    assert_eq!(lit("-2147483648.9").to_i32(), i32::MIN);
    assert_eq!(lit("-2147483649").to_i32(), i32::MIN);
    assert_eq!(lit("123456789012345678901234567890").to_i32(), i32::MAX);
    assert_eq!(lit("-123456789012345678901234567890").to_i32(), i32::MIN);
    assert_eq!(lit("9999999999").to_i32(), i32::MAX);
    assert_eq!(lit("1234567890.123").to_i32(), 1234567890);
}

#[test]
fn marker_wraps_at_the_lowest_coordinate() {
    let path = read_path("C-99999999999 0 0 0 0 0").unwrap();
    let mut ditty = PathDitty::new(vec![path]);
    let ops = ditty.render(10, 10);
    assert_eq!(ops[4], DrawOp::Rect { x: i32::MAX, y: -1, width: 2, height: 2 });
}

#[test]
fn loop_sets_up_then_shows_frames() {
    let mut l = GameLoop::new(640, 480);
    assert_eq!(l.phase(), Phase::Idle);
    assert_eq!((l.width(), l.height()), (640, 480));
    assert_eq!(l.run(Event::Done), Action::BuildRenderer);
    assert_eq!(l.run(Event::Done), Action::OpenTimer);
    assert_eq!(l.run(Event::Done), Action::OpenEvents);
    assert_eq!(l.run(Event::Done), Action::InitDitty);
    assert_eq!(l.run(Event::Done), Action::ReadTicks);
    assert_eq!(l.run(Event::Ticks(100)), Action::PollEvents);
    assert_eq!(l.phase(), Phase::Events { start: 100 });
    assert_eq!(l.run(Event::Polled { quit: false }), Action::Draw);
    assert_eq!(l.run(Event::Done), Action::ReadTicks);
    assert_eq!(l.run(Event::Ticks(105)), Action::Delay(1));
    assert_eq!(l.run(Event::Done), Action::ReadTicks);
    assert_eq!(l.run(Event::Ticks(115)), Action::Delay(1));
    assert_eq!(l.run(Event::Done), Action::ReadTicks);
    assert_eq!(l.run(Event::Ticks(116)), Action::ReadTicks);
    assert_eq!(l.phase(), Phase::FrameStart);
    assert_eq!(l.run(Event::Ticks(117)), Action::PollEvents);
    assert_eq!(l.run(Event::Polled { quit: true }), Action::Finish);
    assert_eq!(l.phase(), Phase::Over);
    assert_eq!(l.run(Event::Done), Action::Finish);
    assert_eq!((l.width(), l.height()), (640, 480));
}

#[test]
fn frame_lasts_a_sixtieth_of_a_second() {
    assert_eq!(FRAME_TICKS, 16);
}

#[test]
fn loop_ends_when_setting_up_fails() {
    let mut l = GameLoop::new(1, 1);
    l.run(Event::Done);
    assert_eq!(l.run(Event::Failed), Action::Fail);
    assert_eq!(l.phase(), Phase::Over);

    let mut l = GameLoop::new(1, 1);
    l.run(Event::Done);
    l.run(Event::Done);
    l.run(Event::Done);
    assert_eq!(l.phase(), Phase::Pump);
    assert_eq!(l.run(Event::Failed), Action::Fail);
}

#[test]
fn loop_repeats_its_request_when_told_something_else() {
    let mut l = GameLoop::new(1, 1);
    l.run(Event::Done);
    assert_eq!(l.run(Event::Ticks(5)), Action::BuildRenderer);
    assert_eq!(l.phase(), Phase::Renderer);
    for _ in 0..4 {
        l.run(Event::Done);
    }
    assert_eq!(l.phase(), Phase::FrameStart);
    assert_eq!(l.run(Event::Done), Action::ReadTicks);
    assert_eq!(l.run(Event::Failed), Action::ReadTicks);
    assert_eq!(l.phase(), Phase::FrameStart);
    assert_eq!(l.do_run(Event::Polled { quit: true }), Action::ReadTicks);
}

#[test]
fn tick_count_may_start_again_within_a_frame() {
    let mut l = GameLoop::new(1, 1);
    for _ in 0..5 {
        l.run(Event::Done);
    }
    l.run(Event::Ticks(u32::MAX - 5));
    l.run(Event::Polled { quit: false });
    l.run(Event::Done);
    assert_eq!(l.run(Event::Ticks(9)), Action::Delay(1));
    l.run(Event::Done);
    assert_eq!(l.run(Event::Ticks(10)), Action::ReadTicks);
    assert_eq!(l.phase(), Phase::FrameStart);
}

#[test]
fn renderer_plan() {
    let plan = GameLoop::new(800, 600).build_renderer();
    assert_eq!(plan.title, "Cretacious Island");
    assert_eq!((plan.width, plan.height), (800, 600));
    assert!(plan.fullscreen && plan.accelerated && plan.vsync);
}

#[test]
fn path_data_of_a_drawing() {
    let doc = br#"<?xml version="1.0"?>
<svg xmlns="http://www.w3.org/2000/svg" xmlns:x="urn:x">
  <g>
    <path id="a" d="M0 0 L1 1"/>
    <rect d="not a path"/>
    <x:path d="M2 2"></x:path>
    <path id="none"/>
    <path x:d="M3 3" d="M4 4"/>
  </g>
</svg>"#;
    assert_eq!(
        get_paths(doc),
        Ok(vec!["M0 0 L1 1".to_string(), "M2 2".to_string(), "M3 3".to_string(), "M4 4".to_string()])
    );
}

#[test]
fn malformed_drawing_is_refused() {
    assert_eq!(get_paths(b"<svg><path d=\"M0 0\"></svg>"), Err(SvgError::Malformed));
    assert_eq!(get_paths(b""), Err(SvgError::Malformed));
    assert_eq!(get_paths(b"<svg/>"), Ok(vec![]));
}

#[test]
fn reports_are_filtered_by_name() {
    let attr = |n: &str, v: &str| Attribute { name: n.to_string(), value: v.to_string() };
    let events = vec![
        Markup::Other,
        Markup::Start { name: "path".to_string(), attributes: vec![attr("id", "p"), attr("d", "M1 1")] },
        Markup::Start { name: "Path".to_string(), attributes: vec![attr("d", "M2 2")] },
        Markup::Start { name: "path".to_string(), attributes: vec![attr("D", "M3 3"), attr("d", "")] },
        Markup::Other,
    ];
    assert_eq!(collect_paths(&events), vec!["M1 1".to_string(), "".to_string()]);
}
