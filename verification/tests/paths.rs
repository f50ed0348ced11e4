use svgpath::decimal::Decimal;
use svgpath::spath::{interpret, read_path, PathElem, PathError};
use svgpath::token::{tokenize, PathParams, PathToken};

fn d(v: i64) -> Decimal {
    Decimal::from_i64(v)
}

fn lit(s: &str) -> Decimal {
    Decimal::parse(s.as_bytes()).unwrap()
}

fn move_to(x: i64, y: i64) -> PathElem<Decimal> {
    PathElem::MoveTo { x: d(x), y: d(y) }
}

fn line_to(x: i64, y: i64) -> PathElem<Decimal> {
    PathElem::LineTo { x: d(x), y: d(y) }
}

#[test]
fn empty_string_gives_no_tokens() {
    let t = tokenize("");
    assert!(t.tokens.is_empty());
    assert_eq!(t.rest, 0);
}

#[test]
fn unrecognized_leading_character_gives_no_tokens() {
    let input = "X10 10 L20 20";
    let t = tokenize(input);
    assert!(t.tokens.is_empty());
    assert_eq!(&input[t.rest..], input);
}

#[test]
fn white_space_alone_is_left_over() {
    let t = tokenize("   ");
    assert!(t.tokens.is_empty());
    assert_eq!(t.rest, 0);
}

#[test]
fn closed_triangle() {
    let prims = read_path("M10 10 L20 20 L30 10 Z").unwrap();
    assert_eq!(
        prims,
        vec![move_to(10, 10), line_to(20, 20), line_to(30, 10), line_to(10, 10), move_to(30, 10)]
    );
}

#[test]
fn relative_commands_chain() {
    let prims = read_path("m10 10 l10 0 l0 10").unwrap();
    assert_eq!(prims, vec![move_to(10, 10), line_to(20, 10), line_to(20, 20)]);
}

#[test]
fn smooth_curve_mirrors_the_last_control_point() {
    let prims = read_path("M0 0 C10 0 10 10 0 10 S-10 20 0 20").unwrap();
    assert_eq!(prims.len(), 3);
    assert_eq!(
        prims[1],
        PathElem::CurveTo { x1: d(10), y1: d(0), x2: d(10), y2: d(10), x: d(0), y: d(10) }
    );
    assert_eq!(
        prims[2],
        PathElem::CurveTo { x1: d(-10), y1: d(10), x2: d(-10), y2: d(20), x: d(0), y: d(20) }
    );
}

#[test]
fn missing_argument_stops_the_tokenizer() {
    let input = "M10 10 L20";
    let t = tokenize(input);
    assert_eq!(t.tokens, vec![(PathToken::MU, vec![PathParams::MLTParam(d(10), d(10))])]);
    assert_eq!(&input[t.rest..], "L20");
    assert_eq!(read_path(input).unwrap(), vec![move_to(10, 10)]);
}

#[test]
fn trailing_white_space_is_consumed() {
    let input = "M1 2 \n";
    let t = tokenize(input);
    assert_eq!(t.tokens.len(), 1);
    assert_eq!(t.rest, input.len());
}

#[test]
fn commas_separate_like_blanks() {
    let a = tokenize("M10,10,L20,20");
    let b = tokenize("M10 10 L20 20");
    assert_eq!(a.tokens, b.tokens);
    assert_eq!(a.rest, 13);
}

#[test]
fn repeated_groups_belong_to_one_command() {
    let t = tokenize("L1 2 3 4 5 6");
    assert_eq!(
        t.tokens,
        vec![(
            PathToken::LU,
            vec![
                PathParams::MLTParam(d(1), d(2)),
                PathParams::MLTParam(d(3), d(4)),
                PathParams::MLTParam(d(5), d(6)),
            ]
        )]
    );
}

#[test]
fn half_a_group_is_left_over_with_its_command() {
    // The third number has no partner: the command keeps one whole group and
    // reading stops at the number that is left.
    let input = "L1 2 3";
    let t = tokenize(input);
    assert_eq!(t.tokens, vec![(PathToken::LU, vec![PathParams::MLTParam(d(1), d(2))])]);
    assert_eq!(&input[t.rest..], "3");
}

#[test]
fn decimal_literals() {
    assert_eq!(lit("1.5"), lit("1.50"));
    assert_eq!(lit("-0"), d(0));
    assert_eq!(lit("5."), d(5));
    assert_eq!(lit(".5"), lit("0.5"));
    assert_eq!(lit("007"), d(7));
    assert!(Decimal::parse(b"").is_none());
    assert!(Decimal::parse(b"-").is_none());
    assert!(Decimal::parse(b".").is_none());
    assert!(Decimal::parse(b"1.5.6").is_none());
    assert!(Decimal::parse(b"1-2").is_none());
    assert!(Decimal::parse(b"1e5").is_none());
}

#[test]
fn decimal_arithmetic_is_exact() {
    assert_eq!(lit("0.1").plus(&lit("0.2")), lit("0.3"));
    assert_eq!(lit("1.5").plus(&lit("0.5")), d(2));
    assert_eq!(lit("1.5").minus(&lit("2.75")), lit("-1.25"));
    assert_eq!(d(5).minus(&d(5)), d(0));
    assert_eq!(d(-7).neg(), d(7));
    assert_eq!(d(0).neg(), d(0));
    assert_eq!(d(999).plus(&d(1)), d(1000));
    assert_eq!(d(1000).minus(&d(1)), d(999));
    assert_eq!(d(i64::MIN).plus(&d(i64::MAX)), d(-1));
    assert_eq!(
        lit("123456789012345678901234567890").plus(&lit("1")),
        lit("123456789012345678901234567891")
    );
}

#[test]
fn horizontal_and_vertical_lines() {
    let prims = read_path("M1 2 H10 V20 h-1 v-2").unwrap();
    assert_eq!(
        prims,
        vec![move_to(1, 2), line_to(10, 2), line_to(10, 20), line_to(9, 20), line_to(9, 18)]
    );
}

#[test]
fn move_with_more_groups_draws_lines() {
    let prims = read_path("M1 1 2 2 3 3").unwrap();
    assert_eq!(prims, vec![move_to(1, 1), line_to(2, 2), line_to(3, 3)]);
    let prims = read_path("M5 5 m1 1 2 2").unwrap();
    assert_eq!(prims, vec![move_to(5, 5), move_to(6, 6), line_to(8, 8)]);
}

#[test]
fn close_path_without_a_subpath_falls_back_to_the_origin() {
    let prims = read_path("Z").unwrap();
    assert_eq!(prims, vec![line_to(0, 0), move_to(0, 0)]);
    let prims = read_path("z").unwrap();
    assert_eq!(prims, vec![line_to(0, 0), move_to(0, 0)]);
}

#[test]
fn close_path_goes_back_to_the_very_first_point() {
    let prims = read_path("M1 1 L2 2 M5 5 L6 6 Z").unwrap();
    assert_eq!(
        prims,
        vec![
            move_to(1, 1),
            line_to(2, 2),
            move_to(5, 5),
            line_to(6, 6),
            line_to(1, 1),
            move_to(6, 6)
        ]
    );
}

#[test]
fn cubic_and_quadratic_curves() {
    let prims = read_path("M1 1 c1 2 3 4 5 6 Q1 2 3 4 q1 1 2 2").unwrap();
    assert_eq!(
        prims,
        vec![
            move_to(1, 1),
            PathElem::CurveTo { x1: d(2), y1: d(3), x2: d(4), y2: d(5), x: d(6), y: d(7) },
            PathElem::QuadraticTo { x1: d(1), y1: d(2), x: d(3), y: d(4) },
            PathElem::QuadraticTo { x1: d(4), y1: d(5), x: d(5), y: d(6) },
        ]
    );
}

#[test]
fn smooth_quadratic() {
    let prims = read_path("M0 0 Q5 5 10 0 T20 0 t10 0").unwrap();
    assert_eq!(
        prims,
        vec![
            move_to(0, 0),
            PathElem::QuadraticTo { x1: d(5), y1: d(5), x: d(10), y: d(0) },
            PathElem::QuadraticTo { x1: d(15), y1: d(-5), x: d(20), y: d(0) },
            PathElem::QuadraticTo { x1: d(25), y1: d(5), x: d(30), y: d(0) },
        ]
    );
}

#[test]
fn smooth_command_without_a_curve_before_it_uses_the_current_point() {
    let prims = read_path("M3 4 S1 2 5 6").unwrap();
    assert_eq!(
        prims[1],
        PathElem::CurveTo { x1: d(3), y1: d(4), x2: d(1), y2: d(2), x: d(5), y: d(6) }
    );
    let prims = read_path("M3 4 T5 6").unwrap();
    assert_eq!(prims[1], PathElem::QuadraticTo { x1: d(3), y1: d(4), x: d(5), y: d(6) });
    // A quadratic curve before a smooth cubic does not count.
    let prims = read_path("M0 0 Q1 1 2 2 s1 1 2 2").unwrap();
    assert_eq!(
        prims[2],
        PathElem::CurveTo { x1: d(2), y1: d(2), x2: d(3), y2: d(3), x: d(4), y: d(4) }
    );
}

#[test]
fn arcs_are_read_but_not_interpreted() {
    let t = tokenize("M0 0 A5 5 0 1 0 10 10");
    assert_eq!(t.tokens.len(), 2);
    assert_eq!(
        t.tokens[1],
        (
            PathToken::AU,
            vec![PathParams::AParam(d(5), d(5), d(0), true, false, d(10), d(10))]
        )
    );
    assert_eq!(t.rest, 21);
    assert_eq!(read_path("M0 0 A5 5 0 1 0 10 10"), Err(PathError::ArcNotImplemented));
    assert_eq!(read_path("a5 5 0 0 1 1 1"), Err(PathError::ArcNotImplemented));
}

#[test]
fn arc_flags() {
    assert_eq!(tokenize("A1 1 0 2 0 1 1").tokens.len(), 1);
    assert_eq!(tokenize("A1 1 0 255 00 1 1").tokens.len(), 1);
    assert!(tokenize("A1 1 0 256 0 1 1").tokens.is_empty());
    assert!(tokenize("A1 1 0 1.0 0 1 1").tokens.is_empty());
    assert!(tokenize("A1 1 0 -1 0 1 1").tokens.is_empty());
}

#[test]
fn mismatched_groups_are_refused() {
    let r = interpret(vec![(PathToken::LU, vec![PathParams::HVParam(d(1))])]);
    assert_eq!(r, Err(PathError::ArgumentMismatch));
    let r = interpret(vec![(PathToken::MU, vec![])]);
    assert_eq!(r, Err(PathError::ArgumentMismatch));
    let r = interpret(vec![(PathToken::LU, vec![])]);
    assert_eq!(r, Ok(vec![]));
}

#[test]
fn fractions_keep_their_digits() {
    let prims = read_path("M0.1 0.2 l0.2 0.1").unwrap();
    assert_eq!(
        prims,
        vec![
            PathElem::MoveTo { x: lit("0.1"), y: lit("0.2") },
            PathElem::LineTo { x: lit("0.3"), y: lit("0.3") },
        ]
    );
}
