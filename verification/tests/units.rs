use svgpath::decimal::Decimal;
use svgpath::scan::{
    get_bool, get_number, space_width, split_num, switch_commas_with_spaces, trim_left,
};
use svgpath::spath::{
    arc_to, convert_token, curve_to, line_to, line_to_h, line_to_v, move_to, quad_to, read_path,
    reflect, resolve_group, smooth_curve_to, t_quad_to, fits_token, PathElem, PathState,
};
use svgpath::token::{
    get_a, get_c, get_cmd, get_cmd_char, get_cmd_with_params, get_group, get_hv, get_mlt,
    get_path_params, get_sq, tokenize, PathParams, PathToken, Shape,
};

fn d(v: i64) -> Decimal {
    Decimal::from_i64(v)
}

fn pt(x: i64, y: i64) -> (Decimal, Decimal) {
    (d(x), d(y))
}

#[test]
fn commas_become_blanks() {
    assert_eq!(switch_commas_with_spaces(b"M1,2 ,L3,,4"), b"M1 2  L3  4".to_vec());
    assert_eq!(switch_commas_with_spaces(b""), Vec::<u8>::new());
}

#[test]
fn white_space_is_stepped_over() {
    assert_eq!(trim_left(b"  \t\r\n\x0b\x0cM", 0), 7);
    assert_eq!(trim_left(b"M  ", 0), 0);
    assert_eq!(trim_left(b"M  ", 1), 3);
    assert_eq!(trim_left(b"", 0), 0);
    let wide = "\u{85}\u{a0}\u{1680}\u{2000}\u{200a}\u{2028}\u{2029}\u{202f}\u{205f}\u{3000}x";
    assert_eq!(trim_left(wide.as_bytes(), 0), wide.len() - 1);
    assert_eq!(space_width("\u{a0}".as_bytes(), 0), 2);
    assert_eq!(space_width("\u{3000}".as_bytes(), 0), 3);
    assert_eq!(space_width("\u{200b}".as_bytes(), 0), 0);
    assert_eq!(space_width("\u{a1}".as_bytes(), 0), 0);
    assert_eq!(space_width(b"\xe2\x80", 0), 0);
    assert_eq!(space_width(b" ", 1), 0);
}

#[test]
fn other_white_space_separates_too() {
    let prims = read_path("M1\u{a0}2\u{2003}L3\u{3000}4").unwrap();
    assert_eq!(
        prims,
        vec![PathElem::MoveTo { x: d(1), y: d(2) }, PathElem::LineTo { x: d(3), y: d(4) }]
    );
}

#[test]
fn number_characters_run() {
    assert_eq!(split_num(b"12.5-3 4", 0), 6);
    assert_eq!(split_num(b"12.5-3 4", 6), 6);
    assert_eq!(split_num(b"L1", 0), 0);
    assert_eq!(split_num(b"1e5", 0), 1);
    assert_eq!(split_num(b"77", 0), 2);
}

#[test]
fn numbers_are_read_behind_white_space() {
    assert_eq!(get_number(b"  -12.5 7", 0), Some((Decimal::parse(b"-12.5").unwrap(), 7)));
    assert_eq!(get_number(b"  -12.5 7", 7), Some((d(7), 9)));
    assert_eq!(get_number(b"  -12.5 7", 9), None);
    assert_eq!(get_number(b"1-2", 0), None);
    assert_eq!(get_number(b"x", 0), None);
    assert_eq!(get_number(b"1e5", 0), Some((d(1), 1)));
}

#[test]
fn flags_are_small_whole_numbers() {
    assert_eq!(get_bool(b" 0", 0), Some((false, 2)));
    assert_eq!(get_bool(b"1 ", 0), Some((true, 1)));
    assert_eq!(get_bool(b"000", 0), Some((false, 3)));
    assert_eq!(get_bool(b"255", 0), Some((true, 3)));
    assert_eq!(get_bool(b"256", 0), None);
    assert_eq!(get_bool(b"99999999999999999999999", 0), None);
    assert_eq!(get_bool(b"0000000000000000000000000000001", 0), Some((true, 31)));
    assert_eq!(get_bool(b"1.", 0), None);
    assert_eq!(get_bool(b"-0", 0), None);
    assert_eq!(get_bool(b"", 0), None);
}

#[test]
fn command_letters() {
    let letters = [
        (b'M', PathToken::MU),
        (b'm', PathToken::ML),
        (b'Z', PathToken::Z),
        (b'z', PathToken::Z),
        (b'L', PathToken::LU),
        (b'l', PathToken::LL),
        (b'H', PathToken::HU),
        (b'h', PathToken::HL),
        (b'V', PathToken::VU),
        (b'v', PathToken::VL),
        (b'C', PathToken::CU),
        (b'c', PathToken::CL),
        (b'S', PathToken::SU),
        (b's', PathToken::SL),
        (b'Q', PathToken::QU),
        (b'q', PathToken::QL),
        (b'T', PathToken::TU),
        (b't', PathToken::TL),
        (b'A', PathToken::AU),
        (b'a', PathToken::AL),
    ];
    for c in 0..=255u8 {
        let expected = letters.iter().find(|(l, _)| *l == c).map(|(_, t)| *t);
        assert_eq!(get_cmd_char(c), expected);
    }
    for (l, t) in letters {
        if t != PathToken::Z {
            assert_eq!(t.is_absolute(), l.is_ascii_uppercase());
        }
    }
    assert!(PathToken::Z.is_absolute());
    assert_eq!(PathToken::Z.group_shape(), None);
    assert_eq!(PathToken::TL.group_shape(), Some(Shape::MLT));
    assert_eq!(PathToken::VU.group_shape(), Some(Shape::HV));
    assert_eq!(PathToken::CL.group_shape(), Some(Shape::C));
    assert_eq!(PathToken::SU.group_shape(), Some(Shape::SQ));
    assert_eq!(PathToken::QL.group_shape(), Some(Shape::SQ));
    assert_eq!(PathToken::AL.group_shape(), Some(Shape::A));
}

#[test]
fn command_letter_behind_white_space() {
    assert_eq!(get_cmd(b"  M1", 0), Some((PathToken::MU, 3)));
    assert_eq!(get_cmd(b"  ", 0), None);
    assert_eq!(get_cmd(b" 1", 0), None);
    assert_eq!(get_cmd(b"z", 0), Some((PathToken::Z, 1)));
}

#[test]
fn groups_by_shape() {
    let s = b"1 2 3 4 5 6 7";
    assert_eq!(get_mlt(s, 0), Some((PathParams::MLTParam(d(1), d(2)), 3)));
    assert_eq!(get_hv(s, 0), Some((PathParams::HVParam(d(1)), 1)));
    assert_eq!(get_sq(s, 0), Some((PathParams::SQParam(d(1), d(2), d(3), d(4)), 7)));
    assert_eq!(get_c(s, 0), Some((PathParams::CParam(d(1), d(2), d(3), d(4), d(5), d(6)), 11)));
    assert_eq!(get_c(s, 4), None);
    // Any whole number up to 255 is a flag, and any but zero is set.
    assert_eq!(
        get_a(s, 0),
        Some((PathParams::AParam(d(1), d(2), d(3), true, true, d(6), d(7)), 13))
    );
    assert_eq!(get_a(b"1 2 3 0.5 1 6 7", 0), None);
    assert_eq!(get_a(b"1 2 3 0 1 6", 0), None);
    assert_eq!(
        get_a(b"1 2 3 0 1 6 7 8", 0),
        Some((PathParams::AParam(d(1), d(2), d(3), false, true, d(6), d(7)), 13))
    );
    assert_eq!(get_group(Shape::HV, s, 12), Some((PathParams::HVParam(d(7)), 13)));
    assert_eq!(PathParams::HVParam(d(1)).shape_of(), Shape::HV);
    assert_eq!(PathParams::MLTParam(d(1), d(1)).shape_of(), Shape::MLT);
}

#[test]
fn groups_repeat() {
    let s = b"1 2 3 4 5 L";
    assert_eq!(
        get_path_params(s, 0, Shape::MLT),
        Some((vec![PathParams::MLTParam(d(1), d(2)), PathParams::MLTParam(d(3), d(4))], 7))
    );
    assert_eq!(get_path_params(s, 8, Shape::MLT), None);
    assert_eq!(
        get_path_params(s, 8, Shape::HV),
        Some((vec![PathParams::HVParam(d(5))], 9))
    );
    assert_eq!(get_cmd_with_params(b" Z1", 0), Some((PathToken::Z, vec![], 2)));
    assert_eq!(
        get_cmd_with_params(b"h1 2", 0),
        Some((PathToken::HL, vec![PathParams::HVParam(d(1)), PathParams::HVParam(d(2))], 4))
    );
    assert_eq!(get_cmd_with_params(b"h", 0), None);
    assert_eq!(get_cmd_with_params(b"1", 0), None);
}

#[test]
fn arc_groups_repeat_whole() {
    let t = tokenize("A1 1 0 0 1 5 5 2 2 0 1 0 9 9");
    assert_eq!(
        t.tokens,
        vec![(
            PathToken::AU,
            vec![
                PathParams::AParam(d(1), d(1), d(0), false, true, d(5), d(5)),
                PathParams::AParam(d(2), d(2), d(0), true, false, d(9), d(9)),
            ]
        )]
    );
    assert_eq!(t.rest, 28);
}

#[test]
fn resolution_of_single_groups() {
    let xy = PathParams::MLTParam(d(1), d(2));
    let one = PathParams::HVParam(d(7));
    let four = PathParams::SQParam(d(1), d(2), d(3), d(4));
    let six = PathParams::CParam(d(1), d(2), d(3), d(4), d(5), d(6));
    assert_eq!(move_to(None, &xy), Some(PathElem::MoveTo { x: d(1), y: d(2) }));
    assert_eq!(move_to(Some(pt(10, 20)), &xy), Some(PathElem::MoveTo { x: d(11), y: d(22) }));
    assert_eq!(move_to(None, &one), None);
    assert_eq!(line_to(Some(pt(-1, -2)), &xy), Some(PathElem::LineTo { x: d(0), y: d(0) }));
    assert_eq!(line_to(None, &four), None);
    assert_eq!(line_to_h(true, pt(3, 4), &one), Some(PathElem::LineTo { x: d(7), y: d(4) }));
    assert_eq!(line_to_h(false, pt(3, 4), &one), Some(PathElem::LineTo { x: d(10), y: d(4) }));
    assert_eq!(line_to_h(true, pt(3, 4), &xy), None);
    assert_eq!(line_to_v(true, pt(3, 4), &one), Some(PathElem::LineTo { x: d(3), y: d(7) }));
    assert_eq!(line_to_v(false, pt(3, 4), &one), Some(PathElem::LineTo { x: d(3), y: d(11) }));
    assert_eq!(line_to_v(false, pt(3, 4), &six), None);
    assert_eq!(
        curve_to(Some(pt(10, 100)), &six),
        Some(PathElem::CurveTo {
            x1: d(11),
            y1: d(102),
            x2: d(13),
            y2: d(104),
            x: d(15),
            y: d(106)
        })
    );
    assert_eq!(curve_to(None, &four), None);
    assert_eq!(
        quad_to(Some(pt(10, 100)), &four),
        Some(PathElem::QuadraticTo { x1: d(11), y1: d(102), x: d(13), y: d(104) })
    );
    assert_eq!(quad_to(None, &xy), None);
    assert_eq!(
        smooth_curve_to(false, Some(pt(4, 4)), pt(5, 6), &four),
        Some(PathElem::CurveTo { x1: d(6), y1: d(8), x2: d(6), y2: d(8), x: d(8), y: d(10) })
    );
    assert_eq!(
        smooth_curve_to(true, None, pt(5, 6), &four),
        Some(PathElem::CurveTo { x1: d(5), y1: d(6), x2: d(1), y2: d(2), x: d(3), y: d(4) })
    );
    assert_eq!(smooth_curve_to(true, None, pt(5, 6), &xy), None);
    assert_eq!(
        t_quad_to(true, Some(pt(0, 0)), pt(5, 6), &xy),
        Some(PathElem::QuadraticTo { x1: d(10), y1: d(12), x: d(1), y: d(2) })
    );
    assert_eq!(
        t_quad_to(false, None, pt(5, 6), &xy),
        Some(PathElem::QuadraticTo { x1: d(5), y1: d(6), x: d(6), y: d(8) })
    );
    assert_eq!(t_quad_to(false, None, pt(5, 6), &four), None);
}

#[test]
fn arc_groups_keep_radii_rotation_and_flags() {
    let arc = PathParams::AParam(d(1), d(2), d(30), true, false, d(5), d(6));
    assert_eq!(
        arc_to(None, &arc),
        Some(PathElem::ArcTo {
            rx: d(1),
            ry: d(2),
            x_rotation: d(30),
            lrg_arc: true,
            sweep: false,
            x: d(5),
            y: d(6)
        })
    );
    assert_eq!(
        arc_to(Some(pt(10, 20)), &arc),
        Some(PathElem::ArcTo {
            rx: d(1),
            ry: d(2),
            x_rotation: d(30),
            lrg_arc: true,
            sweep: false,
            x: d(15),
            y: d(26)
        })
    );
    assert_eq!(arc_to(None, &PathParams::HVParam(d(1))), None);
}

#[test]
fn mirroring() {
    assert_eq!(reflect(&pt(10, 10), &pt(0, 10)), pt(-10, 10));
    assert_eq!(reflect(&pt(3, 4), &pt(3, 4)), pt(3, 4));
    let p = (Decimal::parse(b"1.25").unwrap(), Decimal::parse(b"-7.5").unwrap());
    let r = (Decimal::parse(b"0.001").unwrap(), d(1000000));
    let q = reflect(&p, &r);
    assert_eq!(q, (Decimal::parse(b"-1.248").unwrap(), Decimal::parse(b"2000007.5").unwrap()));
    assert_eq!(reflect(&q, &r), p);
}

#[test]
fn state_remembers_points() {
    let mut s = PathState::new();
    assert_eq!(s.last_pt(), None);
    assert_eq!(s.initial_pt(), None);
    assert_eq!(s.last_curve_cp(), None);
    assert_eq!(s.last_quad_cp(), None);
    assert_eq!(s.current_pt(), pt(0, 0));
    s.update(PathElem::MoveTo { x: d(1), y: d(2) });
    s.update(PathElem::CurveTo { x1: d(3), y1: d(4), x2: d(5), y2: d(6), x: d(7), y: d(8) });
    assert_eq!(s.initial_pt(), Some(pt(1, 2)));
    assert_eq!(s.last_pt(), Some(pt(7, 8)));
    assert_eq!(s.current_pt(), pt(7, 8));
    assert_eq!(s.last_curve_cp(), Some(pt(5, 6)));
    assert_eq!(s.last_quad_cp(), None);
    s.update(PathElem::QuadraticTo { x1: d(9), y1: d(10), x: d(11), y: d(12) });
    assert_eq!(s.last_curve_cp(), None);
    assert_eq!(s.last_quad_cp(), Some(pt(9, 10)));
    assert_eq!(
        PathState::point_for(&PathElem::ArcTo {
            rx: d(1),
            ry: d(1),
            x_rotation: d(0),
            lrg_arc: false,
            sweep: false,
            x: d(13),
            y: d(14)
        }),
        pt(13, 14)
    );
    assert_eq!(s.into_elems().len(), 3);
}

#[test]
fn one_command_at_a_time() {
    let mut s = PathState::new();
    s = convert_token(PathToken::ML, vec![PathParams::MLTParam(d(1), d(1))], s);
    s = convert_token(
        PathToken::HL,
        vec![PathParams::HVParam(d(2)), PathParams::HVParam(d(3))],
        s,
    );
    s = convert_token(PathToken::Z, vec![PathParams::HVParam(d(9))], s);
    s = convert_token(PathToken::LU, vec![], s);
    assert_eq!(
        resolve_group(PathToken::VL, true, &PathParams::HVParam(d(5)), &s),
        Some(PathElem::LineTo { x: d(6), y: d(6) })
    );
    assert_eq!(resolve_group(PathToken::Z, true, &PathParams::HVParam(d(5)), &s), None);
    assert_eq!(resolve_group(PathToken::AU, true, &PathParams::HVParam(d(5)), &s), None);
    assert_eq!(
        s.into_elems(),
        vec![
            PathElem::MoveTo { x: d(1), y: d(1) },
            PathElem::LineTo { x: d(3), y: d(1) },
            PathElem::LineTo { x: d(6), y: d(1) },
            PathElem::LineTo { x: d(1), y: d(1) },
            PathElem::MoveTo { x: d(6), y: d(1) },
        ]
    );
}

#[test]
fn commands_that_fit() {
    assert!(fits_token(PathToken::Z, &vec![PathParams::HVParam(d(1))]));
    assert!(fits_token(PathToken::LL, &vec![]));
    assert!(!fits_token(PathToken::ML, &vec![]));
    assert!(fits_token(PathToken::ML, &vec![PathParams::MLTParam(d(1), d(1))]));
    assert!(!fits_token(
        PathToken::ML,
        &vec![PathParams::MLTParam(d(1), d(1)), PathParams::HVParam(d(1))]
    ));
    assert!(!fits_token(
        PathToken::AU,
        &vec![PathParams::AParam(d(1), d(1), d(1), true, true, d(1), d(1))]
    ));
    assert!(!fits_token(PathToken::AL, &vec![]));
    assert!(fits_token(PathToken::SU, &vec![PathParams::SQParam(d(1), d(1), d(1), d(1))]));
}

#[test]
fn whole_numbers() {
    assert_eq!(d(0), Decimal::zero());
    assert_eq!(d(i64::MAX), Decimal::parse(b"9223372036854775807").unwrap());
    assert_eq!(d(i64::MIN), Decimal::parse(b"-9223372036854775808").unwrap());
    assert_eq!(d(-120), Decimal::parse(b"-120.000").unwrap());
    assert_eq!(d(5).clone(), d(5));
    assert_eq!(d(i64::MIN).to_i32(), i32::MIN);
    assert_eq!(d(-2147483648).to_i32(), i32::MIN);
    assert_eq!(d(2147483647).to_i32(), i32::MAX);
    assert_eq!(d(-7).to_i32(), -7);
}
