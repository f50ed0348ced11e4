//! The tokenizer: from path data to commands with their argument groups.
//!
//! A command is one letter followed by one or more argument groups of the
//! arity that the letter asks for. The tokenizer reads as many commands as the
//! text holds in good order and stops at the first place where it cannot go
//! on; what it read up to there is the result, together with that place.

use vstd::prelude::*;
use vstd::string::*;
use crate::decimal::{Dec, Decimal};
use crate::scan::{
    commas_to_spaces, flag_at, get_bool, get_number, lemma_scan_advances, lemma_spaces_end,
    number_at, spaces_end, switch_commas_with_spaces, trim_left,
};

verus! {

/// A command letter. The second letter of a name tells upper case (`U`,
/// absolute coordinates) from lower case (`L`, relative to the current point).
#[derive(Debug, PartialEq, Eq, Clone, Copy, Structural)]
pub enum PathToken {
    MU,
    ML,
    /// Close path; upper and lower case mean the same.
    Z,
    LU,
    LL,
    HU,
    HL,
    VU,
    VL,
    CU,
    CL,
    SU,
    SL,
    QU,
    QL,
    TU,
    TL,
    AU,
    AL,
}

/// The shapes an argument group can have.
#[derive(Debug, PartialEq, Eq, Clone, Copy, Structural)]
pub enum Shape {
    /// `x y`: move, line, smooth quadratic.
    MLT,
    /// One number: horizontal and vertical line.
    HV,
    /// `x1 y1 x2 y2 x y`: cubic curve.
    C,
    /// Four numbers: smooth cubic (`x2 y2 x y`), quadratic (`x1 y1 x y`).
    SQ,
    /// `rx ry rotation large-arc sweep x y`: arc.
    A,
}

/// One argument group, over numbers of type `N`: `Decimal` in running code,
/// its value `Dec` in contracts.
#[derive(Debug, PartialEq, Eq)]
pub enum PathParams<N> {
    MLTParam(N, N),
    HVParam(N),
    CParam(N, N, N, N, N, N),
    SQParam(N, N, N, N),
    AParam(N, N, N, bool, bool, N, N),
}

impl View for PathParams<Decimal> {
    type V = PathParams<Dec>;

    open spec fn view(&self) -> PathParams<Dec> {
        match *self {
            PathParams::MLTParam(x, y) => PathParams::MLTParam(x@, y@),
            PathParams::HVParam(a) => PathParams::HVParam(a@),
            PathParams::CParam(x1, y1, x2, y2, x, y) => PathParams::CParam(
                x1@,
                y1@,
                x2@,
                y2@,
                x@,
                y@,
            ),
            PathParams::SQParam(a, b, x, y) => PathParams::SQParam(a@, b@, x@, y@),
            PathParams::AParam(rx, ry, rot, large, sweep, x, y) => PathParams::AParam(
                rx@,
                ry@,
                rot@,
                large,
                sweep,
                x@,
                y@,
            ),
        }
    }
}

impl<N> PathParams<N> {
    pub open spec fn shape(self) -> Shape {
        match self {
            PathParams::MLTParam(..) => Shape::MLT,
            PathParams::HVParam(..) => Shape::HV,
            PathParams::CParam(..) => Shape::C,
            PathParams::SQParam(..) => Shape::SQ,
            PathParams::AParam(..) => Shape::A,
        }
    }
}

impl PathParams<Decimal> {
    /// The shape of the group.
    pub fn shape_of(&self) -> (r: Shape)
        ensures
            r == self@.shape(),
    {
        match self {
            PathParams::MLTParam(..) => Shape::MLT,
            PathParams::HVParam(..) => Shape::HV,
            PathParams::CParam(..) => Shape::C,
            PathParams::SQParam(..) => Shape::SQ,
            PathParams::AParam(..) => Shape::A,
        }
    }
}

/// The values of a list of argument groups.
pub open spec fn params_view(v: Seq<PathParams<Decimal>>) -> Seq<PathParams<Dec>> {
    v.map_values(|p: PathParams<Decimal>| p@)
}

/// A command as the tokenizer hands it on.
pub type Command = (PathToken, Vec<PathParams<Decimal>>);

/// The value of a command.
pub type CommandView = (PathToken, Seq<PathParams<Dec>>);

/// The values of a list of commands.
pub open spec fn commands_view(v: Seq<Command>) -> Seq<CommandView> {
    v.map_values(|c: Command| (c.0, params_view(c.1@)))
}

impl PathToken {
    /// Whether the command takes absolute coordinates: whether its letter is
    /// an upper-case one. Close path counts as absolute; it takes no
    /// coordinates at all.
    pub open spec fn absolute(self) -> bool {
        65 <= self.letter() <= 90
    }

    /// The shape of the argument groups that the command takes; close path
    /// takes none.
    pub open spec fn shape(self) -> Option<Shape> {
        match self {
            PathToken::Z => None,
            PathToken::MU | PathToken::ML | PathToken::LU | PathToken::LL | PathToken::TU
            | PathToken::TL => Some(Shape::MLT),
            PathToken::HU | PathToken::HL | PathToken::VU | PathToken::VL => Some(Shape::HV),
            PathToken::CU | PathToken::CL => Some(Shape::C),
            PathToken::SU | PathToken::SL | PathToken::QU | PathToken::QL => Some(Shape::SQ),
            PathToken::AU | PathToken::AL => Some(Shape::A),
        }
    }

    /// The letter that the command is written with (`Z` for close path, which
    /// may also be written `z`).
    pub open spec fn letter(self) -> u8 {
        match self {
            PathToken::MU => 77,  // M
            PathToken::ML => 109,  // m
            PathToken::Z => 90,  // Z
            PathToken::LU => 76,  // L
            PathToken::LL => 108,  // l
            PathToken::HU => 72,  // H
            PathToken::HL => 104,  // h
            PathToken::VU => 86,  // V
            PathToken::VL => 118,  // v
            PathToken::CU => 67,  // C
            PathToken::CL => 99,  // c
            PathToken::SU => 83,  // S
            PathToken::SL => 115,  // s
            PathToken::QU => 81,  // Q
            PathToken::QL => 113,  // q
            PathToken::TU => 84,  // T
            PathToken::TL => 116,  // t
            PathToken::AU => 65,  // A
            PathToken::AL => 97,  // a
        }
    }
}

impl PathToken {
    /// Whether the command takes absolute coordinates.
    pub fn is_absolute(&self) -> (r: bool)
        ensures
            r == self.absolute(),
    {
        match self {
            PathToken::MU | PathToken::Z | PathToken::LU | PathToken::HU | PathToken::VU
            | PathToken::CU | PathToken::SU | PathToken::QU | PathToken::TU | PathToken::AU => true,
            _ => false,
        }
    }

    /// The shape of the argument groups that the command takes.
    pub fn group_shape(&self) -> (r: Option<Shape>)
        ensures
            r == self.shape(),
    {
        match self {
            PathToken::Z => None,
            PathToken::MU | PathToken::ML | PathToken::LU | PathToken::LL | PathToken::TU
            | PathToken::TL => Some(Shape::MLT),
            PathToken::HU | PathToken::HL | PathToken::VU | PathToken::VL => Some(Shape::HV),
            PathToken::CU | PathToken::CL => Some(Shape::C),
            PathToken::SU | PathToken::SL | PathToken::QU | PathToken::QL => Some(Shape::SQ),
            PathToken::AU | PathToken::AL => Some(Shape::A),
        }
    }
}

/// Whether `c` is the letter of the command `t`.
pub open spec fn writes(c: u8, t: PathToken) -> bool {
    c == t.letter() || (c == 122 && t == PathToken::Z)
}

/// The command that the letter `c` stands for, if any.
pub open spec fn token_of(c: u8) -> Option<PathToken> {
    if exists|t: PathToken| writes(c, t) {
        Some(choose|t: PathToken| writes(c, t))
    } else {
        None
    }
}

/// No letter stands for two commands.
pub proof fn lemma_letters_differ(c: u8, t: PathToken, u: PathToken)
    requires
        writes(c, t),
        writes(c, u),
    ensures
        t == u,
{
}

/// Letters are told apart by case only as to absolute and relative: every
/// letter is an upper-case or a lower-case one, and each absolute command but
/// close path has a relative one of the same shape, written with the same
/// letter in lower case.
pub proof fn lemma_letter_case(t: PathToken)
    ensures
        !t.absolute() <==> 97 <= t.letter() <= 122,
        t.absolute() && t != PathToken::Z ==> exists|u: PathToken|
            u.letter() == t.letter() + 32 && !u.absolute() && u.shape() == t.shape(),
{
    match t {
        PathToken::MU => assert(PathToken::ML.letter() == t.letter() + 32),
        PathToken::LU => assert(PathToken::LL.letter() == t.letter() + 32),
        PathToken::HU => assert(PathToken::HL.letter() == t.letter() + 32),
        PathToken::VU => assert(PathToken::VL.letter() == t.letter() + 32),
        PathToken::CU => assert(PathToken::CL.letter() == t.letter() + 32),
        PathToken::SU => assert(PathToken::SL.letter() == t.letter() + 32),
        PathToken::QU => assert(PathToken::QL.letter() == t.letter() + 32),
        PathToken::TU => assert(PathToken::TL.letter() == t.letter() + 32),
        PathToken::AU => assert(PathToken::AL.letter() == t.letter() + 32),
        _ => {},
    }
}

/// Maps a letter to its command.
pub fn get_cmd_char(c: u8) -> (r: Option<PathToken>)
    ensures
        r == token_of(c),
        r matches Some(t) ==> writes(c, t),
        r is None ==> forall|t: PathToken| !writes(c, t),
{
    let r = match c {
        77 => Some(PathToken::MU),  // M
        109 => Some(PathToken::ML),  // m
        122 => Some(PathToken::Z),  // z
        90 => Some(PathToken::Z),  // Z
        76 => Some(PathToken::LU),  // L
        108 => Some(PathToken::LL),  // l
        72 => Some(PathToken::HU),  // H
        104 => Some(PathToken::HL),  // h
        86 => Some(PathToken::VU),  // V
        118 => Some(PathToken::VL),  // v
        67 => Some(PathToken::CU),  // C
        99 => Some(PathToken::CL),  // c
        83 => Some(PathToken::SU),  // S
        115 => Some(PathToken::SL),  // s
        81 => Some(PathToken::QU),  // Q
        113 => Some(PathToken::QL),  // q
        84 => Some(PathToken::TU),  // T
        116 => Some(PathToken::TL),  // t
        65 => Some(PathToken::AU),  // A
        97 => Some(PathToken::AL),  // a
        _ => None,
    };
    proof {
        match r {
            Some(t) => {
                assert(writes(c, t));
                let u = choose|u: PathToken| writes(c, u);
                lemma_letters_differ(c, t, u);
            },
            None => {
                assert forall|t: PathToken| !writes(c, t) by {
                    match t {
                        PathToken::MU => {},
                        _ => {},
                    }
                }
            },
        }
    }
    r
}

/// `n` numbers in a row from `i` on, and the position behind the last.
pub open spec fn numbers_at(t: Seq<u8>, i: int, n: nat) -> Option<(Seq<Dec>, int)>
    decreases n,
{
    if n == 0 {
        Some((Seq::empty(), i))
    } else {
        match number_at(t, i) {
            Some((d, j)) => match numbers_at(t, j, (n - 1) as nat) {
                Some((rest, e)) => Some((seq![d] + rest, e)),
                None => None,
            },
            None => None,
        }
    }
}

/// One argument group of the given shape at `i`, and the position behind it.
pub open spec fn group_at(shape: Shape, t: Seq<u8>, i: int) -> Option<(PathParams<Dec>, int)> {
    match shape {
        Shape::MLT => match numbers_at(t, i, 2) {
            Some((v, e)) => Some((PathParams::MLTParam(v[0], v[1]), e)),
            None => None,
        },
        Shape::HV => match numbers_at(t, i, 1) {
            Some((v, e)) => Some((PathParams::HVParam(v[0]), e)),
            None => None,
        },
        Shape::C => match numbers_at(t, i, 6) {
            Some((v, e)) => Some((PathParams::CParam(v[0], v[1], v[2], v[3], v[4], v[5]), e)),
            None => None,
        },
        Shape::SQ => match numbers_at(t, i, 4) {
            Some((v, e)) => Some((PathParams::SQParam(v[0], v[1], v[2], v[3]), e)),
            None => None,
        },
        Shape::A => match numbers_at(t, i, 3) {
            Some((v, i3)) => match flag_at(t, i3) {
                Some((large, i4)) => match flag_at(t, i4) {
                    Some((sweep, i5)) => match numbers_at(t, i5, 2) {
                        Some((w, e)) => Some(
                            (PathParams::AParam(v[0], v[1], v[2], large, sweep, w[0], w[1]), e),
                        ),
                        None => None,
                    },
                    None => None,
                },
                None => None,
            },
            None => None,
        },
    }
}

/// As many argument groups of the given shape as stand in a row from `i` on,
/// possibly none, and the position behind the last.
pub open spec fn groups_at(shape: Shape, t: Seq<u8>, i: int) -> (Seq<PathParams<Dec>>, int)
    decreases t.len() - i,
{
    match group_at(shape, t, i) {
        Some((g, j)) => if i < j <= t.len() {
            let r = groups_at(shape, t, j);
            (seq![g] + r.0, r.1)
        } else {
            (Seq::empty(), i)
        },
        None => (Seq::empty(), i),
    }
}

/// The argument groups of one command: at least one group must be there, and
/// every further group that can be read belongs to the same command.
pub open spec fn params_at(shape: Shape, t: Seq<u8>, i: int) -> Option<
    (Seq<PathParams<Dec>>, int),
> {
    match group_at(shape, t, i) {
        Some(_) => Some(groups_at(shape, t, i)),
        None => None,
    }
}

/// The command letter at `i` behind optional white space, and the position
/// behind it.
pub open spec fn letter_at(t: Seq<u8>, i: int) -> Option<(PathToken, int)> {
    let a = spaces_end(t, i);
    if 0 <= a < t.len() {
        match token_of(t[a]) {
            Some(token) => Some((token, a + 1)),
            None => None,
        }
    } else {
        None
    }
}

/// The command at `i`: white space, a command letter, and the argument groups
/// that the letter asks for. Close path takes none.
pub open spec fn command_at(t: Seq<u8>, i: int) -> Option<(CommandView, int)> {
    match letter_at(t, i) {
        Some((token, a)) => match token.shape() {
            Some(shape) => match params_at(shape, t, a) {
                Some((groups, e)) => Some(((token, groups), e)),
                None => None,
            },
            None => Some(((token, Seq::empty()), a)),
        },
        None => None,
    }
}

/// The commands from `i` on, up to the end of the text or to the first place
/// where no command can be read, and that place. White space behind a command
/// is stepped over before the next one is tried.
pub open spec fn tokens_from(t: Seq<u8>, i: int) -> (Seq<CommandView>, int)
    decreases t.len() - i,
{
    if 0 <= i < t.len() {
        match command_at(t, i) {
            Some((c, e)) => {
                let k = spaces_end(t, e);
                if i < k <= t.len() {
                    let r = tokens_from(t, k);
                    (seq![c] + r.0, r.1)
                } else {
                    (Seq::empty(), i)
                }
            },
            None => (Seq::empty(), i),
        }
    } else {
        (Seq::empty(), i)
    }
}

/// What the tokenizer makes of a text: the commands it could read, and the
/// position at which it stopped. Commas count as white space.
pub open spec fn tokenized(s: Seq<u8>) -> (Seq<CommandView>, int) {
    tokens_from(commas_to_spaces(s), 0)
}

/// Numbers that were read are as many as were asked for, and each takes up
/// at least one character.
pub proof fn lemma_numbers_at(t: Seq<u8>, i: int, n: nat)
    requires
        0 <= i <= t.len(),
    ensures
        numbers_at(t, i, n) matches Some((v, e)) ==> v.len() == n && i <= e <= t.len() && (n > 0
            ==> i < e),
    decreases n,
{
    if n > 0 {
        lemma_scan_advances(t, i);
        match number_at(t, i) {
            Some((d, j)) => {
                lemma_numbers_at(t, j, (n - 1) as nat);
            },
            None => {},
        }
    }
}

/// A group that was read has the shape that was asked for and takes up at
/// least one character.
pub proof fn lemma_group_at(shape: Shape, t: Seq<u8>, i: int)
    requires
        0 <= i <= t.len(),
    ensures
        group_at(shape, t, i) matches Some((g, e)) ==> g.shape() == shape && i < e <= t.len(),
{
    match shape {
        Shape::MLT => lemma_numbers_at(t, i, 2),
        Shape::HV => lemma_numbers_at(t, i, 1),
        Shape::C => lemma_numbers_at(t, i, 6),
        Shape::SQ => lemma_numbers_at(t, i, 4),
        Shape::A => {
            lemma_numbers_at(t, i, 3);
            match numbers_at(t, i, 3) {
                Some((v, i3)) => {
                    lemma_scan_advances(t, i3);
                    match flag_at(t, i3) {
                        Some((_, i4)) => {
                            lemma_scan_advances(t, i4);
                            match flag_at(t, i4) {
                                Some((_, i5)) => lemma_numbers_at(t, i5, 2),
                                None => {},
                            }
                        },
                        None => {},
                    }
                },
                None => {},
            }
        },
    }
}

/// Groups that were read in a row all have the shape that was asked for, and
/// behind the last of them no further group can be read.
pub proof fn lemma_groups_at(shape: Shape, t: Seq<u8>, i: int)
    requires
        0 <= i <= t.len(),
    ensures
        i <= groups_at(shape, t, i).1 <= t.len(),
        forall|j: int|
            0 <= j < groups_at(shape, t, i).0.len() ==> (#[trigger] groups_at(
                shape,
                t,
                i,
            ).0[j]).shape() == shape,
        group_at(shape, t, i) is Some ==> groups_at(shape, t, i).0.len() > 0 && i < groups_at(
            shape,
            t,
            i,
        ).1,
        group_at(shape, t, groups_at(shape, t, i).1) is None,
    decreases t.len() - i,
{
    lemma_group_at(shape, t, i);
    match group_at(shape, t, i) {
        Some((g, j)) => {
            lemma_groups_at(shape, t, j);
        },
        None => {},
    }
}

/// Whether what a scanner handed back is what the grammar says stands there.
pub open spec fn reads_group(
    r: Option<(PathParams<Decimal>, usize)>,
    expected: Option<(PathParams<Dec>, int)>,
) -> bool {
    match expected {
        Some((g, e)) => r matches Some((p, k)) && p@ == g && k == e,
        None => r is None,
    }
}

/// Whether what a scanner handed back is the list of groups that the grammar
/// says stands there.
pub open spec fn reads_groups(
    r: Option<(Vec<PathParams<Decimal>>, usize)>,
    expected: Option<(Seq<PathParams<Dec>>, int)>,
) -> bool {
    match expected {
        Some((g, e)) => r matches Some((p, k)) && params_view(p@) == g && k == e,
        None => r is None,
    }
}

/// Reads `x y`.
pub fn get_mlt(s: &[u8], i: usize) -> (r: Option<(PathParams<Decimal>, usize)>)
    requires
        i <= s@.len(),
    ensures
        reads_group(r, group_at(Shape::MLT, s@, i as int)),
{
    reveal_with_fuel(numbers_at, 3);
    let (x, i1) = match get_number(s, i) {
        Some(v) => v,
        None => return None,
    };
    let (y, i2) = match get_number(s, i1) {
        Some(v) => v,
        None => return None,
    };
    Some((PathParams::MLTParam(x, y), i2))
}

/// Reads a single number.
pub fn get_hv(s: &[u8], i: usize) -> (r: Option<(PathParams<Decimal>, usize)>)
    requires
        i <= s@.len(),
    ensures
        reads_group(r, group_at(Shape::HV, s@, i as int)),
{
    reveal_with_fuel(numbers_at, 2);
    let (a, i1) = match get_number(s, i) {
        Some(v) => v,
        None => return None,
    };
    Some((PathParams::HVParam(a), i1))
}

/// Reads `x1 y1 x2 y2 x y`.
pub fn get_c(s: &[u8], i: usize) -> (r: Option<(PathParams<Decimal>, usize)>)
    requires
        i <= s@.len(),
    ensures
        reads_group(r, group_at(Shape::C, s@, i as int)),
{
    reveal_with_fuel(numbers_at, 7);
    let (a1, i1) = match get_number(s, i) {
        Some(v) => v,
        None => return None,
    };
    let (a2, i2) = match get_number(s, i1) {
        Some(v) => v,
        None => return None,
    };
    let (a3, i3) = match get_number(s, i2) {
        Some(v) => v,
        None => return None,
    };
    let (a4, i4) = match get_number(s, i3) {
        Some(v) => v,
        None => return None,
    };
    let (a5, i5) = match get_number(s, i4) {
        Some(v) => v,
        None => return None,
    };
    let (a6, i6) = match get_number(s, i5) {
        Some(v) => v,
        None => return None,
    };
    Some((PathParams::CParam(a1, a2, a3, a4, a5, a6), i6))
}

/// Reads four numbers.
pub fn get_sq(s: &[u8], i: usize) -> (r: Option<(PathParams<Decimal>, usize)>)
    requires
        i <= s@.len(),
    ensures
        reads_group(r, group_at(Shape::SQ, s@, i as int)),
{
    reveal_with_fuel(numbers_at, 5);
    let (a1, i1) = match get_number(s, i) {
        Some(v) => v,
        None => return None,
    };
    let (a2, i2) = match get_number(s, i1) {
        Some(v) => v,
        None => return None,
    };
    let (a3, i3) = match get_number(s, i2) {
        Some(v) => v,
        None => return None,
    };
    let (a4, i4) = match get_number(s, i3) {
        Some(v) => v,
        None => return None,
    };
    Some((PathParams::SQParam(a1, a2, a3, a4), i4))
}

/// Reads `rx ry rotation large-arc sweep x y`.
pub fn get_a(s: &[u8], i: usize) -> (r: Option<(PathParams<Decimal>, usize)>)
    requires
        i <= s@.len(),
    ensures
        reads_group(r, group_at(Shape::A, s@, i as int)),
{
    reveal_with_fuel(numbers_at, 4);
    let (a1, i1) = match get_number(s, i) {
        Some(v) => v,
        None => return None,
    };
    let (a2, i2) = match get_number(s, i1) {
        Some(v) => v,
        None => return None,
    };
    let (a3, i3) = match get_number(s, i2) {
        Some(v) => v,
        None => return None,
    };
    let (a4, i4) = match get_bool(s, i3) {
        Some(v) => v,
        None => return None,
    };
    let (a5, i5) = match get_bool(s, i4) {
        Some(v) => v,
        None => return None,
    };
    let (a6, i6) = match get_number(s, i5) {
        Some(v) => v,
        None => return None,
    };
    let (a7, i7) = match get_number(s, i6) {
        Some(v) => v,
        None => return None,
    };
    Some((PathParams::AParam(a1, a2, a3, a4, a5, a6, a7), i7))
}

/// Reads one argument group of the given shape.
pub fn get_group(shape: Shape, s: &[u8], i: usize) -> (r: Option<(PathParams<Decimal>, usize)>)
    requires
        i <= s@.len(),
    ensures
        reads_group(r, group_at(shape, s@, i as int)),
{
    match shape {
        Shape::MLT => get_mlt(s, i),
        Shape::HV => get_hv(s, i),
        Shape::C => get_c(s, i),
        Shape::SQ => get_sq(s, i),
        Shape::A => get_a(s, i),
    }
}

/// Reads the argument groups of one command: one group, then every further
/// group of the same shape that follows. Fails if there is not even one.
pub fn get_path_params(s: &[u8], i: usize, shape: Shape) -> (r: Option<
    (Vec<PathParams<Decimal>>, usize),
>)
    requires
        i <= s@.len(),
    ensures
        reads_groups(r, params_at(shape, s@, i as int)),
{
    let mut v: Vec<PathParams<Decimal>> = Vec::new();
    let mut pos: usize = i;
    let mut val = get_group(shape, s, i);
    if val.is_none() {
        return None;
    }
    proof {
        assert(params_view(v@) =~= Seq::empty());
    }
    loop
        invariant_except_break
            val is Some,
        invariant
            i <= pos <= s@.len(),
            reads_group(val, group_at(shape, s@, pos as int)),
            params_view(v@) + groups_at(shape, s@, pos as int).0 == groups_at(
                shape,
                s@,
                i as int,
            ).0,
            groups_at(shape, s@, pos as int).1 == groups_at(shape, s@, i as int).1,
        ensures
            val is None,
        decreases s@.len() - pos,
    {
        proof {
            lemma_group_at(shape, s@, pos as int);
        }
        let (data, rest) = val.unwrap();
        proof {
            let g = data@;
            let tail = groups_at(shape, s@, rest as int).0;
            assert(params_view(v@.push(data)) =~= params_view(v@).push(g));
            assert(params_view(v@).push(g) + tail =~= params_view(v@) + (seq![g] + tail));
        }
        v.push(data);
        pos = rest;
        val = get_group(shape, s, rest);
        if val.is_none() {
            break ;
        }
    }
    proof {
        assert(groups_at(shape, s@, pos as int).0 =~= Seq::empty());
        assert(params_view(v@) + Seq::empty() =~= params_view(v@));
    }
    Some((v, pos))
}

/// Reads one or more `x y` groups.
pub fn get_mlts(s: &[u8], i: usize) -> (r: Option<(Vec<PathParams<Decimal>>, usize)>)
    requires
        i <= s@.len(),
    ensures
        reads_groups(r, params_at(Shape::MLT, s@, i as int)),
{
    get_path_params(s, i, Shape::MLT)
}

/// Reads one or more single numbers.
pub fn get_hvs(s: &[u8], i: usize) -> (r: Option<(Vec<PathParams<Decimal>>, usize)>)
    requires
        i <= s@.len(),
    ensures
        reads_groups(r, params_at(Shape::HV, s@, i as int)),
{
    get_path_params(s, i, Shape::HV)
}

/// Reads one or more groups of six numbers.
pub fn get_cs(s: &[u8], i: usize) -> (r: Option<(Vec<PathParams<Decimal>>, usize)>)
    requires
        i <= s@.len(),
    ensures
        reads_groups(r, params_at(Shape::C, s@, i as int)),
{
    get_path_params(s, i, Shape::C)
}

/// Reads one or more groups of four numbers.
pub fn get_sqs(s: &[u8], i: usize) -> (r: Option<(Vec<PathParams<Decimal>>, usize)>)
    requires
        i <= s@.len(),
    ensures
        reads_groups(r, params_at(Shape::SQ, s@, i as int)),
{
    get_path_params(s, i, Shape::SQ)
}

/// Reads one or more arc groups.
pub fn get_as(s: &[u8], i: usize) -> (r: Option<(Vec<PathParams<Decimal>>, usize)>)
    requires
        i <= s@.len(),
    ensures
        reads_groups(r, params_at(Shape::A, s@, i as int)),
{
    get_path_params(s, i, Shape::A)
}

/// Reads a command letter behind optional white space.
pub fn get_cmd(s: &[u8], i: usize) -> (r: Option<(PathToken, usize)>)
    requires
        i <= s@.len(),
    ensures
        match letter_at(s@, i as int) {
            Some((token, e)) => r matches Some((x, k)) && x == token && k == e && i < e
                <= s@.len(),
            None => r is None,
        },
{
    let a = trim_left(s, i);
    if a >= s.len() {
        return None;
    }
    match get_cmd_char(s[a]) {
        Some(token) => Some((token, a + 1)),
        None => None,
    }
}

/// Reads one command with its argument groups.
pub fn get_cmd_with_params(s: &[u8], i: usize) -> (r: Option<
    (PathToken, Vec<PathParams<Decimal>>, usize),
>)
    requires
        i <= s@.len(),
    ensures
        match command_at(s@, i as int) {
            Some((c, e)) => r matches Some((token, params, k)) && token == c.0 && params_view(
                params@,
            ) == c.1 && k == e,
            None => r is None,
        },
        r matches Some((_, _, k)) ==> i < k <= s@.len(),
{
    proof {
        lemma_spaces_end(s@, i as int);
    }
    let (cmd, rest) = match get_cmd(s, i) {
        Some(v) => v,
        None => return None,
    };
    proof {
        match cmd.shape() {
            Some(shape) => {
                lemma_groups_at(shape, s@, rest as int);
            },
            None => {},
        }
    }
    match cmd {
        PathToken::MU | PathToken::ML | PathToken::LU | PathToken::LL | PathToken::TU
        | PathToken::TL => match get_mlts(s, rest) {
            Some((mlts, others)) => Some((cmd, mlts, others)),
            None => None,
        },
        PathToken::Z => {
            let none: Vec<PathParams<Decimal>> = Vec::new();
            proof {
                assert(params_view(none@) =~= Seq::empty());
            }
            Some((cmd, none, rest))
        },
        PathToken::HU | PathToken::HL | PathToken::VU | PathToken::VL => match get_hvs(s, rest) {
            Some((hvs, others)) => Some((cmd, hvs, others)),
            None => None,
        },
        PathToken::CU | PathToken::CL => match get_cs(s, rest) {
            Some((cs, others)) => Some((cmd, cs, others)),
            None => None,
        },
        PathToken::SU | PathToken::SL | PathToken::QU | PathToken::QL => match get_sqs(s, rest) {
            Some((sqs, others)) => Some((cmd, sqs, others)),
            None => None,
        },
        PathToken::AU | PathToken::AL => match get_as(s, rest) {
            Some((a, others)) => Some((cmd, a, others)),
            None => None,
        },
    }
}

/// A command is well formed when its argument groups are what its letter
/// asks for: none for close path, else at least one, each of the letter's
/// shape.
pub open spec fn well_formed(c: CommandView) -> bool {
    match c.0.shape() {
        Some(shape) => c.1.len() > 0 && forall|j: int|
            0 <= j < c.1.len() ==> (#[trigger] c.1[j]).shape() == shape,
        None => c.1.len() == 0,
    }
}

/// Every command that the grammar reads is well formed, and the place where
/// reading stops lies within the text.
pub proof fn lemma_tokens_from(t: Seq<u8>, i: int)
    requires
        0 <= i <= t.len(),
    ensures
        i <= tokens_from(t, i).1 <= t.len(),
        forall|j: int|
            0 <= j < tokens_from(t, i).0.len() ==> well_formed(#[trigger] tokens_from(t, i).0[j]),
    decreases t.len() - i,
{
    if i < t.len() {
        lemma_command_at(t, i);
        match command_at(t, i) {
            Some((c, e)) => {
                lemma_spaces_end(t, e);
                lemma_tokens_from(t, spaces_end(t, e));
            },
            None => {},
        }
    }
}

/// A command that was read is well formed and takes up at least one
/// character.
pub proof fn lemma_command_at(t: Seq<u8>, i: int)
    requires
        0 <= i <= t.len(),
    ensures
        command_at(t, i) matches Some((c, e)) ==> well_formed(c) && i < e <= t.len(),
{
    lemma_spaces_end(t, i);
    match letter_at(t, i) {
        Some((token, a)) => match token.shape() {
            Some(shape) => {
                lemma_groups_at(shape, t, a);
            },
            None => {},
        },
        None => {},
    }
}

/// An empty text holds no command, and nothing of it is left over.
pub proof fn lemma_tokenized_empty()
    ensures
        tokenized(Seq::empty()) == (Seq::<CommandView>::empty(), 0int),
{
    assert(commas_to_spaces(Seq::empty()).len() == 0);
}

/// Where the first thing in the text is no command letter, no command is
/// read and the whole text is left over.
pub proof fn lemma_tokenized_unrecognized(s: Seq<u8>)
    requires
        letter_at(commas_to_spaces(s), 0) is None,
    ensures
        tokenized(s) == (Seq::<CommandView>::empty(), 0int),
{
}

/// What the tokenizer hands back: the commands it read, in the order of the
/// text, and the position in the text at which it stopped. The text from
/// there on was not consumed; the position is the length of the text exactly
/// when all of it was read.
#[derive(Debug, PartialEq, Eq)]
pub struct Tokenized {
    pub tokens: Vec<Command>,
    pub rest: usize,
}

/// Splits path data into commands. Reading stops without an error at the
/// first place where no command can be read; the commands before that place
/// are the result.
pub fn tokenize(si: &str) -> (r: Tokenized)
    ensures
        commands_view(r.tokens@) == tokenized(si.spec_bytes()).0,
        r.rest == tokenized(si.spec_bytes()).1,
        r.rest <= si.spec_bytes().len(),
        forall|j: int|
            0 <= j < r.tokens@.len() ==> well_formed(#[trigger] commands_view(r.tokens@)[j]),
{
    let s = switch_commas_with_spaces(si.as_bytes());
    let mut v: Vec<Command> = Vec::new();
    let mut pos: usize = 0;
    proof {
        assert(commands_view(v@) =~= Seq::empty());
        lemma_tokens_from(s@, 0);
    }
    while pos < s.len()
        invariant
            pos <= s@.len(),
            s@ == commas_to_spaces(si.spec_bytes()),
            commands_view(v@) + tokens_from(s@, pos as int).0 == tokens_from(s@, 0).0,
            tokens_from(s@, pos as int).1 == tokens_from(s@, 0).1,
            forall|j: int|
                0 <= j < tokens_from(s@, 0).0.len() ==> well_formed(
                    #[trigger] tokens_from(s@, 0).0[j],
                ),
        decreases s@.len() - pos,
    {
        proof {
            lemma_command_at(s@, pos as int);
        }
        match get_cmd_with_params(s.as_slice(), pos) {
            None => {
                proof {
                    assert(commands_view(v@) + Seq::empty() =~= commands_view(v@));
                }
                return Tokenized { tokens: v, rest: pos };
            },
            Some((token, params, nexts)) => {
                let next = trim_left(s.as_slice(), nexts);
                proof {
                    let c = (token, params_view(params@));
                    let tail = tokens_from(s@, next as int).0;
                    assert(commands_view(v@.push((token, params))) =~= commands_view(v@).push(c));
                    assert(commands_view(v@).push(c) + tail =~= commands_view(v@) + (seq![c]
                        + tail));
                }
                v.push((token, params));
                pos = next;
            },
        }
    }
    proof {
        assert(commands_view(v@) + Seq::empty() =~= commands_view(v@));
    }
    Tokenized { tokens: v, rest: pos }
}

} // verus!
