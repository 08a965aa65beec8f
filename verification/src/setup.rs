//! Setting a game up: the pieces that every player gets, where they lie in
//! the tray, and the boards of the three kinds of game.

use vstd::prelude::*;
use crate::board::walled_cells;
use crate::board::Board;
use crate::board::BoardView;
use crate::components::Player;
use crate::components::PlayerView;
use crate::components::Polynomio;
use crate::components::PolynomioView;
use crate::components::Position;
use crate::events::Event;
use crate::geometry::Point;
use crate::geometry::Rgb;
use crate::polynomio_indexing_system::named_once;
use crate::state::player_ok;
use crate::state::tiles;
use crate::state::Mode;
use crate::state::State;
use crate::state::StateView;

verus! {

/// How far below a player's panel its tray begins.
pub const YOFF: i32 = 2;

/// The offset `(x, y)`.
pub open spec fn pt(x: int, y: int) -> Point {
    Point { x: x as i32, y: y as i32 }
}

/// The shapes of the full set of pieces, by their number.
pub open spec fn shape_of(j: int) -> Seq<Point> {
    if j == 0 {
        seq![
            pt(0, -2),
            pt(0, -1),
            pt(0, 0),
            pt(0, 1),
            pt(0, 2),
        ]
    } else if j == 1 {
        seq![
            pt(0, -2),
            pt(0, -1),
            pt(0, 0),
            pt(0, 1),
            pt(1, -2),
        ]
    } else if j == 2 {
        seq![
            pt(0, -2),
            pt(0, -1),
            pt(0, 0),
            pt(0, 1),
            pt(1, -1),
        ]
    } else if j == 3 {
        seq![
            pt(1, -2),
            pt(0, -1),
            pt(0, 0),
            pt(0, 1),
            pt(1, -1),
        ]
    } else if j == 4 {
        seq![
            pt(-1, -1),
            pt(0, -1),
            pt(1, -1),
            pt(-1, 0),
            pt(-1, 1),
        ]
    } else if j == 5 {
        seq![
            pt(-1, 1),
            pt(-1, 0),
            pt(0, 0),
            pt(1, 0),
            pt(1, -1),
        ]
    } else if j == 6 {
        seq![
            pt(-1, 1),
            pt(-1, 0),
            pt(0, 0),
            pt(0, -1),
            pt(1, -1),
        ]
    } else if j == 7 {
        seq![
            pt(-1, 0),
            pt(0, -1),
            pt(0, 0),
            pt(1, 0),
            pt(0, 1),
        ]
    } else if j == 8 {
        seq![
            pt(0, -1),
            pt(0, 0),
            pt(0, 1),
            pt(1, -1),
            pt(1, 1),
        ]
    } else if j == 9 {
        seq![
            pt(0, 0),
            pt(0, -1),
            pt(0, 1),
            pt(-1, 1),
            pt(1, 1),
        ]
    } else if j == 10 {
        seq![
            pt(0, 0),
            pt(0, 1),
            pt(0, -1),
            pt(1, 0),
            pt(1, 1),
        ]
    } else if j == 11 {
        seq![
            pt(0, 0),
            pt(-1, 0),
            pt(0, -1),
            pt(0, 1),
            pt(1, -1),
        ]
    } else if j == 12 {
        seq![
            pt(0, 0),
            pt(-1, 0),
            pt(-1, -1),
            pt(0, 1),
        ]
    } else if j == 13 {
        seq![
            pt(0, 0),
            pt(0, -1),
            pt(0, 1),
            pt(1, -1),
        ]
    } else if j == 14 {
        seq![
            pt(0, 0),
            pt(0, -1),
            pt(0, 1),
            pt(1, 0),
        ]
    } else if j == 15 {
        seq![
            pt(0, -1),
            pt(0, 0),
            pt(0, 1),
            pt(0, 2),
        ]
    } else if j == 16 {
        seq![
            pt(0, 0),
            pt(1, 0),
            pt(0, 1),
            pt(1, 1),
        ]
    } else if j == 17 {
        seq![
            pt(0, -1),
            pt(0, 0),
            pt(0, 1),
        ]
    } else if j == 18 {
        seq![
            pt(-1, 0),
            pt(0, 0),
            pt(0, 1),
        ]
    } else if j == 19 {
        seq![
            pt(0, 0),
            pt(0, 1),
        ]
    } else {
        seq![
            pt(0, 0),
        ]
    }
}

/// Where in the tray the piece `j` of the full set lies, counted from the
/// player's panel.
pub open spec fn place_of(j: int) -> (int, int) {
    if j == 0 {
        (0, 4)
    } else if j == 1 {
        (2, 4)
    } else if j == 2 {
        (5, 4)
    } else if j == 3 {
        (8, 4)
    } else if j == 4 {
        (12, 4)
    } else if j == 5 {
        (16, 4)
    } else if j == 6 {
        (20, 4)
    } else if j == 7 {
        (24, 4)
    } else if j == 8 {
        (27, 4)
    } else if j == 9 {
        (31, 4)
    } else if j == 10 {
        (34, 4)
    } else if j == 11 {
        (38, 4)
    } else if j == 12 {
        (42, 4)
    } else if j == 13 {
        (44, 4)
    } else if j == 14 {
        (47, 4)
    } else if j == 15 {
        (50, 3)
    } else if j == 16 {
        (52, 3)
    } else if j == 17 {
        (55, 4)
    } else if j == 18 {
        (58, 3)
    } else if j == 19 {
        (60, 4)
    } else {
        (62, 4)
    }
}

/// The number of pieces of a set: 21 in the full set, 2 in the small one.
pub open spec fn kit_len(small: bool) -> int {
    if small {
        2
    } else {
        21
    }
}

/// The piece `j` of a set: the number of its shape, and where it lies in the
/// tray. The small set has the second and the last piece of the full set.
pub open spec fn kit_entry(small: bool, j: int) -> (int, int, int) {
    if small {
        if j == 0 {
            (1, 2, 4)
        } else {
            (20, 5, 4)
        }
    } else {
        (j, place_of(j).0, place_of(j).1)
    }
}

/// The colour of the shadow that a piece leaves in the tray: a fifth of the
/// piece's colour.
pub open spec fn dimmed(color: Rgb) -> Rgb {
    Rgb { r: color.r / 5, g: color.g / 5, b: color.b / 5 }
}

/// The piece with the number `m` among those dealt to a player: each piece of
/// the set comes twice, first as a shadow, then as the piece to play with.
pub open spec fn dealt_piece(small: bool, color: Rgb, m: int) -> PolynomioView {
    PolynomioView {
        coods: shape_of(kit_entry(small, m / 2).0),
        orig_coods: shape_of(kit_entry(small, m / 2).0),
        color: if m % 2 == 0 {
            dimmed(color)
        } else {
            color
        },
        fixed: false,
        bg: m % 2 == 0,
    }
}

/// Where the piece with the number `m` among those dealt to the player at
/// `(x, y)` lies.
pub open spec fn dealt_position(small: bool, x: int, y: int, m: int) -> Position {
    Position {
        x: (x + kit_entry(small, m / 2).1) as i32,
        y: (y + kit_entry(small, m / 2).2) as i32,
        orig_x: (x + kit_entry(small, m / 2).1) as i32,
        orig_y: (y + kit_entry(small, m / 2).2) as i32,
    }
}

/// The pieces dealt to a player.
pub open spec fn dealt_pieces(small: bool, color: Rgb) -> Seq<PolynomioView> {
    Seq::new((2 * kit_len(small)) as nat, |m: int| dealt_piece(small, color, m))
}

/// Where the pieces dealt to the player at `(x, y)` lie.
pub open spec fn dealt_positions(small: bool, x: int, y: int) -> Seq<Position> {
    Seq::new((2 * kit_len(small)) as nat, |m: int| dealt_position(small, x, y, m))
}

/// The player with the id `id` and the panel at `(x, y)` whose pieces were dealt
/// behind the first `base` pieces of the game: its tray holds the pieces to play
/// with, none of them laid.
pub open spec fn dealt_player(small: bool, id: i32, x: int, y: int, color: Rgb, base: int) -> PlayerView {
    PlayerView {
        id,
        name: None,
        polynomios: Seq::new(kit_len(small) as nat, |j: int| (base + 2 * j + 1) as usize),
        select: 0,
        fixed: Seq::new(kit_len(small) as nat, |j: int| false),
        color,
        end: false,
        rank: 0,
        remaining_tiles: 0,
        position: Position { x: x as i32, y: y as i32, orig_x: x as i32, orig_y: y as i32 },
    }
}

/// The kind of game that a name stands for.
#[derive(Clone, Copy, Debug, PartialEq, Eq, Structural)]
pub enum GameKind {
    /// Four players on a board of 22 by 22.
    Normal,
    /// Two players on a board of 16 by 16.
    Duo,
    /// Two players with two pieces each on a board of 7 by 7.
    Debug,
}

impl GameKind {
    /// The small set of pieces is dealt.
    pub open spec fn small(self) -> bool {
        self == GameKind::Debug
    }

    /// The number of players.
    pub open spec fn seats(self) -> int {
        if self == GameKind::Normal {
            4
        } else {
            2
        }
    }

    /// Where the panel of the player at `seat` stands, and the player's colour.
    pub open spec fn seat(self, seat: int) -> (int, int, Rgb) {
        match self {
            GameKind::Normal => if seat == 0 {
                (5, 2, Rgb { r: 255, g: 64, b: 51 })
            } else if seat == 1 {
                (5, 10, Rgb { r: 51, g: 255, b: 51 })
            } else if seat == 2 {
                (5, 44, Rgb { r: 255, g: 230, b: 51 })
            } else {
                (5, 52, Rgb { r: 51, g: 179, b: 255 })
            },
            GameKind::Duo => if seat == 0 {
                (5, 7, Rgb { r: 255, g: 64, b: 51 })
            } else {
                (5, 47, Rgb { r: 255, g: 230, b: 51 })
            },
            GameKind::Debug => if seat == 0 {
                (5, 2, Rgb { r: 255, g: 64, b: 51 })
            } else {
                (5, 44, Rgb { r: 255, g: 230, b: 51 })
            },
        }
    }

    /// The cell where the first piece of the player at `seat` may lie: the corners
    /// inside the wall in a game of four, fixed cells in a game of two.
    pub open spec fn start(self, seat: int) -> Point {
        match self {
            GameKind::Normal => if seat == 0 {
                pt(1, 1)
            } else if seat == 1 {
                pt(20, 1)
            } else if seat == 2 {
                pt(20, 20)
            } else {
                pt(1, 20)
            },
            GameKind::Duo => if seat == 0 {
                pt(5, 5)
            } else {
                pt(10, 10)
            },
            GameKind::Debug => if seat == 0 {
                pt(1, 1)
            } else {
                pt(5, 5)
            },
        }
    }

    /// The corner of the board on the screen, and its width and height.
    pub open spec fn frame(self) -> (i32, i32, usize, usize) {
        match self {
            GameKind::Normal => (27, 20, 22, 22),
            GameKind::Duo => (30, 23, 16, 16),
            GameKind::Debug => (27, 20, 7, 7),
        }
    }

    /// The board at the start of a game: walled, empty inside, with every
    /// player's colour and start cell.
    pub open spec fn board(self) -> BoardView {
        BoardView {
            cells: walled_cells(self.frame().2 as int, self.frame().3 as int),
            x: self.frame().0,
            y: self.frame().1,
            width: self.frame().2,
            height: self.frame().3,
            colors: Map::new(|id: i32| 0 <= id < self.seats(), |id: i32| self.seat(id as int).2),
            starts: Map::new(|id: i32| 0 <= id < self.seats(), |id: i32| self.start(id as int)),
        }
    }

    /// The game at its start: every player has its set of pieces in the tray, the
    /// first seat has the turn, and the game waits in `Initialize`.
    pub open spec fn game(self, my_player_id: i32, use_local_input: bool) -> StateView {
        let k = 2 * kit_len(self.small());
        StateView {
            map: self.board(),
            players: Seq::new(
                self.seats() as nat,
                |i: int|
                    dealt_player(
                        self.small(),
                        i as i32,
                        self.seat(i).0,
                        self.seat(i).1,
                        self.seat(i).2,
                        i * k,
                    ),
            ),
            polynomios: Seq::new(
                (self.seats() * k) as nat,
                |q: int| dealt_piece(self.small(), self.seat(q / k).2, q % k),
            ),
            positions: Seq::new(
                (self.seats() * k) as nat,
                |q: int| dealt_position(self.small(), self.seat(q / k).0, self.seat(q / k).1, q % k),
            ),
            active_player_id: 0,
            mode: Mode::Initialize,
            winner: 0,
            my_player_id,
            use_local_input,
            event_history: Seq::<Event>::empty(),
            pending_broadcast: false,
        }
    }
}

/// The kind of game that the name `name` stands for.
pub open spec fn kind_named(name: Seq<char>) -> Option<GameKind> {
    if name == "normal"@ {
        Some(GameKind::Normal)
    } else if name == "duo"@ {
        Some(GameKind::Duo)
    } else if name == "debug"@ {
        Some(GameKind::Debug)
    } else {
        None
    }
}

/// Whether two strings hold the same characters.
fn str_eq(a: &str, b: &str) -> (r: bool)
    ensures
        r == (a@ == b@),
{
    let a = a.to_owned();
    let b = b.to_owned();
    a == b
}

/// The kind of game that the name stands for: `normal`, `duo` or `debug`.
pub fn game_kind(name: &str) -> (kind: Option<GameKind>)
    ensures
        kind == kind_named(name@),
{
    if str_eq(name, "normal") {
        Some(GameKind::Normal)
    } else if str_eq(name, "duo") {
        Some(GameKind::Duo)
    } else if str_eq(name, "debug") {
        Some(GameKind::Debug)
    } else {
        None
    }
}

/// Every shape has one to five cells, none of them more than two steps from the
/// middle.
pub proof fn lemma_shape_small(j: int)
    ensures
        1 <= shape_of(j).len() <= 5,
        forall|i: int|
            0 <= i < shape_of(j).len() ==> -2 <= (#[trigger] shape_of(j)[i]).x <= 2 && -2
                <= shape_of(j)[i].y <= 2,
{
}

/// The shape `j` of the full set.
fn shape(j: usize) -> (v: Vec<Point>)
    ensures
        v@ == shape_of(j as int),
        1 <= v@.len() <= 5,
        forall|i: int| 0 <= i < v@.len() ==> -2 <= (#[trigger] v@[i]).x <= 2 && -2 <= v@[i].y <= 2,
{
    let v = match j {
        0 => vec![Point { x: 0, y: -2 }, Point { x: 0, y: -1 }, Point { x: 0, y: 0 }, Point { x: 0, y: 1 }, Point { x: 0, y: 2 }],
        1 => vec![Point { x: 0, y: -2 }, Point { x: 0, y: -1 }, Point { x: 0, y: 0 }, Point { x: 0, y: 1 }, Point { x: 1, y: -2 }],
        2 => vec![Point { x: 0, y: -2 }, Point { x: 0, y: -1 }, Point { x: 0, y: 0 }, Point { x: 0, y: 1 }, Point { x: 1, y: -1 }],
        3 => vec![Point { x: 1, y: -2 }, Point { x: 0, y: -1 }, Point { x: 0, y: 0 }, Point { x: 0, y: 1 }, Point { x: 1, y: -1 }],
        4 => vec![Point { x: -1, y: -1 }, Point { x: 0, y: -1 }, Point { x: 1, y: -1 }, Point { x: -1, y: 0 }, Point { x: -1, y: 1 }],
        5 => vec![Point { x: -1, y: 1 }, Point { x: -1, y: 0 }, Point { x: 0, y: 0 }, Point { x: 1, y: 0 }, Point { x: 1, y: -1 }],
        6 => vec![Point { x: -1, y: 1 }, Point { x: -1, y: 0 }, Point { x: 0, y: 0 }, Point { x: 0, y: -1 }, Point { x: 1, y: -1 }],
        7 => vec![Point { x: -1, y: 0 }, Point { x: 0, y: -1 }, Point { x: 0, y: 0 }, Point { x: 1, y: 0 }, Point { x: 0, y: 1 }],
        8 => vec![Point { x: 0, y: -1 }, Point { x: 0, y: 0 }, Point { x: 0, y: 1 }, Point { x: 1, y: -1 }, Point { x: 1, y: 1 }],
        9 => vec![Point { x: 0, y: 0 }, Point { x: 0, y: -1 }, Point { x: 0, y: 1 }, Point { x: -1, y: 1 }, Point { x: 1, y: 1 }],
        10 => vec![Point { x: 0, y: 0 }, Point { x: 0, y: 1 }, Point { x: 0, y: -1 }, Point { x: 1, y: 0 }, Point { x: 1, y: 1 }],
        11 => vec![Point { x: 0, y: 0 }, Point { x: -1, y: 0 }, Point { x: 0, y: -1 }, Point { x: 0, y: 1 }, Point { x: 1, y: -1 }],
        12 => vec![Point { x: 0, y: 0 }, Point { x: -1, y: 0 }, Point { x: -1, y: -1 }, Point { x: 0, y: 1 }],
        13 => vec![Point { x: 0, y: 0 }, Point { x: 0, y: -1 }, Point { x: 0, y: 1 }, Point { x: 1, y: -1 }],
        14 => vec![Point { x: 0, y: 0 }, Point { x: 0, y: -1 }, Point { x: 0, y: 1 }, Point { x: 1, y: 0 }],
        15 => vec![Point { x: 0, y: -1 }, Point { x: 0, y: 0 }, Point { x: 0, y: 1 }, Point { x: 0, y: 2 }],
        16 => vec![Point { x: 0, y: 0 }, Point { x: 1, y: 0 }, Point { x: 0, y: 1 }, Point { x: 1, y: 1 }],
        17 => vec![Point { x: 0, y: -1 }, Point { x: 0, y: 0 }, Point { x: 0, y: 1 }],
        18 => vec![Point { x: -1, y: 0 }, Point { x: 0, y: 0 }, Point { x: 0, y: 1 }],
        19 => vec![Point { x: 0, y: 0 }, Point { x: 0, y: 1 }],
        _ => vec![Point { x: 0, y: 0 }],
    };
    assert(v@ =~= shape_of(j as int));
    v
}

/// The piece `j` of a set.
fn kit(small: bool, j: usize) -> (e: (usize, i32, i32))
    ensures
        (e.0 as int, e.1 as int, e.2 as int) == kit_entry(small, j as int),
        0 <= e.1 <= 62,
        3 <= e.2 <= 4,
{
    if small {
        if j == 0 {
            (1, 2, 4)
        } else {
            (20, 5, 4)
        }
    } else {
        match j {
            0 => (0, 0, 4),
            1 => (1, 2, 4),
            2 => (2, 5, 4),
            3 => (3, 8, 4),
            4 => (4, 12, 4),
            5 => (5, 16, 4),
            6 => (6, 20, 4),
            7 => (7, 24, 4),
            8 => (8, 27, 4),
            9 => (9, 31, 4),
            10 => (10, 34, 4),
            11 => (11, 38, 4),
            12 => (12, 42, 4),
            13 => (13, 44, 4),
            14 => (14, 47, 4),
            15 => (15, 50, 3),
            16 => (16, 52, 3),
            17 => (17, 55, 4),
            18 => (18, 58, 3),
            19 => (19, 60, 4),
            _ => (j, 62, 4),
        }
    }
}

/// A fifth of a colour.
fn dim(color: Rgb) -> (c: Rgb)
    ensures
        c == dimmed(color),
{
    Rgb { r: color.r / 5, g: color.g / 5, b: color.b / 5 }
}

/// The number of cells of a tray none of whose pieces has more than five.
proof fn lemma_tiles_of_small_pieces(tray: Seq<usize>, pieces: Seq<PolynomioView>, n: int)
    requires
        0 <= n <= tray.len(),
        forall|k: int|
            0 <= k < n ==> (#[trigger] tray[k]) < pieces.len() && pieces[tray[k] as int].coods.len()
                <= 5,
    ensures
        0 <= tiles(tray, pieces, n) <= 5 * n,
    decreases n,
{
    if n > 0 {
        lemma_tiles_of_small_pieces(tray, pieces, n - 1);
        assert(tray[n - 1] < pieces.len());
    }
}

impl State {
    /// Adds a piece of the shape `coods` at `(x, y)` to the game, and before it
    /// its shadow. Gives the index of the piece.
    fn prepare_polynomio(&mut self, x: i32, y: i32, coods: Vec<Point>, color: Rgb) -> (piece: usize)
        requires
            old(self).polynomios.len() == old(self).positions.len(),
            old(self).polynomios.len() < 100000,
        ensures
            piece == old(self).polynomios.len() + 1,
            final(self).polynomios.len() == old(self).polynomios.len() + 2,
            final(self).positions.len() == old(self).positions.len() + 2,
            final(self)@ == (StateView {
                polynomios: old(self)@.polynomios.push(
                    PolynomioView {
                        coods: coods@,
                        orig_coods: coods@,
                        color: dimmed(color),
                        fixed: false,
                        bg: true,
                    },
                ).push(
                    PolynomioView { coods: coods@, orig_coods: coods@, color, fixed: false, bg: false },
                ),
                positions: old(self)@.positions.push(
                    Position { x, y, orig_x: x, orig_y: y },
                ).push(Position { x, y, orig_x: x, orig_y: y }),
                ..old(self)@
            }),
    {
        let shadow = Polynomio::new(coods.clone(), dim(color), true);
        let piece = Polynomio::new(coods, color, false);
        self.positions.push(Position::new(x, y));
        self.polynomios.push(shadow);
        self.positions.push(Position::new(x, y));
        self.polynomios.push(piece);
        proof {
            let want = old(self)@.polynomios.push(
                PolynomioView {
                    coods: coods@,
                    orig_coods: coods@,
                    color: dimmed(color),
                    fixed: false,
                    bg: true,
                },
            ).push(
                PolynomioView { coods: coods@, orig_coods: coods@, color, fixed: false, bg: false },
            );
            assert(self@.polynomios =~= want);
        }
        self.polynomios.len() - 1
    }

    /// Deals a set of pieces to a new player with the panel at `(x, y)`, and
    /// gives the player.
    fn prepare_player(&mut self, id: i32, x: i32, y: i32, color: Rgb, small: bool) -> (player: Player)
        requires
            old(self).polynomios.len() == old(self).positions.len(),
            old(self).polynomios.len() < 1000,
            0 <= x <= 1000,
            0 <= y <= 1000,
        ensures
            final(self)@ == (StateView {
                polynomios: old(self)@.polynomios + dealt_pieces(small, color),
                positions: old(self)@.positions + dealt_positions(small, x as int, y as int),
                ..old(self)@
            }),
            player@ == dealt_player(
                small,
                id,
                x as int,
                y as int,
                color,
                old(self).polynomios.len() as int,
            ),
    {
        let n: usize = if small { 2 } else { 21 };
        let ghost base = self.polynomios.len() as int;
        let mut ps: Vec<usize> = Vec::new();
        let mut j: usize = 0;
        while j < n
            invariant
                j <= n,
                n == kit_len(small),
                base == old(self).polynomios.len(),
                base == old(self).positions.len(),
                base == old(self)@.polynomios.len(),
                base < 1000,
                0 <= x <= 1000,
                0 <= y <= 1000,
                self.polynomios.len() == base + 2 * j,
                self.positions.len() == base + 2 * j,
                self@.polynomios.len() == base + 2 * j,
                ps.len() == j,
                forall|i: int| 0 <= i < j ==> #[trigger] ps[i] == base + 2 * i + 1,
                self@ == (StateView {
                    polynomios: self@.polynomios,
                    positions: self@.positions,
                    ..old(self)@
                }),
                forall|m: int| 0 <= m < base ==> #[trigger] self@.polynomios[m] == old(self)@.polynomios[m],
                forall|m: int| 0 <= m < base ==> #[trigger] self@.positions[m] == old(self)@.positions[m],
                forall|m: int|
                    0 <= m < 2 * j ==> #[trigger] self@.polynomios[base + m] == dealt_piece(
                        small,
                        color,
                        m,
                    ),
                forall|m: int|
                    0 <= m < 2 * j ==> #[trigger] self@.positions[base + m] == dealt_position(
                        small,
                        x as int,
                        y as int,
                        m,
                    ),
            decreases n - j,
        {
            let e = kit(small, j);
            let coods = shape(e.0);
            let ghost before = self@;
            let piece = self.prepare_polynomio(x + e.1, y + e.2, coods, color);
            ps.push(piece);
            proof {
                assert forall|m: int| 0 <= m < 2 * (j + 1) implies #[trigger] self@.polynomios[base
                    + m] == dealt_piece(small, color, m) by {
                    if m < 2 * j {
                        assert(self@.polynomios[base + m] == before.polynomios[base + m]);
                    }
                }
                assert forall|m: int| 0 <= m < 2 * (j + 1) implies #[trigger] self@.positions[base
                    + m] == dealt_position(small, x as int, y as int, m) by {
                    if m < 2 * j {
                        assert(self@.positions[base + m] == before.positions[base + m]);
                    }
                }
                assert forall|m: int| 0 <= m < base implies #[trigger] self@.polynomios[m] == old(self)@.polynomios[m] by {
                    assert(self@.polynomios[m] == before.polynomios[m]);
                }
                assert forall|m: int| 0 <= m < base implies #[trigger] self@.positions[m] == old(self)@.positions[m] by {
                    assert(self@.positions[m] == before.positions[m]);
                }
            }
            j += 1;
        }
        let mut player = Player::new(id, ps, color, None);
        player.position = Position::new(x, y);
        proof {
            let pieces = old(self)@.polynomios + dealt_pieces(small, color);
            let places = old(self)@.positions + dealt_positions(small, x as int, y as int);
            assert forall|i: int| 0 <= i < pieces.len() implies self@.polynomios[i] == pieces[i] by {
                if i >= base {
                    assert(self@.polynomios[base + (i - base)] == dealt_piece(small, color, i - base));
                }
            }
            assert forall|i: int| 0 <= i < places.len() implies self@.positions[i] == places[i] by {
                if i >= base {
                    assert(self@.positions[base + (i - base)] == dealt_position(
                        small,
                        x as int,
                        y as int,
                        i - base,
                    ));
                }
            }
            assert(self@.polynomios =~= old(self)@.polynomios + dealt_pieces(small, color));
            assert(self@.positions =~= old(self)@.positions + dealt_positions(
                small,
                x as int,
                y as int,
            ));
            assert(player@.polynomios =~= dealt_player(
                small,
                id,
                x as int,
                y as int,
                color,
                base,
            ).polynomios);
        }
        player
    }
}

/// A game at its start is consistent.
pub proof fn lemma_game_wf(kind: GameKind, my_player_id: i32, use_local_input: bool)
    ensures
        kind.game(my_player_id, use_local_input).wf(),
{
    let g = kind.game(my_player_id, use_local_input);
    let small = kind.small();
    let k = 2 * kit_len(small);
    assert(g.map.wf());
    assert forall|q: int| 0 <= q < g.polynomios.len() implies (#[trigger] g.polynomios[q]).wf() by {
        lemma_shape_small(kit_entry(small, (q % k) / 2).0);
    }
    assert forall|i: int| 0 <= i < g.players.len() implies #[trigger] player_ok(
        g.players,
        g.polynomios,
        i,
    ) by {
        let p = g.players[i];
        assert forall|j: int| 0 <= j < p.polynomios.len() implies (#[trigger] p.polynomios[j])
            < g.polynomios.len() && g.polynomios[p.polynomios[j] as int].coods.len() <= 5 by {
            let q = i * k + 2 * j + 1;
            assert(p.polynomios[j] == q);
            lemma_shape_small(kit_entry(small, (q % k) / 2).0);
        }
        lemma_tiles_of_small_pieces(p.polynomios, g.polynomios, p.polynomios.len() as int);
    }
}

/// In a game at its start no piece is named twice: every tray has its own
/// pieces.
pub proof fn lemma_game_named_once(kind: GameKind, my_player_id: i32, use_local_input: bool)
    ensures
        named_once(kind.game(my_player_id, use_local_input).players),
{
    let players = kind.game(my_player_id, use_local_input).players;
    let n = kit_len(kind.small());
    assert forall|p: int, k: int, q: int, l: int|
        0 <= p < players.len() && 0 <= k < players[p].polynomios.len() && 0 <= q < players.len()
            && 0 <= l < players[q].polynomios.len() && (p != q || k != l) implies #[trigger] players[p].polynomios[k]
        != #[trigger] players[q].polynomios[l] by {
        assert(players[p].polynomios[k] == p * (2 * n) + 2 * k + 1);
        assert(players[q].polynomios[l] == q * (2 * n) + 2 * l + 1);
    }
}

impl State {
    /// Where the panels of the players of a game of `kind` stand, and the
    /// players' colours.
    fn seat_table(kind: GameKind) -> (t: Vec<(i32, i32, Rgb)>)
        ensures
            t.len() == kind.seats(),
            forall|i: int|
                0 <= i < t.len() ==> ((#[trigger] t[i]).0 as int, t[i].1 as int, t[i].2)
                    == kind.seat(i),
    {
        let red = Rgb::new(255, 64, 51);
        let green = Rgb::new(51, 255, 51);
        let yellow = Rgb::new(255, 230, 51);
        let blue = Rgb::new(51, 179, 255);
        match kind {
            GameKind::Normal => vec![(5, 2, red), (5, 10, green), (5, 44, yellow), (5, 52, blue)],
            GameKind::Duo => vec![(5, 7, red), (5, 47, yellow)],
            GameKind::Debug => vec![(5, 2, red), (5, 44, yellow)],
        }
    }

    /// Deals to every player of a game of `kind` its set of pieces.
    fn prepare_players(&mut self, kind: GameKind)
        requires
            old(self).players.len() == 0,
            old(self).polynomios.len() == 0,
            old(self).positions.len() == 0,
        ensures
            final(self)@ == (StateView {
                players: kind.game(0, false).players,
                polynomios: kind.game(0, false).polynomios,
                positions: kind.game(0, false).positions,
                ..old(self)@
            }),
            final(self).players.len() == kind.seats(),
    {
        let small = match kind {
            GameKind::Debug => true,
            _ => false,
        };
        let table = Self::seat_table(kind);
        let ghost k = 2 * kit_len(small);
        let ghost want = kind.game(0, false);
        let n = table.len();
        let ghost mut base: int = 0;
        let mut i: usize = 0;
        proof {
            assert(0 * k == 0) by (nonlinear_arith);
        }
        while i < n
            invariant
                i <= n,
                n == kind.seats(),
                n == table.len(),
                base == i * k,
                0 <= base <= 42 * i,
                0 < k <= 42,
                small == kind.small(),
                k == 2 * kit_len(small),
                want == kind.game(0, false),
                forall|i: int|
                    0 <= i < table.len() ==> ((#[trigger] table[i]).0 as int, table[i].1 as int, table[i].2)
                        == kind.seat(i),
                self.players.len() == i,
                self.polynomios.len() == base,
                self.positions.len() == base,
                self@ == (StateView {
                    players: self@.players,
                    polynomios: self@.polynomios,
                    positions: self@.positions,
                    ..old(self)@
                }),
                self@.players.len() == i,
                self@.polynomios.len() == base,
                self@.positions.len() == base,
                forall|j: int| 0 <= j < i ==> #[trigger] self@.players[j] == want.players[j],
                forall|q: int| 0 <= q < base ==> #[trigger] self@.polynomios[q] == want.polynomios[q],
                forall|q: int| 0 <= q < base ==> #[trigger] self@.positions[q] == want.positions[q],
            decreases n - i,
        {
            let seat = table[i];
            let ghost before = self@;
            proof {
                assert((i + 1) * k == i * k + k) by (nonlinear_arith);
            }
            assert((seat.0 as int, seat.1 as int, seat.2) == kind.seat(i as int));
            let player = self.prepare_player(i as i32, seat.0, seat.1, seat.2, small);
            let ghost dealt = self@;
            self.players.push(player);
            proof {
                assert(self@.players =~= before.players.push(player@));
                assert(self@.polynomios == dealt.polynomios);
                assert(self@.positions == dealt.positions);
                assert forall|q: int| 0 <= q < base + k implies #[trigger] self@.polynomios[q]
                    == want.polynomios[q] by {
                    if q >= base {
                        vstd::arithmetic::div_mod::lemma_fundamental_div_mod_converse(
                            q,
                            k,
                            i as int,
                            q - base,
                        );
                        assert(dealt.polynomios[base + (q - base)] == dealt_pieces(
                            small,
                            seat.2,
                        )[q - base]);
                        assert(dealt.positions[base + (q - base)] == dealt_positions(
                            small,
                            seat.0 as int,
                            seat.1 as int,
                        )[q - base]);
                    } else {
                        assert(dealt.polynomios[q] == before.polynomios[q]);
                        assert(dealt.positions[q] == before.positions[q]);
                    }
                }
                assert forall|q: int| 0 <= q < base + k implies #[trigger] self@.positions[q]
                    == want.positions[q] by {
                    if q >= base {
                        vstd::arithmetic::div_mod::lemma_fundamental_div_mod_converse(
                            q,
                            k,
                            i as int,
                            q - base,
                        );
                        assert(dealt.polynomios[base + (q - base)] == dealt_pieces(
                            small,
                            seat.2,
                        )[q - base]);
                        assert(dealt.positions[base + (q - base)] == dealt_positions(
                            small,
                            seat.0 as int,
                            seat.1 as int,
                        )[q - base]);
                    } else {
                        assert(dealt.polynomios[q] == before.polynomios[q]);
                        assert(dealt.positions[q] == before.positions[q]);
                    }
                }
                assert forall|j: int| 0 <= j < i + 1 implies #[trigger] self@.players[j]
                    == want.players[j] by {}
            }
            proof {
                base = base + k;
            }
            i += 1;
        }
        proof {
            assert(self@.players =~= want.players);
            assert(self@.polynomios =~= want.polynomios);
            assert(self@.positions =~= want.positions);
        }
    }

    /// Sets up a game of four: a board of 22 by 22 with a start cell in every
    /// corner.
    fn prepare_4players_game(&mut self)
        requires
            old(self).players.len() == 0,
            old(self).polynomios.len() == 0,
            old(self).positions.len() == 0,
        ensures
            final(self)@ == GameKind::Normal.game(old(self).my_player_id, old(self).use_local_input),
    {
        self.prepare_players(GameKind::Normal);
        let mut map = Board::new(27, 20, 22, 22);
        proof {
            assert(self@.players[0] == self.players[0]@);
            assert(self@.players[1] == self.players[1]@);
            assert(self@.players[2] == self.players[2]@);
            assert(self@.players[3] == self.players[3]@);
        }
        map.bind_left_top(&self.players[0]);
        map.bind_right_top(&self.players[1]);
        map.bind_right_bottom(&self.players[2]);
        map.bind_left_bottom(&self.players[3]);
        proof {
            assert(map@.colors =~= GameKind::Normal.board().colors);
            assert(map@.starts =~= GameKind::Normal.board().starts);
        }
        self.map = map;
        self.active_player_id = 0;
        self.mode = Mode::Initialize;
        self.winner = 0;
        self.pending_broadcast = false;
        self.event_history = Vec::new();
    }

    /// Sets up a game of two: a board of 16 by 16 with the start cells at
    /// `(5, 5)` and `(10, 10)`.
    fn prepare_2players_game(&mut self)
        requires
            old(self).players.len() == 0,
            old(self).polynomios.len() == 0,
            old(self).positions.len() == 0,
        ensures
            final(self)@ == GameKind::Duo.game(old(self).my_player_id, old(self).use_local_input),
    {
        self.prepare_players(GameKind::Duo);
        let mut map = Board::new(30, 23, 16, 16);
        proof {
            assert(self@.players[0] == self.players[0]@);
            assert(self@.players[1] == self.players[1]@);
        }
        map.bind(&self.players[0], 5, 5);
        map.bind(&self.players[1], 10, 10);
        proof {
            assert(map@.colors =~= GameKind::Duo.board().colors);
            assert(map@.starts =~= GameKind::Duo.board().starts);
        }
        self.map = map;
        self.active_player_id = 0;
        self.mode = Mode::Initialize;
        self.winner = 0;
        self.pending_broadcast = false;
        self.event_history = Vec::new();
    }

    /// Sets up a small game of two: a board of 7 by 7 with the start cells at
    /// `(1, 1)` and `(5, 5)`, and two pieces for each player.
    fn prepare_game_small(&mut self)
        requires
            old(self).players.len() == 0,
            old(self).polynomios.len() == 0,
            old(self).positions.len() == 0,
        ensures
            final(self)@ == GameKind::Debug.game(old(self).my_player_id, old(self).use_local_input),
    {
        self.prepare_players(GameKind::Debug);
        let mut map = Board::new(27, 20, 7, 7);
        proof {
            assert(self@.players[0] == self.players[0]@);
            assert(self@.players[1] == self.players[1]@);
        }
        map.bind(&self.players[0], 1, 1);
        map.bind(&self.players[1], 5, 5);
        proof {
            assert(map@.colors =~= GameKind::Debug.board().colors);
            assert(map@.starts =~= GameKind::Debug.board().starts);
        }
        self.map = map;
        self.active_player_id = 0;
        self.mode = Mode::Initialize;
        self.winner = 0;
        self.pending_broadcast = false;
        self.event_history = Vec::new();
    }

    /// A game of the kind that `game_mode` names, at its start, as
    /// `GameKind::game` describes it. A name that stands for no kind gives a game
    /// without players on a board of one cell.
    pub fn new(game_mode: &str, my_player_id: i32, use_local_input: bool) -> (s: State)
        ensures
            s@.wf(),
            s@ == (match kind_named(game_mode@) {
                Some(kind) => kind.game(my_player_id, use_local_input),
                None => StateView::blank(my_player_id, use_local_input),
            }),
    {
        let mut state = State::empty(my_player_id);
        state.use_local_input = use_local_input;
        match game_kind(game_mode) {
            Some(GameKind::Normal) => state.prepare_4players_game(),
            Some(GameKind::Duo) => state.prepare_2players_game(),
            Some(GameKind::Debug) => state.prepare_game_small(),
            None => {},
        }
        proof {
            match kind_named(game_mode@) {
                Some(kind) => lemma_game_wf(kind, my_player_id, use_local_input),
                None => {},
            }
        }
        state
    }
}

} // verus!
