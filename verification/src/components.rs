//! The parts a game is made of: where a piece lies, its shape, and a player's
//! tray of pieces.

use vstd::prelude::*;
use crate::board::Board;
use crate::board::BoardView;
use crate::geometry::Point;
use crate::geometry::Rgb;
use crate::state::Mode;

verus! {

/// How far outside the board a piece under edit may be moved.
pub const MOVE_MARGIN: i32 = 2;

/// Where a piece lies on the screen, and where it lies when nobody has moved it.
#[derive(Clone, Copy, Debug, PartialEq, Eq, Structural)]
pub struct Position {
    pub x: i32,
    pub y: i32,
    pub orig_x: i32,
    pub orig_y: i32,
}

impl Position {
    /// The position after `reset`.
    pub open spec fn at_origin(self) -> Position {
        Position { x: self.orig_x, y: self.orig_y, orig_x: self.orig_x, orig_y: self.orig_y }
    }

    /// `(x, y)` lies on `board` or at most `MOVE_MARGIN` cells outside it.
    pub open spec fn in_reach(x: int, y: int, board: BoardView) -> bool {
        &&& board.x - MOVE_MARGIN <= x < board.x + board.width + MOVE_MARGIN
        &&& board.y - MOVE_MARGIN <= y < board.y + board.height + MOVE_MARGIN
    }

    /// The position after `translate_within`: moved by the delta if that stays in
    /// reach of the board, unmoved otherwise.
    pub open spec fn moved_within(self, delta_x: i32, delta_y: i32, board: BoardView) -> Position {
        if Self::in_reach(self.x + delta_x, self.y + delta_y, board) {
            Position { x: (self.x + delta_x) as i32, y: (self.y + delta_y) as i32, ..self }
        } else {
            self
        }
    }

    /// A position that lies where it was made.
    pub fn new(x: i32, y: i32) -> (p: Position)
        ensures
            p == (Position { x, y, orig_x: x, orig_y: y }),
    {
        Position { x: x, y: y, orig_x: x, orig_y: y }
    }

    /// Moves the position by the delta.
    pub fn translate(&mut self, delta_x: i32, delta_y: i32)
        requires
            i32::MIN <= old(self).x + delta_x <= i32::MAX,
            i32::MIN <= old(self).y + delta_y <= i32::MAX,
        ensures
            *final(self) == (Position {
                x: (old(self).x + delta_x) as i32,
                y: (old(self).y + delta_y) as i32,
                ..*old(self)
            }),
    {
        self.x += delta_x;
        self.y += delta_y;
    }

    /// Moves the position by the delta, if that leaves it on `map` or at most
    /// `MOVE_MARGIN` cells outside it.
    pub fn translate_within(&mut self, delta_x: i32, delta_y: i32, map: &Board)
        requires
            map@.wf(),
        ensures
            *final(self) == old(self).moved_within(delta_x, delta_y, map@),
    {
        let m: i64 = MOVE_MARGIN as i64;
        let nx: i64 = self.x as i64 + delta_x as i64;
        let ny: i64 = self.y as i64 + delta_y as i64;
        if nx >= map.x as i64 - m && nx < map.x as i64 + map.width as i64 + m
            && ny >= map.y as i64 - m && ny < map.y as i64 + map.height as i64 + m
        {
            self.translate(delta_x, delta_y);
        }
    }

    /// The position as a point.
    pub fn to_point(&self) -> (p: Point)
        ensures
            p == (Point { x: self.x, y: self.y }),
    {
        return Point::new(self.x, self.y);
    }

    /// Puts the position back to where it was made.
    pub fn reset(&mut self)
        ensures
            *final(self) == old(self).at_origin(),
    {
        self.x = self.orig_x;
        self.y = self.orig_y;
    }
}

/// A piece: the cells it covers, as offsets from its position.
#[derive(Debug)]
pub struct Polynomio {
    pub coods: Vec<Point>,
    pub orig_coods: Vec<Point>,
    pub color: Rgb,
    pub fixed: bool,
    pub bg: bool,
}

/// A piece as a mathematical value.
pub struct PolynomioView {
    pub coods: Seq<Point>,
    pub orig_coods: Seq<Point>,
    pub color: Rgb,
    pub fixed: bool,
    pub bg: bool,
}

impl View for Polynomio {
    type V = PolynomioView;

    open spec fn view(&self) -> PolynomioView {
        PolynomioView {
            coods: self.coods@,
            orig_coods: self.orig_coods@,
            color: self.color,
            fixed: self.fixed,
            bg: self.bg,
        }
    }
}

/// Every offset of `s` can be negated without leaving `i32`.
pub open spec fn all_negatable(s: Seq<Point>) -> bool {
    forall|i: int| 0 <= i < s.len() ==> (#[trigger] s[i]).negatable()
}

impl PolynomioView {
    /// The piece can be turned and mirrored, and has as many cells as it was made
    /// with: none of its offsets, as it lies or as it was made, has a coordinate
    /// equal to `i32::MIN`.
    pub open spec fn wf(self) -> bool {
        &&& all_negatable(self.coods)
        &&& all_negatable(self.orig_coods)
        &&& self.coods.len() == self.orig_coods.len()
    }

    /// The piece with every offset multiplied by the matrix with rows `row1` and
    /// `row2`.
    pub open spec fn transformed(self, row1: (i32, i32), row2: (i32, i32)) -> PolynomioView {
        PolynomioView {
            coods: self.coods.map_values(|p: Point| p.transformed(row1, row2)),
            ..self
        }
    }

    /// The piece turned by a quarter.
    pub open spec fn rotated(self, right: bool) -> PolynomioView {
        PolynomioView { coods: self.coods.map_values(|p: Point| p.rotated(right)), ..self }
    }

    /// The piece mirrored in the vertical axis.
    pub open spec fn flipped(self) -> PolynomioView {
        PolynomioView { coods: self.coods.map_values(|p: Point| p.flipped()), ..self }
    }

    /// The piece in the shape it was made with.
    pub open spec fn at_origin(self) -> PolynomioView {
        PolynomioView { coods: self.orig_coods, ..self }
    }
}

/// Four quarter turns in one direction give every offset back.
pub proof fn lemma_rotate_four_times(p: PolynomioView, right: bool)
    requires
        p.wf(),
    ensures
        p.rotated(right).wf(),
        p.rotated(right).rotated(right).rotated(right).rotated(right) == p,
{
    let p1 = p.rotated(right);
    let p2 = p1.rotated(right);
    let p3 = p2.rotated(right);
    let p4 = p3.rotated(right);
    assert forall|i: int| 0 <= i < p.coods.len() implies p4.coods[i] == p.coods[i] by {
        assert(p.coods[i].negatable());
    }
    assert(p4.coods =~= p.coods);
    assert forall|i: int| 0 <= i < p1.coods.len() implies (#[trigger] p1.coods[i]).negatable() by {
        assert(p.coods[i].negatable());
    }
}

/// Two mirrorings give every offset back.
pub proof fn lemma_flip_twice(p: PolynomioView)
    requires
        p.wf(),
    ensures
        p.flipped().wf(),
        p.flipped().flipped() == p,
{
    let p1 = p.flipped();
    let p2 = p1.flipped();
    assert forall|i: int| 0 <= i < p.coods.len() implies p2.coods[i] == p.coods[i] by {
        assert(p.coods[i].negatable());
    }
    assert(p2.coods =~= p.coods);
    assert forall|i: int| 0 <= i < p1.coods.len() implies (#[trigger] p1.coods[i]).negatable() by {
        assert(p.coods[i].negatable());
    }
}

impl Clone for Polynomio {
    fn clone(&self) -> (res: Self)
        ensures
            res@ == self@,
    {
        Polynomio {
            coods: self.coods.clone(),
            orig_coods: self.orig_coods.clone(),
            color: self.color,
            fixed: self.fixed,
            bg: self.bg,
        }
    }
}

/// The product of a number with 0, 1 or -1.
proof fn lemma_unit_product(a: int, b: int)
    requires
        -1 <= a <= 1,
    ensures
        a * b == (if a == 0 {
            0
        } else if a == 1 {
            b
        } else {
            -b
        }),
{
    assert(0 * b == 0 && 1 * b == b && (-1) * b == -b) by (nonlinear_arith);
}

impl Polynomio {
    /// A piece of the shape `coods` that does not lie on the board.
    pub fn new(coods: Vec<Point>, color: Rgb, bg: bool) -> (p: Polynomio)
        ensures
            p@ == (PolynomioView {
                coods: coods@,
                orig_coods: coods@,
                color,
                fixed: false,
                bg,
            }),
    {
        Polynomio { coods: coods.clone(), orig_coods: coods, color, fixed: false, bg }
    }

    /// Whether the piece is in order.
    pub fn check(&self) -> (ok: bool)
        ensures
            ok == self@.wf(),
    {
        if self.coods.len() != self.orig_coods.len() {
            return false;
        }
        let n = self.coods.len();
        let mut i: usize = 0;
        while i < n
            invariant
                i <= n,
                n == self.coods.len(),
                n == self.orig_coods.len(),
                forall|j: int| 0 <= j < i ==> (#[trigger] self.coods[j]).negatable(),
                forall|j: int| 0 <= j < i ==> (#[trigger] self.orig_coods[j]).negatable(),
            decreases n - i,
        {
            let a = self.coods[i];
            let b = self.orig_coods[i];
            if a.x == i32::MIN || a.y == i32::MIN || b.x == i32::MIN || b.y == i32::MIN {
                assert(!a.negatable() || !b.negatable());
                return false;
            }
            i += 1;
        }
        true
    }

    /// Turns the piece by a quarter, to the right or to the left.
    pub fn rotate(&mut self, right: bool)
        requires
            old(self)@.wf(),
        ensures
            final(self)@ == old(self)@.rotated(right),
            final(self)@.wf(),
    {
        let s: i32 = if right { -1 } else { 1 };
        self.transform((0, s), (-s, 0));
        assert forall|i: int| 0 <= i < old(self).coods.len() implies (#[trigger] old(self).coods[i]).transformed((0i32, s), ((-s) as i32, 0i32)) == old(self).coods[i].rotated(right) by {
            lemma_unit_product(s as int, old(self).coods[i].y as int);
            lemma_unit_product(-s as int, old(self).coods[i].x as int);
        }
        assert(self@.coods =~= old(self)@.rotated(right).coods);
    }

    /// Mirrors the piece in the vertical axis.
    pub fn flip(&mut self)
        requires
            old(self)@.wf(),
        ensures
            final(self)@ == old(self)@.flipped(),
            final(self)@.wf(),
    {
        self.transform((-1, 0), (0, 1));
        assert forall|i: int| 0 <= i < old(self).coods.len() implies (#[trigger] old(self).coods[i]).transformed((-1i32, 0i32), (0i32, 1i32)) == old(self).coods[i].flipped() by {
            lemma_unit_product(-1, old(self).coods[i].x as int);
        }
        assert(self@.coods =~= old(self)@.flipped().coods);
    }

    /// Gives the piece the shape it was made with.
    pub fn reset(&mut self)
        ensures
            final(self)@ == old(self)@.at_origin(),
            old(self)@.wf() ==> final(self)@.wf(),
    {
        self.coods = self.orig_coods.clone();
    }

    /// Multiplies every offset by the matrix with rows `row1` and `row2`. Each row
    /// is a unit vector, its negation, or zero, so no product or sum overflows.
    fn transform(&mut self, row1: (i32, i32), row2: (i32, i32))
        requires
            old(self)@.wf(),
            -1 <= row1.0 <= 1 && -1 <= row1.1 <= 1 && (row1.0 == 0 || row1.1 == 0),
            -1 <= row2.0 <= 1 && -1 <= row2.1 <= 1 && (row2.0 == 0 || row2.1 == 0),
        ensures
            final(self)@ == old(self)@.transformed(row1, row2),
            final(self)@.wf(),
    {
        let n = self.coods.len();
        let mut i: usize = 0;
        while i < n
            invariant
                i <= n,
                n == self.coods.len(),
                n == old(self).coods.len(),
                self.orig_coods == old(self).orig_coods,
                self.color == old(self).color,
                self.fixed == old(self).fixed,
                self.bg == old(self).bg,
                old(self)@.wf(),
                -1 <= row1.0 <= 1 && -1 <= row1.1 <= 1 && (row1.0 == 0 || row1.1 == 0),
                -1 <= row2.0 <= 1 && -1 <= row2.1 <= 1 && (row2.0 == 0 || row2.1 == 0),
                forall|j: int| 0 <= j < i ==> self.coods[j] == (#[trigger] old(self).coods[j]).transformed(row1, row2),
                forall|j: int| 0 <= j < i ==> (#[trigger] self.coods[j]).negatable(),
                forall|j: int| i <= j < n ==> self.coods[j] == old(self).coods[j],
            decreases n - i,
        {
            let tx: i32 = self.coods[i].x;
            let ty: i32 = self.coods[i].y;
            assert(old(self).coods@[i as int].negatable());
            proof {
                lemma_unit_product(row1.0 as int, tx as int);
                lemma_unit_product(row1.1 as int, ty as int);
                lemma_unit_product(row2.0 as int, tx as int);
                lemma_unit_product(row2.1 as int, ty as int);
            }
            self.coods[i] = Point {
                x: row1.0 * tx + row1.1 * ty,
                y: row2.0 * tx + row2.1 * ty,
            };
            i += 1;
        }
        assert(self@.coods =~= old(self)@.transformed(row1, row2).coods);
    }

    /// The least `x` and the least `y` among the offsets of the piece.
    pub fn upper_left(&self) -> (p: Point)
        requires
            self.coods.len() > 0,
        ensures
            forall|i: int| 0 <= i < self.coods.len() ==> p.x <= (#[trigger] self.coods[i]).x,
            forall|i: int| 0 <= i < self.coods.len() ==> p.y <= (#[trigger] self.coods[i]).y,
            exists|i: int| 0 <= i < self.coods.len() && p.x == (#[trigger] self.coods[i]).x,
            exists|i: int| 0 <= i < self.coods.len() && p.y == (#[trigger] self.coods[i]).y,
    {
        let mut p = self.coods[0];
        let n = self.coods.len();
        let mut k: usize = 0;
        while k < n
            invariant
                k <= n,
                n == self.coods.len(),
                n > 0,
                forall|i: int| 0 <= i < k ==> p.x <= (#[trigger] self.coods[i]).x,
                forall|i: int| 0 <= i < k ==> p.y <= (#[trigger] self.coods[i]).y,
                exists|i: int| 0 <= i < n && p.x == (#[trigger] self.coods[i]).x,
                exists|i: int| 0 <= i < n && p.y == (#[trigger] self.coods[i]).y,
            decreases n - k,
        {
            let cood = self.coods[k];
            if cood.x < p.x {
                p.x = cood.x;
            }
            if cood.y < p.y {
                p.y = cood.y;
            }
            k += 1;
        }
        return p;
    }
}

/// A seat at the table: the pieces it owns and what it has done with them.
/// `polynomios` holds the pieces of the tray as indices into the game's list of
/// pieces, `fixed` says of each whether it lies on the board, and `position` is
/// where the seat's panel is drawn.
#[derive(Debug)]
pub struct Player {
    pub id: i32,
    pub name: Option<String>,
    pub polynomios: Vec<usize>,
    pub select: usize,
    pub fixed: Vec<bool>,
    pub color: Rgb,
    pub end: bool,
    pub rank: i32,
    pub remaining_tiles: i32,
    pub position: Position,
}

/// A player as a mathematical value.
pub struct PlayerView {
    pub id: i32,
    pub name: Option<Seq<char>>,
    pub polynomios: Seq<usize>,
    pub select: usize,
    pub fixed: Seq<bool>,
    pub color: Rgb,
    pub end: bool,
    pub rank: i32,
    pub remaining_tiles: i32,
    pub position: Position,
}

/// A display name as a sequence of characters.
pub open spec fn name_view(name: Option<String>) -> Option<Seq<char>> {
    match name {
        Some(s) => Some(s@),
        None => None,
    }
}

impl View for Player {
    type V = PlayerView;

    open spec fn view(&self) -> PlayerView {
        PlayerView {
            id: self.id,
            name: name_view(self.name),
            polynomios: self.polynomios@,
            select: self.select,
            fixed: self.fixed@,
            color: self.color,
            end: self.end,
            rank: self.rank,
            remaining_tiles: self.remaining_tiles,
            position: self.position,
        }
    }
}

impl PlayerView {
    /// The tray is not empty, every piece has its flag, and the cursor is on a piece.
    pub open spec fn wf(self) -> bool {
        &&& 0 < self.polynomios.len() <= usize::MAX
        &&& self.fixed.len() == self.polynomios.len()
        &&& self.select < self.polynomios.len()
    }

    /// Some piece of the tray is not yet on the board.
    pub open spec fn has_free_piece(self) -> bool {
        exists|i: int| 0 <= i < self.fixed.len() && !(#[trigger] self.fixed[i])
    }
}

impl Clone for Player {
    fn clone(&self) -> (res: Self)
        ensures
            res@ == self@,
    {
        Player {
            id: self.id,
            name: self.name.clone(),
            polynomios: self.polynomios.clone(),
            select: self.select,
            fixed: self.fixed.clone(),
            color: self.color,
            end: self.end,
            rank: self.rank,
            remaining_tiles: self.remaining_tiles,
            position: self.position,
        }
    }
}

impl Player {
    /// Whether the tray is in order.
    pub fn check(&self) -> (ok: bool)
        ensures
            ok == self@.wf(),
    {
        let n = self.polynomios.len();
        n > 0 && self.fixed.len() == n && self.select < n
    }

    /// A player with the tray `polynomios`, none of whose pieces lies on the board,
    /// and the cursor on the first.
    pub fn new(id: i32, polynomios: Vec<usize>, color: Rgb, name: Option<String>) -> (p: Player)
        ensures
            p@ == (PlayerView {
                id,
                name: name_view(name),
                polynomios: polynomios@,
                select: 0,
                fixed: Seq::new(polynomios@.len(), |i: int| false),
                color,
                end: false,
                rank: 0,
                remaining_tiles: 0,
                position: Position { x: 0, y: 0, orig_x: 0, orig_y: 0 },
            }),
    {
        let n = polynomios.len();
        let mut fixed: Vec<bool> = Vec::new();
        let mut i: usize = 0;
        while i < n
            invariant
                i <= n,
                fixed.len() == i,
                forall|j: int| 0 <= j < i ==> !fixed[j],
            decreases n - i,
        {
            fixed.push(false);
            i += 1;
        }
        assert(fixed@ =~= Seq::new(polynomios@.len(), |i: int| false));
        return Player {
            id: id,
            name: name,
            polynomios: polynomios,
            select: 0,
            fixed: fixed,
            color: color,
            end: false,
            rank: 0,
            remaining_tiles: 0,
            position: Position::new(0, 0),
        };
    }
}

/// What a snapshot carries besides the pieces and the players.
#[derive(Debug)]
pub struct SerializeHelper {
    pub map: Board,
    pub active_player_id: usize,
    pub mode: Mode,
}

impl Clone for SerializeHelper {
    fn clone(&self) -> (res: Self)
        ensures
            res.map@ == self.map@,
            res.active_player_id == self.active_player_id,
            res.mode == self.mode,
    {
        SerializeHelper {
            map: self.map.clone(),
            active_player_id: self.active_player_id,
            mode: self.mode,
        }
    }
}

} // verus!
