//! The board: a walled grid of cells, and the rules that decide whether a piece
//! may be laid on it.

use vstd::prelude::*;
use std::collections::HashMap;
use crate::components::Player;
use crate::components::Polynomio;
use crate::components::MOVE_MARGIN;
use crate::geometry::Point;
use crate::geometry::Rgb;

verus! {

/// The value of a cell that nobody owns.
pub const EMPTY: i32 = -1;

/// The value of a cell of the border.
pub const WALL: i32 = -2;

/// The largest coordinate that the placement routines accept for a piece's
/// position. Every difference of two `i32` values lies within it.
pub const REACH: i64 = 0x1_0000_0000;

/// A grid of `width` by `height` cells, stored row by row, drawn with its corner
/// at `(x, y)`. A cell holds `EMPTY`, `WALL` or the id of the player who owns it.
#[derive(Debug)]
pub struct Board {
    pub map: Vec<i32>,
    pub x: i32,
    pub y: i32,
    pub width: usize,
    pub height: usize,
    pub colors: HashMap<i32, Rgb>,
    pub starts: HashMap<i32, Point>,
}

/// A board as a mathematical value.
pub struct BoardView {
    pub cells: Seq<i32>,
    pub x: i32,
    pub y: i32,
    pub width: usize,
    pub height: usize,
    pub colors: Map<i32, Rgb>,
    pub starts: Map<i32, Point>,
}

impl View for Board {
    type V = BoardView;

    open spec fn view(&self) -> BoardView {
        BoardView {
            cells: self.map@,
            x: self.x,
            y: self.y,
            width: self.width,
            height: self.height,
            colors: self.colors@,
            starts: self.starts@,
        }
    }
}

/// The cell that the offset `cood` of a piece at `(px, py)` falls on.
pub open spec fn target(px: int, py: int, cood: Point) -> (int, int) {
    (px + cood.x, py + cood.y)
}

impl BoardView {
    /// The grid has a cell for every coordinate, and the window in which a piece
    /// may be moved around it fits in `i32`.
    pub open spec fn wf(self) -> bool {
        &&& 1 <= self.width <= i32::MAX
        &&& 1 <= self.height <= i32::MAX
        &&& self.width * self.height <= usize::MAX
        &&& self.cells.len() == self.width * self.height
        &&& i32::MIN <= self.x - MOVE_MARGIN
        &&& self.x + self.width + MOVE_MARGIN <= i32::MAX
        &&& i32::MIN <= self.y - MOVE_MARGIN
        &&& self.y + self.height + MOVE_MARGIN <= i32::MAX
    }

    /// `(x, y)` is a cell of the grid.
    pub open spec fn contains(self, x: int, y: int) -> bool {
        0 <= x < self.width && 0 <= y < self.height
    }

    /// Where the cell `(x, y)` is stored.
    pub open spec fn index_of(self, x: int, y: int) -> int {
        x + y * self.width
    }

    /// What the cell `(x, y)` holds.
    pub open spec fn cell(self, x: int, y: int) -> i32 {
        self.cells[self.index_of(x, y)]
    }

    /// `(x, y)` is a cell of the grid and holds `value`.
    pub open spec fn holds(self, x: int, y: int, value: i32) -> bool {
        self.contains(x, y) && self.cell(x, y) == value
    }

    /// `(x, y)` lies on the outermost ring of the grid.
    pub open spec fn on_border(self, x: int, y: int) -> bool {
        x == 0 || y == 0 || x == self.width - 1 || y == self.height - 1
    }

    /// One of the four cells that share a side with `(x, y)` holds `player`.
    pub open spec fn touches_line(self, x: int, y: int, player: i32) -> bool {
        ||| self.holds(x - 1, y, player)
        ||| self.holds(x, y - 1, player)
        ||| self.holds(x + 1, y, player)
        ||| self.holds(x, y + 1, player)
    }

    /// One of the four cells that share only a corner with `(x, y)` holds `player`.
    pub open spec fn touches_edge(self, x: int, y: int, player: i32) -> bool {
        ||| self.holds(x - 1, y - 1, player)
        ||| self.holds(x + 1, y - 1, player)
        ||| self.holds(x + 1, y + 1, player)
        ||| self.holds(x - 1, y + 1, player)
    }

    /// `(x, y)` is the start cell bound to `player`.
    pub open spec fn starts_at(self, x: int, y: int, player: i32) -> bool {
        &&& self.starts.contains_key(player)
        &&& self.starts[player].x == x
        &&& self.starts[player].y == y
    }

    /// Every cell of the piece is a free cell of the grid.
    pub open spec fn all_free(self, px: int, py: int, coods: Seq<Point>) -> bool {
        forall|i: int|
            0 <= i < coods.len() ==> self.holds(
                target(px, py, #[trigger] coods[i]).0,
                target(px, py, coods[i]).1,
                EMPTY,
            )
    }

    /// No cell of the piece shares a side with a cell of `player`.
    pub open spec fn no_line_touch(self, px: int, py: int, coods: Seq<Point>, player: i32) -> bool {
        forall|i: int|
            0 <= i < coods.len() ==> !self.touches_line(
                target(px, py, #[trigger] coods[i]).0,
                target(px, py, coods[i]).1,
                player,
            )
    }

    /// Some cell of the piece shares a corner with a cell of `player`.
    pub open spec fn some_edge_touch(self, px: int, py: int, coods: Seq<Point>, player: i32) -> bool {
        exists|i: int|
            0 <= i < coods.len() && self.touches_edge(
                target(px, py, #[trigger] coods[i]).0,
                target(px, py, coods[i]).1,
                player,
            )
    }

    /// Some cell of the piece is the start cell of `player`.
    pub open spec fn covers_start(self, px: int, py: int, coods: Seq<Point>, player: i32) -> bool {
        exists|i: int|
            0 <= i < coods.len() && self.starts_at(
                target(px, py, #[trigger] coods[i]).0,
                target(px, py, coods[i]).1,
                player,
            )
    }

    /// The piece with offsets `coods` may be laid at `(px, py)` for `player`: its
    /// cells are free, none shares a side with a cell of the player, and one
    /// shares a corner with such a cell or is the player's start cell.
    pub open spec fn can_put(self, px: int, py: int, coods: Seq<Point>, player: i32) -> bool {
        &&& self.all_free(px, py, coods)
        &&& self.no_line_touch(px, py, coods, player)
        &&& (self.some_edge_touch(px, py, coods, player) || self.covers_start(px, py, coods, player))
    }

    /// Every cell of the piece is a cell of the grid that holds `player`.
    pub open spec fn can_remove(self, px: int, py: int, coods: Seq<Point>, player: i32) -> bool {
        forall|i: int|
            0 <= i < coods.len() ==> self.holds(
                target(px, py, #[trigger] coods[i]).0,
                target(px, py, coods[i]).1,
                player,
            )
    }

    /// One of the first `n` offsets of the piece falls on the cell stored at `k`.
    pub open spec fn covered(self, px: int, py: int, coods: Seq<Point>, n: int, k: int) -> bool {
        exists|i: int|
            0 <= i < n && self.contains(
                target(px, py, #[trigger] coods[i]).0,
                target(px, py, coods[i]).1,
            ) && self.index_of(target(px, py, coods[i]).0, target(px, py, coods[i]).1) == k
    }

    /// The board with `value` written to every cell that the piece covers.
    pub open spec fn stamped(self, px: int, py: int, coods: Seq<Point>, value: i32) -> BoardView {
        BoardView {
            cells: Seq::new(
                self.cells.len(),
                |k: int|
                    if self.covered(px, py, coods, coods.len() as int, k) {
                        value
                    } else {
                        self.cells[k]
                    },
            ),
            ..self
        }
    }
}

/// The cells of a fresh grid of `width` by `height`: wall on the outermost ring,
/// empty inside.
pub open spec fn walled_cells(width: int, height: int) -> Seq<i32> {
    Seq::new(
        (width * height) as nat,
        |k: int|
            if k % width == 0 || k / width == 0 || k % width == width - 1 || k / width == height
                - 1 {
                WALL
            } else {
                EMPTY
            },
    )
}

/// A cell of a grid of width `w` is stored inside the grid's `w * h` slots.
pub proof fn lemma_index_in_range(w: int, h: int, x: int, y: int)
    requires
        0 <= x < w,
        0 <= y < h,
    ensures
        0 <= x + y * w < w * h,
        0 <= y * w <= x + y * w < (y + 1) * w,
        y >= 1 ==> x + y * w >= w,
        y < h - 1 ==> x + y * w < (h - 1) * w,
        y == h - 1 ==> x + y * w >= (h - 1) * w,
        w * h == h * w,
{
    if y >= 1 {
        assert(y * w >= w) by (nonlinear_arith)
            requires
                y >= 1,
                w > 0,
        ;
    }
    if y < h - 1 {
        assert((y + 1) * w <= (h - 1) * w) by (nonlinear_arith)
            requires
                y + 1 <= h - 1,
                w > 0,
        ;
    }
    assert(y * w >= 0) by (nonlinear_arith)
        requires
            y >= 0,
            w > 0,
    ;
    assert((y + 1) * w <= h * w) by (nonlinear_arith)
        requires
            y + 1 <= h,
            w > 0,
    ;
    assert((y + 1) * w == y * w + w) by (nonlinear_arith);
    assert(h * w == w * h) by (nonlinear_arith);
}

/// Two cells of a grid of width `w` that are stored in the same slot are the same cell.
pub proof fn lemma_index_injective(w: int, x1: int, y1: int, x2: int, y2: int)
    requires
        0 <= x1 < w,
        0 <= x2 < w,
        x1 + y1 * w == x2 + y2 * w,
    ensures
        x1 == x2,
        y1 == y2,
{
    if y1 < y2 {
        assert((y2 - y1) * w >= w) by (nonlinear_arith)
            requires
                y2 - y1 >= 1,
                w > 0,
        ;
        assert((y2 - y1) * w == y2 * w - y1 * w) by (nonlinear_arith);
    } else if y2 < y1 {
        assert((y1 - y2) * w >= w) by (nonlinear_arith)
            requires
                y1 - y2 >= 1,
                w > 0,
        ;
        assert((y1 - y2) * w == y1 * w - y2 * w) by (nonlinear_arith);
    }
}

impl Clone for Board {
    fn clone(&self) -> (res: Self)
        ensures
            res@ == self@,
    {
        Board {
            map: self.map.clone(),
            x: self.x,
            y: self.y,
            width: self.width,
            height: self.height,
            colors: self.colors.clone(),
            starts: self.starts.clone(),
        }
    }
}

impl Board {
    /// A board whose outermost ring is wall and whose other cells are empty, with
    /// no player bound to it.
    pub fn new(x: i32, y: i32, width: usize, height: usize) -> (b: Board)
        requires
            1 <= width <= i32::MAX,
            1 <= height <= i32::MAX,
            width * height <= usize::MAX,
            i32::MIN <= x - MOVE_MARGIN,
            x + width + MOVE_MARGIN <= i32::MAX,
            i32::MIN <= y - MOVE_MARGIN,
            y + height + MOVE_MARGIN <= i32::MAX,
        ensures
            b@.wf(),
            b@.x == x,
            b@.y == y,
            b@.width == width,
            b@.height == height,
            b@.colors == Map::<i32, Rgb>::empty(),
            b@.starts == Map::<i32, Point>::empty(),
            b@.cells == walled_cells(width as int, height as int),
            forall|cx: int, cy: int|
                b@.contains(cx, cy) ==> #[trigger] b@.cell(cx, cy) == (if b@.on_border(cx, cy) {
                    WALL
                } else {
                    EMPTY
                }),
    {
        let mut map = vec![EMPTY; width * height];
        let ghost w = width as int;
        let ghost h = height as int;
        proof {
            lemma_index_in_range(w, h, 0, h - 1);
            assert((h - 1) * w + w == w * h) by (nonlinear_arith);
        }
        let last_row: usize = (height - 1) * width;
        let mut i: usize = 0;
        while i < width
            invariant
                i <= width,
                1 <= width,
                1 <= height,
                w == width,
                h == height,
                map.len() == w * h,
                last_row == (h - 1) * w,
                last_row + w == w * h,
                forall|k: int|
                    0 <= k < map.len() ==> #[trigger] map[k] == (if k < i || (last_row <= k < last_row
                        + i) {
                        WALL
                    } else {
                        EMPTY
                    }),
            decreases width - i,
        {
            map[i] = WALL;
            map[i + last_row] = WALL;
            i += 1;
        }
        proof {
            assert forall|cx: int, cy: int| 0 <= cx < w && 0 <= cy < h implies #[trigger] map[cx
                + cy * w] == (if cy == 0 || cy == h - 1 {
                WALL
            } else {
                EMPTY
            }) by {
                lemma_index_in_range(w, h, cx, cy);
            }
        }
        let mut i: usize = 0;
        while i < height
            invariant
                i <= height,
                1 <= width,
                1 <= height,
                w == width,
                h == height,
                map.len() == w * h,
                last_row == (h - 1) * w,
                forall|cx: int, cy: int|
                    0 <= cx < w && 0 <= cy < h ==> #[trigger] map[cx + cy * w] == (if cy == 0 || cy
                        == h - 1 || (cy < i && (cx == 0 || cx == w - 1)) {
                        WALL
                    } else {
                        EMPTY
                    }),
            decreases height - i,
        {
            proof {
                lemma_index_in_range(w, h, 0, i as int);
                lemma_index_in_range(w, h, w - 1, i as int);
            }
            let ghost before = map@;
            let row: usize = i * width;
            map[row] = WALL;
            map[row + width - 1] = WALL;
            proof {
                assert forall|cx: int, cy: int| 0 <= cx < w && 0 <= cy < h implies #[trigger] map[cx
                    + cy * w] == (if cy == 0 || cy == h - 1 || (cy < i + 1 && (cx == 0 || cx == w
                    - 1)) {
                    WALL
                } else {
                    EMPTY
                }) by {
                    lemma_index_in_range(w, h, cx, cy);
                    if cx + cy * w == row {
                        lemma_index_injective(w, cx, cy, 0, i as int);
                    }
                    if cx + cy * w == row + w - 1 {
                        lemma_index_injective(w, cx, cy, w - 1, i as int);
                    }
                    assert(before[cx + cy * w] == (if cy == 0 || cy == h - 1 || (cy < i && (cx == 0
                        || cx == w - 1)) {
                        WALL
                    } else {
                        EMPTY
                    }));
                }
            }
            i += 1;
        }

        proof {
            assert forall|k: int| 0 <= k < w * h implies map@[k] == walled_cells(w, h)[k] by {
                vstd::arithmetic::div_mod::lemma_fundamental_div_mod(k, w);
                assert(w * (k / w) == (k / w) * w) by (nonlinear_arith);
                if k / w >= h {
                    assert((k / w) * w >= h * w) by (nonlinear_arith)
                        requires
                            k / w >= h,
                            w > 0,
                    ;
                    assert(h * w == w * h) by (nonlinear_arith);
                }
                if k / w < 0 {
                    assert((k / w) * w <= -w) by (nonlinear_arith)
                        requires
                            k / w <= -1,
                            w > 0,
                    ;
                }
                assert(map@[k % w + (k / w) * w] == map@[k]);
            }
            assert(map@ =~= walled_cells(w, h));
        }
        Board {
            map: map,
            x: x,
            y: y,
            width: width,
            height: height,
            colors: HashMap::new(),
            starts: HashMap::new(),
        }
    }

    /// Whether the board is in order.
    pub fn check(&self) -> (ok: bool)
        ensures
            ok == self@.wf(),
    {
        if self.width < 1 || self.width > i32::MAX as usize || self.height < 1 || self.height
            > i32::MAX as usize {
            return false;
        }
        assert(self.width * self.height <= 0x4000_0000_0000_0000) by (nonlinear_arith)
            requires
                self.width <= 0x8000_0000,
                self.height <= 0x8000_0000,
        ;
        let cells: u64 = self.width as u64 * self.height as u64;
        if self.map.len() as u64 != cells {
            return false;
        }
        let margin: i64 = MOVE_MARGIN as i64;
        self.x as i64 - margin >= i32::MIN as i64 && self.x as i64 + self.width as i64 + margin
            <= i32::MAX as i64 && self.y as i64 - margin >= i32::MIN as i64 && self.y as i64
            + self.height as i64 + margin <= i32::MAX as i64
    }

    /// Binds `player` to the board: records its colour, and `(start_x, start_y)` as
    /// the cell where its first piece may lie.
    pub fn bind(&mut self, player: &Player, start_x: i32, start_y: i32)
        ensures
            final(self)@ == (BoardView {
                colors: old(self)@.colors.insert(player.id, player.color),
                starts: old(self)@.starts.insert(player.id, Point { x: start_x, y: start_y }),
                ..old(self)@
            }),
    {
        self.colors.insert(player.id, player.color);
        self.starts.insert(player.id, Point::new(start_x, start_y));
    }

    /// Binds `player` with the start cell in the upper left corner inside the wall.
    pub fn bind_left_top(&mut self, player: &Player)
        ensures
            final(self)@ == (BoardView {
                colors: old(self)@.colors.insert(player.id, player.color),
                starts: old(self)@.starts.insert(player.id, Point { x: 1, y: 1 }),
                ..old(self)@
            }),
    {
        self.bind(player, 1, 1);
    }

    /// Binds `player` with the start cell in the upper right corner inside the wall.
    pub fn bind_right_top(&mut self, player: &Player)
        requires
            old(self)@.wf(),
        ensures
            final(self)@ == (BoardView {
                colors: old(self)@.colors.insert(player.id, player.color),
                starts: old(self)@.starts.insert(
                    player.id,
                    Point { x: (old(self).width - 2) as i32, y: 1 },
                ),
                ..old(self)@
            }),
    {
        self.bind(player, self.width as i32 - 2, 1);
    }

    /// Binds `player` with the start cell in the lower left corner inside the wall.
    pub fn bind_left_bottom(&mut self, player: &Player)
        requires
            old(self)@.wf(),
        ensures
            final(self)@ == (BoardView {
                colors: old(self)@.colors.insert(player.id, player.color),
                starts: old(self)@.starts.insert(
                    player.id,
                    Point { x: 1, y: (old(self).height - 2) as i32 },
                ),
                ..old(self)@
            }),
    {
        self.bind(player, 1, self.height as i32 - 2);
    }

    /// Binds `player` with the start cell in the lower right corner inside the wall.
    pub fn bind_right_bottom(&mut self, player: &Player)
        requires
            old(self)@.wf(),
        ensures
            final(self)@ == (BoardView {
                colors: old(self)@.colors.insert(player.id, player.color),
                starts: old(self)@.starts.insert(
                    player.id,
                    Point { x: (old(self).width - 2) as i32, y: (old(self).height - 2) as i32 },
                ),
                ..old(self)@
            }),
    {
        self.bind(player, self.width as i32 - 2, self.height as i32 - 2);
    }

    /// What the cell `p` holds.
    pub fn get(&self, p: Point) -> (value: i32)
        requires
            self@.wf(),
            self@.contains(p.x as int, p.y as int),
        ensures
            value == self@.cell(p.x as int, p.y as int),
    {
        self.map[self.point_idx(p)]
    }

    /// Whether the cell `(x, y)` exists and holds `player_id`.
    fn holds_at(&self, x: i64, y: i64, player_id: i32) -> (r: bool)
        requires
            self@.wf(),
        ensures
            r == self@.holds(x as int, y as int, player_id),
    {
        if x >= 0 && x < self.width as i64 && y >= 0 && y < self.height as i64 {
            proof {
                lemma_index_in_range(self.width as int, self.height as int, x as int, y as int);
            }
            self.map[x as usize + y as usize * self.width] == player_id
        } else {
            false
        }
    }

    fn touch_with_line_at(&self, x: i64, y: i64, player_id: i32) -> (r: bool)
        requires
            self@.wf(),
            -4 * REACH <= x <= 4 * REACH,
            -4 * REACH <= y <= 4 * REACH,
        ensures
            r == self@.touches_line(x as int, y as int, player_id),
    {
        self.holds_at(x - 1, y, player_id) || self.holds_at(x, y - 1, player_id) || self.holds_at(
            x + 1,
            y,
            player_id,
        ) || self.holds_at(x, y + 1, player_id)
    }

    fn touch_with_edge_at(&self, x: i64, y: i64, player_id: i32) -> (r: bool)
        requires
            self@.wf(),
            -4 * REACH <= x <= 4 * REACH,
            -4 * REACH <= y <= 4 * REACH,
        ensures
            r == self@.touches_edge(x as int, y as int, player_id),
    {
        self.holds_at(x - 1, y - 1, player_id) || self.holds_at(x + 1, y - 1, player_id)
            || self.holds_at(x + 1, y + 1, player_id) || self.holds_at(x - 1, y + 1, player_id)
    }

    /// Whether a cell next to `p`, across one of its four sides, holds `player_id`.
    pub fn touch_with_line(&self, p: Point, player_id: i32) -> (r: bool)
        requires
            self@.wf(),
        ensures
            r == self@.touches_line(p.x as int, p.y as int, player_id),
    {
        self.touch_with_line_at(p.x as i64, p.y as i64, player_id)
    }

    /// Whether a cell next to `p`, across one of its four corners, holds `player_id`.
    pub fn touch_with_edge(&self, p: Point, player_id: i32) -> (r: bool)
        requires
            self@.wf(),
        ensures
            r == self@.touches_edge(p.x as int, p.y as int, player_id),
    {
        self.touch_with_edge_at(p.x as i64, p.y as i64, player_id)
    }

    /// Whether `(x, y)` is the start cell bound to `player_id`.
    fn starts_at(&self, x: i64, y: i64, player_id: i32) -> (r: bool)
        ensures
            r == self@.starts_at(x as int, y as int, player_id),
    {
        match self.starts.get(&player_id) {
            Some(start) => start.x as i64 == x && start.y as i64 == y,
            None => false,
        }
    }

    /// Writes `value` to every cell that the piece at `(px, py)` covers. All of
    /// them are cells of the grid.
    fn stamp(&mut self, px: i64, py: i64, coods: &Vec<Point>, value: i32)
        requires
            old(self)@.wf(),
            -REACH <= px <= REACH,
            -REACH <= py <= REACH,
            forall|i: int|
                0 <= i < coods.len() ==> old(self)@.contains(
                    target(px as int, py as int, #[trigger] coods[i]).0,
                    target(px as int, py as int, coods[i]).1,
                ),
        ensures
            final(self)@ == old(self)@.stamped(px as int, py as int, coods@, value),
    {
        let n = coods.len();
        let ghost start = self@;
        let mut i: usize = 0;
        while i < n
            invariant
                i <= n,
                n == coods.len(),
                start.wf(),
                start == old(self)@,
                -REACH <= px <= REACH,
                -REACH <= py <= REACH,
                forall|j: int|
                    0 <= j < coods.len() ==> start.contains(
                        target(px as int, py as int, #[trigger] coods[j]).0,
                        target(px as int, py as int, coods[j]).1,
                    ),
                self@ == (BoardView { cells: self@.cells, ..start }),
                self@.cells.len() == start.cells.len(),
                forall|k: int|
                    0 <= k < start.cells.len() ==> #[trigger] self@.cells[k] == (if start.covered(
                        px as int,
                        py as int,
                        coods@,
                        i as int,
                        k,
                    ) {
                        value
                    } else {
                        start.cells[k]
                    }),
            decreases n - i,
        {
            let cood = coods[i];
            let x: i64 = px + cood.x as i64;
            let y: i64 = py + cood.y as i64;
            assert(start.contains(
                target(px as int, py as int, coods[i as int]).0,
                target(px as int, py as int, coods[i as int]).1,
            ));
            proof {
                lemma_index_in_range(self.width as int, self.height as int, x as int, y as int);
            }
            let idx: usize = x as usize + y as usize * self.width;
            let ghost before = self@.cells;
            self.map[idx] = value;
            proof {
                assert forall|k: int| 0 <= k < start.cells.len() implies #[trigger] self@.cells[k]
                    == (if start.covered(px as int, py as int, coods@, i + 1, k) {
                    value
                } else {
                    start.cells[k]
                }) by {
                    if start.covered(px as int, py as int, coods@, i as int, k) {
                        let j = choose|j: int|
                            0 <= j < i && start.contains(
                                target(px as int, py as int, #[trigger] coods@[j]).0,
                                target(px as int, py as int, coods@[j]).1,
                            ) && start.index_of(
                                target(px as int, py as int, coods@[j]).0,
                                target(px as int, py as int, coods@[j]).1,
                            ) == k;
                        assert(0 <= j < i + 1);
                    }
                    if k == idx {
                        assert(start.index_of(
                            target(px as int, py as int, coods@[i as int]).0,
                            target(px as int, py as int, coods@[i as int]).1,
                        ) == k);
                    }
                    if start.covered(px as int, py as int, coods@, i + 1, k) && !start.covered(
                        px as int,
                        py as int,
                        coods@,
                        i as int,
                        k,
                    ) {
                        let j = choose|j: int|
                            0 <= j < i + 1 && start.contains(
                                target(px as int, py as int, #[trigger] coods@[j]).0,
                                target(px as int, py as int, coods@[j]).1,
                            ) && start.index_of(
                                target(px as int, py as int, coods@[j]).0,
                                target(px as int, py as int, coods@[j]).1,
                            ) == k;
                        if j < i {
                            assert(start.covered(px as int, py as int, coods@, i as int, k));
                        }
                        assert(k == idx);
                    }
                }
            }
            i += 1;
        }
        assert(self@.cells =~= old(self)@.stamped(px as int, py as int, coods@, value).cells);
    }

    /// `try_put` for a piece whose position is given in 64 bits, so that the
    /// difference of a screen position and the board's corner can be handed in.
    pub fn try_put_at(&mut self, px: i64, py: i64, coods: &Vec<Point>, player_id: i32) -> (ok: bool)
        requires
            old(self)@.wf(),
            -REACH <= px <= REACH,
            -REACH <= py <= REACH,
        ensures
            ok == old(self)@.can_put(px as int, py as int, coods@, player_id),
            ok ==> final(self)@ == old(self)@.stamped(px as int, py as int, coods@, player_id),
            !ok ==> final(self)@ == old(self)@,
    {
        let mut no_touch_with_line = true;
        let mut touch_with_edge = false;
        let mut include_start_position = false;
        let ghost b = self@;
        let ghost x0 = px as int;
        let ghost y0 = py as int;

        let n = coods.len();
        let mut i: usize = 0;
        while i < n
            invariant
                i <= n,
                n == coods.len(),
                b == self@,
                b.wf(),
                x0 == px,
                y0 == py,
                -REACH <= px <= REACH,
                -REACH <= py <= REACH,
                forall|j: int|
                    0 <= j < i ==> b.holds(
                        target(x0, y0, #[trigger] coods[j]).0,
                        target(x0, y0, coods[j]).1,
                        EMPTY,
                    ),
                no_touch_with_line == (forall|j: int|
                    0 <= j < i ==> !b.touches_line(
                        target(x0, y0, #[trigger] coods[j]).0,
                        target(x0, y0, coods[j]).1,
                        player_id,
                    )),
                touch_with_edge == (exists|j: int|
                    0 <= j < i && b.touches_edge(
                        target(x0, y0, #[trigger] coods[j]).0,
                        target(x0, y0, coods[j]).1,
                        player_id,
                    )),
                include_start_position == (exists|j: int|
                    0 <= j < i && b.starts_at(
                        target(x0, y0, #[trigger] coods[j]).0,
                        target(x0, y0, coods[j]).1,
                        player_id,
                    )),
            decreases n - i,
        {
            let cood = coods[i];
            let x: i64 = px + cood.x as i64;
            let y: i64 = py + cood.y as i64;
            assert(target(x0, y0, coods[i as int]) == (x as int, y as int));
            if !self.holds_at(x, y, EMPTY) {
                return false;
            }
            let line = self.touch_with_line_at(x, y, player_id);
            let edge = self.touch_with_edge_at(x, y, player_id);
            let start = self.starts_at(x, y, player_id);
            no_touch_with_line = no_touch_with_line && !line;
            touch_with_edge = touch_with_edge || edge;
            include_start_position = include_start_position || start;
            i += 1;
        }

        if !no_touch_with_line || (!touch_with_edge && !include_start_position) {
            return false;
        }
        self.stamp(px, py, coods, player_id);
        true
    }

    /// `try_remove` for a piece whose position is given in 64 bits.
    pub fn try_remove_at(&mut self, px: i64, py: i64, coods: &Vec<Point>, player_id: i32) -> (ok:
        bool)
        requires
            old(self)@.wf(),
            -REACH <= px <= REACH,
            -REACH <= py <= REACH,
        ensures
            ok == old(self)@.can_remove(px as int, py as int, coods@, player_id),
            ok ==> final(self)@ == old(self)@.stamped(px as int, py as int, coods@, EMPTY),
            !ok ==> final(self)@ == old(self)@,
    {
        if !self.can_remove_at(px, py, coods, player_id) {
            return false;
        }
        self.stamp(px, py, coods, EMPTY);
        true
    }

    /// Whether every cell of the piece at `(px, py)` holds `player_id`.
    pub fn can_remove_at(&self, px: i64, py: i64, coods: &Vec<Point>, player_id: i32) -> (ok: bool)
        requires
            self@.wf(),
            -REACH <= px <= REACH,
            -REACH <= py <= REACH,
        ensures
            ok == self@.can_remove(px as int, py as int, coods@, player_id),
    {
        let n = coods.len();
        let mut i: usize = 0;
        while i < n
            invariant
                i <= n,
                n == coods.len(),
                self@.wf(),
                -REACH <= px <= REACH,
                -REACH <= py <= REACH,
                forall|j: int|
                    0 <= j < i ==> self@.holds(
                        target(px as int, py as int, #[trigger] coods[j]).0,
                        target(px as int, py as int, coods[j]).1,
                        player_id,
                    ),
            decreases n - i,
        {
            let cood = coods[i];
            let x: i64 = px + cood.x as i64;
            let y: i64 = py + cood.y as i64;
            assert(target(px as int, py as int, coods[i as int]) == (x as int, y as int));
            if !self.holds_at(x, y, player_id) {
                return false;
            }
            i += 1;
        }
        true
    }

    /// Lays the piece at `position` for `player_id` if the rules allow it, and
    /// says whether it did. A refused piece leaves the board as it was.
    pub fn try_put(&mut self, position: Point, polynomio: &Polynomio, player_id: i32) -> (ok: bool)
        requires
            old(self)@.wf(),
        ensures
            ok == old(self)@.can_put(
                position.x as int,
                position.y as int,
                polynomio@.coods,
                player_id,
            ),
            ok ==> final(self)@ == old(self)@.stamped(
                position.x as int,
                position.y as int,
                polynomio@.coods,
                player_id,
            ),
            !ok ==> final(self)@ == old(self)@,
    {
        self.try_put_at(position.x as i64, position.y as i64, &polynomio.coods, player_id)
    }

    /// Takes the piece at `position` off the board if every cell of it holds
    /// `player_id`, and says whether it did.
    pub fn try_remove(&mut self, position: Point, polynomio: &Polynomio, player_id: i32) -> (ok:
        bool)
        requires
            old(self)@.wf(),
        ensures
            ok == old(self)@.can_remove(
                position.x as int,
                position.y as int,
                polynomio@.coods,
                player_id,
            ),
            ok ==> final(self)@ == old(self)@.stamped(
                position.x as int,
                position.y as int,
                polynomio@.coods,
                EMPTY,
            ),
            !ok ==> final(self)@ == old(self)@,
    {
        self.try_remove_at(position.x as i64, position.y as i64, &polynomio.coods, player_id)
    }

    /// Where the cell `(x, y)` is stored.
    pub fn xy_idx(&self, x: i32, y: i32) -> (idx: usize)
        requires
            self@.wf(),
            self@.contains(x as int, y as int),
        ensures
            idx == self@.index_of(x as int, y as int),
            idx < self.map.len(),
    {
        proof {
            lemma_index_in_range(self.width as int, self.height as int, x as int, y as int);
        }
        x as usize + y as usize * self.width
    }

    /// Where the cell `p` is stored.
    pub fn point_idx(&self, p: Point) -> (idx: usize)
        requires
            self@.wf(),
            self@.contains(p.x as int, p.y as int),
        ensures
            idx == self@.index_of(p.x as int, p.y as int),
            idx < self.map.len(),
    {
        self.xy_idx(p.x, p.y)
    }

    /// Whether `(x, y)` is a cell of the grid.
    pub fn xy_isin(&self, x: i32, y: i32) -> (r: bool)
        requires
            self@.wf(),
        ensures
            r == self@.contains(x as int, y as int),
    {
        x >= 0 && (x as usize) < self.width && y >= 0 && (y as usize) < self.height
    }

    /// Whether `p` is a cell of the grid.
    pub fn point_isin(&self, p: Point) -> (r: bool)
        requires
            self@.wf(),
        ensures
            r == self@.contains(p.x as int, p.y as int),
    {
        self.xy_isin(p.x, p.y)
    }

    /// The cell that is stored at `idx`.
    pub fn idx_point(&self, idx: usize) -> (p: Point)
        requires
            self@.wf(),
            idx < self.map.len(),
        ensures
            self@.contains(p.x as int, p.y as int),
            self@.index_of(p.x as int, p.y as int) == idx,
            p.x == idx as int % self.width as int,
            p.y == idx as int / self.width as int,
    {
        let x: usize = idx % self.width;
        let y: usize = idx / self.width;
        proof {
            let w = self.width as int;
            let h = self.height as int;
            vstd::arithmetic::div_mod::lemma_fundamental_div_mod(idx as int, w);
            assert(w * (idx as int / w) == (idx as int / w) * w) by (nonlinear_arith);
            if y as int >= h {
                assert((y as int) * w >= h * w) by (nonlinear_arith)
                    requires
                        y as int >= h,
                        w > 0,
                ;
                assert(h * w == w * h) by (nonlinear_arith);
            }
        }
        Point::new(x as i32, y as i32)
    }
}

/// A piece that has just been laid can be taken off again, and taking it off
/// leaves the board as it was before the piece was laid.
pub proof fn lemma_put_then_remove(b: BoardView, px: int, py: int, coods: Seq<Point>, player: i32)
    requires
        b.wf(),
        b.can_put(px, py, coods, player),
    ensures
        b.stamped(px, py, coods, player).can_remove(px, py, coods, player),
        b.stamped(px, py, coods, player).stamped(px, py, coods, EMPTY) == b,
{
    let put = b.stamped(px, py, coods, player);
    assert forall|i: int| 0 <= i < coods.len() implies put.holds(
        target(px, py, #[trigger] coods[i]).0,
        target(px, py, coods[i]).1,
        player,
    ) by {
        let (x, y) = target(px, py, coods[i]);
        assert(b.holds(x, y, EMPTY));
        lemma_index_in_range(b.width as int, b.height as int, x, y);
        assert(b.covered(px, py, coods, coods.len() as int, b.index_of(x, y)));
    }
    let back = put.stamped(px, py, coods, EMPTY);
    assert forall|k: int| 0 <= k < b.cells.len() implies back.cells[k] == b.cells[k] by {
        if b.covered(px, py, coods, coods.len() as int, k) {
            let i = choose|i: int|
                0 <= i < coods.len() && b.contains(
                    target(px, py, #[trigger] coods[i]).0,
                    target(px, py, coods[i]).1,
                ) && b.index_of(target(px, py, coods[i]).0, target(px, py, coods[i]).1) == k;
            assert(b.holds(target(px, py, coods[i]).0, target(px, py, coods[i]).1, EMPTY));
            assert(put.covered(px, py, coods, coods.len() as int, k));
        } else {
            if put.covered(px, py, coods, coods.len() as int, k) {
                let i = choose|i: int|
                    0 <= i < coods.len() && put.contains(
                        target(px, py, #[trigger] coods[i]).0,
                        target(px, py, coods[i]).1,
                    ) && put.index_of(target(px, py, coods[i]).0, target(px, py, coods[i]).1) == k;
                assert(b.contains(target(px, py, coods[i]).0, target(px, py, coods[i]).1));
                assert(false);
            }
        }
    }
    assert(back.cells =~= b.cells);
}

} // verus!
