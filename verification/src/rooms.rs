//! Rooms and layouts: the renderable form a finished chromosome exports to.

use vstd::prelude::*;
use crate::collections::{Matrix, Vector, lemma_row_major_index, wf_matrix};
use crate::shapes::Rect;

verus! {

/// Bound on room coordinates and sizes that keeps the rendered character
/// grid within an allocatable size.
pub const GRID_LIMIT: i64 = 8192;

/// A room of the final layout, represented by its rectangle.
#[derive(PartialEq, Eq, Structural, Copy, Clone, Debug)]
pub struct Room {
    pub rect: Rect,
}

/// An ordered set of rooms, ready to be rendered to a character grid.
pub struct Layout {
    pub rooms: Vector<Room>,
}

impl Room {
    pub fn new(rect: Rect) -> (r: Self)
        ensures
            r == (Room { rect }),
    {
        Room { rect }
    }
}

/// A room whose rectangle the renderer can handle: non-negative sizes and
/// coordinates small enough for grid arithmetic.
pub open spec fn renderable_room(r: Room) -> bool {
    &&& -0x1000_0000 <= r.rect.x <= 0x1000_0000
    &&& -0x1000_0000 <= r.rect.y <= 0x1000_0000
    &&& 0 <= r.rect.w <= 0x1000_0000
    &&& 0 <= r.rect.h <= 0x1000_0000
}

/// `bb` is exactly the axis-aligned bounding box of the rooms.
pub open spec fn is_rooms_bbox(rs: Seq<Room>, bb: Rect) -> bool {
    &&& forall|i: int|
        0 <= i < rs.len() ==> bb.x <= #[trigger] rs[i].rect.x && rs[i].rect.x + rs[i].rect.w
            <= bb.x + bb.w && bb.y <= rs[i].rect.y && rs[i].rect.y + rs[i].rect.h <= bb.y + bb.h
    &&& exists|i: int| 0 <= i < rs.len() && #[trigger] rs[i].rect.x == bb.x
    &&& exists|i: int| 0 <= i < rs.len() && #[trigger] rs[i].rect.y == bb.y
    &&& exists|i: int| 0 <= i < rs.len() && #[trigger] rs[i].rect.x + rs[i].rect.w == bb.x + bb.w
    &&& exists|i: int| 0 <= i < rs.len() && #[trigger] rs[i].rect.y + rs[i].rect.h == bb.y + bb.h
}

impl Layout {
    pub fn new(rooms: Vector<Room>) -> (r: Self)
        ensures
            r.rooms@ == rooms@,
    {
        Layout { rooms }
    }

    /// The smallest rectangle enclosing every room of the layout.
    pub fn calculate_bounding_box(&self) -> (r: Rect)
        requires
            self.rooms@.len() >= 1,
            forall|i: int| 0 <= i < self.rooms@.len() ==> renderable_room(#[trigger] self.rooms@[i]),
        ensures
            is_rooms_bbox(self.rooms@, r),
            r.w >= 0,
            r.h >= 0,
    {
        let n = self.rooms.len();
        let first = *self.rooms.get(0);
        let mut min_x: i64 = first.rect.x;
        let mut min_y: i64 = first.rect.y;
        let mut max_x: i64 = first.rect.x + first.rect.w;
        let mut max_y: i64 = first.rect.y + first.rect.h;
        let mut i: usize = 1;
        while i < n
            invariant
                1 <= i <= n,
                n == self.rooms@.len(),
                forall|k: int|
                    0 <= k < self.rooms@.len() ==> renderable_room(#[trigger] self.rooms@[k]),
                forall|k: int|
                    0 <= k < i ==> min_x <= #[trigger] self.rooms@[k].rect.x && self.rooms@[k].rect.x
                        + self.rooms@[k].rect.w <= max_x && min_y <= self.rooms@[k].rect.y
                        && self.rooms@[k].rect.y + self.rooms@[k].rect.h <= max_y,
                exists|k: int| 0 <= k < i && #[trigger] self.rooms@[k].rect.x == min_x,
                exists|k: int| 0 <= k < i && #[trigger] self.rooms@[k].rect.y == min_y,
                exists|k: int|
                    0 <= k < i && #[trigger] self.rooms@[k].rect.x + self.rooms@[k].rect.w == max_x,
                exists|k: int|
                    0 <= k < i && #[trigger] self.rooms@[k].rect.y + self.rooms@[k].rect.h == max_y,
                -0x1000_0000 <= min_x <= 0x1000_0000,
                -0x1000_0000 <= min_y <= 0x1000_0000,
                -0x2000_0000 <= max_x <= 0x2000_0000,
                -0x2000_0000 <= max_y <= 0x2000_0000,
            decreases n - i,
        {
            let room = *self.rooms.get(i);
            if room.rect.x < min_x {
                min_x = room.rect.x;
            }
            if room.rect.y < min_y {
                min_y = room.rect.y;
            }
            if room.rect.x + room.rect.w > max_x {
                max_x = room.rect.x + room.rect.w;
            }
            if room.rect.y + room.rect.h > max_y {
                max_y = room.rect.y + room.rect.h;
            }
            i = i + 1;
        }
        Rect { x: min_x, y: min_y, w: max_x - min_x, h: max_y - min_y }
    }
}

/// A room small and central enough to render on a character grid.
pub open spec fn grid_room(r: Room) -> bool {
    &&& -GRID_LIMIT <= r.rect.x <= GRID_LIMIT
    &&& -GRID_LIMIT <= r.rect.y <= GRID_LIMIT
    &&& 0 <= r.rect.w <= GRID_LIMIT
    &&& 0 <= r.rect.h <= GRID_LIMIT
}

/// The room's rectangle covers the grid point `(px, py)`.
pub open spec fn covers(r: Room, px: int, py: int) -> bool {
    &&& r.rect.x <= px < r.rect.x + r.rect.w
    &&& r.rect.y <= py < r.rect.y + r.rect.h
}

/// The character the room paints at a covered grid point: the border
/// character on its outline, the interior character elsewhere.
pub open spec fn room_char(r: Room, px: int, py: int) -> char {
    if px == r.rect.x || px == r.rect.x + r.rect.w - 1 || py == r.rect.y || py == r.rect.y
        + r.rect.h - 1 {
        '#'
    } else {
        '.'
    }
}

/// The grid cell at `(px, py)` once all rooms are painted in order: the
/// character of the last room covering the point, or `None` outside every
/// room.
pub open spec fn spec_cell(rs: Seq<Room>, px: int, py: int) -> Option<char>
    decreases rs.len(),
{
    if rs.len() == 0 {
        None
    } else if covers(rs.last(), px, py) {
        Some(room_char(rs.last(), px, py))
    } else {
        spec_cell(rs.drop_last(), px, py)
    }
}

/// The point of room `r`, painted cell by cell in column-major order, has
/// been painted already when the painter stands at offset `(cx, cy)` of that
/// room.
spec fn painted_before(r: Room, cx: int, cy: int, px: int, py: int) -> bool {
    &&& covers(r, px, py)
    &&& (px - r.rect.x < cx || (px - r.rect.x == cx && py - r.rect.y < cy))
}

/// The grid slot of cell `(gx, gy)` holds what the painted rooms dictate at
/// the grid point `(bb.x + gx, bb.y + gy)`.
pub open spec fn cell_at(
    v: Seq<Option<char>>,
    w: int,
    rs: Seq<Room>,
    bb: Rect,
    gx: int,
    gy: int,
) -> bool {
    v[gy * w + gx] == spec_cell(rs, bb.x + gx, bb.y + gy)
}

/// The grid slot of cell `(gx, gy)` holds what the first `i` rooms dictate,
/// with room `rs[i]` painted up to its offset `(cx, cy)`.
spec fn painting_cell_at(
    v: Seq<Option<char>>,
    w: int,
    rs: Seq<Room>,
    i: int,
    cx: int,
    cy: int,
    bb: Rect,
    gx: int,
    gy: int,
) -> bool {
    v[gy * w + gx] == (if painted_before(rs[i], cx, cy, bb.x + gx, bb.y + gy) {
        Some(room_char(rs[i], bb.x + gx, bb.y + gy))
    } else {
        spec_cell(rs.take(i), bb.x + gx, bb.y + gy)
    })
}

/// Distinct in-range grid coordinates land on distinct row-major slots.
proof fn lemma_row_major_distinct(w: int, x1: int, y1: int, x2: int, y2: int)
    requires
        0 <= x1 < w,
        0 <= x2 < w,
        0 <= y1,
        0 <= y2,
        (x1, y1) != (x2, y2),
    ensures
        y1 * w + x1 != y2 * w + x2,
{
    if y1 == y2 {
    } else if y1 < y2 {
        assert((y1 + 1 <= y2 && w >= 1) ==> (y1 + 1) * w <= y2 * w) by (nonlinear_arith);
        assert((y1 + 1) * w == y1 * w + w) by (nonlinear_arith);
    } else {
        assert((y2 + 1 <= y1 && w >= 1) ==> (y2 + 1) * w <= y1 * w) by (nonlinear_arith);
        assert((y2 + 1) * w == y2 * w + w) by (nonlinear_arith);
    }
}

impl Layout {
    /// Rasterizes the layout to a character grid the size of its bounding
    /// box: every grid cell holds the character of the last room covering
    /// it (the border character on the room's outline, the interior
    /// character inside), and stays unset outside every room.
    pub fn as_char_matrix(&self) -> (m: Matrix<char>)
        requires
            self.rooms@.len() >= 1,
            forall|i: int| 0 <= i < self.rooms@.len() ==> grid_room(#[trigger] self.rooms@[i]),
        ensures
            wf_matrix(&m),
            exists|bb: Rect|
                #[trigger] is_rooms_bbox(self.rooms@, bb) && m.w == bb.w && m.h == bb.h && forall|
                    gx: int,
                    gy: int,
                |
                    0 <= gx < m.w && 0 <= gy < m.h ==> #[trigger] cell_at(
                        m.view(),
                        m.w as int,
                        self.rooms@,
                        bb,
                        gx,
                        gy,
                    ),
    {
        proof {
            assert forall|i: int| 0 <= i < self.rooms@.len() implies renderable_room(
                #[trigger] self.rooms@[i],
            ) by {}
        }
        let bounding_box = self.calculate_bounding_box();
        let bb_w = bounding_box.w;
        let bb_h = bounding_box.h;
        proof {
            let k = choose|k: int|
                0 <= k < self.rooms@.len() && #[trigger] self.rooms@[k].rect.x == bounding_box.x;
            assert(bounding_box.x >= -GRID_LIMIT);
            let k2 = choose|k2: int|
                0 <= k2 < self.rooms@.len() && #[trigger] self.rooms@[k2].rect.y == bounding_box.y;
            assert(bounding_box.y >= -GRID_LIMIT);
            let k3 = choose|k3: int|
                0 <= k3 < self.rooms@.len() && #[trigger] self.rooms@[k3].rect.x
                    + self.rooms@[k3].rect.w == bounding_box.x + bounding_box.w;
            let k4 = choose|k4: int|
                0 <= k4 < self.rooms@.len() && #[trigger] self.rooms@[k4].rect.y
                    + self.rooms@[k4].rect.h == bounding_box.y + bounding_box.h;
            assert(bounding_box.x + bounding_box.w <= 2 * GRID_LIMIT);
            assert(bounding_box.y + bounding_box.h <= 2 * GRID_LIMIT);
            assert(bb_w <= 3 * GRID_LIMIT);
            assert(bb_h <= 3 * GRID_LIMIT);
            assert((0 <= bb_w <= 3 * GRID_LIMIT && 0 <= bb_h <= 3 * GRID_LIMIT) ==> bb_w * bb_h
                <= 0x4000_0000) by (nonlinear_arith);
        }
        let width = bb_w as usize;
        let height = bb_h as usize;
        proof {
            assert(width as int == bb_w as int);
            assert(height as int == bb_h as int);
            assert(width * height == bb_w * bb_h);
        }
        let mut matrix: Matrix<char> = Matrix::new(width, height);
        proof {
            assert forall|gx: int, gy: int|
                0 <= gx < width && 0 <= gy < height implies #[trigger] cell_at(
                matrix.view(),
                width as int,
                self.rooms@.take(0),
                bounding_box,
                gx,
                gy,
            ) by {
                lemma_row_major_index(width as int, height as int, gx, gy);
                assert(self.rooms@.take(0) =~= Seq::<Room>::empty());
                assert(matrix.view()[gy * width as int + gx] == None::<char>);
            }
        }
        let n = self.rooms.len();
        let mut i: usize = 0;
        while i < n
            invariant
                i <= n,
                n == self.rooms@.len(),
                forall|k: int| 0 <= k < n ==> grid_room(#[trigger] self.rooms@[k]),
                is_rooms_bbox(self.rooms@, bounding_box),
                width == bounding_box.w,
                height == bounding_box.h,
                wf_matrix(&matrix),
                matrix.w == width,
                matrix.h == height,
                forall|gx: int, gy: int|
                    0 <= gx < width && 0 <= gy < height ==> #[trigger] cell_at(
                        matrix.view(),
                        width as int,
                        self.rooms@.take(i as int),
                        bounding_box,
                        gx,
                        gy,
                    ),
            decreases n - i,
        {
            let room = *self.rooms.get(i);
            let rw = room.rect.w as usize;
            let rh = room.rect.h as usize;
            let base_x = (room.rect.x - bounding_box.x) as usize;
            let base_y = (room.rect.y - bounding_box.y) as usize;
            proof {
                assert forall|gx: int, gy: int|
                    0 <= gx < width && 0 <= gy < height implies #[trigger] painting_cell_at(
                    matrix.view(),
                    width as int,
                    self.rooms@,
                    i as int,
                    0,
                    0,
                    bounding_box,
                    gx,
                    gy,
                ) by {
                    assert(cell_at(
                        matrix.view(),
                        width as int,
                        self.rooms@.take(i as int),
                        bounding_box,
                        gx,
                        gy,
                    ));
                }
            }
            let mut x: usize = 0;
            while x < rw
                invariant
                    x <= rw,
                    i < n == self.rooms@.len(),
                    room == self.rooms@[i as int],
                    grid_room(room),
                    rw == room.rect.w,
                    rh == room.rect.h,
                    is_rooms_bbox(self.rooms@, bounding_box),
                    base_x == room.rect.x - bounding_box.x,
                    base_y == room.rect.y - bounding_box.y,
                    base_x + rw <= width,
                    base_y + rh <= height,
                    width == bounding_box.w,
                    height == bounding_box.h,
                    wf_matrix(&matrix),
                    matrix.w == width,
                    matrix.h == height,
                    forall|gx: int, gy: int|
                        0 <= gx < width && 0 <= gy < height ==> #[trigger] painting_cell_at(
                            matrix.view(),
                            width as int,
                            self.rooms@,
                            i as int,
                            x as int,
                            0,
                            bounding_box,
                            gx,
                            gy,
                        ),
                decreases rw - x,
            {
                let mut y: usize = 0;
                while y < rh
                    invariant
                        y <= rh,
                        x < rw,
                        i < n == self.rooms@.len(),
                        room == self.rooms@[i as int],
                        grid_room(room),
                        rw == room.rect.w,
                        rh == room.rect.h,
                        is_rooms_bbox(self.rooms@, bounding_box),
                        base_x == room.rect.x - bounding_box.x,
                        base_y == room.rect.y - bounding_box.y,
                        base_x + rw <= width,
                        base_y + rh <= height,
                        width == bounding_box.w,
                        height == bounding_box.h,
                        wf_matrix(&matrix),
                        matrix.w == width,
                        matrix.h == height,
                        forall|gx: int, gy: int|
                            0 <= gx < width && 0 <= gy < height ==> #[trigger] painting_cell_at(
                                matrix.view(),
                                width as int,
                                self.rooms@,
                                i as int,
                                x as int,
                                y as int,
                                bounding_box,
                                gx,
                                gy,
                            ),
                    decreases rh - y,
                {
                    let c: char = if x == 0 || x == rw - 1 || y == 0 || y == rh - 1 {
                        '#'
                    } else {
                        '.'
                    };
                    let ghost pre = matrix.view();
                    matrix.set(x + base_x, y + base_y, c);
                    proof {
                        let px = room.rect.x + x as int;
                        let py = room.rect.y + y as int;
                        assert(c == room_char(room, px, py));
                        assert forall|gx: int, gy: int|
                            0 <= gx < width && 0 <= gy < height implies #[trigger] painting_cell_at(
                            matrix.view(),
                            width as int,
                            self.rooms@,
                            i as int,
                            x as int,
                            y as int + 1,
                            bounding_box,
                            gx,
                            gy,
                        ) by {
                            lemma_row_major_index(width as int, height as int, gx, gy);
                            lemma_row_major_index(
                                width as int,
                                height as int,
                                x as int + base_x,
                                y as int + base_y,
                            );
                            if gx == x + base_x && gy == y + base_y {
                                assert(matrix.view()[gy * width + gx] == Some(c));
                                assert(bounding_box.x + gx == px);
                                assert(bounding_box.y + gy == py);
                            } else {
                                lemma_row_major_distinct(
                                    width as int,
                                    gx,
                                    gy,
                                    x as int + base_x,
                                    y as int + base_y,
                                );
                                assert(matrix.view()[gy * width + gx] == pre[gy * width + gx]);
                                assert(painting_cell_at(
                                    pre,
                                    width as int,
                                    self.rooms@,
                                    i as int,
                                    x as int,
                                    y as int,
                                    bounding_box,
                                    gx,
                                    gy,
                                ));
                            }
                        }
                    }
                    y = y + 1;
                }
                proof {
                    assert forall|gx: int, gy: int|
                        0 <= gx < width && 0 <= gy < height implies #[trigger] painting_cell_at(
                        matrix.view(),
                        width as int,
                        self.rooms@,
                        i as int,
                        x as int + 1,
                        0,
                        bounding_box,
                        gx,
                        gy,
                    ) by {
                        assert(painting_cell_at(
                            matrix.view(),
                            width as int,
                            self.rooms@,
                            i as int,
                            x as int,
                            rh as int,
                            bounding_box,
                            gx,
                            gy,
                        ));
                    }
                }
                x = x + 1;
            }
            proof {
                assert(self.rooms@.take(i as int + 1).drop_last() =~= self.rooms@.take(i as int));
                assert(self.rooms@.take(i as int + 1).last() == self.rooms@[i as int]);
                assert forall|gx: int, gy: int|
                    0 <= gx < width && 0 <= gy < height implies #[trigger] cell_at(
                    matrix.view(),
                    width as int,
                    self.rooms@.take(i as int + 1),
                    bounding_box,
                    gx,
                    gy,
                ) by {
                    assert(painting_cell_at(
                        matrix.view(),
                        width as int,
                        self.rooms@,
                        i as int,
                        rw as int,
                        0,
                        bounding_box,
                        gx,
                        gy,
                    ));
                }
            }
            i = i + 1;
        }
        proof {
            assert(self.rooms@.take(n as int) == self.rooms@);
            assert(is_rooms_bbox(self.rooms@, bounding_box) && matrix.w == bounding_box.w
                && matrix.h == bounding_box.h && forall|gx: int, gy: int|
                0 <= gx < matrix.w && 0 <= gy < matrix.h ==> #[trigger] cell_at(
                    matrix.view(),
                    matrix.w as int,
                    self.rooms@,
                    bounding_box,
                    gx,
                    gy,
                ));
        }
        matrix
    }
}

/// Relies on `String::push`: appends the given character to the end of the
/// string.
pub assume_specification[ String::push ](s: &mut String, ch: char)
    ensures
        final(s)@ == old(s)@.push(ch),
;

/// The character a grid cell renders to: the cell's own character, or a
/// blank outside every room.
pub open spec fn rendered_char(c: Option<char>) -> char {
    match c {
        Some(ch) => ch,
        None => ' ',
    }
}

/// Cell `(gx, gy)` of the grid appears, rendered, at its slot of the text:
/// each text row is `w + 2` characters long.
pub open spec fn text_cell_ok(
    text: Seq<char>,
    v: Seq<Option<char>>,
    w: int,
    gx: int,
    gy: int,
) -> bool {
    text[gy * (w + 2) + gx] == rendered_char(v[gy * w + gx])
}

/// Text row `gy` ends in a carriage return and a newline.
pub open spec fn text_row_end_ok(text: Seq<char>, w: int, gy: int) -> bool {
    text[gy * (w + 2) + w] == '\r' && text[gy * (w + 2) + w + 1] == '\n'
}

/// Renders a character grid to text, row by row: each row holds its cells'
/// characters (blank where the grid is unset) followed by a carriage return
/// and a newline.
pub fn render_matrix(matrix: &Matrix<char>) -> (r: String)
    requires
        wf_matrix(matrix),
        (matrix.h as int) * (matrix.w as int + 2) <= 0x4000_0000,
    ensures
        r@.len() == (matrix.h as int) * (matrix.w as int + 2),
        forall|gx: int, gy: int|
            0 <= gx < matrix.w && 0 <= gy < matrix.h ==> #[trigger] text_cell_ok(
                r@,
                matrix.view(),
                matrix.w as int,
                gx,
                gy,
            ),
        forall|gy: int|
            0 <= gy < matrix.h ==> #[trigger] text_row_end_ok(r@, matrix.w as int, gy),
{
    let w = matrix.w;
    let h = matrix.h;
    let mut output = String::new();
    let mut y: usize = 0;
    while y < h
        invariant
            y <= h,
            w == matrix.w,
            h == matrix.h,
            wf_matrix(matrix),
            (h as int) * (w as int + 2) <= 0x4000_0000,
            output@.len() == (y as int) * (w as int + 2),
            forall|gx: int, gy: int|
                0 <= gx < w && 0 <= gy < y ==> #[trigger] text_cell_ok(
                    output@,
                    matrix.view(),
                    w as int,
                    gx,
                    gy,
                ),
            forall|gy: int| 0 <= gy < y ==> #[trigger] text_row_end_ok(output@, w as int, gy),
        decreases h - y,
    {
        proof {
            assert((y as int + 1) * (w as int + 2) == (y as int) * (w as int + 2) + (w as int
                + 2)) by (nonlinear_arith);
            assert((0 <= y as int && y as int + 1 <= h as int && 0 <= w as int) ==> (y as int + 1)
                * (w as int + 2) <= (h as int) * (w as int + 2)) by (nonlinear_arith);
        }
        let ghost row_start = output@.len() as int;
        let mut x: usize = 0;
        while x < w
            invariant
                x <= w,
                y < h,
                w == matrix.w,
                h == matrix.h,
                wf_matrix(matrix),
                row_start == (y as int) * (w as int + 2),
                row_start + (w as int + 2) <= 0x4000_0000,
                output@.len() == row_start + x as int,
                forall|gx: int, gy: int|
                    0 <= gx < w && 0 <= gy < y ==> #[trigger] text_cell_ok(
                        output@,
                        matrix.view(),
                        w as int,
                        gx,
                        gy,
                    ),
                forall|gy: int| 0 <= gy < y ==> #[trigger] text_row_end_ok(output@, w as int, gy),
                forall|gx: int|
                    0 <= gx < x ==> #[trigger] text_cell_ok(
                        output@,
                        matrix.view(),
                        w as int,
                        gx,
                        y as int,
                    ),
            decreases w - x,
        {
            let ghost pre = output@;
            let c: char = match matrix.get(x, y) {
                Some(ch) => *ch,
                None => ' ',
            };
            output.push(c);
            proof {
                lemma_text_prefix_keeps(pre, output@, matrix.view(), w as int, y as int, x as int);
                assert(text_cell_ok(output@, matrix.view(), w as int, x as int, y as int)) by {
                    assert(output@[row_start + x as int] == c);
                }
            }
            x = x + 1;
        }
        let ghost pre_cr = output@;
        output.push('\r');
        output.push('\n');
        proof {
            lemma_text_prefix_keeps(
                pre_cr,
                output@,
                matrix.view(),
                w as int,
                y as int,
                w as int,
            );
            assert(text_row_end_ok(output@, w as int, y as int)) by {
                assert(output@[row_start + w as int] == '\r');
                assert(output@[row_start + w as int + 1] == '\n');
            }
            assert forall|gx: int, gy: int|
                0 <= gx < w && 0 <= gy < y + 1 implies #[trigger] text_cell_ok(
                output@,
                matrix.view(),
                w as int,
                gx,
                gy,
            ) by {
                if gy < y {
                } else {
                    assert(text_cell_ok(output@, matrix.view(), w as int, gx, y as int));
                }
            }
        }
        y = y + 1;
    }
    output
}

/// Text that only grows at its end keeps every already-written cell and row
/// ending of the rows before `y`, and of the first `x` cells of row `y`.
proof fn lemma_text_prefix_keeps(
    pre: Seq<char>,
    cur: Seq<char>,
    v: Seq<Option<char>>,
    w: int,
    y: int,
    x: int,
)
    requires
        0 <= w,
        0 <= y,
        0 <= x <= w + 2,
        pre.len() >= y * (w + 2) + x,
        cur.len() >= pre.len(),
        forall|i: int| 0 <= i < pre.len() ==> #[trigger] cur[i] == pre[i],
        forall|gx: int, gy: int|
            0 <= gx < w && 0 <= gy < y ==> #[trigger] text_cell_ok(pre, v, w, gx, gy),
        forall|gy: int| 0 <= gy < y ==> #[trigger] text_row_end_ok(pre, w, gy),
        forall|gx: int| 0 <= gx < x ==> #[trigger] text_cell_ok(pre, v, w, gx, y),
    ensures
        forall|gx: int, gy: int|
            0 <= gx < w && 0 <= gy < y ==> #[trigger] text_cell_ok(cur, v, w, gx, gy),
        forall|gy: int| 0 <= gy < y ==> #[trigger] text_row_end_ok(cur, w, gy),
        forall|gx: int| 0 <= gx < x ==> #[trigger] text_cell_ok(cur, v, w, gx, y),
{
    assert forall|gx: int, gy: int|
        0 <= gx < w && 0 <= gy < y implies #[trigger] text_cell_ok(cur, v, w, gx, gy) by {
        lemma_slot_in_prefix(w, y, x, gx, gy);
        assert(text_cell_ok(pre, v, w, gx, gy));
        assert(cur[gy * (w + 2) + gx] == pre[gy * (w + 2) + gx]);
    }
    assert forall|gy: int| 0 <= gy < y implies #[trigger] text_row_end_ok(cur, w, gy) by {
        lemma_slot_in_prefix(w, y, x, w, gy);
        lemma_slot_in_prefix(w, y, x, w + 1, gy);
        assert(text_row_end_ok(pre, w, gy));
        assert(cur[gy * (w + 2) + w] == pre[gy * (w + 2) + w]);
        assert(cur[gy * (w + 2) + w + 1] == pre[gy * (w + 2) + w + 1]);
    }
    assert forall|gx: int| 0 <= gx < x implies #[trigger] text_cell_ok(cur, v, w, gx, y) by {
        assert(0 <= y * (w + 2)) by (nonlinear_arith)
            requires
                0 <= y,
                0 <= w,
        ;
        assert(text_cell_ok(pre, v, w, gx, y));
        assert(cur[y * (w + 2) + gx] == pre[y * (w + 2) + gx]);
    }
}

/// A slot of a row before `y`, or of the first `x` slots of row `y`, lies
/// within the first `y * (w + 2) + x` characters.
proof fn lemma_slot_in_prefix(w: int, y: int, x: int, gx: int, gy: int)
    requires
        0 <= w,
        0 <= x,
        0 <= gx < w + 2,
        0 <= gy < y,
    ensures
        0 <= gy * (w + 2) + gx < y * (w + 2) + x,
{
    assert((gy + 1 <= y && 0 <= w) ==> (gy + 1) * (w + 2) <= y * (w + 2)) by (nonlinear_arith);
    assert((gy + 1) * (w + 2) == gy * (w + 2) + (w + 2)) by (nonlinear_arith);
    assert(0 <= gy * (w + 2)) by (nonlinear_arith)
        requires
            0 <= gy,
            0 <= w,
    ;
}

} // verus!
