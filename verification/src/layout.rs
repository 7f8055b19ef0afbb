//! Horizontal tiling of toplevel windows.
//!
//! The tiles of a [`Layout`] share the view side by side: every tile has the
//! same size, tiles are separated by `gap` and the row is inset by `padding`.
use vstd::prelude::*;
use vstd::arithmetic::div_mod::{
    lemma_fundamental_div_mod, lemma_fundamental_div_mod_converse, lemma_mod_pos_bound,
};

verus! {

/// Identifies the surface of a toplevel window.
pub type SurfaceId = u64;

/// A point in logical coordinates.
#[derive(Clone, Copy, Debug, PartialEq, Eq, Structural)]
pub struct Point {
    pub x: i32,
    pub y: i32,
}

/// A size in logical coordinates.
#[derive(Clone, Copy, Debug, PartialEq, Eq, Structural)]
pub struct Size {
    pub w: i32,
    pub h: i32,
}

/// What a client is asked to do: give `surface` the size `size` and
/// acknowledge it with a configure event.
#[derive(Clone, Copy, Debug, PartialEq, Eq, Structural)]
pub struct SizeRequest {
    pub surface: SurfaceId,
    pub size: Size,
}

/// One window of the layout.
#[derive(Clone, Copy, Debug, PartialEq, Eq, Structural)]
pub struct Tile {
    pub toplevel: SurfaceId,
    pub position: Point,
    pub size: Size,
    pub is_focused: bool,
    pub border_width: i32,
}

/// `v` can be held by an `i32`.
pub open spec fn fits_i32(v: int) -> bool {
    i32::MIN <= v <= i32::MAX
}

/// Integer division rounding toward zero, as `/` does on machine integers.
pub open spec fn div_toward_zero(a: int, b: int) -> int {
    if a >= 0 {
        a / b
    } else {
        -((-a) / b)
    }
}

/// `v`, raised to `floor` where it is smaller.
pub open spec fn at_least(v: int, floor: int) -> int {
    if v >= floor {
        v
    } else {
        floor
    }
}

impl Tile {
    /// The request that asks the client for this tile's size.
    pub open spec fn spec_request(self) -> SizeRequest {
        SizeRequest { surface: self.toplevel, size: self.size }
    }

    /// The point `(x, y)` lies inside the tile (left and top edges included,
    /// right and bottom edges excluded).
    pub open spec fn covers(self, x: int, y: int) -> bool {
        &&& self.position.x <= x < self.position.x + self.size.w
        &&& self.position.y <= y < self.position.y + self.size.h
    }

    /// A new, unfocused tile with a border two units wide.
    pub fn new(toplevel: SurfaceId, position: Point, size: Size) -> (tile: Tile)
        ensures
            tile == (Tile { toplevel, position, size, is_focused: false, border_width: 2 }),
    {
        Tile { toplevel, position, size, is_focused: false, border_width: 2 }
    }

    /// The surface shown by this tile.
    pub fn surface_id(&self) -> (id: SurfaceId)
        ensures
            id == self.toplevel,
    {
        self.toplevel
    }

    /// Position and size of the tile.
    pub fn bounds(&self) -> (b: (Point, Size))
        ensures
            b == (self.position, self.size),
    {
        (self.position, self.size)
    }

    /// Whether the point `(x, y)` lies inside the tile.
    pub fn contains_point(&self, x: i32, y: i32) -> (inside: bool)
        ensures
            inside == self.covers(x as int, y as int),
    {
        let px = self.position.x as i64;
        let py = self.position.y as i64;
        let xx = x as i64;
        let yy = y as i64;
        xx >= px && xx < px + self.size.w as i64 && yy >= py && yy < py + self.size.h as i64
    }

    /// The configure request that asks the client to take the tile's size.
    pub fn request_size(&self) -> (request: SizeRequest)
        ensures
            request == self.spec_request(),
    {
        SizeRequest { surface: self.toplevel, size: self.size }
    }
}


/// The mathematical state of a [`Layout`].
#[verifier::ext_equal]
pub struct LayoutModel {
    pub tiles: Seq<Tile>,
    pub focused_idx: Option<usize>,
    pub view_size: Size,
    pub gap: i32,
    pub padding: i32,
}

impl LayoutModel {
    /// The focus, if any, points at a tile.
    pub open spec fn focus_valid(self) -> bool {
        match self.focused_idx {
            Some(i) => i < self.tiles.len(),
            None => true,
        }
    }

    /// The surfaces of the tiles, in order.
    pub open spec fn surfaces(self) -> Seq<SurfaceId> {
        self.tiles.map_values(|t: Tile| t.toplevel)
    }

    /// Number of tiles.
    pub open spec fn count(self) -> int {
        self.tiles.len() as int
    }

    /// The size each tile gets when `count` tiles share the view: the width
    /// left after the padding on both sides and the gaps between tiles,
    /// divided evenly (rounding toward zero), and the height left after the
    /// padding above and below; each at least 100. With no tiles, the view.
    pub open spec fn tile_size(self, count: int) -> Size {
        if count == 0 {
            self.view_size
        } else {
            Size {
                w: at_least(
                    div_toward_zero(
                        self.view_size.w - 2 * self.padding - self.gap * (count - 1),
                        count,
                    ),
                    100,
                ) as i32,
                h: at_least(self.view_size.h - 2 * self.padding, 100) as i32,
            }
        }
    }

    /// Every intermediate value of the tile size computation for `count`
    /// tiles fits in an `i32`.
    pub open spec fn tile_size_defined(self, count: int) -> bool {
        count == 0 || {
            &&& 1 <= count <= i32::MAX
            &&& fits_i32(2 * self.padding)
            &&& fits_i32(self.view_size.w - 2 * self.padding)
            &&& fits_i32(self.view_size.h - 2 * self.padding)
            &&& fits_i32(self.gap * (count - 1))
            &&& fits_i32(self.view_size.w - 2 * self.padding - self.gap * (count - 1))
        }
    }

    /// Left edge of the tile in slot `i` when `count` tiles share the view.
    pub open spec fn slot_x(self, count: int, i: int) -> int {
        self.padding + i * (self.tile_size(count).w + self.gap)
    }

    /// Every intermediate value of arranging `count` tiles in a row fits in
    /// an `i32`.
    pub open spec fn row_defined(self, count: int) -> bool {
        count == 0 || {
            &&& self.tile_size_defined(count)
            &&& fits_i32(self.tile_size(count).w + self.gap)
            &&& fits_i32(self.slot_x(count, count))
        }
    }

    /// The current tiles can be arranged without overflow.
    pub open spec fn can_relayout(self) -> bool {
        self.row_defined(self.count())
    }

    /// Tile `i` after arranging: in slot `i` at height `padding`, with the
    /// common tile size, focused exactly when it is the focused index.
    pub open spec fn arranged_tile(self, i: int) -> Tile {
        Tile {
            toplevel: self.tiles[i].toplevel,
            position: Point { x: self.slot_x(self.count(), i) as i32, y: self.padding },
            size: self.tile_size(self.count()),
            is_focused: self.focused_idx == Some(i as usize),
            border_width: self.tiles[i].border_width,
        }
    }

    /// The state after arranging the tiles.
    pub open spec fn relayout(self) -> LayoutModel {
        LayoutModel { tiles: Seq::new(self.tiles.len(), |i: int| self.arranged_tile(i)), ..self }
    }

    /// The size requests sent while arranging: one per tile, in order.
    pub open spec fn size_requests(self) -> Seq<SizeRequest> {
        Seq::new(self.tiles.len(), |i: int| self.arranged_tile(i).spec_request())
    }

    /// The state with the view resized to `width` by `height`, before
    /// arranging.
    pub open spec fn with_view_size(self, width: i32, height: i32) -> LayoutModel {
        LayoutModel { view_size: Size { w: width, h: height }, ..self }
    }

    /// The state with a tile for `toplevel` appended and focused, before
    /// arranging. The new tile starts at `(padding, padding)` with the size
    /// that each of the enlarged set of tiles gets.
    pub open spec fn added(self, toplevel: SurfaceId) -> LayoutModel {
        LayoutModel {
            tiles: self.tiles.push(
                Tile {
                    toplevel,
                    position: Point { x: self.padding, y: self.padding },
                    size: self.tile_size(self.count() + 1),
                    is_focused: false,
                    border_width: 2,
                },
            ),
            focused_idx: Some(self.count() as usize),
            ..self
        }
    }

    /// Some tile shows the surface `id`.
    pub open spec fn holds(self, id: SurfaceId) -> bool {
        exists|i: int| 0 <= i < self.tiles.len() && #[trigger] self.tiles[i].toplevel == id
    }

    /// Tile `i` is the first tile that shows the surface `id`.
    pub open spec fn is_first_match(self, id: SurfaceId, i: int) -> bool {
        &&& 0 <= i < self.tiles.len()
        &&& self.tiles[i].toplevel == id
        &&& forall|j: int| 0 <= j < i ==> #[trigger] self.tiles[j].toplevel != id
    }

    /// Index of the first tile that shows the surface `id` (meaningful when
    /// some tile does).
    pub open spec fn first_match(self, id: SurfaceId) -> int {
        choose|i: int| self.is_first_match(id, i)
    }

    /// The state with the first tile of the surface `id` taken out, before
    /// arranging. A focus that no longer points at a tile moves to the last
    /// tile, or is dropped when no tile is left.
    pub open spec fn removed(self, id: SurfaceId) -> LayoutModel {
        let rest = self.tiles.remove(self.first_match(id));
        LayoutModel {
            tiles: rest,
            focused_idx: match self.focused_idx {
                Some(f) => if f >= rest.len() {
                    if rest.len() == 0 {
                        None
                    } else {
                        Some((rest.len() - 1) as usize)
                    }
                } else {
                    Some(f)
                },
                None => None,
            },
            ..self
        }
    }

    /// The focus after moving it forward: to the next tile, wrapping around
    /// after the last; to the first tile when nothing is focused.
    pub open spec fn next_focus(self) -> Option<usize> {
        match self.focused_idx {
            Some(i) => if self.tiles.len() > 0 {
                Some(((i + 1) % self.count()) as usize)
            } else {
                Some(i)
            },
            None => if self.tiles.len() > 0 {
                Some(0)
            } else {
                None
            },
        }
    }

    /// The focus after moving it back: to the previous tile, wrapping around
    /// before the first; to the last tile when nothing is focused.
    pub open spec fn prev_focus(self) -> Option<usize> {
        match self.focused_idx {
            Some(i) => if self.tiles.len() > 0 {
                if i == 0 {
                    Some((self.count() - 1) as usize)
                } else {
                    Some((i - 1) as usize)
                }
            } else {
                Some(i)
            },
            None => if self.tiles.len() > 0 {
                Some((self.count() - 1) as usize)
            } else {
                None
            },
        }
    }

    /// The state with the focus set to `focus`; the tiles are not touched.
    pub open spec fn with_focus(self, focus: Option<usize>) -> LayoutModel {
        LayoutModel { focused_idx: focus, ..self }
    }

    /// The focused tile, if the focus points at a tile.
    pub open spec fn focused_tile(self) -> Option<Tile> {
        match self.focused_idx {
            Some(i) => if i < self.tiles.len() {
                Some(self.tiles[i as int])
            } else {
                None
            },
            None => None,
        }
    }

    /// Some tile covers the point `(x, y)`.
    pub open spec fn covers(self, x: int, y: int) -> bool {
        exists|i: int| 0 <= i < self.tiles.len() && #[trigger] self.tiles[i].covers(x, y)
    }

    /// Tile `i` is the first tile that covers the point `(x, y)`.
    pub open spec fn is_first_cover(self, x: int, y: int, i: int) -> bool {
        &&& 0 <= i < self.tiles.len()
        &&& self.tiles[i].covers(x, y)
        &&& forall|j: int| 0 <= j < i ==> !#[trigger] self.tiles[j].covers(x, y)
    }

    /// Index of the first tile that covers `(x, y)` (meaningful when some
    /// tile does).
    pub open spec fn first_cover(self, x: int, y: int) -> int {
        choose|i: int| self.is_first_cover(x, y, i)
    }
}

/// Arranged tiles form one row: all have the same size, all stand at height
/// `padding`, the first starts at `padding`, each next one starts one tile
/// width and one gap after the one before, and with a gap that is not
/// negative no tile overlaps a later one.
pub proof fn lemma_relayout_row(m: LayoutModel)
    requires
        m.can_relayout(),
        m.tiles.len() > 0,
    ensures
        ({
            let r = m.relayout();
            &&& r.tiles.len() == m.tiles.len()
            &&& r.tiles[0].position.x == m.padding
            &&& forall|i: int| 0 <= i < r.tiles.len() ==> #[trigger] r.tiles[i].size == r.tiles[0].size
            &&& forall|i: int| 0 <= i < r.tiles.len() ==> #[trigger] r.tiles[i].position.y == m.padding
            &&& forall|i: int|
                0 <= i && i + 1 < r.tiles.len() ==> #[trigger] r.tiles[i + 1].position.x
                    == r.tiles[i].position.x + r.tiles[i].size.w + m.gap
            &&& m.gap >= 0 ==> forall|i: int, j: int|
                0 <= i < j < r.tiles.len() ==> #[trigger] r.tiles[i].position.x + r.tiles[i].size.w
                    <= #[trigger] r.tiles[j].position.x
        }),
{
    let r = m.relayout();
    let n = m.count();
    let w = m.tile_size(n).w as int;
    assert forall|i: int| 0 <= i && i + 1 < r.tiles.len() implies #[trigger] r.tiles[i + 1].position.x
        == r.tiles[i].position.x + r.tiles[i].size.w + m.gap by {
        lemma_slot_in_range(m, n, i);
        lemma_slot_in_range(m, n, i + 1);
        lemma_slot_step(m, n, i);
    }
    if m.gap >= 0 {
        assert forall|i: int, j: int| 0 <= i < j < r.tiles.len() implies #[trigger] r.tiles[i].position.x
            + r.tiles[i].size.w <= #[trigger] r.tiles[j].position.x by {
            lemma_slot_in_range(m, n, i);
            lemma_slot_in_range(m, n, j);
            let s = w + m.gap;
            assert(w >= 100);
            assert(i * s + s <= j * s) by (nonlinear_arith)
                requires
                    i < j,
                    s >= 0,
            ;
            lemma_slot_step(m, n, i);
        }
    }
}

/// After arranging, a tile is marked focused exactly when the focus points
/// at it, so at most one tile is marked.
pub proof fn lemma_relayout_marks_focus(m: LayoutModel)
    requires
        m.tiles.len() <= usize::MAX,
    ensures
        forall|i: int|
            0 <= i < m.tiles.len() ==> (#[trigger] m.relayout().tiles[i].is_focused <==> m.focused_idx
                == Some(i as usize)),
        forall|i: int, j: int|
            0 <= i < m.tiles.len() && 0 <= j < m.tiles.len() && i != j ==> !(
            #[trigger] m.relayout().tiles[i].is_focused && #[trigger] m.relayout().tiles[j].is_focused),
{
}

/// Arranging keeps the surfaces, their order, the focus, the view, the gap
/// and the padding; arranging twice gives what arranging once gives.
pub proof fn lemma_relayout_idempotent(m: LayoutModel)
    requires
        m.can_relayout(),
    ensures
        m.relayout().surfaces() == m.surfaces(),
        m.relayout().focused_idx == m.focused_idx,
        m.relayout().view_size == m.view_size,
        m.relayout().gap == m.gap,
        m.relayout().padding == m.padding,
        m.relayout().can_relayout(),
        m.relayout().relayout() == m.relayout(),
        m.relayout().size_requests() == m.size_requests(),
{
    let r = m.relayout();
    assert(r.surfaces() =~= m.surfaces());
    assert(r.relayout().tiles =~= r.tiles);
    assert(r.size_requests() =~= m.size_requests());
}

/// Every operation keeps the focus on a tile: adding and removing a tile
/// always leave it there, and arranging, moving the focus and focusing by
/// point keep it there.
pub proof fn lemma_focus_stays_on_a_tile(m: LayoutModel, id: SurfaceId, x: int, y: int)
    ensures
        m.added(id).focus_valid(),
        m.added(id).relayout().focus_valid(),
        m.holds(id) ==> m.removed(id).focus_valid(),
        m.holds(id) ==> m.removed(id).relayout().focus_valid(),
        m.focus_valid() ==> m.relayout().focus_valid(),
        m.focus_valid() ==> m.with_focus(m.next_focus()).focus_valid(),
        m.focus_valid() ==> m.with_focus(m.prev_focus()).focus_valid(),
        m.covers(x, y) ==> m.with_focus(Some(m.first_cover(x, y) as usize)).focus_valid(),
        m.tiles.len() > 0 ==> m.next_focus() is Some && m.prev_focus() is Some,
{
    if m.holds(id) {
        let i = choose|i: int| 0 <= i < m.tiles.len() && #[trigger] m.tiles[i].toplevel == id;
        assert(m.tiles[i].toplevel == id);
        lemma_first_match_exists(m, id);
    }
    if m.covers(x, y) {
        lemma_first_cover_exists(m, x, y);
    }
}

/// Moving the focus forward and then back, or back and then forward,
/// returns it to the tile it was on.
pub proof fn lemma_focus_next_prev_inverse(m: LayoutModel)
    requires
        m.focused_idx is Some,
        m.focus_valid(),
        m.tiles.len() <= usize::MAX,
    ensures
        m.with_focus(m.next_focus()).prev_focus() == m.focused_idx,
        m.with_focus(m.prev_focus()).next_focus() == m.focused_idx,
{
    let i = m.focused_idx.unwrap() as int;
    let n = m.count();
    assert(0 <= i < n);
    if i + 1 < n {
        assert((i + 1) % n == i + 1) by (nonlinear_arith)
            requires
                0 <= i + 1 < n,
        ;
    } else {
        assert((i + 1) % n == 0) by (nonlinear_arith)
            requires
                i + 1 == n,
                n > 0,
        ;
    }
    if i == 0 {
        assert((n - 1 + 1) % n == 0) by (nonlinear_arith)
            requires
                n > 0,
        ;
    } else {
        assert((i - 1 + 1) % n == i) by (nonlinear_arith)
            requires
                0 <= i < n,
        ;
    }
}

/// Adding a tile for a surface that no tile shows, then removing that
/// surface, gives back the surfaces in their order and the arrangement of
/// the tiles before; the focus ends on the last tile, or nowhere when no tile
/// is left.
pub proof fn lemma_add_then_remove(m: LayoutModel, id: SurfaceId)
    requires
        !m.holds(id),
        m.added(id).can_relayout(),
    ensures
        m.added(id).relayout().holds(id),
        m.added(id).relayout().removed(id).relayout().tiles.len() == m.tiles.len(),
        m.added(id).relayout().removed(id).relayout().surfaces() == m.surfaces(),
        m.added(id).relayout().removed(id).relayout().focused_idx == if m.tiles.len() == 0 {
            None
        } else {
            Some((m.tiles.len() - 1) as usize)
        },
        m.added(id).relayout().removed(id).relayout().view_size == m.view_size,
        m.added(id).relayout().removed(id).relayout().gap == m.gap,
        m.added(id).relayout().removed(id).relayout().padding == m.padding,
        m.added(id).relayout().removed(id).surfaces() == m.surfaces(),
        m.added(id).relayout().removed(id).relayout() == m.with_focus(
            if m.tiles.len() == 0 {
                None
            } else {
                Some((m.tiles.len() - 1) as usize)
            },
        ).relayout(),
{
    let n = m.count();
    let a = m.added(id).relayout();
    assert(a.tiles[n].toplevel == id);
    assert forall|j: int| 0 <= j < n implies #[trigger] a.tiles[j].toplevel != id by {
        assert(m.tiles[j].toplevel != id);
    }
    assert(a.is_first_match(id, n));
    lemma_first_match_unique(a, id, n);
    let rem = a.removed(id);
    assert(rem.tiles =~= a.tiles.subrange(0, n));
    assert(rem.surfaces() =~= m.surfaces());
    assert(rem.relayout().surfaces() =~= m.surfaces());
    assert(rem.relayout().tiles =~= m.with_focus(rem.focused_idx).relayout().tiles);
}

/// After a tile for a surface that no tile shows is added, the surface is
/// found in the last tile, and that tile is the focused one.
pub proof fn lemma_added_tile_found_and_focused(m: LayoutModel, id: SurfaceId)
    requires
        !m.holds(id),
        m.tiles.len() < usize::MAX,
    ensures
        m.added(id).relayout().holds(id),
        m.added(id).relayout().first_match(id) == m.tiles.len(),
        m.added(id).relayout().focused_tile() == Some(m.added(id).relayout().tiles[m.tiles.len() as int]),
        m.added(id).relayout().tiles[m.tiles.len() as int].toplevel == id,
        m.added(id).relayout().tiles[m.tiles.len() as int].is_focused,
{
    let n = m.count();
    let a = m.added(id).relayout();
    assert forall|j: int| 0 <= j < n implies #[trigger] a.tiles[j].toplevel != id by {
        assert(m.tiles[j].toplevel != id);
    }
    assert(a.is_first_match(id, n));
    lemma_first_match_unique(a, id, n);
}

/// Removing the tile of a surface leaves the focus on a tile whatever it was
/// before; the focus is dropped exactly when no tile is left or nothing was
/// focused.
pub proof fn lemma_remove_repairs_focus(m: LayoutModel, id: SurfaceId)
    requires
        m.holds(id),
    ensures
        m.removed(id).relayout().tiles.len() == m.tiles.len() - 1,
        m.removed(id).relayout().focus_valid(),
        m.removed(id).relayout().focused_idx is None <==> (m.tiles.len() == 1
            || m.focused_idx is None),
{
    lemma_first_match_exists(m, id);
}

/// After a tile is added, whatever the focus was, the new last tile is the
/// only one marked focused and the focus points at it.
pub proof fn lemma_added_tile_is_the_only_focused(m: LayoutModel, id: SurfaceId)
    requires
        m.tiles.len() < usize::MAX,
    ensures
        m.added(id).relayout().focus_valid(),
        m.added(id).relayout().focused_idx == Some(m.tiles.len() as usize),
        m.added(id).relayout().tiles[m.tiles.len() as int].is_focused,
        forall|j: int| 0 <= j < m.tiles.len() ==> !#[trigger] m.added(id).relayout().tiles[j].is_focused,
        m.added(id).relayout().tiles.len() == m.tiles.len() + 1,
        m.added(id).relayout().tiles[m.tiles.len() as int].toplevel == id,
        m.added(id).relayout().tiles[m.tiles.len() as int].border_width == 2,
        m.added(id).relayout().surfaces() == m.surfaces().push(id),
{
    assert(m.added(id).relayout().surfaces() =~= m.surfaces().push(id));
}

/// Removing the only tile of a surface leaves no tile of it.
pub proof fn lemma_remove_only_tile(m: LayoutModel, id: SurfaceId, i: int)
    requires
        0 <= i < m.tiles.len(),
        m.tiles[i].toplevel == id,
        forall|j: int| 0 <= j < m.tiles.len() && j != i ==> #[trigger] m.tiles[j].toplevel != id,
    ensures
        !m.removed(id).holds(id),
        !m.removed(id).relayout().holds(id),
{
    assert(m.is_first_match(id, i));
    lemma_first_match_unique(m, id, i);
    let rest = m.removed(id).tiles;
    assert forall|j: int| 0 <= j < rest.len() implies #[trigger] rest[j].toplevel != id by {
        if j < i {
            assert(rest[j] == m.tiles[j]);
        } else {
            assert(rest[j] == m.tiles[j + 1]);
        }
    }
    let r = m.removed(id).relayout();
    assert forall|j: int| 0 <= j < r.tiles.len() implies #[trigger] r.tiles[j].toplevel != id by {
        assert(r.tiles[j].toplevel == rest[j].toplevel);
    }
}

/// The focus after moving it forward `k` times.
pub open spec fn focus_after_next(m: LayoutModel, k: nat) -> Option<usize>
    decreases k,
{
    if k == 0 {
        m.focused_idx
    } else {
        m.with_focus(focus_after_next(m, (k - 1) as nat)).next_focus()
    }
}

/// Moving the focus forward `k` times from tile `i` of `n` lands on tile
/// `(i + k) mod n`.
pub proof fn lemma_focus_after_next(m: LayoutModel, k: nat)
    requires
        m.tiles.len() > 0,
        m.tiles.len() <= usize::MAX,
        m.focused_idx is Some,
        m.focus_valid(),
    ensures
        focus_after_next(m, k) == Some(((m.focused_idx.unwrap() + k) % m.count()) as usize),
    decreases k,
{
    let i = m.focused_idx.unwrap() as int;
    let n = m.count();
    if k == 0 {
        lemma_fundamental_div_mod_converse(i, n, 0, i);
    } else {
        lemma_focus_after_next(m, (k - 1) as nat);
        let x = i + k - 1;
        let j = x % n;
        lemma_fundamental_div_mod(x, n);
        lemma_mod_pos_bound(x, n);
        let q = x / n;
        if j + 1 < n {
            lemma_fundamental_div_mod_converse(x + 1, n, q, j + 1);
            lemma_fundamental_div_mod_converse(j + 1, n, 0, j + 1);
        } else {
            assert(x + 1 == n * (q + 1) + 0) by (nonlinear_arith)
                requires
                    x == n * q + j,
                    j + 1 == n,
            ;
            lemma_fundamental_div_mod_converse(x + 1, n, q + 1, 0);
            lemma_fundamental_div_mod_converse(j + 1, n, 1, 0);
        }
    }
}

/// Moving the focus forward once per tile visits every tile exactly once and
/// returns to the tile it started on.
pub proof fn lemma_focus_next_cycles(m: LayoutModel)
    requires
        m.tiles.len() > 0,
        m.tiles.len() <= usize::MAX,
        m.focused_idx is Some,
        m.focus_valid(),
    ensures
        focus_after_next(m, m.tiles.len()) == m.focused_idx,
        forall|a: nat, b: nat|
            a < b < m.tiles.len() ==> #[trigger] focus_after_next(m, a) != #[trigger] focus_after_next(
                m,
                b,
            ),
{
    let i = m.focused_idx.unwrap() as int;
    let n = m.count();
    lemma_focus_after_next(m, n as nat);
    lemma_fundamental_div_mod_converse(i + n, n, 1, i);
    assert forall|a: nat, b: nat| a < b < m.tiles.len() implies #[trigger] focus_after_next(m, a)
        != #[trigger] focus_after_next(m, b) by {
        lemma_focus_after_next(m, a);
        lemma_focus_after_next(m, b);
        let ra = if i + a < n {
            i + a
        } else {
            i + a - n
        };
        let rb = if i + b < n {
            i + b
        } else {
            i + b - n
        };
        if i + a < n {
            lemma_fundamental_div_mod_converse(i + a, n, 0, ra);
        } else {
            lemma_fundamental_div_mod_converse(i + a, n, 1, ra);
        }
        if i + b < n {
            lemma_fundamental_div_mod_converse(i + b, n, 0, rb);
        } else {
            lemma_fundamental_div_mod_converse(i + b, n, 1, rb);
        }
        assert(ra != rb);
    }
}

/// Division rounding toward zero keeps the order of the exact quotients:
/// `a / c <= b / d` gives `div_toward_zero(a, c) <= div_toward_zero(b, d)`.
proof fn lemma_div_toward_zero_ordered(a: int, c: int, b: int, d: int)
    requires
        c > 0,
        d > 0,
        a * d <= b * c,
    ensures
        div_toward_zero(a, c) <= div_toward_zero(b, d),
{
    if a >= 0 && b >= 0 {
        lemma_floor_div_ordered(a, c, b, d);
    } else if a < 0 && b >= 0 {
        lemma_fundamental_div_mod(-a, c);
        lemma_mod_pos_bound(-a, c);
        lemma_fundamental_div_mod(b, d);
        lemma_mod_pos_bound(b, d);
        assert((-a) / c >= 0) by (nonlinear_arith)
            requires
                -a == c * ((-a) / c) + (-a) % c,
                (-a) % c < c,
                -a > 0,
                c > 0,
        ;
        assert(b / d >= 0) by (nonlinear_arith)
            requires
                b == d * (b / d) + b % d,
                b % d < d,
                b >= 0,
                d > 0,
        ;
    } else if a >= 0 && b < 0 {
        assert(false) by (nonlinear_arith)
            requires
                a >= 0,
                b < 0,
                c > 0,
                d > 0,
                a * d <= b * c,
        ;
    } else {
        assert((-b) * c <= (-a) * d) by (nonlinear_arith)
            requires
                a * d <= b * c,
        ;
        lemma_floor_div_ordered(-b, d, -a, c);
    }
}

proof fn lemma_floor_div_ordered(a: int, c: int, b: int, d: int)
    requires
        a >= 0,
        b >= 0,
        c > 0,
        d > 0,
        a * d <= b * c,
    ensures
        a / c <= b / d,
{
    lemma_fundamental_div_mod(a, c);
    lemma_mod_pos_bound(a, c);
    lemma_fundamental_div_mod(b, d);
    lemma_mod_pos_bound(b, d);
    let q = a / c;
    let r = b / d;
    if q > r {
        assert(false) by (nonlinear_arith)
            requires
                a == c * q + a % c,
                0 <= a % c,
                b == d * r + b % d,
                b % d < d,
                q >= r + 1,
                c > 0,
                d > 0,
                a * d <= b * c,
        ;
    }
}

/// Sharing the view among more tiles never makes a tile wider, as long as
/// the width inside the padding plus one gap is not negative, and leaves the
/// tile height as it is.
pub proof fn lemma_more_tiles_not_wider(m: LayoutModel, c1: int, c2: int)
    requires
        0 < c1 <= c2,
        m.tile_size_defined(c1),
        m.tile_size_defined(c2),
        m.view_size.w - 2 * m.padding + m.gap >= 0,
    ensures
        m.tile_size(c2).w <= m.tile_size(c1).w,
        m.tile_size(c2).h == m.tile_size(c1).h,
{
    let a = m.view_size.w - 2 * m.padding;
    let g = m.gap as int;
    let n1 = a - g * (c1 - 1);
    let n2 = a - g * (c2 - 1);
    assert(n2 * c1 <= n1 * c2) by (nonlinear_arith)
        requires
            n1 == a - g * (c1 - 1),
            n2 == a - g * (c2 - 1),
            a + g >= 0,
            0 < c1 <= c2,
    ;
    lemma_div_toward_zero_ordered(n2, c2, n1, c1);
}

/// Arranging gives every tile the same size: its height is the view height
/// less the padding above and below, its width the view width less the
/// padding on both sides and the gaps between the tiles, shared evenly
/// (rounding toward zero); each at least 100. Tile `i` stands at height
/// `padding` and `i` tile widths and gaps right of `padding`. Surfaces,
/// borders, the focus and the settings are kept, and the focused tile is the
/// one marked focused.
pub proof fn lemma_relayout_geometry(m: LayoutModel)
    requires
        m.can_relayout(),
        m.tiles.len() <= usize::MAX,
    ensures
        ({
            let r = m.relayout();
            let n = m.tiles.len() as int;
            let a = m.view_size.w - 2 * m.padding - m.gap * (n - 1);
            let q = if a >= 0 {
                a / n
            } else {
                -((-a) / n)
            };
            let w = if q >= 100 {
                q
            } else {
                100
            };
            let h = if m.view_size.h - 2 * m.padding >= 100 {
                m.view_size.h - 2 * m.padding
            } else {
                100
            };
            &&& r.tiles.len() == n
            &&& r.view_size == m.view_size
            &&& r.gap == m.gap
            &&& r.padding == m.padding
            &&& r.focused_idx == m.focused_idx
            &&& m.size_requests().len() == n
            &&& forall|i: int|
                0 <= i < n ==> #[trigger] m.size_requests()[i] == (SizeRequest {
                    surface: m.tiles[i].toplevel,
                    size: r.tiles[i].size,
                })
            &&& forall|i: int|
                0 <= i < n ==> {
                    &&& #[trigger] r.tiles[i].size.w == w
                    &&& r.tiles[i].size.h == h
                    &&& r.tiles[i].position.x == m.padding + i * (w + m.gap)
                    &&& r.tiles[i].position.y == m.padding
                    &&& r.tiles[i].toplevel == m.tiles[i].toplevel
                    &&& r.tiles[i].border_width == m.tiles[i].border_width
                    &&& (r.tiles[i].is_focused <==> m.focused_idx == Some(i as usize))
                }
        }),
{
    let n = m.count();
    assert forall|i: int| 0 <= i < n implies fits_i32(m.slot_x(n, i)) by {
        lemma_slot_in_range(m, n, i);
    }
}

/// Resizing the view stores the new size whatever the tiles, none included,
/// and arranges the tiles for it: every tile gets the view height less the
/// padding (at least 100) and stands at `(padding, padding)` when it is the
/// first.
pub proof fn lemma_set_view_size_arranges(m: LayoutModel, width: i32, height: i32)
    requires
        m.with_view_size(width, height).can_relayout(),
        m.tiles.len() <= usize::MAX,
    ensures
        m.with_view_size(width, height).relayout().view_size == (Size { w: width, h: height }),
        m.with_view_size(width, height).relayout().tiles.len() == m.tiles.len(),
        m.with_view_size(width, height).relayout().focused_idx == m.focused_idx,
        m.with_view_size(width, height).relayout().gap == m.gap,
        m.with_view_size(width, height).relayout().padding == m.padding,
        forall|i: int|
            0 <= i < m.tiles.len() ==> #[trigger] m.with_view_size(width, height).relayout().tiles[i].size.h
                == if height - 2 * m.padding >= 100 {
                height - 2 * m.padding
            } else {
                100
            },
        m.tiles.len() > 0 ==> m.with_view_size(width, height).relayout().tiles[0].position == (Point {
            x: m.padding,
            y: m.padding,
        }),
        m.tiles.len() == 1 ==> m.with_view_size(width, height).relayout().tiles[0].size.w == if width
            - 2 * m.padding >= 100 {
            width - 2 * m.padding
        } else {
            100
        },
{
    let v = m.with_view_size(width, height);
    lemma_relayout_geometry(v);
    if m.tiles.len() == 1 {
        let a = width - 2 * m.padding - m.gap * (1 - 1);
        assert(a == width - 2 * m.padding);
        if a >= 0 {
            assert(a / 1 == a) by (nonlinear_arith);
        } else {
            assert((-a) / 1 == -a) by (nonlinear_arith);
        }
    }
}

/// Removing a tile takes out the first tile that shows the surface and
/// keeps the focus where it was when it still points at a tile; only a focus
/// on the former last position moves to the new last tile, or is dropped
/// when no tile is left.
pub proof fn lemma_remove_keeps_focus(m: LayoutModel, id: SurfaceId)
    requires
        m.holds(id),
    ensures
        ({
            let r = m.removed(id).relayout();
            &&& exists|i: int|
                0 <= i < m.tiles.len() && #[trigger] m.tiles[i].toplevel == id && (forall|j: int|
                    0 <= j < i ==> #[trigger] m.tiles[j].toplevel != id) && r.surfaces()
                    == m.surfaces().remove(i)
            &&& r.tiles.len() == m.tiles.len() - 1
            &&& match m.focused_idx {
                Some(f) => if f + 1 < m.tiles.len() {
                    r.focused_idx == Some(f)
                } else {
                    r.focused_idx == if m.tiles.len() == 1 {
                        None
                    } else {
                        Some((m.tiles.len() - 2) as usize)
                    }
                },
                None => r.focused_idx is None,
            }
        }),
{
    lemma_first_match_exists(m, id);
    let i = m.first_match(id);
    let r = m.removed(id).relayout();
    assert(r.surfaces() =~= m.surfaces().remove(i));
    assert(m.tiles[i].toplevel == id);
}

/// Moving the focus from nothing goes to the first tile forward and to the
/// last tile back; with no tiles the focus does not move.
pub proof fn lemma_focus_moves_from_nothing(m: LayoutModel)
    ensures
        m.focused_idx is None && m.tiles.len() > 0 ==> m.next_focus() == Some(0usize),
        m.focused_idx is None && m.tiles.len() > 0 ==> m.prev_focus() == Some(
            (m.tiles.len() - 1) as usize,
        ),
        m.tiles.len() == 0 ==> m.next_focus() == m.focused_idx && m.prev_focus() == m.focused_idx,
{
}

/// The focused tile is the tile the focus points at, and there is none when
/// the focus is dropped or points past the tiles.
pub proof fn lemma_focused_tile_is_pointed_at(m: LayoutModel)
    ensures
        m.focused_tile() == match m.focused_idx {
            Some(i) => if i < m.tiles.len() {
                Some(m.tiles[i as int])
            } else {
                None
            },
            None => None,
        },
{
}

/// A tile covers a point exactly when the point lies in the half-open
/// rectangle from its position to its position plus its size.
pub proof fn lemma_tile_covers(t: Tile, x: int, y: int)
    ensures
        t.covers(x, y) <==> (t.position.x <= x && x < t.position.x + t.size.w && t.position.y <= y
            && y < t.position.y + t.size.h),
{
}

/// The tile found for a surface is the first tile that shows it, and one is
/// found exactly when some tile shows it.
pub proof fn lemma_found_tile_is_first(m: LayoutModel, id: SurfaceId)
    ensures
        m.holds(id) <==> exists|i: int| 0 <= i < m.tiles.len() && #[trigger] m.tiles[i].toplevel == id,
        m.holds(id) ==> {
            let i = m.first_match(id);
            &&& 0 <= i < m.tiles.len()
            &&& m.tiles[i].toplevel == id
            &&& forall|j: int| 0 <= j < i ==> #[trigger] m.tiles[j].toplevel != id
        },
{
    if m.holds(id) {
        lemma_first_match_exists(m, id);
    }
}

/// Focusing by point picks the first tile that covers the point, and one is
/// picked exactly when some tile covers it.
pub proof fn lemma_focus_at_picks_first(m: LayoutModel, x: int, y: int)
    ensures
        m.covers(x, y) <==> exists|i: int| 0 <= i < m.tiles.len() && #[trigger] m.tiles[i].covers(x, y),
        m.covers(x, y) ==> {
            let i = m.first_cover(x, y);
            &&& 0 <= i < m.tiles.len()
            &&& m.tiles[i].position.x <= x < m.tiles[i].position.x + m.tiles[i].size.w
            &&& m.tiles[i].position.y <= y < m.tiles[i].position.y + m.tiles[i].size.h
            &&& forall|j: int| 0 <= j < i ==> !#[trigger] m.tiles[j].covers(x, y)
        },
{
    if m.covers(x, y) {
        lemma_first_cover_exists(m, x, y);
    }
}

/// When some tile shows a surface, a first such tile exists.
proof fn lemma_first_match_exists(m: LayoutModel, id: SurfaceId)
    requires
        m.holds(id),
    ensures
        m.is_first_match(id, m.first_match(id)),
{
    let i = choose|i: int| 0 <= i < m.tiles.len() && #[trigger] m.tiles[i].toplevel == id;
    lemma_first_match_at_or_before(m, id, i);
}

proof fn lemma_first_match_at_or_before(m: LayoutModel, id: SurfaceId, i: int)
    requires
        0 <= i < m.tiles.len(),
        m.tiles[i].toplevel == id,
    ensures
        exists|k: int| m.is_first_match(id, k),
    decreases i,
{
    if forall|j: int| 0 <= j < i ==> #[trigger] m.tiles[j].toplevel != id {
        assert(m.is_first_match(id, i));
    } else {
        let j = choose|j: int| 0 <= j < i && #[trigger] m.tiles[j].toplevel == id;
        lemma_first_match_at_or_before(m, id, j);
    }
}

/// When some tile covers a point, a first such tile exists.
proof fn lemma_first_cover_exists(m: LayoutModel, x: int, y: int)
    requires
        m.covers(x, y),
    ensures
        m.is_first_cover(x, y, m.first_cover(x, y)),
{
    let i = choose|i: int| 0 <= i < m.tiles.len() && #[trigger] m.tiles[i].covers(x, y);
    lemma_first_cover_at_or_before(m, x, y, i);
}

proof fn lemma_first_cover_at_or_before(m: LayoutModel, x: int, y: int, i: int)
    requires
        0 <= i < m.tiles.len(),
        m.tiles[i].covers(x, y),
    ensures
        exists|k: int| m.is_first_cover(x, y, k),
    decreases i,
{
    if forall|j: int| 0 <= j < i ==> !#[trigger] m.tiles[j].covers(x, y) {
        assert(m.is_first_cover(x, y, i));
    } else {
        let j = choose|j: int| 0 <= j < i && #[trigger] m.tiles[j].covers(x, y);
        lemma_first_cover_at_or_before(m, x, y, j);
    }
}

/// There is one first tile of a surface.
pub proof fn lemma_first_match_unique(m: LayoutModel, id: SurfaceId, i: int)
    requires
        m.is_first_match(id, i),
    ensures
        m.holds(id),
        m.first_match(id) == i,
{
    assert(m.tiles[i].toplevel == id);
    let k = m.first_match(id);
    assert(m.is_first_match(id, k));
    if k < i {
        assert(m.tiles[k].toplevel != id);
    }
    if i < k {
        assert(m.tiles[i].toplevel != id);
    }
}

/// There is one first tile that covers a point.
pub proof fn lemma_first_cover_unique(m: LayoutModel, x: int, y: int, i: int)
    requires
        m.is_first_cover(x, y, i),
    ensures
        m.covers(x, y),
        m.first_cover(x, y) == i,
{
    assert(m.tiles[i].covers(x, y));
    let k = m.first_cover(x, y);
    assert(m.is_first_cover(x, y, k));
    if k < i {
        assert(!m.tiles[k].covers(x, y));
    }
    if i < k {
        assert(!m.tiles[i].covers(x, y));
    }
}

/// The left edge of every slot up to `count` fits in an `i32`.
proof fn lemma_slot_in_range(m: LayoutModel, count: int, k: int)
    requires
        count > 0,
        m.row_defined(count),
        0 <= k <= count,
    ensures
        fits_i32(m.slot_x(count, k)),
{
    let s = m.tile_size(count).w + m.gap;
    assert(0 <= k * s <= count * s || count * s <= k * s <= 0) by (nonlinear_arith)
        requires
            0 <= k <= count,
    ;
}

/// Consecutive slots are one tile width and one gap apart.
proof fn lemma_slot_step(m: LayoutModel, count: int, k: int)
    ensures
        m.slot_x(count, k + 1) == m.slot_x(count, k) + (m.tile_size(count).w + m.gap),
{
    let s = m.tile_size(count).w + m.gap;
    assert((k + 1) * s == k * s + s) by (nonlinear_arith);
}

/// `v` can be held by an `i32`.
fn fits_in_i32(v: i64) -> (fits: bool)
    ensures
        fits == fits_i32(v as int),
{
    i32::MIN as i64 <= v && v <= i32::MAX as i64
}

/// Whether `count` tiles can be arranged in a view of `view_size` with the
/// given padding and gap without any intermediate value leaving the `i32`
/// range; callers use it to meet the requirements of the arranging
/// operations.
pub fn row_fits(view_size: Size, padding: i32, gap: i32, count: usize) -> (fits: bool)
    ensures
        fits == (LayoutModel { tiles: Seq::empty(), focused_idx: None, view_size, gap, padding }).row_defined(
            count as int,
        ),
{
    let ghost m = LayoutModel { tiles: Seq::empty(), focused_idx: None, view_size, gap, padding };
    if count == 0 {
        return true;
    }
    if count > i32::MAX as usize {
        return false;
    }
    let n = count as i64;
    let twice_padding = padding as i64 * 2;
    if !fits_in_i32(twice_padding) {
        return false;
    }
    let available_w = view_size.w as i64 - twice_padding;
    let available_h = view_size.h as i64 - twice_padding;
    if !fits_in_i32(available_w) || !fits_in_i32(available_h) {
        return false;
    }
    proof {
        assert(-0x4000_0000_0000_0000 <= gap * (n - 1) <= 0x4000_0000_0000_0000) by (nonlinear_arith)
            requires
                1 <= n <= i32::MAX,
                i32::MIN <= gap <= i32::MAX,
        ;
    }
    let gaps = gap as i64 * (n - 1);
    if !fits_in_i32(gaps) {
        return false;
    }
    let shared = available_w - gaps;
    if !fits_in_i32(shared) {
        return false;
    }
    let tile_w = shared / n;
    let w = if tile_w >= 100 {
        tile_w
    } else {
        100
    };
    proof {
        assert(m.tile_size_defined(count as int));
        assert(m.tile_size(count as int).w == w);
    }
    let step = w + gap as i64;
    if !fits_in_i32(step) {
        return false;
    }
    proof {
        assert(-0x4000_0000_0000_0000 <= n * step <= 0x4000_0000_0000_0000) by (nonlinear_arith)
            requires
                1 <= n <= i32::MAX,
                i32::MIN <= step <= i32::MAX,
        ;
    }
    let last = padding as i64 + n * step;
    fits_in_i32(last)
}

/// The tiling layout.
#[derive(Debug)]
pub struct Layout {
    pub tiles: Vec<Tile>,
    pub focused_idx: Option<usize>,
    pub view_size: Size,
    pub gap: i32,
    pub padding: i32,
}

impl View for Layout {
    type V = LayoutModel;

    open spec fn view(&self) -> LayoutModel {
        LayoutModel {
            tiles: self.tiles@,
            focused_idx: self.focused_idx,
            view_size: self.view_size,
            gap: self.gap,
            padding: self.padding,
        }
    }
}

impl Default for Layout {
    /// An empty layout for an empty view, with no gap and no padding.
    fn default() -> (layout: Layout)
        ensures
            layout@.tiles.len() == 0,
            layout@.focused_idx is None,
            layout@.view_size == (Size { w: 0, h: 0 }),
            layout@.gap == 0,
            layout@.padding == 0,
    {
        Layout { tiles: Vec::new(), focused_idx: None, view_size: Size { w: 0, h: 0 }, gap: 0, padding: 0 }
    }
}

impl Layout {
    /// An empty layout for a view of `width` by `height`, with gap and padding
    /// of 10.
    pub fn new(width: i32, height: i32) -> (layout: Layout)
        ensures
            layout@.tiles.len() == 0,
            layout@.focused_idx is None,
            layout@.view_size == (Size { w: width, h: height }),
            layout@.gap == 10,
            layout@.padding == 10,
    {
        Layout {
            tiles: Vec::new(),
            focused_idx: None,
            view_size: Size { w: width, h: height },
            gap: 10,
            padding: 10,
        }
    }

    fn calculate_tile_size(&self, count: usize) -> (size: Size)
        requires
            self@.tile_size_defined(count as int),
        ensures
            size == self@.tile_size(count as int),
    {
        if count == 0 {
            return self.view_size;
        }
        let available_w = self.view_size.w - self.padding * 2;
        let available_h = self.view_size.h - self.padding * 2;
        let n = count as i32;
        let tile_w = (available_w - self.gap * (n - 1)) / n;
        let tile_h = available_h;
        Size {
            w: if tile_w >= 100 { tile_w } else { 100 },
            h: if tile_h >= 100 { tile_h } else { 100 },
        }
    }

    /// Arranges the tiles side by side and returns the size requests for
    /// their clients, one per tile in order.
    pub fn relayout(&mut self) -> (requests: Vec<SizeRequest>)
        requires
            old(self)@.can_relayout(),
        ensures
            final(self)@ == old(self)@.relayout(),
            requests@ == old(self)@.size_requests(),
    {
        let count = self.tiles.len();
        let mut requests: Vec<SizeRequest> = Vec::new();
        if count == 0 {
            proof {
                assert(self@.relayout().tiles =~= self@.tiles);
                assert(self@.size_requests() =~= requests@);
            }
            return requests;
        }
        let tile_size = self.calculate_tile_size(count);
        let ghost m = self@;
        let mut x = self.padding;
        let mut i: usize = 0;
        while i < count
            invariant
                m == old(self)@,
                m.can_relayout(),
                count == m.tiles.len(),
                count > 0,
                tile_size == m.tile_size(count as int),
                0 <= i <= count,
                x == m.slot_x(count as int, i as int),
                self.tiles@.len() == count,
                self.focused_idx == m.focused_idx,
                self.view_size == m.view_size,
                self.gap == m.gap,
                self.padding == m.padding,
                forall|j: int| 0 <= j < i ==> self.tiles@[j] == m.arranged_tile(j),
                forall|j: int| i <= j < count ==> self.tiles@[j] == m.tiles[j],
                requests@.len() == i,
                forall|j: int| 0 <= j < i ==> requests@[j] == m.arranged_tile(j).spec_request(),
            decreases count - i,
        {
            proof {
                lemma_slot_in_range(m, count as int, i as int);
                lemma_slot_in_range(m, count as int, i as int + 1);
                lemma_slot_step(m, count as int, i as int);
            }
            let mut tile = self.tiles[i];
            tile.position = Point { x, y: self.padding };
            tile.size = tile_size;
            tile.is_focused = match self.focused_idx {
                Some(f) => f == i,
                None => false,
            };
            self.tiles.set(i, tile);
            requests.push(tile.request_size());
            x = x + (tile_size.w + self.gap);
            i = i + 1;
        }
        proof {
            assert(self@.tiles =~= m.relayout().tiles);
            assert(requests@ =~= m.size_requests());
        }
        requests
    }

    /// Resizes the view to `width` by `height` and arranges the tiles again;
    /// returns the size requests for their clients.
    pub fn set_view_size(&mut self, width: i32, height: i32) -> (requests: Vec<SizeRequest>)
        requires
            old(self)@.with_view_size(width, height).can_relayout(),
        ensures
            final(self)@ == old(self)@.with_view_size(width, height).relayout(),
            requests@ == old(self)@.with_view_size(width, height).size_requests(),
    {
        self.view_size = Size { w: width, h: height };
        self.relayout()
    }

    /// Appends a tile for `toplevel`, focuses it and arranges the tiles
    /// again; returns the size requests for their clients.
    pub fn add_tile(&mut self, toplevel: SurfaceId) -> (requests: Vec<SizeRequest>)
        requires
            old(self)@.added(toplevel).can_relayout(),
        ensures
            final(self)@ == old(self)@.added(toplevel).relayout(),
            requests@ == old(self)@.added(toplevel).size_requests(),
    {
        let position = self.calculate_new_tile_position();
        let size = self.calculate_tile_size(self.tiles.len() + 1);
        let tile = Tile::new(toplevel, position, size);
        self.tiles.push(tile);
        self.focused_idx = Some(self.tiles.len() - 1);
        self.relayout()
    }

    /// Index of the first tile that shows the surface `id`.
    fn position_of(&self, id: SurfaceId) -> (found: Option<usize>)
        ensures
            match found {
                Some(i) => self@.is_first_match(id, i as int),
                None => !self@.holds(id),
            },
    {
        let mut i: usize = 0;
        while i < self.tiles.len()
            invariant
                0 <= i <= self.tiles@.len(),
                forall|j: int| 0 <= j < i ==> #[trigger] self.tiles@[j].toplevel != id,
            decreases self.tiles@.len() - i,
        {
            if self.tiles[i].toplevel == id {
                return Some(i);
            }
            i = i + 1;
        }
        None
    }

    /// Takes out the first tile that shows `surface_id`, keeps the focus on a
    /// tile and arranges the tiles again; returns the size requests for their
    /// clients. Does nothing when no tile shows the surface.
    pub fn remove_tile(&mut self, surface_id: &SurfaceId) -> (requests: Vec<SizeRequest>)
        requires
            old(self)@.holds(*surface_id) ==> old(self)@.removed(*surface_id).can_relayout(),
        ensures
            old(self)@.holds(*surface_id) ==> {
                &&& final(self)@ == old(self)@.removed(*surface_id).relayout()
                &&& requests@ == old(self)@.removed(*surface_id).size_requests()
            },
            !old(self)@.holds(*surface_id) ==> final(self)@ == old(self)@ && requests@.len() == 0,
    {
        match self.position_of(*surface_id) {
            Some(idx) => {
                proof {
                    lemma_first_match_unique(self@, *surface_id, idx as int);
                }
                self.tiles.remove(idx);
                if let Some(focused) = self.focused_idx {
                    if focused >= self.tiles.len() {
                        self.focused_idx = if self.tiles.len() == 0 {
                            None
                        } else {
                            Some(self.tiles.len() - 1)
                        };
                    }
                }
                assert(self@ == old(self)@.removed(*surface_id));
                self.relayout()
            },
            None => Vec::new(),
        }
    }

    /// Focuses the first tile that covers the point `(x, y)` and returns it;
    /// `None`, with the focus unchanged, when no tile covers it.
    pub fn focus_at(&mut self, x: i32, y: i32) -> (tile: Option<&Tile>)
        ensures
            old(self)@.covers(x as int, y as int) ==> {
                let i = old(self)@.first_cover(x as int, y as int);
                &&& final(self)@ == old(self)@.with_focus(Some(i as usize))
                &&& tile matches Some(t) && *t == old(self)@.tiles[i]
            },
            !old(self)@.covers(x as int, y as int) ==> final(self)@ == old(self)@ && tile is None,
    {
        let mut i: usize = 0;
        while i < self.tiles.len()
            invariant
                self@ == old(self)@,
                0 <= i <= self.tiles@.len(),
                forall|j: int| 0 <= j < i ==> !#[trigger] self.tiles@[j].covers(x as int, y as int),
            decreases self.tiles@.len() - i,
        {
            if self.tiles[i].contains_point(x, y) {
                proof {
                    lemma_first_cover_unique(self@, x as int, y as int, i as int);
                }
                self.focused_idx = Some(i);
                return Some(&self.tiles[i]);
            }
            i = i + 1;
        }
        None
    }

    /// The focused tile, if the focus points at a tile.
    pub fn focused_tile(&self) -> (tile: Option<&Tile>)
        ensures
            match tile {
                Some(t) => self@.focused_tile() == Some(*t),
                None => self@.focused_tile() is None,
            },
    {
        match self.focused_idx {
            Some(i) => if i < self.tiles.len() {
                Some(&self.tiles[i])
            } else {
                None
            },
            None => None,
        }
    }

    /// The first tile that shows `surface_id`.
    pub fn tile_for_surface(&self, surface_id: &SurfaceId) -> (tile: Option<&Tile>)
        ensures
            match tile {
                Some(t) => self@.holds(*surface_id) && *t == self@.tiles[self@.first_match(*surface_id)],
                None => !self@.holds(*surface_id),
            },
    {
        match self.position_of(*surface_id) {
            Some(i) => {
                proof {
                    lemma_first_match_unique(self@, *surface_id, i as int);
                }
                Some(&self.tiles[i])
            },
            None => None,
        }
    }

    /// Moves the focus to the next tile, wrapping around after the last.
    pub fn focus_next(&mut self)
        requires
            old(self).tiles@.len() > 0 ==> old(self).focused_idx != Some(usize::MAX),
        ensures
            final(self)@ == old(self)@.with_focus(old(self)@.next_focus()),
    {
        if let Some(idx) = self.focused_idx {
            if !self.tiles.is_empty() {
                self.focused_idx = Some((idx + 1) % self.tiles.len());
            }
        } else if !self.tiles.is_empty() {
            self.focused_idx = Some(0);
        }
    }

    /// Moves the focus to the previous tile, wrapping around before the
    /// first.
    pub fn focus_prev(&mut self)
        ensures
            final(self)@ == old(self)@.with_focus(old(self)@.prev_focus()),
    {
        if let Some(idx) = self.focused_idx {
            if !self.tiles.is_empty() {
                self.focused_idx = Some(
                    if idx == 0 {
                        self.tiles.len() - 1
                    } else {
                        idx - 1
                    },
                );
            }
        } else if !self.tiles.is_empty() {
            self.focused_idx = Some(self.tiles.len() - 1);
        }
    }

    fn calculate_new_tile_position(&self) -> (p: Point)
        ensures
            p == (Point { x: self.padding, y: self.padding }),
    {
        Point { x: self.padding, y: self.padding }
    }
}

} // verus!
