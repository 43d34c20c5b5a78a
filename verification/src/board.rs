//! The grid of environmental state: cells, conditions, the operators that
//! mutate them uniformly, and the bounded 2D coordinate with its
//! neighbor / range query primitives.

use vstd::prelude::*;

verus! {

/// Non-negative environmental quantities held by one grid cell.
/// `oxygen` is reserved and unused by the current rules.
#[derive(Clone, Copy, Debug, PartialEq, Eq, Structural)]
pub struct Conditions {
    pub light: i64,
    pub moisture: i64,
    pub oxygen: i64,
}

impl Conditions {
    /// Every quantity stays in its non-negative domain.
    pub open spec fn wf(self) -> bool {
        &&& 0 <= self.light
        &&& 0 <= self.moisture
        &&& 0 <= self.oxygen
    }
}

/// A bounded 2D coordinate. `x` and `y` lie in `[0, max]`; `max` is the
/// shared board size minus one.
#[derive(Clone, Copy, Debug, PartialEq, Eq, Structural)]
pub struct Location {
    pub max: i64,
    pub x: i64,
    pub y: i64,
}

/// `c - range`, clipped from below at the board's zero edge.
pub open spec fn clip_lo(c: int, range: int) -> int {
    if c - range < 0 {
        0
    } else {
        c - range
    }
}

/// `c + range`, clipped from above at the board's `max` edge.
pub open spec fn clip_hi(c: int, range: int, max: int) -> int {
    if c + range > max {
        max
    } else {
        c + range
    }
}

impl Location {
    /// Both coordinates lie within the board.
    pub open spec fn wf(self) -> bool {
        &&& 0 <= self.x <= self.max
        &&& 0 <= self.y <= self.max
    }

    /// `l` is a possible destination at Chebyshev distance at most `range`
    /// from `self`: on the same board, within the clipped square around
    /// `self`, and distinct from `self` itself.
    pub open spec fn in_range_of(self, l: Location, range: int) -> bool {
        &&& l.max == self.max
        &&& 0 <= l.x <= self.max
        &&& 0 <= l.y <= self.max
        &&& self.x - range <= l.x <= self.x + range
        &&& self.y - range <= l.y <= self.y + range
        &&& !(l.x == self.x && l.y == self.y)
    }

    /// `l` belongs to the Moore (8-connected) neighborhood of `self`.
    pub open spec fn is_neighbor(self, l: Location) -> bool {
        self.in_range_of(l, 1)
    }

    /// How many cells the clipped square of Chebyshev radius `range` around
    /// `self` holds, the center excluded.
    pub open spec fn range_count(self, range: int) -> int {
        (clip_hi(self.x as int, range, self.max as int) - clip_lo(self.x as int, range) + 1)
            * (clip_hi(self.y as int, range, self.max as int) - clip_lo(self.y as int, range) + 1)
            - 1
    }

    /// Every location within a square of Chebyshev radius `range`, clipped
    /// to `[0, max]` on both axes, excluding the location itself.
    #[verifier::loop_isolation(false)]
    #[verifier::rlimit(60)]
    pub fn within_range(&self, range: i64) -> (r: Vec<Location>)
        requires
            self.wf(),
            0 <= range,
            self.max < i64::MAX,
            self.max + range <= i64::MAX,
        ensures
            r@.len() == self.range_count(range as int),
            forall|i: int| 0 <= i < r@.len() ==> self.in_range_of(#[trigger] r@[i], range as int),
            forall|l: Location| self.in_range_of(l, range as int) ==> #[trigger] r@.contains(l),
            forall|i: int, j: int| 0 <= i < j < r@.len() ==> r@[i] != r@[j],
    {
        let x_lo = if self.x - range < 0 { 0 } else { self.x - range };
        let x_hi = if self.x + range > self.max { self.max } else { self.x + range };
        let y_lo = if self.y - range < 0 { 0 } else { self.y - range };
        let y_hi = if self.y + range > self.max { self.max } else { self.y + range };
        let y_span: i64 = y_hi - y_lo + 1;

        let mut locations: Vec<Location> = Vec::new();
        let mut x: i64 = x_lo;
        while x <= x_hi
            invariant
                x_lo <= x <= x_hi + 1,
                locations@.len() == (x - x_lo) * y_span - (if self.x < x { 1int } else { 0int }),
                forall|i: int| 0 <= i < locations@.len() ==> {
                    &&& self.in_range_of(#[trigger] locations@[i], range as int)
                    &&& locations@[i].x < x
                },
                forall|l: Location| self.in_range_of(l, range as int) && l.x < x
                    ==> #[trigger] locations@.contains(l),
                forall|i: int, j: int| 0 <= i < j < locations@.len()
                    ==> locations@[i] != locations@[j],
            decreases x_hi + 1 - x,
        {
            let ghost len_before = locations@.len() as int;
            let mut y: i64 = y_lo;
            while y <= y_hi
                invariant
                    y_lo <= y <= y_hi + 1,
                    x_lo <= x <= x_hi,
                    locations@.len() == len_before + (y - y_lo) - (
                        if self.x == x && self.y < y { 1int } else { 0int }
                    ),
                    forall|i: int| 0 <= i < locations@.len() ==> {
                        &&& self.in_range_of(#[trigger] locations@[i], range as int)
                        &&& (locations@[i].x < x || (locations@[i].x == x && locations@[i].y < y))
                    },
                    forall|l: Location| self.in_range_of(l, range as int)
                        && (l.x < x || (l.x == x && l.y < y))
                        ==> #[trigger] locations@.contains(l),
                    forall|i: int, j: int| 0 <= i < j < locations@.len()
                        ==> locations@[i] != locations@[j],
                decreases y_hi + 1 - y,
            {
                if !(x == self.x && y == self.y) {
                    let l = Location { max: self.max, x, y };
                    let ghost pre = locations@;
                    locations.push(l);
                    assert forall|m: Location| self.in_range_of(m, range as int)
                        && (m.x < x || (m.x == x && m.y < y + 1))
                        implies #[trigger] locations@.contains(m) by {
                        if m == l {
                            assert(locations@[locations@.len() - 1] == m);
                        } else {
                            assert(pre.contains(m));
                            let i = choose|i: int| 0 <= i < pre.len() && pre[i] == m;
                            assert(locations@[i] == m);
                        }
                    }
                } else {
                    assert forall|m: Location| self.in_range_of(m, range as int)
                        && (m.x < x || (m.x == x && m.y < y + 1))
                        implies #[trigger] locations@.contains(m) by {
                        assert(!(m.x == x && m.y == y));
                    }
                }
                y = y + 1;
            }
            assert(locations@.len() == len_before + y_span - (
                if self.x == x { 1int } else { 0int }
            ));
            assert((x + 1 - x_lo) * y_span == (x - x_lo) * y_span + y_span) by (nonlinear_arith);
            x = x + 1;
        }
        assert(x == x_hi + 1);
        assert((x_hi + 1 - x_lo) * y_span
            == (clip_hi(self.x as int, range as int, self.max as int)
                - clip_lo(self.x as int, range as int) + 1) * y_span);
        locations
    }

    /// The Moore (8-connected) neighborhood of the location, excluding the
    /// location itself, filtered to remain within `[0, max]` on both axes.
    /// It holds the same set of locations as `within_range(1)`.
    pub fn nearby(&self) -> (r: Vec<Location>)
        requires
            self.wf(),
            self.max < i64::MAX,
        ensures
            r@.len() == self.range_count(1),
            forall|i: int| 0 <= i < r@.len() ==> self.is_neighbor(#[trigger] r@[i]),
            forall|l: Location| self.is_neighbor(l) ==> #[trigger] r@.contains(l),
            forall|i: int, j: int| 0 <= i < j < r@.len() ==> r@[i] != r@[j],
    {
        self.within_range(1)
    }

    /// Move the location to coordinates drawn uniformly from `[0, max]`.
    pub fn set_random(&mut self)
        requires
            old(self).wf(),
        ensures
            final(self).wf(),
            final(self).max == old(self).max,
    {
        self.x = crate::rng::random_upto(self.max);
        self.y = crate::rng::random_upto(self.max);
    }

    /// A location with random coordinates on a board of size `max + 1`.
    pub fn new_random(max: i64) -> (l: Location)
        requires
            0 <= max,
        ensures
            l.wf(),
            l.max == max,
    {
        let mut l = Location::new(max);
        l.set_random();
        l
    }

    pub fn new(max: i64) -> (l: Location)
        requires
            0 <= max,
        ensures
            l == (Location { max, x: 0, y: 0 }),
            l.wf(),
    {
        Location { max, x: 0, y: 0 }
    }
}

impl Location {
    /// The location sits on the left or right edge of the board.
    pub open spec fn on_x_boundary(self) -> bool {
        self.x == 0 || self.x == self.max
    }

    /// The location sits on the bottom or top edge of the board.
    pub open spec fn on_y_boundary(self) -> bool {
        self.y == 0 || self.y == self.max
    }

    /// The location is one of the four board corners.
    pub open spec fn is_corner(self) -> bool {
        self.on_x_boundary() && self.on_y_boundary()
    }

    /// The location lies on a board edge but is not a corner.
    pub open spec fn is_edge(self) -> bool {
        self.on_x_boundary() != self.on_y_boundary()
    }

    /// The location touches no board edge.
    pub open spec fn is_interior(self) -> bool {
        !self.on_x_boundary() && !self.on_y_boundary()
    }
}

/// Law: on a board with `max >= 2`, the Moore neighborhood (what `nearby`
/// returns) holds exactly 3 locations at a corner, 5 on a non-corner edge,
/// and 8 in the interior.
pub proof fn lemma_neighbor_count(c: Location)
    requires
        c.wf(),
        c.max >= 2,
    ensures
        c.is_corner() ==> c.range_count(1) == 3,
        c.is_edge() ==> c.range_count(1) == 5,
        c.is_interior() ==> c.range_count(1) == 8,
{
    let sx = clip_hi(c.x as int, 1, c.max as int) - clip_lo(c.x as int, 1) + 1;
    let sy = clip_hi(c.y as int, 1, c.max as int) - clip_lo(c.y as int, 1) + 1;
    assert(sx == if c.on_x_boundary() { 2int } else { 3int });
    assert(sy == if c.on_y_boundary() { 2int } else { 3int });
    assert(c.range_count(1) == sx * sy - 1);
}

/// Law: whatever candidate a plant picks, the neighborhood is never empty
/// on a board with more than one cell: the clipped square of any radius
/// `range >= 1` holds at least 3 locations besides the center.
pub proof fn lemma_range_count_positive(c: Location, range: int)
    requires
        c.wf(),
        c.max >= 1,
        range >= 1,
    ensures
        c.range_count(range) >= 3,
{
    let sx = clip_hi(c.x as int, range, c.max as int) - clip_lo(c.x as int, range) + 1;
    let sy = clip_hi(c.y as int, range, c.max as int) - clip_lo(c.y as int, range) + 1;
    assert(sx >= 2);
    assert(sy >= 2);
    assert(sx * sy >= 4) by (nonlinear_arith)
        requires
            sx >= 2,
            sy >= 2,
    ;
}

/// Law: for any location, `within_range(1)` is set-equal to `nearby()`.
/// The requirements are the membership halves of the two functions'
/// contracts; any two vectors they return satisfy them.
pub proof fn lemma_within_range_one_is_nearby(c: Location, near: Seq<Location>, ranged: Seq<Location>)
    requires
        forall|i: int| 0 <= i < near.len() ==> c.is_neighbor(#[trigger] near[i]),
        forall|l: Location| c.is_neighbor(l) ==> #[trigger] near.contains(l),
        forall|i: int| 0 <= i < ranged.len() ==> c.in_range_of(#[trigger] ranged[i], 1),
        forall|l: Location| c.in_range_of(l, 1) ==> #[trigger] ranged.contains(l),
    ensures
        forall|l: Location| near.contains(l) <==> ranged.contains(l),
{
    assert forall|l: Location| near.contains(l) implies ranged.contains(l) by {
        let i = choose|i: int| 0 <= i < near.len() && near[i] == l;
        assert(c.is_neighbor(near[i]));
    }
    assert forall|l: Location| ranged.contains(l) implies near.contains(l) by {
        let i = choose|i: int| 0 <= i < ranged.len() && ranged[i] == l;
        assert(c.in_range_of(ranged[i], 1));
    }
}

/// One grid cell: its environmental state plus its fixed coordinate.
#[derive(Clone, Copy, Debug, PartialEq, Eq, Structural)]
pub struct BoardSection {
    pub conditions: Conditions,
    pub location: Location,
}

/// A `(size+1) x (size+1)` matrix of cells. Each cell's `location` is fixed
/// at construction to match its matrix indices.
#[derive(Clone, Debug)]
pub struct Board {
    pub matrix: Vec<Vec<BoardSection>>,
    pub size: i64,
}

impl Board {
    /// The matrix is square with side `size + 1`, each cell's embedded
    /// location matches its indices, and every cell's conditions stay in
    /// their non-negative domain.
    pub open spec fn wf(self) -> bool {
        &&& 0 <= self.size < i64::MAX
        &&& self.matrix@.len() == self.size + 1
        &&& forall|i: int| 0 <= i <= self.size ==> (#[trigger] self.matrix@[i])@.len() == self.size + 1
        &&& forall|i: int, j: int| 0 <= i <= self.size && 0 <= j <= self.size ==> {
            &&& (#[trigger] self.matrix@[i]@[j]).location
                == (Location { max: self.size, x: i as i64, y: j as i64 })
            &&& self.matrix@[i]@[j].conditions.wf()
        }
    }

    /// A `(size+1) x (size+1)` grid, every cell zeroed, each cell's embedded
    /// location set to its matrix coordinates with `max = size`.
    #[verifier::loop_isolation(false)]
    pub fn new(size: i64) -> (b: Board)
        requires
            0 <= size < i64::MAX,
        ensures
            b.wf(),
            b.size == size,
            forall|i: int, j: int| 0 <= i <= size && 0 <= j <= size ==>
                (#[trigger] b.matrix@[i]@[j]).conditions
                    == (Conditions { light: 0, moisture: 0, oxygen: 0 }),
    {
        let mut matrix: Vec<Vec<BoardSection>> = Vec::new();

        let mut x: i64 = 0;
        while x <= size
            invariant
                0 <= x <= size + 1,
                matrix@.len() == x,
                forall|i: int| 0 <= i < x ==> (#[trigger] matrix@[i])@.len() == size + 1,
                forall|i: int, j: int| 0 <= i < x && 0 <= j <= size ==> {
                    &&& (#[trigger] matrix@[i]@[j]).location
                        == (Location { max: size, x: i as i64, y: j as i64 })
                    &&& matrix@[i]@[j].conditions
                        == (Conditions { light: 0, moisture: 0, oxygen: 0 })
                },
            decreases size + 1 - x,
        {
            let mut row: Vec<BoardSection> = Vec::new();
            let mut y: i64 = 0;
            while y <= size
                invariant
                    0 <= y <= size + 1,
                    row@.len() == y,
                    forall|j: int| 0 <= j < y ==> {
                        &&& (#[trigger] row@[j]).location
                            == (Location { max: size, x: x as i64, y: j as i64 })
                        &&& row@[j].conditions == (Conditions { light: 0, moisture: 0, oxygen: 0 })
                    },
                decreases size + 1 - y,
            {
                let s = BoardSection {
                    conditions: Conditions { light: 0, moisture: 0, oxygen: 0 },
                    location: Location { max: size, x, y },
                };
                row.push(s);
                y = y + 1;
            }
            matrix.push(row);
            x = x + 1;
        }

        Board { matrix, size }
    }
}

/// `a + d`, confined to the non-negative part of the `i64` domain: a sum
/// that would fall below zero clamps to zero, one that would exceed the
/// domain saturates at its top instead of wrapping.
pub open spec fn sat_add_nonneg(a: int, d: int) -> int {
    if a + d < 0 {
        0
    } else if a + d > i64::MAX {
        i64::MAX as int
    } else {
        a + d
    }
}

/// Saturating `i64` sum confined to `[0, i64::MAX]`.
fn sat_add_i64(a: i64, d: i64) -> (r: i64)
    ensures
        r == sat_add_nonneg(a as int, d as int),
{
    match a.checked_add(d) {
        Some(s) => {
            if s < 0 {
                0
            } else {
                s
            }
        },
        None => {
            if d > 0 {
                i64::MAX
            } else {
                0
            }
        },
    }
}

/// An operation on one environmental field: *apply* overwrites the field
/// with `delta` (clamped to the non-negative domain), *append* adds `delta`
/// to it (saturating at zero and at the top of the domain). The `Oxygen`
/// variant is recognized but reserved: both operators leave the cell as
/// it is.
#[derive(Clone, Copy, Debug, PartialEq, Eq, Structural)]
pub enum Effect {
    Light(i64),
    Moisture(i64),
    Oxygen(i64),
}

impl Effect {
    /// The conditions after *append*: the effect's field accumulates
    /// `delta`, saturating; the other fields keep their value.
    pub open spec fn append_spec(self, c: Conditions) -> Conditions {
        match self {
            Effect::Light(v) => Conditions {
                light: sat_add_nonneg(c.light as int, v as int) as i64,
                moisture: c.moisture,
                oxygen: c.oxygen,
            },
            Effect::Moisture(v) => Conditions {
                light: c.light,
                moisture: sat_add_nonneg(c.moisture as int, v as int) as i64,
                oxygen: c.oxygen,
            },
            Effect::Oxygen(_) => c,
        }
    }

    /// The conditions after *apply*: the effect's field is overwritten with
    /// `delta`, clamped to the non-negative domain; the other fields keep
    /// their value.
    pub open spec fn apply_spec(self, c: Conditions) -> Conditions {
        match self {
            Effect::Light(v) => Conditions {
                light: if v < 0 { 0 } else { v },
                moisture: c.moisture,
                oxygen: c.oxygen,
            },
            Effect::Moisture(v) => Conditions {
                light: c.light,
                moisture: if v < 0 { 0 } else { v },
                oxygen: c.oxygen,
            },
            Effect::Oxygen(_) => c,
        }
    }

    /// Accumulate the effect's delta onto one cell's field.
    pub fn append_to_section(&self, section: &mut BoardSection)
        ensures
            final(section).conditions == self.append_spec(old(section).conditions),
            final(section).location == old(section).location,
    {
        match self {
            Effect::Light(v) => {
                section.conditions.light = sat_add_i64(section.conditions.light, *v);
            },
            Effect::Moisture(v) => {
                section.conditions.moisture = sat_add_i64(section.conditions.moisture, *v);
            },
            _ => (),
        }
    }

    /// Overwrite one cell's field with the effect's delta.
    pub fn apply_to_section(&self, section: &mut BoardSection)
        ensures
            final(section).conditions == self.apply_spec(old(section).conditions),
            final(section).location == old(section).location,
    {
        match self {
            Effect::Light(v) => {
                section.conditions.light = if *v < 0 { 0 } else { *v };
            },
            Effect::Moisture(v) => {
                section.conditions.moisture = if *v < 0 { 0 } else { *v };
            },
            _ => (),
        }
    }

    /// Accumulate the effect onto every cell of the board uniformly.
    #[verifier::loop_isolation(false)]
    pub fn append_global(&self, board: &mut Board)
        requires
            old(board).wf(),
        ensures
            final(board).wf(),
            final(board).size == old(board).size,
            forall|i: int, j: int| 0 <= i <= old(board).size && 0 <= j <= old(board).size ==>
                (#[trigger] final(board).matrix@[i]@[j]).conditions
                    == self.append_spec(old(board).matrix@[i]@[j].conditions),
    {
        let n = board.matrix.len();
        let mut i: usize = 0;
        while i < n
            invariant
                0 <= i <= n,
                n == old(board).size + 1,
                board.size == old(board).size,
                board.matrix@.len() == n,
                forall|r: int| 0 <= r < n ==> (#[trigger] board.matrix@[r])@.len() == n,
                forall|r: int, c: int| 0 <= r < n && 0 <= c < n ==>
                    (#[trigger] board.matrix@[r]@[c]).location
                        == old(board).matrix@[r]@[c].location,
                forall|r: int, c: int| 0 <= r < i && 0 <= c < n ==>
                    (#[trigger] board.matrix@[r]@[c]).conditions
                        == self.append_spec(old(board).matrix@[r]@[c].conditions),
                forall|r: int, c: int| i <= r < n && 0 <= c < n ==>
                    (#[trigger] board.matrix@[r]@[c]).conditions
                        == old(board).matrix@[r]@[c].conditions,
            decreases n - i,
        {
            let mut j: usize = 0;
            while j < n
                invariant
                    0 <= i < n,
                    0 <= j <= n,
                    n == old(board).size + 1,
                    board.size == old(board).size,
                    board.matrix@.len() == n,
                    forall|r: int| 0 <= r < n ==> (#[trigger] board.matrix@[r])@.len() == n,
                    forall|r: int, c: int| 0 <= r < n && 0 <= c < n ==>
                        (#[trigger] board.matrix@[r]@[c]).location
                            == old(board).matrix@[r]@[c].location,
                    forall|r: int, c: int| 0 <= r < i && 0 <= c < n ==>
                        (#[trigger] board.matrix@[r]@[c]).conditions
                            == self.append_spec(old(board).matrix@[r]@[c].conditions),
                    forall|c: int| 0 <= c < j ==>
                        (#[trigger] board.matrix@[i as int]@[c]).conditions
                            == self.append_spec(old(board).matrix@[i as int]@[c].conditions),
                    forall|c: int| j <= c < n ==>
                        (#[trigger] board.matrix@[i as int]@[c]).conditions
                            == old(board).matrix@[i as int]@[c].conditions,
                    forall|r: int, c: int| i < r < n && 0 <= c < n ==>
                        (#[trigger] board.matrix@[r]@[c]).conditions
                            == old(board).matrix@[r]@[c].conditions,
                decreases n - j,
            {
                self.append_to_section(&mut board.matrix[i][j]);
                j = j + 1;
            }
            i = i + 1;
        }
    }

    /// Overwrite the effect's field on every cell of the board uniformly.
    /// Used to reset a condition, then add ambient values, each tick.
    #[verifier::loop_isolation(false)]
    pub fn apply_global(&self, board: &mut Board)
        requires
            old(board).wf(),
        ensures
            final(board).wf(),
            final(board).size == old(board).size,
            forall|i: int, j: int| 0 <= i <= old(board).size && 0 <= j <= old(board).size ==>
                (#[trigger] final(board).matrix@[i]@[j]).conditions
                    == self.apply_spec(old(board).matrix@[i]@[j].conditions),
    {
        let n = board.matrix.len();
        let mut i: usize = 0;
        while i < n
            invariant
                0 <= i <= n,
                n == old(board).size + 1,
                board.size == old(board).size,
                board.matrix@.len() == n,
                forall|r: int| 0 <= r < n ==> (#[trigger] board.matrix@[r])@.len() == n,
                forall|r: int, c: int| 0 <= r < n && 0 <= c < n ==>
                    (#[trigger] board.matrix@[r]@[c]).location
                        == old(board).matrix@[r]@[c].location,
                forall|r: int, c: int| 0 <= r < i && 0 <= c < n ==>
                    (#[trigger] board.matrix@[r]@[c]).conditions
                        == self.apply_spec(old(board).matrix@[r]@[c].conditions),
                forall|r: int, c: int| i <= r < n && 0 <= c < n ==>
                    (#[trigger] board.matrix@[r]@[c]).conditions
                        == old(board).matrix@[r]@[c].conditions,
            decreases n - i,
        {
            let mut j: usize = 0;
            while j < n
                invariant
                    0 <= i < n,
                    0 <= j <= n,
                    n == old(board).size + 1,
                    board.size == old(board).size,
                    board.matrix@.len() == n,
                    forall|r: int| 0 <= r < n ==> (#[trigger] board.matrix@[r])@.len() == n,
                    forall|r: int, c: int| 0 <= r < n && 0 <= c < n ==>
                        (#[trigger] board.matrix@[r]@[c]).location
                            == old(board).matrix@[r]@[c].location,
                    forall|r: int, c: int| 0 <= r < i && 0 <= c < n ==>
                        (#[trigger] board.matrix@[r]@[c]).conditions
                            == self.apply_spec(old(board).matrix@[r]@[c].conditions),
                    forall|c: int| 0 <= c < j ==>
                        (#[trigger] board.matrix@[i as int]@[c]).conditions
                            == self.apply_spec(old(board).matrix@[i as int]@[c].conditions),
                    forall|c: int| j <= c < n ==>
                        (#[trigger] board.matrix@[i as int]@[c]).conditions
                            == old(board).matrix@[i as int]@[c].conditions,
                    forall|r: int, c: int| i < r < n && 0 <= c < n ==>
                        (#[trigger] board.matrix@[r]@[c]).conditions
                            == old(board).matrix@[r]@[c].conditions,
                decreases n - j,
            {
                self.apply_to_section(&mut board.matrix[i][j]);
                j = j + 1;
            }
            i = i + 1;
        }
    }
}

/// Law: overwriting a field with *apply* twice leaves exactly the last
/// value, independent of what the cell held before. Applied globally, a
/// reset to zero followed by an ambient value leaves every cell at the
/// ambient value.
pub proof fn lemma_apply_overwrites(c: Conditions, a: i64, b: i64)
    requires
        0 <= b,
    ensures
        Effect::Light(b).apply_spec(Effect::Light(a).apply_spec(c)).light == b,
        Effect::Moisture(b).apply_spec(Effect::Moisture(a).apply_spec(c)).moisture == b,
{
}

/// Law: appending a non-negative delta twice increases the field by exactly
/// twice the delta: no clamping triggers for non-negative deltas while the
/// sums stay in the domain.
pub proof fn lemma_append_accumulates(c: Conditions, d: i64)
    requires
        0 <= c.moisture,
        0 <= d,
        c.moisture + 2 * d <= i64::MAX,
    ensures
        Effect::Moisture(d).append_spec(Effect::Moisture(d).append_spec(c)).moisture
            == c.moisture + 2 * d,
{
}

} // verus!
