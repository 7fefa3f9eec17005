use vstd::prelude::*;

verus! {

/// Navigation grid for A* pathfinding: row-major cells, true = passable.
pub struct NavGrid {
    pub cells: Vec<bool>,
    pub width: usize,
    pub height: usize,
}

impl NavGrid {
    /// One cell per grid position.
    pub open spec fn wf(&self) -> bool {
        self.cells@.len() == self.width * self.height
    }

    /// Cell (gx, gy) is inside the grid and passable.
    pub open spec fn passable_spec(&self, gx: int, gy: int) -> bool {
        &&& 0 <= gx < self.width
        &&& 0 <= gy < self.height
        &&& self.cells@[gy * self.width + gx]
    }

    /// Whether (gx, gy) is inside the grid and passable.
    pub fn passable(&self, gx: usize, gy: usize) -> (b: bool)
        requires
            self.wf(),
        ensures
            b == self.passable_spec(gx as int, gy as int),
    {
        if gx >= self.width || gy >= self.height {
            return false;
        }
        let n = self.cells.len();
        proof {
            assert(gy * self.width + gx < self.width * self.height) by (nonlinear_arith)
                requires
                    gx < self.width,
                    gy < self.height,
            ;
            assert(gy * self.width + gx < n);
        }
        self.cells[gy * self.width + gx]
    }
}

/// Chebyshev distance between two grid cells.
pub open spec fn ring_of(pos: (usize, usize), c: (usize, usize)) -> int {
    let dx = if c.0 >= pos.0 { c.0 - pos.0 } else { pos.0 - c.0 };
    let dy = if c.1 >= pos.1 { c.1 - pos.1 } else { pos.1 - c.1 };
    if dx >= dy { dx } else { dy }
}

/// A passable cell on one of the rings searched around `pos` (1 to 19 away).
pub open spec fn is_candidate(grid: NavGrid, pos: (usize, usize), c: (usize, usize)) -> bool {
    &&& 1 <= ring_of(pos, c) < 20
    &&& grid.passable_spec(c.0 as int, c.1 as int)
}

/// Search order: nearer rings first, then by column offset, then by row offset.
pub open spec fn searched_before(pos: (usize, usize), a: (usize, usize), b: (usize, usize)) -> bool {
    ||| ring_of(pos, a) < ring_of(pos, b)
    ||| ring_of(pos, a) == ring_of(pos, b) && a.0 < b.0
    ||| ring_of(pos, a) == ring_of(pos, b) && a.0 == b.0 && a.1 < b.1
}

/// The closest passable cell to `pos`: `pos` itself if passable, else the
/// first passable cell found ring by ring (up to 19 cells away), else `pos`.
pub fn nearest_passable(grid: &NavGrid, pos: (usize, usize)) -> (found: (usize, usize))
    requires
        grid.wf(),
        pos.0 <= i32::MAX - 20,
        pos.1 <= i32::MAX - 20,
    ensures
        grid.passable_spec(pos.0 as int, pos.1 as int) ==> found == pos,
        !grid.passable_spec(pos.0 as int, pos.1 as int) ==> {
            if exists|c: (usize, usize)| is_candidate(*grid, pos, c) {
                &&& is_candidate(*grid, pos, found)
                &&& forall|c: (usize, usize)| is_candidate(*grid, pos, c) ==> !searched_before(pos, c, found)
            } else {
                found == pos
            }
        },
{
    if grid.passable(pos.0, pos.1) {
        return pos;
    }
    let mut r: i32 = 1;
    while r < 20
        invariant
            grid.wf(),
            !grid.passable_spec(pos.0 as int, pos.1 as int),
            pos.0 <= i32::MAX - 20,
            pos.1 <= i32::MAX - 20,
            1 <= r <= 20,
            forall|c: (usize, usize)| #[trigger] is_candidate(*grid, pos, c) ==> ring_of(pos, c) >= r,
        decreases 20 - r,
    {
        let mut dx: i32 = -r;
        while dx <= r
            invariant
                grid.wf(),
                !grid.passable_spec(pos.0 as int, pos.1 as int),
                pos.0 <= i32::MAX - 20,
                pos.1 <= i32::MAX - 20,
                1 <= r < 20,
                -r <= dx <= r + 1,
                forall|c: (usize, usize)| #[trigger] is_candidate(*grid, pos, c) ==> ring_of(pos, c) > r
                    || (ring_of(pos, c) == r && c.0 >= pos.0 + dx),
            decreases r + 1 - dx,
        {
            let mut dy: i32 = -r;
            while dy <= r
                invariant
                    grid.wf(),
                    !grid.passable_spec(pos.0 as int, pos.1 as int),
                    pos.0 <= i32::MAX - 20,
                    pos.1 <= i32::MAX - 20,
                    1 <= r < 20,
                    -r <= dx <= r,
                    -r <= dy <= r + 1,
                    forall|c: (usize, usize)| #[trigger] is_candidate(*grid, pos, c) ==> ring_of(pos, c) > r
                        || (ring_of(pos, c) == r && c.0 > pos.0 + dx)
                        || (ring_of(pos, c) == r && c.0 == pos.0 + dx && c.1 >= pos.1 + dy),
                decreases r + 1 - dy,
            {
                let on_ring = dx == r || dx == -r || dy == r || dy == -r;
                let nx = pos.0 as i32 + dx;
                let ny = pos.1 as i32 + dy;
                if on_ring && nx >= 0 && ny >= 0 {
                    let cell = (nx as usize, ny as usize);
                    if grid.passable(cell.0, cell.1) {
                        proof {
                            assert(ring_of(pos, cell) == r);
                            assert(is_candidate(*grid, pos, cell));
                        }
                        return cell;
                    }
                }
                proof {
                    assert forall|c: (usize, usize)| #[trigger] is_candidate(*grid, pos, c) implies ring_of(pos, c) > r
                        || (ring_of(pos, c) == r && c.0 > pos.0 + dx)
                        || (ring_of(pos, c) == r && c.0 == pos.0 + dx && c.1 >= pos.1 + dy + 1) by {
                        if ring_of(pos, c) == r && c.0 == pos.0 + dx && c.1 == pos.1 + dy {
                            assert(on_ring);
                            assert(c == (nx as usize, ny as usize));
                        }
                    }
                }
                dy = dy + 1;
            }
            proof {
                assert forall|c: (usize, usize)| #[trigger] is_candidate(*grid, pos, c) implies ring_of(pos, c) > r
                    || (ring_of(pos, c) == r && c.0 >= pos.0 + dx + 1) by {
                    if ring_of(pos, c) == r && c.0 == pos.0 + dx {
                        assert(c.1 <= pos.1 + r);
                    }
                }
            }
            dx = dx + 1;
        }
        proof {
            assert forall|c: (usize, usize)| #[trigger] is_candidate(*grid, pos, c) implies ring_of(pos, c) >= r + 1 by {
                if ring_of(pos, c) == r {
                    assert(c.0 <= pos.0 + r);
                }
            }
        }
        r = r + 1;
    }
    proof {
        assert(!exists|c: (usize, usize)| is_candidate(*grid, pos, c));
    }
    pos
}

/// Kind of obstacle on the arena.
#[derive(Clone, Copy, Debug, PartialEq, Eq, Structural)]
pub enum ObstacleType {
    /// Blocks movement and every projectile; never destroyed.
    Wall,
    /// Blocks projectiles of the other side; can be shot down.
    Cover,
}

/// Owner id of cover that belongs to neither player.
pub const NEUTRAL_OWNER: u16 = 255;

/// Does an obstacle block a projectile fired by `proj_owner`? A destroyed
/// obstacle blocks nothing; a wall blocks every projectile; neutral cover
/// blocks every projectile; a player's cover blocks only the other side's.
pub fn blocks_projectile(alive: bool, obstacle_type: ObstacleType, owner: u16, proj_owner: u16) -> (b: bool)
    ensures
        b == (alive && (obstacle_type == ObstacleType::Wall || owner == NEUTRAL_OWNER || owner != proj_owner)),
{
    if !alive {
        return false;
    }
    match obstacle_type {
        ObstacleType::Wall => true,
        ObstacleType::Cover => owner == NEUTRAL_OWNER || owner != proj_owner,
    }
}

/// Does an obstacle block movement? Only a standing wall does.
pub fn blocks_movement(alive: bool, obstacle_type: ObstacleType) -> (b: bool)
    ensures
        b == (alive && obstacle_type == ObstacleType::Wall),
{
    alive && obstacle_type == ObstacleType::Wall
}

} // verus!
