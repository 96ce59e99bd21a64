//! Shortest-path search between entry and exit over the grid's
//! walkable-neighbour graph, through the `pathfinding` crate.

use vstd::prelude::*;

use crate::coordinate::{spec_manhattan, Coordinate};
use crate::grid::{spec_surrounding_walkable, spec_walkable_at, Grid, GridView};

verus! {

/// A coordinate as a plain pair of integers.
pub open spec fn spec_pair(c: Coordinate) -> (int, int) {
    (c.x as int, c.y as int)
}

/// The set of coordinate pairs the grid covers with walkable cells.
pub open spec fn spec_walkable_pairs(v: GridView) -> Set<(int, int)> {
    Set::new(
        |p: (int, int)|
            i32::MIN <= p.0 <= i32::MAX && i32::MIN <= p.1 <= i32::MAX && spec_walkable_at(
                v,
                Coordinate { x: p.0 as i32, y: p.1 as i32 },
            ),
    )
}

/// The views of a path's coordinates, as plain pairs.
pub open spec fn spec_pairs_of(path: Seq<Coordinate>) -> Seq<(int, int)> {
    path.map_values(|c: Coordinate| spec_pair(c))
}

/// Two coordinate pairs are orthogonal neighbours.
pub open spec fn spec_pairs_adjacent(a: (int, int), b: (int, int)) -> bool {
    (a.0 == b.0 && (b.1 == a.1 + 1 || b.1 == a.1 - 1)) || (a.1 == b.1 && (b.0 == a.0 + 1 || b.0
        == a.0 - 1))
}

/// Whether the chain `p` joins the start to the goal over walkable ground:
/// it begins at the start, ends at the goal, and every node after the
/// first lies in the walkable set and is an orthogonal neighbour of its
/// predecessor.
pub open spec fn spec_valid_route(
    walkable: Set<(int, int)>,
    start: (int, int),
    goal: (int, int),
    p: Seq<(int, int)>,
) -> bool {
    p.len() >= 1 && p[0] == start && p.last() == goal && forall|i: int|
        1 <= i < p.len() ==> walkable.contains(#[trigger] p[i]) && spec_pairs_adjacent(
            p[i - 1],
            p[i],
        )
}

/// Whether some chain of walkable orthogonal steps joins the start to the
/// goal.
pub open spec fn spec_route_exists(
    walkable: Set<(int, int)>,
    start: (int, int),
    goal: (int, int),
) -> bool {
    exists|p: Seq<(int, int)>| #[trigger] spec_valid_route(walkable, start, goal, p)
}

/// The cost of one step between neighbouring cells: every edge of the
/// walkable graph counts the same.
pub fn unit_step_cost() -> (r: u32)
    ensures
        r == 1,
{
    1
}

/// The search heuristic handed to the shortest-path search: Manhattan
/// distance to the goal, divided by three. The division is inherited
/// behaviour, kept exactly; it only lowers the estimate below the true
/// remaining cost, so the search stays optimal.
pub fn route_heuristic(c: &Coordinate, goal: &Coordinate) -> (r: u32)
    requires
        spec_manhattan(*c, *goal) <= u32::MAX,
    ensures
        r == spec_manhattan(*c, *goal) / 3,
{
    c.distance(goal) / 3
}

/// What the shortest-path search returns for a given walkable set, start
/// and goal. The search is a deterministic function of these alone: the
/// candidate graph is expanded in a fixed neighbour order and the internal
/// containers of the search iterate in insertion order.
pub uninterp spec fn astar_route(walkable: Set<(int, int)>, start: (int, int), goal: (int, int)) -> Option<Seq<(int, int)>>;

/// Relies on `pathfinding::prelude::astar` over the grid's walkable
/// 4-neighbour graph with unit edge cost and the Manhattan/3 heuristic:
/// a returned path starts at the start, ends at the goal, and every node
/// after the start came out of the successor closure applied to its
/// predecessor, so it is a walkable orthogonal neighbour of that
/// predecessor. The heuristic never exceeds the true remaining cost, so
/// the search is optimal: no walkable chain joining the endpoints is
/// shorter than the returned path. An exhaustive search over this finite
/// graph returns a path whenever one exists, so an empty result means no
/// walkable chain joins the endpoints. The search walks `FxIndexMap` and
/// `BinaryHeap` in deterministic order, so the outcome is a function of
/// the walkable set and the two endpoints alone. The coordinate bounds
/// keep the successor arithmetic on the start inside `i32`.
#[verifier::external_body]
pub fn find_path(grid: &Grid, start: &Coordinate, goal: &Coordinate) -> (r: Option<Vec<Coordinate>>)
    requires
        grid.wf(),
        i32::MIN < start.x < i32::MAX,
        i32::MIN < start.y < i32::MAX,
        i32::MIN < goal.x < i32::MAX,
        i32::MIN < goal.y < i32::MAX,
    ensures
        (match r {
            Some(path) => Some(spec_pairs_of(path@)),
            None => None::<Seq<(int, int)>>,
        }) == astar_route(spec_walkable_pairs(grid@), spec_pair(*start), spec_pair(*goal)),
        match r {
            Some(path) => path@.len() >= 1 && path@[0] == *start && path@.last() == *goal
                && (forall|i: int|
                1 <= i < path@.len() ==> spec_walkable_at(grid@, #[trigger] path@[i])) && (forall|i: int|
                1 <= i < path@.len() ==> spec_surrounding_walkable(grid@, path@[i - 1]).contains(
                    #[trigger] path@[i],
                )) && (forall|p: Seq<(int, int)>| #[trigger] spec_valid_route(
                    spec_walkable_pairs(grid@),
                    spec_pair(*start),
                    spec_pair(*goal),
                    p,
                ) ==> path@.len() <= p.len()),
            None => !spec_route_exists(
                spec_walkable_pairs(grid@),
                spec_pair(*start),
                spec_pair(*goal),
            ),
        },
{
    pathfinding::prelude::astar(
        start,
        |c: &Coordinate| {
            grid.surrounding_walkable_coordinates(c).into_iter().map(|n| (n, unit_step_cost()))
        },
        |c: &Coordinate| route_heuristic(c, goal),
        |c: &Coordinate| c == goal,
    ).map(|found| found.0)
}

} // verus!
