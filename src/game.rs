use vstd::prelude::*;

use crate::board::{
    coord_of, in_bounds, index_of, lemma_coord_of, lemma_index_in_range,
    lemma_index_injective, lemma_run_path_in_bounds, run_path, step, can_move,
    unrecognized_keys, Coordinate, Direction, Element, CELLS, COL, ROW,
};
use crate::chance::random_below;

verus! {

/// Why a game cannot start.
#[derive(Clone, Copy, Debug, PartialEq, Eq, Structural)]
pub enum GameError {
    /// The monster or the target lies outside the `ROW` x `COL` board.
    OutOfBounds,
}

/// How a turn ended.
#[derive(Clone, Copy, Debug, PartialEq, Eq, Structural)]
pub enum Outcome {
    /// The monster reached the target; the game goes on.
    Captured,
    /// The monster missed the target; the game is over.
    GameOver,
}

/// What a turn with this outcome adds to the score.
pub open spec fn score_gain(o: Outcome) -> int {
    if o is Captured {
        1
    } else {
        0
    }
}

/// The board before anything is placed on it.
pub open spec fn fresh_area() -> Seq<Element> {
    Seq::new(CELLS as nat, |i: int| Element::Empty)
}

/// The board holding the monster at `m` and nothing else.
pub open spec fn monster_only(m: Coordinate) -> Seq<Element> {
    Seq::new(
        CELLS as nat,
        |i: int|
            if i == index_of(m) {
                Element::Monster
            } else {
                Element::Empty
            },
    )
}

/// The board holds the target at `t`, the monster at `m` (unless the target covers it),
/// and nothing else.
pub open spec fn laid_out(area: Seq<Element>, m: Coordinate, t: Coordinate) -> bool {
    &&& area.len() == CELLS
    &&& forall|i: int|
        0 <= i < CELLS ==> #[trigger] area[i] == if i == index_of(t) {
            Element::Target
        } else if i == index_of(m) {
            Element::Monster
        } else {
            Element::Empty
        }
}

/// The empty cells among the first `n` positions of the board, in row-major order.
pub open spec fn empty_cells_upto(area: Seq<Element>, n: int) -> Seq<Coordinate>
    decreases n,
{
    if n <= 0 {
        Seq::empty()
    } else {
        let before = empty_cells_upto(area, n - 1);
        if area[n - 1] == Element::Empty {
            before.push(coord_of(n - 1))
        } else {
            before
        }
    }
}

/// The empty cells of the board, in row-major order.
pub open spec fn empty_cells_of(area: Seq<Element>) -> Seq<Coordinate> {
    empty_cells_upto(area, area.len() as int)
}

/// What a cell shows: its contents, or an empty cell when the board is hidden.
pub open spec fn shown(e: Element, hide_icon: bool) -> Element {
    if hide_icon {
        Element::Empty
    } else {
        e
    }
}

/// Every listed cell is on the board, among the first `n` positions, and empty.
pub proof fn lemma_empty_cells_sound(area: Seq<Element>, n: int)
    requires
        0 <= n <= area.len(),
        area.len() == CELLS,
    ensures
        forall|k: int|
            0 <= k < empty_cells_upto(area, n).len() ==> {
                let c = #[trigger] empty_cells_upto(area, n)[k];
                &&& in_bounds(c)
                &&& index_of(c) < n
                &&& area[index_of(c)] == Element::Empty
            },
    decreases n,
{
    if n > 0 {
        lemma_empty_cells_sound(area, n - 1);
        lemma_coord_of(n - 1);
    }
}

/// Every empty cell among the first `n` positions is listed.
pub proof fn lemma_empty_cells_complete(area: Seq<Element>, n: int, j: int)
    requires
        0 <= j < n <= area.len(),
        area[j] == Element::Empty,
    ensures
        empty_cells_upto(area, n).contains(coord_of(j)),
    decreases n,
{
    if j < n - 1 {
        lemma_empty_cells_complete(area, n - 1, j);
        let before = empty_cells_upto(area, n - 1);
        let k = choose|k: int| 0 <= k < before.len() && before[k] == coord_of(j);
        if area[n - 1] == Element::Empty {
            assert(before.push(coord_of(n - 1))[k] == coord_of(j));
        }
    } else {
        let s = empty_cells_upto(area, n);
        assert(s[s.len() - 1] == coord_of(j));
    }
}

/// Position of a cell in the board's storage.
fn cell_index(c: Coordinate) -> (i: usize)
    requires
        in_bounds(c),
    ensures
        i == index_of(c),
        i < CELLS,
{
    proof {
        lemma_index_in_range(c);
    }
    c.y as usize * COL as usize + c.x as usize
}

/// The state of a game: the board, the two tokens and the score.
pub struct Game {
    pub area: Vec<Element>,
    pub monster: Coordinate,
    pub target: Coordinate,
    pub score: u32,
}

/// Starting a fresh game whose two tokens lie on distinct cells of the board leaves
/// exactly one monster cell, at the monster, exactly one target cell, at the target,
/// and every other cell empty.
pub proof fn lemma_start_places_one_each(monster: Coordinate, target: Coordinate)
    requires
        in_bounds(monster),
        in_bounds(target),
        monster != target,
    ensures
        ({
            let area = fresh_area().update(index_of(monster), Element::Monster).update(
                index_of(target),
                Element::Target,
            );
            &&& area.len() == CELLS
            &&& forall|i: int|
                0 <= i < CELLS ==> {
                    &&& (#[trigger] area[i] == Element::Monster) == (i == index_of(monster))
                    &&& (area[i] == Element::Target) == (i == index_of(target))
                    &&& (i != index_of(monster) && i != index_of(target)) ==> area[i]
                        == Element::Empty
                }
        }),
{
    lemma_index_in_range(monster);
    lemma_index_in_range(target);
    lemma_index_injective(monster, target);
}

/// Number of captures among `outcomes`.
pub open spec fn captures(outcomes: Seq<Outcome>) -> int
    decreases outcomes.len(),
{
    if outcomes.len() == 0 {
        0
    } else {
        captures(outcomes.drop_last()) + score_gain(outcomes.last())
    }
}

/// Over any sequence of turns, where each turn changes the score as `check_result`
/// does, the score never goes down, and it ends up higher by the number of captures.
pub proof fn lemma_score_over_turns(scores: Seq<int>, outcomes: Seq<Outcome>)
    requires
        scores.len() == outcomes.len() + 1,
        forall|k: int|
            0 <= k < outcomes.len() ==> scores[k + 1] == scores[k] + score_gain(
                #[trigger] outcomes[k],
            ),
    ensures
        forall|i: int, j: int| 0 <= i <= j < scores.len() ==> scores[i] <= scores[j],
        scores.last() == scores[0] + captures(outcomes),
    decreases outcomes.len(),
{
    if outcomes.len() > 0 {
        let n = outcomes.len() as int;
        let fewer = scores.drop_last();
        assert forall|k: int| 0 <= k < n - 1 implies fewer[k + 1] == fewer[k] + score_gain(
            #[trigger] outcomes.drop_last()[k],
        ) by {
            assert(outcomes.drop_last()[k] == outcomes[k]);
        }
        lemma_score_over_turns(fewer, outcomes.drop_last());
        assert(scores[n] == scores[n - 1] + score_gain(outcomes[n - 1]));
        assert forall|i: int, j: int| 0 <= i <= j < scores.len() implies scores[i] <= scores[
            j
        ] by {
            if j == n {
                if i < n {
                    assert(fewer[i] <= fewer[n - 1]);
                }
            } else {
                assert(fewer[i] <= fewer[j]);
            }
        }
    }
}

impl Game {
    /// The board has one cell for each position.
    pub open spec fn wf(&self) -> bool {
        self.area@.len() == CELLS
    }

    /// Between turns: both tokens are on the board and the board shows them.
    pub open spec fn ready(&self) -> bool {
        &&& in_bounds(self.monster)
        &&& in_bounds(self.target)
        &&& laid_out(self.area@, self.monster, self.target)
    }

    /// A game with an empty board, the two tokens at the given cells and no score.
    pub fn new(monster: Coordinate, target: Coordinate) -> (g: Game)
        ensures
            g.area@ == fresh_area(),
            g.monster == monster,
            g.target == target,
            g.score == 0,
    {
        let mut area: Vec<Element> = Vec::new();
        let mut i: usize = 0;
        while i < CELLS
            invariant
                i <= CELLS,
                area@ == Seq::new(i as nat, |j: int| Element::Empty),
            decreases CELLS - i,
        {
            area.push(Element::Empty);
            i = i + 1;
            assert(area@ =~= Seq::new(i as nat, |j: int| Element::Empty));
        }
        Game { area, monster, target, score: 0 }
    }

    /// Checks that both tokens lie on the board, then marks the monster and the target on it.
    pub fn start(&mut self) -> (r: Result<(), GameError>)
        requires
            old(self).wf(),
        ensures
            r is Err <==> !(in_bounds(old(self).monster) && in_bounds(old(self).target)),
            r is Err ==> r == Err::<(), GameError>(GameError::OutOfBounds) && final(self).area@
                == old(self).area@,
            r is Ok ==> final(self).area@ == old(self).area@.update(
                index_of(old(self).monster),
                Element::Monster,
            ).update(index_of(old(self).target), Element::Target),
            r is Ok && old(self).area@ == fresh_area() ==> final(self).ready(),
            final(self).monster == old(self).monster,
            final(self).target == old(self).target,
            final(self).score == old(self).score,
    {
        if self.monster.x >= COL || self.target.x >= COL || self.monster.y >= ROW
            || self.target.y >= ROW {
            return Err(GameError::OutOfBounds);
        }
        let mi = cell_index(self.monster);
        let ti = cell_index(self.target);
        self.area.set(mi, Element::Monster);
        self.area.set(ti, Element::Target);
        Ok(())
    }

    /// Whether the monster may step in `direction` without leaving the board.
    pub fn can_update_position(&self, direction: Direction) -> (r: bool)
        ensures
            r == can_move(self.monster, direction),
    {
        match direction {
            Direction::Up => self.monster.y > 0,
            Direction::Down => self.monster.y < ROW - 1,
            Direction::Left => self.monster.x > 0,
            Direction::Right => self.monster.x < COL - 1,
        }
    }

    /// Moves the monster one step in `direction` when it stays on the board; a blocked
    /// step changes nothing. The board itself is not redrawn.
    pub fn update_monster_position(&mut self, direction: Direction)
        ensures
            final(self).monster == step(old(self).monster, direction),
            !can_move(old(self).monster, direction) ==> final(self).monster == old(self).monster,
            final(self).area@ == old(self).area@,
            final(self).target == old(self).target,
            final(self).score == old(self).score,
    {
        if self.can_update_position(direction) {
            match direction {
                Direction::Up => self.monster.y = self.monster.y - 1,
                Direction::Down => self.monster.y = self.monster.y + 1,
                Direction::Left => self.monster.x = self.monster.x - 1,
                Direction::Right => self.monster.x = self.monster.x + 1,
            }
        }
    }
    /// Applies each key of `path` in order: `w`, `s`, `a`, `d` step up, down, left and
    /// right, blocked steps are dropped, and any other key is skipped and returned.
    /// Only the monster's position changes.
    pub fn read_path(&mut self, path: &str) -> (unrecognized: Vec<char>)
        ensures
            final(self).monster == run_path(old(self).monster, path@),
            unrecognized@ == unrecognized_keys(path@),
            in_bounds(old(self).monster) ==> in_bounds(final(self).monster),
            final(self).area@ == old(self).area@,
            final(self).target == old(self).target,
            final(self).score == old(self).score,
    {
        let mut unrecognized: Vec<char> = Vec::new();
        for c in it: path.chars()
            invariant
                it.seq() == path@,
                self.monster == run_path(old(self).monster, path@.take(it.index() as int)),
                unrecognized@ == unrecognized_keys(path@.take(it.index() as int)),
                self.area@ == old(self).area@,
                self.target == old(self).target,
                self.score == old(self).score,
        {
            let ghost done = path@.take(it.index() as int);
            let ghost next = path@.take(it.index() + 1);
            proof {
                assert(next.drop_last() =~= done);
            }
            match Direction::from_key(c) {
                Some(d) => self.update_monster_position(d),
                None => unrecognized.push(c),
            }
        }
        proof {
            assert(path@.take(path@.len() as int) =~= path@);
            if in_bounds(old(self).monster) {
                lemma_run_path_in_bounds(old(self).monster, path@);
            }
        }
        unrecognized
    }
    /// The empty cells of the board, in row-major order.
    pub fn empty_cells(&self) -> (r: Vec<Coordinate>)
        requires
            self.wf(),
        ensures
            r@ == empty_cells_of(self.area@),
    {
        let mut r: Vec<Coordinate> = Vec::new();
        let mut i: usize = 0;
        while i < CELLS
            invariant
                i <= CELLS,
                self.wf(),
                r@ == empty_cells_upto(self.area@, i as int),
            decreases CELLS - i,
        {
            if self.area[i] == Element::Empty {
                r.push(Coordinate { x: (i % COL as usize) as u8, y: (i / COL as usize) as u8 });
            }
            i = i + 1;
        }
        r
    }

    /// Puts the target on the empty cell at position `pick` of `empty_cells`, in row-major
    /// order. The cell the target stood on before is left as it is.
    pub fn respawn_target(&mut self, pick: usize)
        requires
            old(self).wf(),
            pick < empty_cells_of(old(self).area@).len(),
        ensures
            final(self).target == empty_cells_of(old(self).area@)[pick as int],
            in_bounds(final(self).target),
            old(self).area@[index_of(final(self).target)] == Element::Empty,
            final(self).area@ == old(self).area@.update(
                index_of(final(self).target),
                Element::Target,
            ),
            final(self).monster == old(self).monster,
            final(self).score == old(self).score,
    {
        let empties = self.empty_cells();
        let t = empties[pick];
        proof {
            lemma_empty_cells_sound(self.area@, CELLS as int);
        }
        let ti = cell_index(t);
        self.area.set(ti, Element::Target);
        self.target = t;
    }

    /// Ends a turn whose monster started at (`monster_first_y`, `monster_first_x`).
    /// On a capture the score rises by one, the board shows the monster alone at its new
    /// cell, and the target moves to an empty cell drawn at random. On a miss a footprint
    /// marks the monster's current cell and the game is over.
    pub fn check_result(&mut self, monster_first_y: u8, monster_first_x: u8) -> (r: Outcome)
        requires
            old(self).wf(),
            in_bounds(old(self).monster),
            in_bounds(old(self).target),
            in_bounds(Coordinate { x: monster_first_x, y: monster_first_y }),
            laid_out(
                old(self).area@,
                Coordinate { x: monster_first_x, y: monster_first_y },
                old(self).target,
            ),
            old(self).score < u32::MAX,
        ensures
            (r == Outcome::Captured) == (old(self).monster == old(self).target),
            final(self).score == old(self).score + score_gain(r),
            final(self).monster == old(self).monster,
            r is Captured ==> final(self).ready(),
            r is Captured ==> final(self).target != final(self).monster,
            r is Captured ==> empty_cells_of(monster_only(final(self).monster)).contains(
                final(self).target,
            ),
            r is GameOver ==> final(self).area@ == old(self).area@.update(
                index_of(old(self).monster),
                Element::Footprint,
            ),
            r is GameOver ==> final(self).target == old(self).target,
    {
        if self.monster.x == self.target.x && self.monster.y == self.target.y {
            self.score = self.score + 1;
            let first = Coordinate { x: monster_first_x, y: monster_first_y };
            let fi = cell_index(first);
            let ti = cell_index(self.target);
            let mi = cell_index(self.monster);
            self.area.set(fi, Element::Empty);
            self.area.set(ti, Element::Empty);
            self.area.set(mi, Element::Monster);
            let ghost m = self.monster;
            assert(self.area@ =~= monster_only(m));
            let empties = self.empty_cells();
            proof {
                let j: int = if index_of(m) == 0 {
                    1
                } else {
                    0
                };
                lemma_empty_cells_complete(self.area@, CELLS as int, j);
                lemma_empty_cells_sound(self.area@, CELLS as int);
            }
            let pick = random_below(empties.len());
            self.respawn_target(pick);
            proof {
                let t = self.target;
                lemma_index_injective(t, m);
                assert(empty_cells_of(monster_only(m))[pick as int] == t);
            }
            Outcome::Captured
        } else {
            let mi = cell_index(self.monster);
            self.area.set(mi, Element::Footprint);
            proof {
                lemma_index_injective(self.monster, self.target);
            }
            Outcome::GameOver
        }
    }
    /// The board row by row as it is displayed: every cell as it is, or every cell empty
    /// when `hide_icon` is set.
    pub fn load_map(&self, hide_icon: bool) -> (rows: Vec<Vec<Element>>)
        requires
            self.wf(),
        ensures
            rows@.len() == ROW,
            forall|y: int| 0 <= y < ROW ==> (#[trigger] rows@[y])@.len() == COL,
            forall|y: int, x: int|
                0 <= y < ROW && 0 <= x < COL ==> (#[trigger] rows@[y]@[x]) == shown(
                    self.area@[y * COL + x],
                    hide_icon,
                ),
    {
        let mut rows: Vec<Vec<Element>> = Vec::new();
        let mut y: usize = 0;
        while y < ROW as usize
            invariant
                y <= ROW,
                self.wf(),
                rows@.len() == y,
                forall|yy: int| 0 <= yy < y ==> (#[trigger] rows@[yy])@.len() == COL,
                forall|yy: int, x: int|
                    0 <= yy < y && 0 <= x < COL ==> (#[trigger] rows@[yy]@[x]) == shown(
                        self.area@[yy * COL + x],
                        hide_icon,
                    ),
            decreases ROW - y,
        {
            let mut row: Vec<Element> = Vec::new();
            let mut x: usize = 0;
            while x < COL as usize
                invariant
                    x <= COL,
                    y < ROW,
                    self.wf(),
                    row@.len() == x,
                    forall|xx: int|
                        0 <= xx < x ==> (#[trigger] row@[xx]) == shown(
                            self.area@[y * COL + xx],
                            hide_icon,
                        ),
                decreases COL - x,
            {
                let e = if hide_icon {
                    Element::Empty
                } else {
                    self.area[y * COL as usize + x]
                };
                row.push(e);
                x = x + 1;
            }
            rows.push(row);
            y = y + 1;
        }
        rows
    }
}

} // verus!
