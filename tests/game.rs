use monster_chase::chance::random_coordinate;
use monster_chase::{Coordinate, Direction, Element, Game, GameError, Outcome, COL, ROW};

fn at(x: u8, y: u8) -> Coordinate {
    Coordinate { x, y }
}

fn cell(g: &Game, x: u8, y: u8) -> Element {
    g.area[y as usize * COL as usize + x as usize]
}

fn count(g: &Game, e: Element) -> usize {
    g.area.iter().filter(|c| **c == e).count()
}

fn started(monster: Coordinate, target: Coordinate) -> Game {
    let mut g = Game::new(monster, target);
    assert_eq!(g.start(), Ok(()));
    g
}

#[test]
fn icons_for_each_element() {
    assert_eq!(Element::Monster.get_icon(), "🐸");
    assert_eq!(Element::Target.get_icon(), "🍎");
    assert_eq!(Element::Footprint.get_icon(), "🐾");
    assert_eq!(Element::Empty.get_icon(), "⚪");
}

#[test]
fn keys_map_to_directions() {
    assert_eq!(Direction::from_key('w'), Some(Direction::Up));
    assert_eq!(Direction::from_key('s'), Some(Direction::Down));
    assert_eq!(Direction::from_key('a'), Some(Direction::Left));
    assert_eq!(Direction::from_key('d'), Some(Direction::Right));
    assert_eq!(Direction::from_key('W'), None);
    assert_eq!(Direction::from_key(' '), None);
}

#[test]
fn new_game_is_empty() {
    let g = Game::new(at(1, 2), at(3, 4));
    assert_eq!(g.area.len(), 36);
    assert_eq!(count(&g, Element::Empty), 36);
    assert_eq!(g.score, 0);
}

#[test]
fn start_places_one_monster_and_one_target() {
    for (m, t) in [(at(0, 0), at(5, 5)), (at(2, 2), at(3, 2)), (at(5, 0), at(0, 5))] {
        let g = started(m, t);
        assert_eq!(count(&g, Element::Monster), 1);
        assert_eq!(count(&g, Element::Target), 1);
        assert_eq!(count(&g, Element::Empty), 34);
        assert_eq!(cell(&g, m.x, m.y), Element::Monster);
        assert_eq!(cell(&g, t.x, t.y), Element::Target);
    }
}

#[test]
fn start_on_one_cell_shows_the_target() {
    let g = started(at(4, 1), at(4, 1));
    assert_eq!(count(&g, Element::Monster), 0);
    assert_eq!(count(&g, Element::Target), 1);
    assert_eq!(cell(&g, 4, 1), Element::Target);
}

#[test]
fn start_rejects_cells_off_the_board() {
    for (m, t) in [(at(COL, 0), at(0, 0)), (at(0, ROW), at(0, 0)), (at(0, 0), at(6, 6)), (at(0, 0), at(0, 200))] {
        let mut g = Game::new(m, t);
        assert_eq!(g.start(), Err(GameError::OutOfBounds));
        assert_eq!(count(&g, Element::Empty), 36);
    }
}

#[test]
fn moves_are_checked_against_the_edges() {
    let g = started(at(0, 0), at(5, 5));
    assert!(!g.can_update_position(Direction::Up));
    assert!(!g.can_update_position(Direction::Left));
    assert!(g.can_update_position(Direction::Down));
    assert!(g.can_update_position(Direction::Right));
    let g = started(at(5, 5), at(0, 0));
    assert!(g.can_update_position(Direction::Up));
    assert!(g.can_update_position(Direction::Left));
    assert!(!g.can_update_position(Direction::Down));
    assert!(!g.can_update_position(Direction::Right));
}

#[test]
fn each_direction_steps_once() {
    let mut g = started(at(2, 3), at(0, 0));
    g.update_monster_position(Direction::Up);
    assert_eq!(g.monster, at(2, 2));
    g.update_monster_position(Direction::Right);
    assert_eq!(g.monster, at(3, 2));
    g.update_monster_position(Direction::Down);
    assert_eq!(g.monster, at(3, 3));
    g.update_monster_position(Direction::Left);
    assert_eq!(g.monster, at(2, 3));
    assert_eq!(cell(&g, 2, 3), Element::Monster);
}

#[test]
fn blocked_move_changes_nothing() {
    let mut g = started(at(0, 0), at(5, 5));
    let area = g.area.clone();
    g.update_monster_position(Direction::Up);
    g.update_monster_position(Direction::Left);
    assert_eq!(g.monster, at(0, 0));
    assert_eq!(g.target, at(5, 5));
    assert_eq!(g.area, area);
    assert_eq!(g.score, 0);
    let mut g = started(at(5, 5), at(0, 0));
    g.update_monster_position(Direction::Down);
    g.update_monster_position(Direction::Right);
    assert_eq!(g.monster, at(5, 5));
}

#[test]
fn unrecognized_path_changes_nothing() {
    let mut g = started(at(3, 3), at(1, 1));
    let area = g.area.clone();
    let skipped = g.read_path("qzx");
    assert_eq!(skipped, vec!['q', 'z', 'x']);
    assert_eq!(g.monster, at(3, 3));
    assert_eq!(g.target, at(1, 1));
    assert_eq!(g.area, area);
    assert_eq!(g.score, 0);
}

#[test]
fn path_reports_only_unknown_keys() {
    let mut g = started(at(0, 0), at(5, 5));
    let skipped = g.read_path("dxs ?d");
    assert_eq!(skipped, vec!['x', ' ', '?']);
    assert_eq!(g.monster, at(2, 1));
}

#[test]
fn path_keeps_going_after_a_blocked_step() {
    let mut g = started(at(0, 0), at(5, 5));
    let skipped = g.read_path("wwaasd");
    assert!(skipped.is_empty());
    assert_eq!(g.monster, at(1, 1));
}

#[test]
fn right_then_left_returns_home() {
    let mut g = started(at(0, 0), at(5, 5));
    g.read_path("d");
    assert_eq!(g.monster, at(1, 0));
    g.read_path("a");
    assert_eq!(g.monster, at(0, 0));
    assert_eq!(cell(&g, 0, 0), Element::Monster);
    assert_eq!(count(&g, Element::Monster), 1);
    let mut g = started(at(0, 0), at(5, 5));
    g.read_path("da");
    assert_eq!(g.monster, at(0, 0));
}

#[test]
fn capture_scores_and_moves_the_target() {
    let mut g = started(at(2, 2), at(3, 2));
    g.read_path("d");
    assert_eq!(g.monster, at(3, 2));
    assert_eq!(g.check_result(2, 2), Outcome::Captured);
    assert_eq!(g.score, 1);
    assert_eq!(g.monster, at(3, 2));
    assert_eq!(cell(&g, 3, 2), Element::Monster);
    assert_ne!(g.target, g.monster);
    assert!(g.target.x < COL && g.target.y < ROW);
    assert_eq!(cell(&g, g.target.x, g.target.y), Element::Target);
    assert_eq!(count(&g, Element::Monster), 1);
    assert_eq!(count(&g, Element::Target), 1);
    assert_eq!(count(&g, Element::Empty), 34);
}

#[test]
fn miss_leaves_a_footprint() {
    let mut g = started(at(0, 0), at(5, 5));
    let skipped = g.read_path("w");
    assert!(skipped.is_empty());
    assert_eq!(g.monster, at(0, 0));
    assert_eq!(g.check_result(0, 0), Outcome::GameOver);
    assert_eq!(cell(&g, 0, 0), Element::Footprint);
    assert_eq!(cell(&g, 5, 5), Element::Target);
    assert_eq!(count(&g, Element::Monster), 0);
    assert_eq!(g.score, 0);
}

#[test]
fn footprint_marks_where_the_monster_ended() {
    let mut g = started(at(0, 0), at(5, 5));
    g.read_path("sd");
    assert_eq!(g.check_result(0, 0), Outcome::GameOver);
    assert_eq!(cell(&g, 1, 1), Element::Footprint);
    assert_eq!(cell(&g, 0, 0), Element::Monster);
}

#[test]
fn score_rises_by_one_per_capture() {
    let mut g = started(at(0, 0), at(1, 0));
    let mut scores = vec![g.score];
    for _ in 0..5 {
        let first = g.monster;
        let t = g.target;
        let mut path = String::new();
        let (mut x, mut y) = (first.x, first.y);
        while x < t.x {
            path.push('d');
            x += 1;
        }
        while x > t.x {
            path.push('a');
            x -= 1;
        }
        while y < t.y {
            path.push('s');
            y += 1;
        }
        while y > t.y {
            path.push('w');
            y -= 1;
        }
        g.read_path(&path);
        assert_eq!(g.check_result(first.y, first.x), Outcome::Captured);
        scores.push(g.score);
    }
    let first = g.monster;
    g.read_path("");
    assert_eq!(g.check_result(first.y, first.x), Outcome::GameOver);
    scores.push(g.score);
    assert_eq!(scores, vec![0, 1, 2, 3, 4, 5, 5]);
}

#[test]
fn empty_cells_in_row_major_order() {
    let g = started(at(0, 0), at(1, 0));
    let empties = g.empty_cells();
    assert_eq!(empties.len(), 34);
    assert_eq!(empties[0], at(2, 0));
    assert_eq!(empties[4], at(0, 1));
    assert_eq!(empties[33], at(5, 5));
}

#[test]
fn respawn_picks_the_listed_cell() {
    let mut g = started(at(0, 0), at(1, 0));
    g.respawn_target(0);
    assert_eq!(g.target, at(2, 0));
    assert_eq!(cell(&g, 2, 0), Element::Target);
    assert_eq!(cell(&g, 1, 0), Element::Target);
    let mut g = started(at(0, 0), at(1, 0));
    g.respawn_target(33);
    assert_eq!(g.target, at(5, 5));
}

#[test]
fn hidden_map_shows_only_empty_cells() {
    let g = started(at(1, 0), at(0, 5));
    let shown = g.load_map(false);
    assert_eq!(shown.len(), 6);
    assert!(shown.iter().all(|r| r.len() == 6));
    assert_eq!(shown[0][1], Element::Monster);
    assert_eq!(shown[5][0], Element::Target);
    assert_eq!(shown[3][3], Element::Empty);
    let hidden = g.load_map(true);
    assert!(hidden.iter().all(|r| r.len() == 6 && r.iter().all(|e| *e == Element::Empty)));
}

#[test]
fn random_cells_stay_on_the_board() {
    for _ in 0..500 {
        let c = random_coordinate();
        assert!(c.x < COL && c.y < ROW);
    }
}
