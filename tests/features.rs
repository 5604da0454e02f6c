use azul::{Action, ActionDisplay, GameState, PlayerState, State, Tile, COLORS};

#[test]
fn board_features_layout() {
    let mut p = PlayerState::new();
    p.score = 12;
    p.wall[1][3] = true;
    p.pattern_lines[2] = (Some(Tile::Red), 2);
    p.floor_line = 4;
    p.starting_marker = true;
    let f = p.features();
    assert_eq!(f.len(), 58);
    assert_eq!(f[0], 12);
    assert_eq!(f[1 + 5 + 3], 1);
    assert_eq!(f[1..26].iter().sum::<u64>(), 1);
    let row2 = 26 + 12;
    assert_eq!(&f[row2..row2 + 6], &[0, 0, 1, 0, 0, 2]);
    assert_eq!(&f[26..32], &[0, 0, 0, 0, 0, 0]);
    assert_eq!(f[56], 4);
    assert_eq!(f[57], 1);
}

#[test]
fn board_features_tell_boards_apart() {
    let a = PlayerState::new();
    let mut b = PlayerState::new();
    b.pattern_lines[4] = (Some(Tile::Black), 0);
    assert_ne!(a.features(), b.features());
    let mut c = PlayerState::new();
    c.wall[4][4] = true;
    assert_ne!(a.features(), c.features());
}

#[test]
fn state_features_layout() {
    let mut s = State::new(2);
    s.factory_displays[1] = [0, 3, 0, 1, 0];
    s.rounds = 3;
    let f = s.features();
    assert_eq!(f.len(), 5 * 30 + 31 + 2 * 58 + 1);
    assert_eq!(&f[30..36], &[1, 0, 0, 0, 0, 0]);
    assert_eq!(&f[36..42], &[0, 1, 0, 0, 0, 3]);
    assert_eq!(&f[48..54], &[0, 0, 0, 1, 0, 1]);
    assert_eq!(f[150 + 30], 1);
    assert_eq!(*f.last().unwrap(), 3);
}

#[test]
fn action_features_layout() {
    let a = Action {
        action_display_choice: ActionDisplay::FactoryDisplay(3),
        color_choice: Tile::White,
        pattern_line_choice: Some(1),
    };
    assert_eq!(a.features(), vec![3, 0, 0, 0, 1, 0, 1]);
    let b = Action {
        action_display_choice: ActionDisplay::Center,
        color_choice: Tile::Black,
        pattern_line_choice: None,
    };
    assert_eq!(b.features(), vec![-1, 1, 0, 0, 0, 0, 5]);
}

fn decode_board(f: &[u64]) -> PlayerState {
    let mut p = PlayerState::new();
    p.score = f[0] as i32;
    for r in 0..5 {
        for c in 0..5 {
            p.wall[r][c] = f[1 + 5 * r + c] == 1;
        }
        let base = 26 + 6 * r;
        let color = (0..5).find(|j| f[base + j] == 1).map(|j| COLORS[j]);
        p.pattern_lines[r] = (color, f[base + 5] as usize);
    }
    p.floor_line = f[56] as usize;
    p.starting_marker = f[57] == 1;
    p
}

#[test]
fn board_features_round_trip() {
    let mut p = PlayerState::new();
    p.score = 31;
    p.wall[0][0] = true;
    p.wall[2][4] = true;
    p.wall[4][1] = true;
    p.pattern_lines[1] = (Some(Tile::Yellow), 1);
    p.pattern_lines[3] = (Some(Tile::Black), 0);
    p.pattern_lines[4] = (Some(Tile::White), 5);
    p.floor_line = 7;
    let q = decode_board(&p.features());
    assert_eq!(q.score, p.score);
    assert_eq!(q.wall, p.wall);
    assert_eq!(q.pattern_lines, p.pattern_lines);
    assert_eq!(q.floor_line, p.floor_line);
    assert_eq!(q.starting_marker, p.starting_marker);
}
