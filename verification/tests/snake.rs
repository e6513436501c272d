use fastgym::snake::{AbsSnake, Action, Observation, PovSnake, Reward, Snake};
use fastgym::random::StdSource;
use fastgym::{Env, RandomSource};
use rand::rngs::StdRng;
use rand::SeedableRng;

/// A source that hands out the given indices in turn.
struct Script {
    values: Vec<usize>,
    next: usize,
}

impl Script {
    fn of(values: &[usize]) -> Script {
        Script { values: values.to_vec(), next: 0 }
    }
}

impl RandomSource for Script {
    fn sample_uniform(&mut self, low: usize, high: usize) -> usize {
        let value = self.values[self.next];
        self.next += 1;
        assert!(low <= value && value < high);
        value
    }
}

/// A board of the given size after a reset that put the target and the head where told.
fn board(size: [usize; 2], target: [usize; 2], head: [usize; 2]) -> AbsSnake<Script> {
    let mut env = AbsSnake::new(size, Script::of(&[target[0], target[1], head[0], head[1]]));
    Env::<[[i8; 5]; 5]>::reset(&mut env);
    env
}

fn window(size: [usize; 2], target: [usize; 2], head: [usize; 2]) -> PovSnake<Script> {
    let mut env = PovSnake::new(size, Script::of(&[target[0], target[1], head[0], head[1]]));
    Env::<[[i8; 4]; 4]>::reset(&mut env);
    env
}

fn picture(env: &AbsSnake<Script>) -> [[i8; 5]; 5] {
    let mut obs = [[3i8; 5]; 5];
    env.observe(&mut obs);
    obs
}

fn go(env: &mut AbsSnake<Script>, action: Action) -> (bool, Reward) {
    Env::<[[i8; 5]; 5]>::step(env, &action)
}

#[test]
fn absolute_view_of_a_fresh_game() {
    let env = board([5, 5], [4, 4], [2, 2]);
    assert!(Env::<[[i8; 5]; 5]>::check(&env));
    assert_eq!(
        picture(&env),
        [
            [0, 0, 0, 0, 0],
            [0, 0, 0, 0, 0],
            [0, 0, 1, 0, 0],
            [0, 0, 0, 0, 0],
            [0, 0, 0, 0, -1],
        ]
    );
}

#[test]
fn absolute_view_before_the_first_reset() {
    let env = AbsSnake::new([5, 5], Script::of(&[]));
    let mut expected = [[0i8; 5]; 5];
    expected[0][0] = -1;
    assert_eq!(picture(&env), expected);
}

#[test]
fn absolute_view_as_observations() {
    let env = board([5, 5], [4, 4], [2, 2]);
    let mut obs = [[Observation::Target; 5]; 5];
    env.observe(&mut obs);
    let mut expected = [[Observation::Nothing; 5]; 5];
    expected[2][2] = Observation::Snake;
    expected[4][4] = Observation::Target;
    assert_eq!(obs, expected);
}

#[test]
fn target_hides_the_body_on_the_same_cell() {
    let env = board([5, 5], [2, 2], [2, 2]);
    let mut expected = [[0i8; 5]; 5];
    expected[2][2] = -1;
    assert_eq!(picture(&env), expected);
}

#[test]
fn moves_in_the_four_directions() {
    let mut env = board([5, 5], [4, 4], [2, 2]);
    assert_eq!(go(&mut env, Action::North), (false, Reward::Nothing));
    let mut expected = [[0i8; 5]; 5];
    expected[4][4] = -1;
    expected[1][2] = 1;
    assert_eq!(picture(&env), expected);
    assert_eq!(go(&mut env, Action::East), (false, Reward::Nothing));
    expected[1][2] = 0;
    expected[1][3] = 1;
    assert_eq!(picture(&env), expected);
    assert_eq!(go(&mut env, Action::South), (false, Reward::Nothing));
    expected[1][3] = 0;
    expected[2][3] = 1;
    assert_eq!(picture(&env), expected);
    assert_eq!(go(&mut env, Action::West), (false, Reward::Nothing));
    expected[2][3] = 0;
    expected[2][2] = 1;
    assert_eq!(picture(&env), expected);
}

#[test]
fn north_wraps_to_the_last_row() {
    let mut env = board([5, 5], [4, 4], [0, 3]);
    assert_eq!(go(&mut env, Action::North), (false, Reward::Nothing));
    let mut expected = [[0i8; 5]; 5];
    expected[4][4] = -1;
    expected[4][3] = 1;
    assert_eq!(picture(&env), expected);
}

#[test]
fn south_wraps_to_the_first_row() {
    let mut env = board([5, 5], [4, 4], [4, 1]);
    assert_eq!(go(&mut env, Action::South), (false, Reward::Nothing));
    let mut expected = [[0i8; 5]; 5];
    expected[4][4] = -1;
    expected[0][1] = 1;
    assert_eq!(picture(&env), expected);
}

#[test]
fn west_wraps_to_the_last_column_of_the_same_row() {
    let mut env = board([5, 5], [4, 4], [3, 0]);
    assert_eq!(go(&mut env, Action::West), (false, Reward::Nothing));
    let mut expected = [[0i8; 5]; 5];
    expected[4][4] = -1;
    expected[3][4] = 1;
    assert_eq!(picture(&env), expected);
}

#[test]
fn east_wraps_to_the_first_column() {
    let mut env = board([5, 5], [4, 4], [3, 4]);
    assert_eq!(go(&mut env, Action::East), (false, Reward::Nothing));
    let mut expected = [[0i8; 5]; 5];
    expected[4][4] = -1;
    expected[3][0] = 1;
    assert_eq!(picture(&env), expected);
}

#[test]
fn reaching_the_target_grows_the_body() {
    let mut env = board([5, 5], [2, 3], [2, 2]);
    assert_eq!(go(&mut env, Action::East), (false, Reward::Win(2)));
    let mut expected = [[0i8; 5]; 5];
    expected[2][2] = 1;
    expected[2][3] = -1;
    assert_eq!(picture(&env), expected);
    // The body is two cells long now: the tail follows one move later.
    assert_eq!(go(&mut env, Action::East), (false, Reward::Nothing));
    expected[2][2] = 0;
    expected[2][4] = 1;
    assert_eq!(picture(&env), expected);
}

#[test]
fn running_into_the_body_loses_and_changes_nothing() {
    let mut env = board([5, 5], [2, 3], [2, 2]);
    assert_eq!(go(&mut env, Action::East), (false, Reward::Win(2)));
    let before = picture(&env);
    assert_eq!(go(&mut env, Action::West), (true, Reward::Lose));
    assert_eq!(picture(&env), before);
    // The game can still be played on from the state before the fatal move.
    assert_eq!(go(&mut env, Action::North), (false, Reward::Nothing));
}

#[test]
fn the_tail_counts_as_body() {
    let mut env: Snake<Script> = Snake::new([1, 2], Script::of(&[0, 1, 0, 0]));
    env.reset();
    assert_eq!(env.step(&Action::East), (false, Reward::Win(2)));
    assert_eq!(env.step(&Action::East), (true, Reward::Lose));
    assert_eq!(env.step(&Action::West), (true, Reward::Lose));
}

#[test]
fn on_a_board_of_one_cell_every_move_loses() {
    let mut env: Snake<Script> = Snake::new([1, 1], Script::of(&[0, 0, 0, 0]));
    env.reset();
    assert_eq!(env.step(&Action::North), (true, Reward::Lose));
    assert_eq!(env.step(&Action::South), (true, Reward::Lose));
    assert_eq!(env.step(&Action::West), (true, Reward::Lose));
    assert_eq!(env.step(&Action::East), (true, Reward::Lose));
}

#[test]
fn reset_starts_over_with_one_cell() {
    let mut env = AbsSnake::new([5, 5], Script::of(&[2, 3, 2, 2, 0, 0, 4, 1]));
    Env::<[[i8; 5]; 5]>::reset(&mut env);
    assert_eq!(go(&mut env, Action::East), (false, Reward::Win(2)));
    Env::<[[i8; 5]; 5]>::reset(&mut env);
    let mut expected = [[0i8; 5]; 5];
    expected[0][0] = -1;
    expected[4][1] = 1;
    assert_eq!(picture(&env), expected);
}

#[test]
fn check_compares_board_and_shape() {
    let env = board([5, 5], [4, 4], [2, 2]);
    assert!(Env::<[[i8; 5]; 5]>::check(&env));
    assert!(!Env::<[[i8; 4]; 5]>::check(&env));
    let env = window([8, 8], [3, 1], [2, 2]);
    assert!(!Env::<[[i8; 4]; 4]>::check(&env));
    assert!(Env::<[[i8; 8]; 8]>::check(&env));
}

#[test]
fn window_puts_the_head_in_the_middle() {
    let env = window([8, 8], [3, 1], [2, 2]);
    let mut obs = [[9i8; 4]; 4];
    env.observe(&mut obs);
    assert_eq!(obs, [[0, 0, 0, 0], [0, 0, 0, 0], [0, 0, 1, 0], [0, -1, 0, 0]]);
}

#[test]
fn window_follows_the_head() {
    let mut env = window([8, 8], [3, 1], [5, 5]);
    let mut obs = [[0i8; 4]; 4];
    env.observe(&mut obs);
    assert_eq!(obs, [[0, 0, 0, 0], [0, 0, 0, 0], [0, 0, 1, 0], [0, 0, 0, 0]]);
    assert_eq!(Env::<[[i8; 4]; 4]>::step(&mut env, &Action::North), (false, Reward::Nothing));
    assert_eq!(Env::<[[i8; 4]; 4]>::step(&mut env, &Action::West), (false, Reward::Nothing));
    assert_eq!(Env::<[[i8; 4]; 4]>::step(&mut env, &Action::West), (false, Reward::Nothing));
    // Head at (4, 3): the window shows rows 2 to 5 and columns 1 to 4.
    env.observe(&mut obs);
    assert_eq!(obs, [[0, 0, 0, 0], [-1, 0, 0, 0], [0, 0, 1, 0], [0, 0, 0, 0]]);
}

#[test]
fn odd_window_puts_the_head_at_half_the_size() {
    let mut env = PovSnake::new([9, 9], Script::of(&[5, 6, 4, 4]));
    Env::<[[i8; 3]; 3]>::reset(&mut env);
    let mut obs = [[9i8; 3]; 3];
    env.observe(&mut obs);
    assert_eq!(obs, [[0, 0, 0], [0, 1, 0], [0, 0, 0]]);
    let mut wide = [[9i8; 5]; 3];
    env.observe(&mut wide);
    assert_eq!(wide, [[0, 0, 0, 0, 0], [0, 0, 1, 0, 0], [0, 0, 0, 0, -1]]);
}

#[test]
fn window_past_the_origin_does_not_wrap() {
    // Head at the origin: the window starts two cells before the board,
    // and those cells show nothing.
    let env = window([8, 8], [1, 1], [0, 0]);
    let mut obs = [[9i8; 4]; 4];
    env.observe(&mut obs);
    assert_eq!(obs, [[0, 0, 0, 0], [0, 0, 0, 0], [0, 0, 1, 0], [0, 0, 0, -1]]);
    // A target at (7, 7) lies on the far side of the board and is not seen.
    let env = window([8, 8], [7, 7], [0, 0]);
    env.observe(&mut obs);
    assert_eq!(obs, [[0, 0, 0, 0], [0, 0, 0, 0], [0, 0, 1, 0], [0, 0, 0, 0]]);
}

#[test]
fn window_leaves_out_what_lies_beyond_it() {
    // Head at (2, 2): the window shows rows and columns 0 to 3, so a target
    // in row 4 is out of sight.
    let env = window([8, 8], [4, 2], [2, 2]);
    let mut obs = [[9i8; 4]; 4];
    env.observe(&mut obs);
    assert_eq!(obs, [[0, 0, 0, 0], [0, 0, 0, 0], [0, 0, 1, 0], [0, 0, 0, 0]]);
}

#[test]
fn window_shows_the_body_behind_the_head() {
    let mut env = window([8, 8], [2, 3], [2, 2]);
    assert_eq!(Env::<[[i8; 4]; 4]>::step(&mut env, &Action::East), (false, Reward::Win(2)));
    let mut obs = [[9i8; 4]; 4];
    env.observe(&mut obs);
    // Head and target at (2, 3), the tail one column before.
    assert_eq!(obs, [[0, 0, 0, 0], [0, 0, 0, 0], [0, 1, -1, 0], [0, 0, 0, 0]]);
}

#[test]
fn codes_of_observations() {
    assert_eq!(i8::from(Observation::Nothing), 0);
    assert_eq!(i8::from(Observation::Snake), 1);
    assert_eq!(i8::from(Observation::Target), -1);
}

#[test]
fn same_seed_same_game() {
    let mut a = AbsSnake::new([5, 5], StdSource::new(StdRng::seed_from_u64(11)));
    let mut b = AbsSnake::new([5, 5], StdSource::new(StdRng::seed_from_u64(11)));
    Env::<[[i8; 5]; 5]>::reset(&mut a);
    Env::<[[i8; 5]; 5]>::reset(&mut b);
    let actions = [Action::North, Action::West, Action::West, Action::South, Action::East, Action::East];
    for action in actions {
        let mut seen_a = [[0i8; 5]; 5];
        let mut seen_b = [[0i8; 5]; 5];
        a.observe(&mut seen_a);
        b.observe(&mut seen_b);
        assert_eq!(seen_a, seen_b);
        assert_eq!(
            Env::<[[i8; 5]; 5]>::step(&mut a, &action),
            Env::<[[i8; 5]; 5]>::step(&mut b, &action)
        );
    }
}

#[test]
fn reset_draws_on_the_board() {
    let mut seed: u64 = 0;
    while seed < 50 {
        let mut env = AbsSnake::new([5, 5], StdSource::new(StdRng::seed_from_u64(seed)));
        Env::<[[i8; 5]; 5]>::reset(&mut env);
        let mut obs = [[0i8; 5]; 5];
        env.observe(&mut obs);
        let targets = obs.iter().flatten().filter(|c| **c == -1).count();
        let cells = obs.iter().flatten().filter(|c| **c == 1).count();
        assert_eq!(targets, 1);
        assert!(cells <= 1);
        seed += 1;
    }
}
