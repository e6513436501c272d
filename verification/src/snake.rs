//! Snake on a board whose edges wrap round, with two ways of looking at it:
//! the whole board, or a window centred on the head.
use vstd::prelude::*;
use vstd::std_specs::convert::FromSpec;
use std::collections::VecDeque;
use crate::Env;
use crate::RandomSource;

verus! {

/// The direction of a move. North and South change the first coordinate,
/// West and East the second.
#[derive(Debug, Clone, Copy, PartialEq, Eq, Structural)]
pub enum Action {
    North,
    South,
    West,
    East,
}

/// What a move brought. `Win` carries the length of the body after growing.
#[derive(Debug, Clone, Copy, PartialEq, Eq, Structural)]
pub enum Reward {
    Nothing,
    Win(usize),
    Lose,
}

/// What a cell of the picture shows.
#[derive(Debug, Clone, Copy, PartialEq, Eq, Structural)]
pub enum Observation {
    Nothing,
    Snake,
    Target,
}

impl From<Observation> for i8 {
    fn from(obs: Observation) -> (code: i8) {
        match obs {
            Observation::Nothing => 0,
            Observation::Snake => 1,
            Observation::Target => -1,
        }
    }
}

impl vstd::std_specs::convert::FromSpecImpl<Observation> for i8 {
    open spec fn obeys_from_spec() -> bool {
        true
    }

    open spec fn from_spec(obs: Observation) -> i8 {
        match obs {
            Observation::Nothing => 0i8,
            Observation::Snake => 1i8,
            Observation::Target => -1i8,
        }
    }
}

/// The cell lies on the board.
pub open spec fn on_board(cell: (usize, usize), board: (usize, usize)) -> bool {
    cell.0 < board.0 && cell.1 < board.1
}

/// One of the first `upto` cells of `body` is `cell`.
pub open spec fn occupied(body: Seq<(usize, usize)>, upto: int, cell: (usize, usize)) -> bool {
    exists|j: int| 0 <= j < upto && #[trigger] body[j] == cell
}

/// A body in play: it has a head, lies on a board with cells, and crosses
/// itself nowhere. The head is the last cell, the tail the first.
pub open spec fn well_formed(body: Seq<(usize, usize)>, board: (usize, usize)) -> bool {
    &&& board.0 > 0
    &&& board.1 > 0
    &&& body.len() > 0
    &&& forall|i: int| 0 <= i < body.len() ==> on_board(#[trigger] body[i], board)
    &&& forall|i: int, j: int| 0 <= i < j < body.len() ==> #[trigger] body[i] != #[trigger] body[j]
}

/// The cell one move away from `head`. Leaving the board on one side leads
/// back in on the other.
pub open spec fn next_head(head: (usize, usize), board: (usize, usize), action: Action) -> (usize, usize) {
    match action {
        Action::North => (if head.0 == 0 { (board.0 - 1) as usize } else { (head.0 - 1) as usize }, head.1),
        Action::South => (if head.0 == board.0 - 1 { 0usize } else { (head.0 + 1) as usize }, head.1),
        Action::West => (head.0, if head.1 == 0 { (board.1 - 1) as usize } else { (head.1 - 1) as usize }),
        Action::East => (head.0, if head.1 == board.1 - 1 { 0usize } else { (head.1 + 1) as usize }),
    }
}

/// The body after a move: untouched when the new head would land on it,
/// one longer when the new head takes the target, and else moved on by one.
pub open spec fn body_after(
    body: Seq<(usize, usize)>,
    board: (usize, usize),
    goal: (usize, usize),
    action: Action,
) -> Seq<(usize, usize)> {
    let head = next_head(body.last(), board, action);
    if occupied(body, body.len() as int, head) {
        body
    } else if head == goal {
        body.push(head)
    } else {
        body.push(head).subrange(1, body.len() as int + 1)
    }
}

/// What a move is answered with.
pub open spec fn answer_after(
    body: Seq<(usize, usize)>,
    board: (usize, usize),
    goal: (usize, usize),
    action: Action,
) -> (bool, Reward) {
    let head = next_head(body.last(), board, action);
    if occupied(body, body.len() as int, head) {
        (true, Reward::Lose)
    } else if head == goal {
        (false, Reward::Win((body.len() + 1) as usize))
    } else {
        (false, Reward::Nothing)
    }
}

/// The state of a game of snake, shared by both views.
pub struct Snake<R> {
    board_size: [usize; 2],
    target: (usize, usize),
    snake: VecDeque<(usize, usize)>,
    random_generator: R,
}

impl<R> Snake<R> where R: RandomSource {
    /// The number of rows and of columns.
    pub closed spec fn board(&self) -> (usize, usize) {
        (self.board_size@[0], self.board_size@[1])
    }

    /// The cell to reach.
    pub closed spec fn goal(&self) -> (usize, usize) {
        self.target
    }

    /// The cells of the body, from tail to head.
    pub closed spec fn body(&self) -> Seq<(usize, usize)> {
        self.snake@
    }

    /// The random source that `reset` draws from.
    pub closed spec fn source(&self) -> R {
        self.random_generator
    }

    /// The target and every cell of the body lie on the board.
    pub open spec fn placed(&self) -> bool {
        &&& on_board(self.goal(), self.board())
        &&& forall|i: int| 0 <= i < self.body().len() ==> on_board(#[trigger] self.body()[i], self.board())
    }

    /// A game is under way: the body is well formed and the target lies on the board.
    pub open spec fn alive(&self) -> bool {
        well_formed(self.body(), self.board()) && on_board(self.goal(), self.board())
    }

    /// `next` is a state that `reset` may leave: the same board, a target on
    /// it, and a body of one cell on it.
    pub open spec fn resets_to(&self, next: &Self) -> bool {
        &&& next.board() == self.board()
        &&& next.body().len() == 1
        &&& next.alive()
    }

    /// `action` leads from this state to `next` and is answered by `outcome`.
    pub open spec fn steps_to(&self, action: Action, next: &Self, outcome: (bool, Reward)) -> bool {
        &&& next.board() == self.board()
        &&& next.goal() == self.goal()
        &&& next.source() == self.source()
        &&& next.body() == body_after(self.body(), self.board(), self.goal(), action)
        &&& outcome == answer_after(self.body(), self.board(), self.goal(), action)
    }

    /// A game on a board of the given size, with no body yet: `reset` starts it.
    pub fn new(board_size: [usize; 2], random_generator: R) -> (game: Self)
        ensures
            game.board() == (board_size@[0], board_size@[1]),
            game.goal() == (0usize, 0usize),
            game.body() == Seq::<(usize, usize)>::empty(),
            game.source() == random_generator,
    {
        Self { board_size, target: (0, 0), snake: VecDeque::new(), random_generator }
    }

    /// Draws a target and a body of one cell, each anywhere on the board.
    pub fn reset(&mut self)
        requires
            old(self).board().0 > 0,
            old(self).board().1 > 0,
        ensures
            old(self).resets_to(final(self)),
    {
        let target_row = self.random_generator.sample_uniform(0, self.board_size[0]);
        let target_col = self.random_generator.sample_uniform(0, self.board_size[1]);
        self.target = (target_row, target_col);
        self.snake.clear();
        let row = self.random_generator.sample_uniform(0, self.board_size[0]);
        let col = self.random_generator.sample_uniform(0, self.board_size[1]);
        self.snake.push_back((row, col));
    }

    /// Moves the head one cell. A move onto the body ends the game and
    /// changes nothing; a move onto the target lengthens the body by one;
    /// any other move takes the tail along.
    pub fn step(&mut self, action: &Action) -> (result: (bool, Reward))
        requires
            old(self).alive(),
        ensures
            old(self).steps_to(*action, final(self), result),
            final(self).alive(),
            result.1 == Reward::Lose ==> final(self).body() == old(self).body(),
            result.1 == Reward::Nothing ==> final(self).body().len() == old(self).body().len(),
            forall|n: usize|
                result.1 == Reward::Win(n) ==> n == final(self).body().len() && n == old(self).body().len() + 1,
    {
        let n = self.snake.len();
        let head = self.snake[n - 1];
        let rows = self.board_size[0];
        let cols = self.board_size[1];
        assert(on_board(self.snake@[n - 1], (rows, cols)));
        let new_head: (usize, usize) = match action {
            Action::North => if head.0 == 0 {
                (rows - 1, head.1)
            } else {
                (head.0 - 1, head.1)
            },
            Action::South => if head.0 == rows - 1 {
                (0, head.1)
            } else {
                (head.0 + 1, head.1)
            },
            Action::West => if head.1 == 0 {
                (head.0, cols - 1)
            } else {
                (head.0, head.1 - 1)
            },
            Action::East => if head.1 == cols - 1 {
                (head.0, 0)
            } else {
                (head.0, head.1 + 1)
            },
        };
        assert(new_head == next_head(self.snake@.last(), (rows, cols), *action));
        let mut i: usize = 0;
        while i < n
            invariant
                i <= n,
                n == self.snake@.len(),
                *self == *old(self),
                old(self).alive(),
                new_head == next_head(self.snake@.last(), self.board(), *action),
                !occupied(self.snake@, i as int, new_head),
            decreases n - i,
        {
            let part = self.snake[i];
            if part.0 == new_head.0 && part.1 == new_head.1 {
                assert(self.snake@[i as int] == new_head);
                return (true, Reward::Lose);
            }
            i += 1;
        }
        self.snake.push_back(new_head);
        if new_head.0 == self.target.0 && new_head.1 == self.target.1 {
            (false, Reward::Win(self.snake.len()))
        } else {
            self.snake.pop_front();
            (false, Reward::Nothing)
        }
    }
}

/// What the cell `cell` of the board shows: the target comes before the body.
pub open spec fn board_cell(body: Seq<(usize, usize)>, goal: (usize, usize), cell: (usize, usize)) -> Observation {
    if cell == goal {
        Observation::Target
    } else if occupied(body, body.len() as int, cell) {
        Observation::Snake
    } else {
        Observation::Nothing
    }
}

/// The board coordinate shown at index 0 of a window of `width` cells
/// centred on `center`. It is negative where the window reaches past the
/// board's origin: the window does not wrap round.
pub open spec fn window_start(center: usize, width: usize) -> int {
    center - width / 2
}

/// The board cell `cell` is the one shown at `(x, y)` of the window.
pub open spec fn seen_at(cell: (usize, usize), head: (usize, usize), size: (usize, usize), x: int, y: int) -> bool {
    cell.0 == window_start(head.0, size.0) + x && cell.1 == window_start(head.1, size.1) + y
}

/// One of the first `upto` cells of `body` is shown at `(x, y)` of the window.
pub open spec fn seen_among(
    body: Seq<(usize, usize)>,
    upto: int,
    head: (usize, usize),
    size: (usize, usize),
    x: int,
    y: int,
) -> bool {
    exists|j: int| 0 <= j < upto && seen_at(#[trigger] body[j], head, size, x, y)
}

/// What the cell `(x, y)` of a window of the given size shows, the window
/// being centred on the head: the target comes before the body, and a cell
/// that stands for no cell of the board shows nothing.
pub open spec fn window_cell(
    body: Seq<(usize, usize)>,
    goal: (usize, usize),
    size: (usize, usize),
    x: int,
    y: int,
) -> Observation {
    if seen_at(goal, body.last(), size, x, y) {
        Observation::Target
    } else if seen_among(body, body.len() as int, body.last(), size, x, y) {
        Observation::Snake
    } else {
        Observation::Nothing
    }
}

/// A move from a cell of the board ends on the board: one step further
/// modulo the board's size, so that a move off an edge comes back in at the
/// opposite edge.
pub proof fn lemma_move_wraps(head: (usize, usize), board: (usize, usize), action: Action)
    requires
        on_board(head, board),
    ensures
        on_board(next_head(head, board, action), board),
        action == Action::North ==> next_head(head, board, action) == (
            ((head.0 + board.0 - 1) % (board.0 as int)) as usize,
            head.1,
        ),
        action == Action::South ==> next_head(head, board, action) == (((head.0 + 1) % (board.0 as int)) as usize, head.1),
        action == Action::West ==> next_head(head, board, action) == (
            head.0,
            ((head.1 + board.1 - 1) % (board.1 as int)) as usize,
        ),
        action == Action::East ==> next_head(head, board, action) == (head.0, ((head.1 + 1) % (board.1 as int)) as usize),
        action == Action::North && head.0 == 0 ==> next_head(head, board, action).0 == board.0 - 1,
        action == Action::South && head.0 == board.0 - 1 ==> next_head(head, board, action).0 == 0,
        action == Action::West && head.1 == 0 ==> next_head(head, board, action).1 == board.1 - 1,
        action == Action::East && head.1 == board.1 - 1 ==> next_head(head, board, action).1 == 0,
{
    lemma_wrap(head.0 as int, board.0 as int);
    lemma_wrap(head.1 as int, board.1 as int);
}

proof fn lemma_wrap(at: int, bound: int)
    requires
        0 <= at < bound,
    ensures
        (at + 1) % bound == (if at == bound - 1 { 0 } else { at + 1 }),
        (at + bound - 1) % bound == (if at == 0 { bound - 1 } else { at - 1 }),
{
    if at == bound - 1 {
        vstd::arithmetic::div_mod::lemma_mod_self_0(bound);
    } else {
        vstd::arithmetic::div_mod::lemma_small_mod((at + 1) as nat, bound as nat);
    }
    if at == 0 {
        vstd::arithmetic::div_mod::lemma_small_mod((bound - 1) as nat, bound as nat);
    } else {
        vstd::arithmetic::div_mod::lemma_mod_add_multiples_vanish(at - 1, bound);
        vstd::arithmetic::div_mod::lemma_small_mod((at - 1) as nat, bound as nat);
    }
}

/// A move keeps a well-formed body well formed: every cell stays on the
/// board and no cell occurs twice.
pub proof fn lemma_move_keeps_body(
    body: Seq<(usize, usize)>,
    board: (usize, usize),
    goal: (usize, usize),
    action: Action,
)
    requires
        well_formed(body, board),
    ensures
        well_formed(body_after(body, board, goal, action), board),
{
    let head = next_head(body.last(), board, action);
    assert(on_board(body[body.len() - 1], board));
    lemma_move_wraps(body.last(), board, action);
    let grown = body.push(head);
    if !occupied(body, body.len() as int, head) {
        assert forall|i: int, j: int| 0 <= i < j < grown.len() implies #[trigger] grown[i] != #[trigger] grown[j] by {
            if j == body.len() {
                assert(body[i] != head);
            }
        }
        assert forall|i: int| 0 <= i < grown.len() implies on_board(#[trigger] grown[i], board) by {
            if i < body.len() {
                assert(on_board(body[i], board));
            }
        }
        let slid = grown.subrange(1, body.len() as int + 1);
        assert forall|i: int| 0 <= i < slid.len() implies on_board(#[trigger] slid[i], board) by {
            assert(slid[i] == grown[i + 1]);
        }
        assert forall|i: int, j: int| 0 <= i < j < slid.len() implies #[trigger] slid[i] != #[trigger] slid[j] by {
            assert(slid[i] == grown[i + 1]);
            assert(slid[j] == grown[j + 1]);
        }
    }
}

/// A winning move lengthens the body by one, any other move that goes on
/// keeps its length, and a losing move leaves the body as it was.
pub proof fn lemma_growth(body: Seq<(usize, usize)>, board: (usize, usize), goal: (usize, usize), action: Action)
    requires
        body.len() > 0,
    ensures
        answer_after(body, board, goal, action).1 is Win ==> body_after(body, board, goal, action).len()
            == body.len() + 1,
        answer_after(body, board, goal, action).1 is Nothing ==> body_after(body, board, goal, action).len()
            == body.len(),
        answer_after(body, board, goal, action).1 is Lose ==> body_after(body, board, goal, action) == body,
        answer_after(body, board, goal, action).0 <==> answer_after(body, board, goal, action).1 is Lose,
{
}

/// Two games that agree on board, target and body answer the same action
/// alike and agree afterwards: a step draws on nothing else.
pub proof fn lemma_step_is_determined<R: RandomSource>(
    a: &Snake<R>,
    b: &Snake<R>,
    action: Action,
    a_next: &Snake<R>,
    b_next: &Snake<R>,
    a_outcome: (bool, Reward),
    b_outcome: (bool, Reward),
)
    requires
        a.board() == b.board(),
        a.goal() == b.goal(),
        a.body() == b.body(),
        a.steps_to(action, a_next, a_outcome),
        b.steps_to(action, b_next, b_outcome),
    ensures
        a_outcome == b_outcome,
        a_next.body() == b_next.body(),
        a_next.goal() == b_next.goal(),
        a_next.board() == b_next.board(),
{
}

/// In a window with cells, the head is shown at the middle cell, the one
/// with index half the size on each axis, whatever the window's size.
pub proof fn lemma_head_is_centred(body: Seq<(usize, usize)>, goal: (usize, usize), size: (usize, usize))
    requires
        body.len() > 0,
        size.0 > 0,
        size.1 > 0,
    ensures
        0 <= size.0 / 2 < size.0,
        0 <= size.1 / 2 < size.1,
        seen_at(body.last(), body.last(), size, size.0 as int / 2, size.1 as int / 2),
        window_cell(body, goal, size, size.0 as int / 2, size.1 as int / 2) != Observation::Nothing,
        goal != body.last() ==> window_cell(body, goal, size, size.0 as int / 2, size.1 as int / 2)
            == Observation::Snake,
{
    assert(seen_at(body[body.len() - 1], body.last(), size, size.0 as int / 2, size.1 as int / 2));
}

/// Where the board coordinate `at` falls in a window of `width` cells
/// centred on `center`, if it falls in it.
fn window_index(at: usize, center: usize, width: usize) -> (local: Option<usize>)
    ensures
        match local {
            Some(i) => i < width && i == at - window_start(center, width),
            None => !(0 <= at - window_start(center, width) < width),
        },
{
    let half = width / 2;
    if at >= center {
        let ahead = at - center;
        if ahead < width - half {
            Some(half + ahead)
        } else {
            None
        }
    } else {
        let behind = center - at;
        if behind <= half {
            Some(half - behind)
        } else {
            None
        }
    }
}

/// Writes `blank` into every cell.
fn wipe<Obs: Copy, const X: usize, const Y: usize>(obs: &mut [[Obs; Y]; X], blank: Obs)
    ensures
        forall|x: int, y: int| 0 <= x < X && 0 <= y < Y ==> #[trigger] final(obs)@[x]@[y] == blank,
{
    for x in 0..X
        invariant
            forall|k: int, l: int| 0 <= k < x && 0 <= l < Y ==> #[trigger] obs@[k]@[l] == blank,
    {
        for y in 0..Y
            invariant
                0 <= x < X,
                forall|k: int, l: int| 0 <= k < x && 0 <= l < Y ==> #[trigger] obs@[k]@[l] == blank,
                forall|l: int| 0 <= l < y ==> #[trigger] obs@[x as int]@[l] == blank,
        {
            obs[x][y] = blank;
        }
    }
}

/// Snake seen as the whole board.
pub struct AbsSnake<R> {
    snake: Snake<R>,
}

impl<R> AbsSnake<R> where R: RandomSource {
    /// The game that is looked at.
    pub closed spec fn game(&self) -> Snake<R> {
        self.snake
    }

    pub fn new(board_size: [usize; 2], random_generator: R) -> (env: Self)
        ensures
            env.game().board() == (board_size@[0], board_size@[1]),
            env.game().goal() == (0usize, 0usize),
            env.game().body() == Seq::<(usize, usize)>::empty(),
            env.game().source() == random_generator,
    {
        Self { snake: Snake::new(board_size, random_generator) }
    }
}

impl<Obs, R, const X: usize, const Y: usize> Env<[[Obs; Y]; X]> for AbsSnake<R> where
    Obs: From<Observation> + Copy,
    R: RandomSource,
{
    type Action = Action;

    type Reward = Reward;

    open spec fn fits(&self) -> bool {
        self.game().board() == (X, Y)
    }

    open spec fn can_reset(&self) -> bool {
        self.game().board().0 > 0 && self.game().board().1 > 0
    }

    open spec fn can_step(&self) -> bool {
        self.game().alive()
    }

    /// The board has the picture's shape and holds the target and the
    /// body. The body may still be empty, as it is before the first reset.
    open spec fn can_observe(&self) -> bool {
        self.game().placed() && self.game().board() == (X, Y)
    }

    open spec fn resets_to(&self, next: &Self) -> bool {
        self.game().resets_to(&next.game())
    }

    open spec fn steps_to(&self, action: &Self::Action, next: &Self, outcome: (bool, Self::Reward)) -> bool {
        self.game().steps_to(*action, &next.game(), outcome)
    }

    /// Every cell holds what `Obs::from` made of what the cell shows.
    open spec fn shows(&self, obs: &[[Obs; Y]; X]) -> bool {
        forall|x: int, y: int|
            0 <= x < X && 0 <= y < Y ==> call_ensures(
                Obs::from,
                (board_cell(self.game().body(), self.game().goal(), (x as usize, y as usize)),),
                #[trigger] obs@[x]@[y],
            )
    }

    fn check(&self) -> (ok: bool) {
        self.snake.board_size[0] == X && self.snake.board_size[1] == Y
    }

    fn reset(&mut self) {
        self.snake.reset()
    }

    fn step(&mut self, action: &Self::Action) -> (result: (bool, Self::Reward)) {
        self.snake.step(action)
    }

    /// Clears the picture, marks every cell of the body, and the target last.
    fn observe(&self, obs: &mut [[Obs; Y]; X]) {
        let blank: Obs = Observation::Nothing.into();
        let mark: Obs = Observation::Snake.into();
        let goal_mark: Obs = Observation::Target.into();
        wipe(obs, blank);
        let n = self.snake.snake.len();
        let mut i: usize = 0;
        while i < n
            invariant
                i <= n,
                n == self.snake.snake@.len(),
                self.snake.placed(),
                self.snake.board() == (X, Y),
                forall|x: int, y: int|
                    0 <= x < X && 0 <= y < Y ==> #[trigger] obs@[x]@[y] == (if occupied(
                        self.snake.snake@,
                        i as int,
                        (x as usize, y as usize),
                    ) {
                        mark
                    } else {
                        blank
                    }),
            decreases n - i,
        {
            let part = self.snake.snake[i];
            assert(on_board(self.snake.body()[i as int], self.snake.board()));
            obs[part.0][part.1] = mark;
            i += 1;
        }
        let target = self.snake.target;
        obs[target.0][target.1] = goal_mark;
    }
}

/// Snake seen through a window centred on the head.
pub struct PovSnake<R> {
    snake: Snake<R>,
}

impl<R> PovSnake<R> where R: RandomSource {
    /// The game that is looked at.
    pub closed spec fn game(&self) -> Snake<R> {
        self.snake
    }

    pub fn new(board_size: [usize; 2], random_generator: R) -> (env: Self)
        ensures
            env.game().board() == (board_size@[0], board_size@[1]),
            env.game().goal() == (0usize, 0usize),
            env.game().body() == Seq::<(usize, usize)>::empty(),
            env.game().source() == random_generator,
    {
        Self { snake: Snake::new(board_size, random_generator) }
    }
}

impl<Obs, R, const X: usize, const Y: usize> Env<[[Obs; Y]; X]> for PovSnake<R> where
    Obs: From<Observation> + Copy,
    R: RandomSource,
{
    type Action = Action;

    type Reward = Reward;

    open spec fn fits(&self) -> bool {
        self.game().board() == (X, Y)
    }

    open spec fn can_reset(&self) -> bool {
        self.game().board().0 > 0 && self.game().board().1 > 0
    }

    open spec fn can_step(&self) -> bool {
        self.game().alive()
    }

    /// The body has a head to centre on. The window may be of any size: it
    /// need not be the board's.
    open spec fn can_observe(&self) -> bool {
        self.game().body().len() > 0
    }

    open spec fn resets_to(&self, next: &Self) -> bool {
        self.game().resets_to(&next.game())
    }

    open spec fn steps_to(&self, action: &Self::Action, next: &Self, outcome: (bool, Self::Reward)) -> bool {
        self.game().steps_to(*action, &next.game(), outcome)
    }

    /// Every cell holds what `Obs::from` made of what the cell shows.
    open spec fn shows(&self, obs: &[[Obs; Y]; X]) -> bool {
        forall|x: int, y: int|
            0 <= x < X && 0 <= y < Y ==> call_ensures(
                Obs::from,
                (window_cell(self.game().body(), self.game().goal(), (X, Y), x, y),),
                #[trigger] obs@[x]@[y],
            )
    }

    fn check(&self) -> (ok: bool) {
        self.snake.board_size[0] == X && self.snake.board_size[1] == Y
    }

    fn reset(&mut self) {
        self.snake.reset()
    }

    fn step(&mut self, action: &Self::Action) -> (result: (bool, Self::Reward)) {
        self.snake.step(action)
    }

    /// Clears the picture, marks the cells of the body that the window
    /// holds, and the target last if the window holds it.
    fn observe(&self, obs: &mut [[Obs; Y]; X]) {
        let blank: Obs = Observation::Nothing.into();
        let mark: Obs = Observation::Snake.into();
        let goal_mark: Obs = Observation::Target.into();
        wipe(obs, blank);
        let n = self.snake.snake.len();
        let head = self.snake.snake[n - 1];
        let mut i: usize = 0;
        while i < n
            invariant
                i <= n,
                n == self.snake.snake@.len(),
                n > 0,
                head == self.snake.snake@.last(),
                forall|x: int, y: int|
                    0 <= x < X && 0 <= y < Y ==> #[trigger] obs@[x]@[y] == (if seen_among(
                        self.snake.snake@,
                        i as int,
                        head,
                        (X, Y),
                        x,
                        y,
                    ) {
                        mark
                    } else {
                        blank
                    }),
            decreases n - i,
        {
            let part = self.snake.snake[i];
            let row = window_index(part.0, head.0, X);
            let col = window_index(part.1, head.1, Y);
            match (row, col) {
                (Some(x), Some(y)) => {
                    obs[x][y] = mark;
                },
                _ => {},
            }
            i += 1;
        }
        let target = self.snake.target;
        let row = window_index(target.0, head.0, X);
        let col = window_index(target.1, head.1, Y);
        match (row, col) {
            (Some(x), Some(y)) => {
                obs[x][y] = goal_mark;
            },
            _ => {},
        }
    }
}

/// Two pictures of the whole board that show games with the same body and
/// target hold the same codes, those that the conversion's own rule gives
/// for each cell: the picture depends on nothing else.
pub proof fn lemma_board_is_determined<Obs: From<Observation> + Copy, R: RandomSource, const X: usize, const Y: usize>(
    a: &AbsSnake<R>,
    b: &AbsSnake<R>,
    seen_a: &[[Obs; Y]; X],
    seen_b: &[[Obs; Y]; X],
)
    requires
        Obs::obeys_from_spec(),
        a.game().body() == b.game().body(),
        a.game().goal() == b.game().goal(),
        Env::<[[Obs; Y]; X]>::shows(a, seen_a),
        Env::<[[Obs; Y]; X]>::shows(b, seen_b),
    ensures
        forall|x: int, y: int| 0 <= x < X && 0 <= y < Y ==> seen_a@[x]@[y] == seen_b@[x]@[y],
        forall|x: int, y: int|
            0 <= x < X && 0 <= y < Y ==> #[trigger] seen_a@[x]@[y] == Obs::from_spec(
                board_cell(a.game().body(), a.game().goal(), (x as usize, y as usize)),
            ),
{
    assert forall|x: int, y: int| 0 <= x < X && 0 <= y < Y implies seen_a@[x]@[y] == seen_b@[x]@[y]
        && #[trigger] seen_a@[x]@[y] == Obs::from_spec(
        board_cell(a.game().body(), a.game().goal(), (x as usize, y as usize)),
    ) by {
        let code = Obs::from_spec(board_cell(a.game().body(), a.game().goal(), (x as usize, y as usize)));
        assert(seen_a@[x]@[y] == code);
        assert(seen_b@[x]@[y] == code);
    }
}

/// Two windows of one size that show games with the same body and target
/// hold the same codes, those that the conversion's own rule gives for each
/// cell: the picture depends on nothing else.
pub proof fn lemma_window_is_determined<Obs: From<Observation> + Copy, R: RandomSource, const X: usize, const Y: usize>(
    a: &PovSnake<R>,
    b: &PovSnake<R>,
    seen_a: &[[Obs; Y]; X],
    seen_b: &[[Obs; Y]; X],
)
    requires
        Obs::obeys_from_spec(),
        a.game().body() == b.game().body(),
        a.game().goal() == b.game().goal(),
        Env::<[[Obs; Y]; X]>::shows(a, seen_a),
        Env::<[[Obs; Y]; X]>::shows(b, seen_b),
    ensures
        forall|x: int, y: int| 0 <= x < X && 0 <= y < Y ==> seen_a@[x]@[y] == seen_b@[x]@[y],
        forall|x: int, y: int|
            0 <= x < X && 0 <= y < Y ==> #[trigger] seen_a@[x]@[y] == Obs::from_spec(
                window_cell(a.game().body(), a.game().goal(), (X, Y), x, y),
            ),
{
    assert forall|x: int, y: int| 0 <= x < X && 0 <= y < Y implies seen_a@[x]@[y] == seen_b@[x]@[y]
        && #[trigger] seen_a@[x]@[y] == Obs::from_spec(
        window_cell(a.game().body(), a.game().goal(), (X, Y), x, y),
    ) by {
        let code = Obs::from_spec(window_cell(a.game().body(), a.game().goal(), (X, Y), x, y));
        assert(seen_a@[x]@[y] == code);
        assert(seen_b@[x]@[y] == code);
    }
}

} // verus!
