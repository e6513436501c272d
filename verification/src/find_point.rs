//! Point finding: a player walks a grid of `C` axes towards a target.
use vstd::prelude::*;
use vstd::std_specs::convert::FromSpec;
use crate::Env;
use crate::RandomSource;

verus! {

/// What a cell of the grid shows.
#[derive(Debug, Clone, Copy, PartialEq, Eq, Structural)]
pub enum ObsKind {
    Nothing,
    Player,
    Target,
}

impl From<ObsKind> for i8 {
    fn from(ok: ObsKind) -> (code: i8) {
        match ok {
            ObsKind::Nothing => 0,
            ObsKind::Player => 1,
            ObsKind::Target => -1,
        }
    }
}

impl vstd::std_specs::convert::FromSpecImpl<ObsKind> for i8 {
    open spec fn obeys_from_spec() -> bool {
        true
    }

    open spec fn from_spec(ok: ObsKind) -> i8 {
        match ok {
            ObsKind::Nothing => 0i8,
            ObsKind::Player => 1i8,
            ObsKind::Target => -1i8,
        }
    }
}

/// The move along one axis.
#[derive(Debug, Clone, Copy, PartialEq, Eq, Structural)]
pub enum Action {
    Plus,
    Zero,
    Minus,
}

/// What a step brought: the player stood still, moved, or reached the target.
#[derive(Debug, Clone, Copy, PartialEq, Eq, Structural)]
pub enum Reward {
    Still,
    Moved,
    Win,
}

/// Where one axis stands after `action`: `Plus` adds one and stops at the
/// axis bound itself, `Minus` takes one away and stops at zero.
pub open spec fn moved_axis(at: usize, bound: usize, action: Action) -> usize {
    match action {
        Action::Plus => if at < bound { (at + 1) as usize } else { bound },
        Action::Zero => at,
        Action::Minus => if at > 0 { (at - 1) as usize } else { 0 },
    }
}

/// The position after every axis has made its move.
pub open spec fn moved(at: Seq<usize>, bounds: Seq<usize>, action: Seq<Action>) -> Seq<usize> {
    Seq::new(at.len(), |i: int| moved_axis(at[i], bounds[i], action[i]))
}

/// What a step reports when it led from `before` to `after`.
pub open spec fn verdict(before: Seq<usize>, after: Seq<usize>, target: Seq<usize>) -> (bool, Reward) {
    if after =~= target {
        (true, Reward::Win)
    } else if after =~= before {
        (false, Reward::Still)
    } else {
        (false, Reward::Moved)
    }
}

/// No axis lies beyond its bound. The bound itself can be reached.
pub open spec fn within(at: Seq<usize>, bounds: Seq<usize>) -> bool {
    forall|i: int| 0 <= i < at.len() ==> at[i] <= #[trigger] bounds[i]
}

/// The kind of cell drawn for the point `cell`: the player comes before the target.
pub open spec fn cell_kind(at: Seq<usize>, target: Seq<usize>, cell: Seq<usize>) -> ObsKind {
    if at =~= cell {
        ObsKind::Player
    } else if target =~= cell {
        ObsKind::Target
    } else {
        ObsKind::Nothing
    }
}

/// Whether two points agree on every axis.
fn same_point<const C: usize>(a: &[usize; C], b: &[usize; C]) -> (same: bool)
    ensures
        same == (a@ == b@),
{
    for i in 0..C
        invariant
            forall|j: int| 0 <= j < i ==> a@[j] == b@[j],
    {
        if a[i] != b[i] {
            return false;
        }
    }
    assert(a@ =~= b@);
    true
}

/// A player and a target on a grid of `C` axes, with the source that
/// `reset` draws them from.
pub struct FindPoint<R, const C: usize> {
    pos: [usize; C],
    target: [usize; C],
    size: [usize; C],
    random_generator: R,
}

impl<R, const C: usize> FindPoint<R, C> where R: RandomSource {
    /// Where the player stands, axis by axis.
    pub closed spec fn position(&self) -> Seq<usize> {
        self.pos@
    }

    /// The point to reach.
    pub closed spec fn goal(&self) -> Seq<usize> {
        self.target@
    }

    /// The bound of each axis.
    pub closed spec fn bounds(&self) -> Seq<usize> {
        self.size@
    }

    /// The random source that `reset` draws from.
    pub closed spec fn source(&self) -> R {
        self.random_generator
    }

    /// `next` is a state that a reset may leave: the same bounds, and the
    /// player and the target each below the bound on every axis.
    pub open spec fn draws_to(&self, next: &Self) -> bool {
        &&& next.bounds() == self.bounds()
        &&& forall|i: int| 0 <= i < C ==> next.position()[i] < #[trigger] self.bounds()[i]
        &&& forall|i: int| 0 <= i < C ==> next.goal()[i] < #[trigger] self.bounds()[i]
    }

    /// `action` leads from this state to `next` and is answered by `outcome`.
    pub open spec fn walks_to(&self, action: Seq<Action>, next: &Self, outcome: (bool, Reward)) -> bool {
        &&& next.bounds() == self.bounds()
        &&& next.goal() == self.goal()
        &&& next.source() == self.source()
        &&& next.position() == moved(self.position(), self.bounds(), action)
        &&& outcome == verdict(self.position(), next.position(), self.goal())
    }

    /// An environment of the given axis bounds, with player and target at the origin.
    pub fn new(size: [usize; C], random_generator: R) -> (env: Self)
        ensures
            env.bounds() == size@,
            env.position() == Seq::new(C as nat, |i: int| 0usize),
            env.goal() == Seq::new(C as nat, |i: int| 0usize),
            env.source() == random_generator,
    {
        let env = Self { pos: [0; C], target: [0; C], size, random_generator };
        assert(env.pos@ =~= Seq::new(C as nat, |i: int| 0usize));
        assert(env.target@ =~= Seq::new(C as nat, |i: int| 0usize));
        env
    }

    /// An environment with the player and the target where the caller puts them.
    pub fn new_full(pos: [usize; C], target: [usize; C], size: [usize; C], random_generator: R) -> (env: Self)
        ensures
            env.position() == pos@,
            env.goal() == target@,
            env.bounds() == size@,
            env.source() == random_generator,
    {
        Self { pos, target, size, random_generator }
    }

    /// Draws the player and the target anew, each axis on its own.
    pub fn reset_inner(&mut self)
        requires
            forall|i: int| 0 <= i < C ==> old(self).bounds()[i] > 0,
        ensures
            old(self).draws_to(final(self)),
            within(final(self).position(), final(self).bounds()),
    {
        assert forall|j: int| 0 <= j < C implies self.size@[j] > 0 by {
            assert(self.bounds()[j] > 0);
        }
        for i in 0..C
            invariant
                self.size == old(self).size,
                forall|j: int| 0 <= j < C ==> self.size@[j] > 0,
                forall|j: int| 0 <= j < i ==> self.pos@[j] < self.size@[j],
                forall|j: int| 0 <= j < i ==> self.target@[j] < self.size@[j],
        {
            let p = self.random_generator.sample_uniform(0, self.size[i]);
            self.pos[i] = p;
            let t = self.random_generator.sample_uniform(0, self.size[i]);
            self.target[i] = t;
        }
    }

    /// Moves the player by `action` and reports what came of it.
    pub fn step_inner(&mut self, action: &[Action; C]) -> (result: (bool, Reward))
        ensures
            old(self).walks_to(action@, final(self), result),
            result.0 <==> result.1 == Reward::Win,
            result.1 == Reward::Win <==> final(self).position() == final(self).goal(),
            within(old(self).position(), old(self).bounds()) ==> within(
                final(self).position(),
                final(self).bounds(),
            ),
    {
        let old_pos = self.pos;
        for i in 0..C
            invariant
                self.size == old(self).size,
                self.target == old(self).target,
                self.random_generator == old(self).random_generator,
                old_pos == old(self).pos,
                forall|j: int| 0 <= j < i ==> self.pos@[j] == moved_axis(old_pos@[j], self.size@[j], action@[j]),
                forall|j: int| i <= j < C ==> self.pos@[j] == old_pos@[j],
        {
            match action[i] {
                Action::Plus => {
                    if self.pos[i] < self.size[i] {
                        self.pos[i] = self.pos[i] + 1;
                    } else {
                        self.pos[i] = self.size[i];
                    }
                },
                Action::Zero => {},
                Action::Minus => {
                    if self.pos[i] > 0 {
                        self.pos[i] = self.pos[i] - 1;
                    }
                },
            }
        }
        assert(self.pos@ =~= moved(old_pos@, self.size@, action@));
        if same_point(&self.pos, &self.target) {
            (true, Reward::Win)
        } else if same_point(&self.pos, &old_pos) {
            (false, Reward::Still)
        } else {
            (false, Reward::Moved)
        }
    }
}

/// Where a walk ends that starts at `at` and makes the moves of `actions` in turn.
pub open spec fn walk(at: Seq<usize>, bounds: Seq<usize>, actions: Seq<Seq<Action>>) -> Seq<usize>
    decreases actions.len(),
{
    if actions.len() == 0 {
        at
    } else {
        moved(walk(at, bounds, actions.drop_last()), bounds, actions.last())
    }
}

/// A step is answered by `Win` exactly when it ends on the target, and then
/// alone the episode is over.
pub proof fn lemma_win_means_on_target(before: Seq<usize>, after: Seq<usize>, target: Seq<usize>)
    ensures
        verdict(before, after, target).1 == Reward::Win <==> after == target,
        verdict(before, after, target).0 <==> after == target,
        verdict(before, after, target).1 == Reward::Still ==> after == before,
{
}

/// One move keeps every axis between zero and its bound, the bound included.
pub proof fn lemma_move_stays_within(at: Seq<usize>, bounds: Seq<usize>, action: Seq<Action>)
    requires
        within(at, bounds),
    ensures
        within(moved(at, bounds, action), bounds),
        moved(at, bounds, action).len() == at.len(),
{
    assert forall|i: int| 0 <= i < at.len() implies moved(at, bounds, action)[i] <= #[trigger] bounds[i] by {
        assert(at[i] <= bounds[i]);
    }
}

/// However long a walk is, it never leaves the bounds that it started in.
pub proof fn lemma_walk_stays_within(at: Seq<usize>, bounds: Seq<usize>, actions: Seq<Seq<Action>>)
    requires
        within(at, bounds),
    ensures
        within(walk(at, bounds, actions), bounds),
    decreases actions.len(),
{
    if actions.len() > 0 {
        lemma_walk_stays_within(at, bounds, actions.drop_last());
        lemma_move_stays_within(walk(at, bounds, actions.drop_last()), bounds, actions.last());
    }
}

/// Two environments that agree on position, target and bounds answer the
/// same action alike and agree afterwards: a step draws on nothing else.
pub proof fn lemma_step_is_determined<R: RandomSource, const C: usize>(
    a: &FindPoint<R, C>,
    b: &FindPoint<R, C>,
    action: Seq<Action>,
    a_next: &FindPoint<R, C>,
    b_next: &FindPoint<R, C>,
    a_outcome: (bool, Reward),
    b_outcome: (bool, Reward),
)
    requires
        a.position() == b.position(),
        a.goal() == b.goal(),
        a.bounds() == b.bounds(),
        a.walks_to(action, a_next, a_outcome),
        b.walks_to(action, b_next, b_outcome),
    ensures
        a_outcome == b_outcome,
        a_next.position() == b_next.position(),
        a_next.goal() == b_next.goal(),
        a_next.bounds() == b_next.bounds(),
{
}

/// Two rows that show environments with the same position and target hold
/// the same codes, those that the conversion's own rule gives for each
/// cell: the picture depends on nothing else.
pub proof fn lemma_row_is_determined<OK: From<ObsKind>, R: RandomSource, const X: usize>(
    a: &FindPoint<R, 1>,
    b: &FindPoint<R, 1>,
    seen_a: &[OK; X],
    seen_b: &[OK; X],
)
    requires
        OK::obeys_from_spec(),
        a.position() == b.position(),
        a.goal() == b.goal(),
        Env::<[OK; X]>::shows(a, seen_a),
        Env::<[OK; X]>::shows(b, seen_b),
    ensures
        seen_a@ == seen_b@,
        forall|x: int|
            0 <= x < X ==> #[trigger] seen_a@[x] == OK::from_spec(
                cell_kind(a.position(), a.goal(), seq![x as usize]),
            ),
{
    assert forall|x: int| 0 <= x < X implies seen_a@[x] == seen_b@[x] && #[trigger] seen_a@[x] == OK::from_spec(
        cell_kind(a.position(), a.goal(), seq![x as usize]),
    ) by {
        let code = OK::from_spec(cell_kind(a.position(), a.goal(), seq![x as usize]));
        assert(seen_a@[x] == code);
        assert(seen_b@[x] == code);
    }
    assert(seen_a@ =~= seen_b@);
}

/// Two grids that show environments with the same position and target hold
/// the same codes, those that the conversion's own rule gives for each
/// cell: the picture depends on nothing else.
pub proof fn lemma_grid_is_determined<OK: From<ObsKind> + Copy, R: RandomSource, const X: usize, const Y: usize>(
    a: &FindPoint<R, 2>,
    b: &FindPoint<R, 2>,
    seen_a: &[[OK; Y]; X],
    seen_b: &[[OK; Y]; X],
)
    requires
        OK::obeys_from_spec(),
        a.position() == b.position(),
        a.goal() == b.goal(),
        Env::<[[OK; Y]; X]>::shows(a, seen_a),
        Env::<[[OK; Y]; X]>::shows(b, seen_b),
    ensures
        forall|x: int, y: int| 0 <= x < X && 0 <= y < Y ==> seen_a@[x]@[y] == seen_b@[x]@[y],
        forall|x: int, y: int|
            0 <= x < X && 0 <= y < Y ==> #[trigger] seen_a@[x]@[y] == OK::from_spec(
                cell_kind(a.position(), a.goal(), seq![x as usize, y as usize]),
            ),
{
    assert forall|x: int, y: int| 0 <= x < X && 0 <= y < Y implies seen_a@[x]@[y] == seen_b@[x]@[y]
        && #[trigger] seen_a@[x]@[y] == OK::from_spec(
        cell_kind(a.position(), a.goal(), seq![x as usize, y as usize]),
    ) by {
        let code = OK::from_spec(cell_kind(a.position(), a.goal(), seq![x as usize, y as usize]));
        assert(seen_a@[x]@[y] == code);
        assert(seen_b@[x]@[y] == code);
    }
}

/// The grid of one axis, written into a row of `X` cells.
impl<OK, R, const X: usize> Env<[OK; X]> for FindPoint<R, 1> where OK: From<ObsKind>, R: RandomSource {
    type Action = [Action; 1];

    type Reward = Reward;

    open spec fn fits(&self) -> bool {
        self.bounds()[0] == X
    }

    open spec fn can_reset(&self) -> bool {
        self.bounds()[0] == X && X > 0
    }

    open spec fn can_step(&self) -> bool {
        self.bounds()[0] == X
    }

    open spec fn can_observe(&self) -> bool {
        self.bounds()[0] == X
    }

    open spec fn resets_to(&self, next: &Self) -> bool {
        self.draws_to(next)
    }

    open spec fn steps_to(&self, action: &Self::Action, next: &Self, outcome: (bool, Self::Reward)) -> bool {
        self.walks_to(action@, next, outcome)
    }

    /// Every cell holds what `OK::from` made of the cell's kind.
    open spec fn shows(&self, obs: &[OK; X]) -> bool {
        forall|x: int|
            0 <= x < X ==> call_ensures(
                OK::from,
                (cell_kind(self.position(), self.goal(), seq![x as usize]),),
                #[trigger] obs@[x],
            )
    }

    fn check(&self) -> (ok: bool) {
        self.size[0] == X
    }

    fn reset(&mut self) {
        self.reset_inner();
    }

    fn step(&mut self, action: &Self::Action) -> (result: (bool, Self::Reward)) {
        self.step_inner(action)
    }

    /// Writes the row: the player's cell, the target's cell, and nothing elsewhere.
    fn observe(&self, obs: &mut [OK; X]) {
        for x in 0..X
            invariant
                forall|k: int|
                    0 <= k < x ==> call_ensures(
                        OK::from,
                        (cell_kind(self.pos@, self.target@, seq![k as usize]),),
                        #[trigger] obs@[k],
                    ),
        {
            let kind = if self.pos[0] == x {
                ObsKind::Player
            } else if self.target[0] == x {
                ObsKind::Target
            } else {
                ObsKind::Nothing
            };
            proof {
                assert(self.pos@ =~= seq![self.pos@[0]]);
                assert(self.target@ =~= seq![self.target@[0]]);
                assert(seq![x][0] == x);
            }
            obs[x] = kind.into();
        }
    }
}

/// The grid of two axes, written into `X` rows of `Y` cells.
impl<OK, R, const X: usize, const Y: usize> Env<[[OK; Y]; X]> for FindPoint<R, 2> where
    OK: From<ObsKind> + Copy,
    R: RandomSource,
{
    type Action = [Action; 2];

    type Reward = Reward;

    open spec fn fits(&self) -> bool {
        self.bounds()[0] == X && self.bounds()[1] == Y
    }

    open spec fn can_reset(&self) -> bool {
        self.bounds()[0] == X && self.bounds()[1] == Y && X > 0 && Y > 0
    }

    open spec fn can_step(&self) -> bool {
        self.bounds()[0] == X && self.bounds()[1] == Y
    }

    open spec fn can_observe(&self) -> bool {
        self.bounds()[0] == X && self.bounds()[1] == Y
    }

    open spec fn resets_to(&self, next: &Self) -> bool {
        self.draws_to(next)
    }

    open spec fn steps_to(&self, action: &Self::Action, next: &Self, outcome: (bool, Self::Reward)) -> bool {
        self.walks_to(action@, next, outcome)
    }

    /// Every cell holds what `OK::from` made of the cell's kind.
    open spec fn shows(&self, obs: &[[OK; Y]; X]) -> bool {
        forall|x: int, y: int|
            0 <= x < X && 0 <= y < Y ==> call_ensures(
                OK::from,
                (cell_kind(self.position(), self.goal(), seq![x as usize, y as usize]),),
                #[trigger] obs@[x]@[y],
            )
    }

    fn check(&self) -> (ok: bool) {
        self.size[0] == X && self.size[1] == Y
    }

    fn reset(&mut self) {
        self.reset_inner()
    }

    fn step(&mut self, action: &Self::Action) -> (result: (bool, Self::Reward)) {
        self.step_inner(action)
    }

    /// Writes every cell of the grid: the player's, the target's, and nothing elsewhere.
    fn observe(&self, obs: &mut [[OK; Y]; X]) {
        for x in 0..X
            invariant
                forall|k: int, y: int|
                    0 <= k < x && 0 <= y < Y ==> call_ensures(
                        OK::from,
                        (cell_kind(self.pos@, self.target@, seq![k as usize, y as usize]),),
                        #[trigger] obs@[k]@[y],
                    ),
        {
            for y in 0..Y
                invariant
                    0 <= x < X,
                    forall|k: int, l: int|
                        0 <= k < x && 0 <= l < Y ==> call_ensures(
                            OK::from,
                            (cell_kind(self.pos@, self.target@, seq![k as usize, l as usize]),),
                            #[trigger] obs@[k]@[l],
                        ),
                    forall|l: int|
                        0 <= l < y ==> call_ensures(
                            OK::from,
                            (cell_kind(self.pos@, self.target@, seq![x, l as usize]),),
                            #[trigger] obs@[x as int]@[l],
                        ),
            {
                let kind = if self.pos[0] == x && self.pos[1] == y {
                    ObsKind::Player
                } else if self.target[0] == x && self.target[1] == y {
                    ObsKind::Target
                } else {
                    ObsKind::Nothing
                };
                proof {
                    assert(self.pos@ =~= seq![self.pos@[0], self.pos@[1]]);
                    assert(self.target@ =~= seq![self.target@[0], self.target@[1]]);
                    assert(seq![x, y][0] == x && seq![x, y][1] == y);
                }
                obs[x][y] = kind.into();
            }
        }
    }
}

} // verus!
