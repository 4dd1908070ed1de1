use vstd::prelude::*;

verus! {

/// Scores produced by a well-formed state stay strictly inside
/// `(-SCORE_INF, SCORE_INF)`, so the dead-end sentinel `-SCORE_INF` never
/// collides with a real score.
pub const SCORE_INF: i64 = 0x3fff_ffff_ffff_ffff;

/// The capability set a turn-by-turn problem implements so that the tree
/// search engines can drive it.  A state is an independently owned snapshot;
/// `advance` may only be called with an action drawn from that same state's
/// legal actions, on a state that is not yet done.
pub trait Game: Sized {
    /// The problem's action type; enumerable per state, possibly empty.
    type Act: Copy;

    /// The state's internal invariant; every engine entry point requires it
    /// and every capability preserves it.
    spec fn wf(&self) -> bool;

    /// Whether the episode has ended.
    spec fn sp_done(&self) -> bool;

    /// The actions that are legal in this state, in enumeration order.
    spec fn sp_actions(&self) -> Seq<Self::Act>;

    /// The evaluation score of this state.
    spec fn sp_score(&self) -> int;

    /// The evaluation score of the state that `advance` with `a` leads to.
    spec fn sp_child_score(&self, a: Self::Act) -> int;

    fn is_done(&self) -> (r: bool)
        requires
            self.wf(),
        ensures
            r == self.sp_done(),
    ;

    fn legal_actions(&self) -> (r: Vec<Self::Act>)
        requires
            self.wf(),
        ensures
            r@ == self.sp_actions(),
    ;

    fn advance(&mut self, a: Self::Act)
        requires
            old(self).wf(),
            !old(self).sp_done(),
            old(self).sp_actions().contains(a),
        ensures
            final(self).wf(),
            final(self).sp_score() == old(self).sp_child_score(a),
    ;

    fn evaluate(&self) -> (r: i64)
        requires
            self.wf(),
        ensures
            r as int == self.sp_score(),
            -SCORE_INF < r < SCORE_INF,
    ;

    /// A fully independent copy: value semantics, no aliasing between
    /// search branches.  The copy is indistinguishable from the original to
    /// every specification function of this trait.
    fn duplicate(&self) -> (r: Self)
        ensures
            r.wf() == self.wf(),
            r.sp_done() == self.sp_done(),
            r.sp_actions() == self.sp_actions(),
            r.sp_score() == self.sp_score(),
            forall|a: Self::Act| r.sp_child_score(a) == self.sp_child_score(a),
    ;
}

/// The capability set a full-rollout problem implements so that the local
/// search engines can drive it.  A candidate is always driven to completion
/// before its score is read; there is no partial lookahead.
pub trait RolloutGame: Sized {
    /// The state's internal invariant.
    spec fn wf(&self) -> bool;

    /// Whether the episode has ended.
    spec fn sp_done(&self) -> bool;

    /// The score accumulated so far.
    spec fn sp_game_score(&self) -> int;

    /// The score this state reaches when driven to completion.
    spec fn sp_rollout_score(&self) -> int;

    /// Randomizes the mutable component of the state and resets the turn
    /// and the accumulated score; the explicit generator keeps runs
    /// reproducible.
    fn init(&mut self, rng: &mut rand::rngs::StdRng)
        requires
            old(self).wf(),
        ensures
            final(self).wf(),
            final(self).sp_game_score() == 0,
    ;

    /// Produces a single neighboring configuration while preserving the
    /// committed part of the state, and resets the rollout.
    fn transition(&mut self, rng: &mut rand::rngs::StdRng)
        requires
            old(self).wf(),
        ensures
            final(self).wf(),
            final(self).sp_game_score() == 0,
    ;

    /// Drives the state to completion and reads back its score.
    fn get_score(&mut self) -> (r: i64)
        requires
            old(self).wf(),
        ensures
            final(self).wf(),
            final(self).sp_done(),
            r as int == old(self).sp_rollout_score(),
            final(self).sp_game_score() == r as int,
            -SCORE_INF < r < SCORE_INF,
    ;

    /// A fully independent copy, indistinguishable from the original to
    /// every specification function of this trait.
    fn duplicate(&self) -> (r: Self)
        ensures
            r.wf() == self.wf(),
            r.sp_done() == self.sp_done(),
            r.sp_game_score() == self.sp_game_score(),
            r.sp_rollout_score() == self.sp_rollout_score(),
    ;
}

} // verus!
