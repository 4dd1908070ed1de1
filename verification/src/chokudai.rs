use vstd::prelude::*;
use crate::domain::Game;
use crate::frontier::{Frontier, SearchNode};
use crate::time_keeper::TimeKeeper;
use crate::tree_search::{
    all_ok, all_root_children, argmax_choice, covers_actions, expand_into, from_root,
    lemma_front_is_argmax, like_root, node_ok,
};

verus! {

/// The root level of a level set holds exactly the root node, which carries
/// no root action of its own.
pub open spec fn level_zero_ok<G: Game>(root: G, f: Frontier<G>) -> bool {
    &&& f.wf()
    &&& f.view().len() == 1
    &&& f.view()[0].inv()
    &&& like_root(root, f.view()[0].state)
    &&& f.view()[0].first_action is None
}

/// A level below the root: ranked, with every node sitting properly below
/// the root.
pub open spec fn level_ok<G: Game>(root: G, f: Frontier<G>) -> bool {
    &&& f.wf()
    &&& all_ok(root, f.view())
}

/// No level below the root holds any node.
pub open spec fn deep_levels_empty<G: Game>(beams: Seq<Frontier<G>>) -> bool {
    forall|l: int| 1 <= l < beams.len() ==> (#[trigger] beams[l]).view().len() == 0
}

/// Whether a round can expand the root at all.
pub open spec fn expandable<G: Game>(root: G, beam_width: int) -> bool {
    &&& beam_width >= 1
    &&& !root.sp_done()
    &&& root.sp_actions().len() > 0
}

/// One round of the level-synchronized search: for each depth in increasing
/// order, the retained best nodes of that level are expanded (finished nodes
/// are skipped) and their children accumulate into the next level, merged
/// with whatever earlier rounds left there.  Levels are never reset.
fn run_round<G: Game>(beams: &mut Vec<Frontier<G>>, beam_width: usize, root: Ghost<G>)
    requires
        old(beams)@.len() >= 1,
        level_zero_ok(root@, old(beams)@[0]),
        forall|l: int| 1 <= l < old(beams)@.len() ==> level_ok(root@, #[trigger] old(beams)@[l]),
    ensures
        final(beams)@.len() == old(beams)@.len(),
        level_zero_ok(root@, final(beams)@[0]),
        forall|l: int| 1 <= l < final(beams)@.len() ==> level_ok(
            root@,
            #[trigger] final(beams)@[l],
        ),
        forall|l: int| 1 <= l < final(beams)@.len() ==> (#[trigger] final(beams)@[l]).view().len()
            >= old(beams)@[l].view().len(),
        old(beams)@.len() >= 2 && expandable(root@, beam_width as int)
            ==> final(beams)@[1].view().len() > 0,
        old(beams)@.len() >= 2 && all_root_children(root@, old(beams)@[1].view())
            ==> all_root_children(root@, final(beams)@[1].view()),
        old(beams)@.len() >= 2 && expandable(root@, beam_width as int) ==> covers_actions(
            root@,
            final(beams)@[1].view(),
        ),
        !expandable(root@, beam_width as int) && deep_levels_empty(old(beams)@)
            ==> deep_levels_empty(final(beams)@),
{
    let depth = beams.len() - 1;
    let ghost orig = beams@;
    let mut t: usize = 0;
    while t < depth
        invariant
            beams@.len() == orig.len(),
            orig.len() >= 1,
            depth == orig.len() - 1,
            t <= depth,
            level_zero_ok(root@, beams@[0]),
            forall|l: int| 1 <= l < beams@.len() ==> level_ok(root@, #[trigger] beams@[l]),
            forall|l: int| 1 <= l < beams@.len() ==> (#[trigger] beams@[l]).view().len()
                >= orig[l].view().len(),
            t >= 1 && expandable(root@, beam_width as int) ==> beams@[1].view().len() > 0,
            orig.len() >= 2 && all_root_children(root@, orig[1].view()) ==> all_root_children(
                root@,
                beams@[1].view(),
            ),
            t >= 1 && orig.len() >= 2 && expandable(root@, beam_width as int) ==> covers_actions(
                root@,
                beams@[1].view(),
            ),
            !expandable(root@, beam_width as int) && deep_levels_empty(orig)
                ==> deep_levels_empty(beams@),
        decreases depth - t,
    {
        let ghost pre = beams@;
        let mut next = beams.remove(t + 1);
        let ghost mid = beams@;
        let ghost next0 = next.view();
        let level = &beams[t];
        let lev_len = level.len();
        let width = if beam_width < lev_len {
            beam_width
        } else {
            lev_len
        };
        let mut i: usize = 0;
        while i < width
            invariant
                beams@ == mid,
                mid == pre.remove(t + 1),
                pre.len() >= 2,
                t + 1 < pre.len(),
                level_zero_ok(root@, mid[0]),
                forall|l: int| 1 <= l < mid.len() ==> level_ok(root@, #[trigger] mid[l]),
                *level == mid[t as int],
                width <= level.view().len(),
                width <= beam_width,
                i <= width,
                next.wf(),
                all_ok(root@, next.view()),
                next.view().len() >= next0.len(),
                t == 0 && expandable(root@, beam_width as int) && i >= 1 ==> next.view().len()
                    > 0,
                t == 0 && all_root_children(root@, next0) ==> all_root_children(
                    root@,
                    next.view(),
                ),
                t == 0 && i >= 1 && !root@.sp_done() ==> covers_actions(root@, next.view()),
                !expandable(root@, beam_width as int) && deep_levels_empty(pre)
                    ==> next.view().len() == next0.len(),
            decreases width - i,
        {
            let node = level.get(i);
            proof {
                if t >= 1 {
                    assert(level_ok(root@, mid[t as int]));
                    assert(node_ok(root@, level.view()[i as int]));
                }
                if !expandable(root@, beam_width as int) && deep_levels_empty(pre) {
                    if t >= 1 {
                        assert(mid[t as int] == pre[t as int]);
                        assert(pre[t as int].view().len() == 0);
                        assert(false);
                    }
                }
            }
            expand_into(node, root, t == 0, &mut next);
            i += 1;
        }
        proof {
            if t == 0 && expandable(root@, beam_width as int) {
                assert(width == 1);
            }
        }
        beams.insert(t + 1, next);
        proof {
            let post = beams@;
            assert(post == mid.insert(t + 1, next));
            assert forall|l: int| 0 <= l < post.len() implies post[l] == if l == t + 1 {
                next
            } else {
                pre[l]
            } by {
                if l <= t {
                    assert(post[l] == mid[l]);
                    assert(mid[l] == pre[l]);
                } else if l > t + 1 {
                    assert(post[l] == mid[l - 1]);
                    assert(mid[l - 1] == pre[l]);
                }
            }
        }
        t += 1;
    }
}

/// Level-synchronized ("chokudai") search with a fixed budget of
/// `beam_number` rounds over `beam_depth + 1` levels.  Interleaving rounds
/// across every depth keeps the engine from spending the whole budget on the
/// shallow frontier.  After the last round the deepest non-empty level
/// answers with the root action of its best node; no action is returned
/// exactly when no round could expand anything: a zero width, depth or round
/// count, a finished root, or a root without legal actions.
pub fn chokudai_search_action<G: Game>(
    state: &G,
    beam_width: usize,
    beam_depth: usize,
    beam_number: usize,
) -> (r: Option<G::Act>)
    requires
        state.wf(),
        beam_depth < usize::MAX,
    ensures
        from_root(*state, r),
        (r is None) <==> (beam_width == 0 || beam_depth == 0 || beam_number == 0
            || state.sp_done() || state.sp_actions().len() == 0),
        beam_depth == 1 ==> argmax_choice(*state, r),
{
    let root = SearchNode { state: state.duplicate(), score: state.evaluate(), first_action: None };
    let mut f0: Frontier<G> = Frontier::new();
    f0.push(root);
    let mut beams: Vec<Frontier<G>> = Vec::new();
    beams.push(f0);
    let mut l: usize = 1;
    while l <= beam_depth
        invariant
            state.wf(),
            1 <= l <= beam_depth + 1,
            beams@.len() == l,
            level_zero_ok(*state, beams@[0]),
            forall|m: int| 1 <= m < beams@.len() ==> level_ok(*state, #[trigger] beams@[m]),
            deep_levels_empty(beams@),
            beam_depth < usize::MAX,
        decreases beam_depth + 1 - l,
    {
        beams.push(Frontier::new());
        l += 1;
    }
    let mut rnd: usize = 0;
    while rnd < beam_number
        invariant
            state.wf(),
            beams@.len() == beam_depth + 1,
            level_zero_ok(*state, beams@[0]),
            forall|m: int| 1 <= m < beams@.len() ==> level_ok(*state, #[trigger] beams@[m]),
            rnd >= 1 && beam_depth >= 1 && expandable(*state, beam_width as int)
                ==> beams@[1].view().len() > 0,
            beam_depth >= 1 ==> all_root_children(*state, beams@[1].view()),
            rnd >= 1 && beam_depth >= 1 && expandable(*state, beam_width as int)
                ==> covers_actions(*state, beams@[1].view()),
            !expandable(*state, beam_width as int) ==> deep_levels_empty(beams@),
            rnd == 0 ==> deep_levels_empty(beams@),
            rnd <= beam_number,
        decreases beam_number - rnd,
    {
        run_round(&mut beams, beam_width, Ghost(*state));
        rnd += 1;
    }
    let mut l: usize = beams.len();
    while l > 0
        invariant
            state.wf(),
            beams@.len() == beam_depth + 1,
            l <= beams@.len(),
            level_zero_ok(*state, beams@[0]),
            forall|m: int| 1 <= m < beams@.len() ==> level_ok(*state, #[trigger] beams@[m]),
            beam_number >= 1 && beam_depth >= 1 && expandable(*state, beam_width as int)
                ==> beams@[1].view().len() > 0,
            beam_depth >= 1 ==> all_root_children(*state, beams@[1].view()),
            beam_number >= 1 && beam_depth >= 1 && expandable(*state, beam_width as int)
                ==> covers_actions(*state, beams@[1].view()),
            !expandable(*state, beam_width as int) || beam_number == 0 ==> deep_levels_empty(
                beams@,
            ),
            forall|m: int| l <= m < beams@.len() ==> (#[trigger] beams@[m]).view().len() == 0,
        decreases l,
    {
        l -= 1;
        let level = &beams[l];
        if level.len() > 0 {
            let node = level.get(0);
            if l >= 1 {
                proof {
                    assert(level_ok(*state, beams@[l as int]));
                    assert(node_ok(*state, beams@[l as int].view()[0]));
                    if beam_depth == 1 {
                        assert(l == 1);
                        lemma_front_is_argmax(*state, beams@[1].view());
                    }
                }
                return node.first_action;
            } else {
                return node.first_action;
            }
        }
    }
    proof {
        assert(beams@[0].view().len() == 1);
        assert(false);
    }
    None
}

/// Level-synchronized search that runs whole rounds until a wall-clock
/// budget of `time_threshold_millis` milliseconds has expired, polling the
/// budget once per round; a deadline can therefore be overrun by at most the
/// cost of the one round in flight.  At least one round always runs, so the
/// answer condition does not depend on the clock: no action is returned
/// exactly when a round cannot expand anything.
pub fn chokudai_search_action_with_time_threshold<G: Game>(
    state: &G,
    beam_width: usize,
    beam_depth: usize,
    time_threshold_millis: u64,
) -> (r: Option<G::Act>)
    requires
        state.wf(),
        beam_depth < usize::MAX,
        time_threshold_millis <= 1_000_000_000,
    ensures
        from_root(*state, r),
        (r is None) <==> (beam_width == 0 || beam_depth == 0 || state.sp_done()
            || state.sp_actions().len() == 0),
        beam_depth == 1 ==> argmax_choice(*state, r),
{
    let keeper = TimeKeeper::build(time_threshold_millis);
    let root = SearchNode { state: state.duplicate(), score: state.evaluate(), first_action: None };
    let mut f0: Frontier<G> = Frontier::new();
    f0.push(root);
    let mut beams: Vec<Frontier<G>> = Vec::new();
    beams.push(f0);
    let mut l: usize = 1;
    while l <= beam_depth
        invariant
            state.wf(),
            1 <= l <= beam_depth + 1,
            beams@.len() == l,
            level_zero_ok(*state, beams@[0]),
            forall|m: int| 1 <= m < beams@.len() ==> level_ok(*state, #[trigger] beams@[m]),
            deep_levels_empty(beams@),
            beam_depth < usize::MAX,
        decreases beam_depth + 1 - l,
    {
        beams.push(Frontier::new());
        l += 1;
    }
    let mut rnd: usize = 0;
    let mut over = false;
    while !over && rnd < usize::MAX
        invariant
            state.wf(),
            beams@.len() == beam_depth + 1,
            level_zero_ok(*state, beams@[0]),
            forall|m: int| 1 <= m < beams@.len() ==> level_ok(*state, #[trigger] beams@[m]),
            rnd >= 1 && beam_depth >= 1 && expandable(*state, beam_width as int)
                ==> beams@[1].view().len() > 0,
            beam_depth >= 1 ==> all_root_children(*state, beams@[1].view()),
            rnd >= 1 && beam_depth >= 1 && expandable(*state, beam_width as int)
                ==> covers_actions(*state, beams@[1].view()),
            !expandable(*state, beam_width as int) ==> deep_levels_empty(beams@),
            over ==> rnd >= 1,
        decreases usize::MAX - rnd,
    {
        run_round(&mut beams, beam_width, Ghost(*state));
        rnd += 1;
        over = keeper.is_time_over();
    }
    let mut l: usize = beams.len();
    while l > 0
        invariant
            state.wf(),
            beams@.len() == beam_depth + 1,
            l <= beams@.len(),
            level_zero_ok(*state, beams@[0]),
            forall|m: int| 1 <= m < beams@.len() ==> level_ok(*state, #[trigger] beams@[m]),
            beam_depth >= 1 && expandable(*state, beam_width as int) ==> beams@[1].view().len()
                > 0,
            beam_depth >= 1 ==> all_root_children(*state, beams@[1].view()),
            beam_depth >= 1 && expandable(*state, beam_width as int) ==> covers_actions(
                *state,
                beams@[1].view(),
            ),
            !expandable(*state, beam_width as int) ==> deep_levels_empty(beams@),
            forall|m: int| l <= m < beams@.len() ==> (#[trigger] beams@[m]).view().len() == 0,
        decreases l,
    {
        l -= 1;
        let level = &beams[l];
        if level.len() > 0 {
            let node = level.get(0);
            if l >= 1 {
                proof {
                    assert(level_ok(*state, beams@[l as int]));
                    assert(node_ok(*state, beams@[l as int].view()[0]));
                    if beam_depth == 1 {
                        assert(l == 1);
                        lemma_front_is_argmax(*state, beams@[1].view());
                    }
                }
                return node.first_action;
            } else {
                return node.first_action;
            }
        }
    }
    proof {
        assert(beams@[0].view().len() == 1);
        assert(false);
    }
    None
}

} // verus!
