use vstd::prelude::*;
use crate::domain::{Game, SCORE_INF};
use crate::frontier::{ranked, Frontier, SearchNode};
use crate::time_keeper::TimeKeeper;

verus! {

/// A result that names an action is only acceptable when that action is one
/// of the root state's legal actions.
pub open spec fn from_root<G: Game>(root: G, oa: Option<G::Act>) -> bool {
    oa matches Some(a) ==> root.sp_actions().contains(a)
}

/// Whether a state is indistinguishable from the root to every
/// specification function of the domain, as an independent copy of it is.
pub open spec fn like_root<G: Game>(root: G, s: G) -> bool {
    &&& s.wf() == root.wf()
    &&& s.sp_done() == root.sp_done()
    &&& s.sp_actions() == root.sp_actions()
    &&& s.sp_score() == root.sp_score()
    &&& forall|a: G::Act| s.sp_child_score(a) == root.sp_child_score(a)
}

/// A node produced by expanding the root: it records one of the root's
/// actions and carries that successor's evaluation score.
pub open spec fn root_child<G: Game>(root: G, n: SearchNode<G>) -> bool {
    exists|j: int|
        0 <= j < root.sp_actions().len() && n.first_action == Some(#[trigger] root.sp_actions()[j])
            && n.score as int == root.sp_child_score(root.sp_actions()[j])
}

/// Every node of the sequence is a root child.
pub open spec fn all_root_children<G: Game>(root: G, s: Seq<SearchNode<G>>) -> bool {
    forall|i: int| 0 <= i < s.len() ==> root_child(root, #[trigger] s[i])
}

/// The action at position `j` of the root's enumeration has a child node in
/// the sequence.
pub open spec fn covered<G: Game>(root: G, s: Seq<SearchNode<G>>, j: int) -> bool {
    exists|i: int|
        0 <= i < s.len() && s[i].first_action == Some(root.sp_actions()[j]) && s[i].score as int
            == root.sp_child_score(root.sp_actions()[j])
}

/// Every root action has a child node in the sequence.
pub open spec fn covers_actions<G: Game>(root: G, s: Seq<SearchNode<G>>) -> bool {
    forall|j: int| 0 <= j < root.sp_actions().len() ==> #[trigger] covered(root, s, j)
}

/// A named result is only acceptable when no root action has a strictly
/// better immediate successor: the selection among the depth-one children.
pub open spec fn argmax_choice<G: Game>(root: G, oa: Option<G::Act>) -> bool {
    oa matches Some(a) ==> forall|j: int|
        0 <= j < root.sp_actions().len() ==> root.sp_child_score(#[trigger] root.sp_actions()[j])
            <= root.sp_child_score(a)
}

/// A node that sits below the root in a search: coherent, and decorated with
/// the legal root action that starts its lineage.
pub open spec fn node_ok<G: Game>(root: G, n: SearchNode<G>) -> bool {
    &&& n.inv()
    &&& n.first_action is Some
    &&& from_root(root, n.first_action)
}

/// Every node of the sequence sits properly below the root.
pub open spec fn all_ok<G: Game>(root: G, s: Seq<SearchNode<G>>) -> bool {
    forall|i: int| 0 <= i < s.len() ==> node_ok(root, #[trigger] s[i])
}

/// Transfers `all_ok` across one `Frontier::push`.
proof fn all_ok_after_push<G: Game>(
    root: G,
    pre: Seq<SearchNode<G>>,
    post: Seq<SearchNode<G>>,
    n: SearchNode<G>,
)
    requires
        all_ok(root, pre),
        node_ok(root, n),
        forall|i: int| 0 <= i < post.len() ==> post[i] == n || pre.contains(#[trigger] post[i]),
    ensures
        all_ok(root, post),
{
    assert forall|i: int| 0 <= i < post.len() implies node_ok(root, #[trigger] post[i]) by {
        if post[i] != n {
            let k = choose|k: int| 0 <= k < pre.len() && pre[k] == post[i];
            assert(node_ok(root, pre[k]));
        }
    }
}

/// Transfers `all_root_children` across one `Frontier::push`.
proof fn children_after_push<G: Game>(
    root: G,
    pre: Seq<SearchNode<G>>,
    post: Seq<SearchNode<G>>,
    n: SearchNode<G>,
)
    requires
        all_root_children(root, pre),
        root_child(root, n),
        forall|i: int| 0 <= i < post.len() ==> post[i] == n || pre.contains(#[trigger] post[i]),
    ensures
        all_root_children(root, post),
{
    assert forall|i: int| 0 <= i < post.len() implies root_child(root, #[trigger] post[i]) by {
        if post[i] != n {
            let k = choose|k: int| 0 <= k < pre.len() && pre[k] == post[i];
            assert(root_child(root, pre[k]));
        }
    }
}

/// A covering witness survives one insertion, at its old place or one
/// later.
proof fn covered_after_insert<G: Game>(
    root: G,
    pre: Seq<SearchNode<G>>,
    post: Seq<SearchNode<G>>,
    n: SearchNode<G>,
    j: int,
)
    requires
        covered(root, pre, j),
        exists|k: int| 0 <= k <= pre.len() && post == pre.insert(k, n),
    ensures
        covered(root, post, j),
{
    let k = choose|k: int| 0 <= k <= pre.len() && post == pre.insert(k, n);
    let i0 = choose|i: int|
        0 <= i < pre.len() && pre[i].first_action == Some(root.sp_actions()[j])
            && pre[i].score as int == root.sp_child_score(root.sp_actions()[j]);
    let iw: int = if i0 < k {
        i0
    } else {
        i0 + 1
    };
    assert(post[iw] == pre[i0]);
    assert(0 <= iw < post.len() && post[iw].first_action == Some(root.sp_actions()[j])
        && post[iw].score as int == root.sp_child_score(root.sp_actions()[j]));
}

/// In a ranked sequence of root children that covers every root action, the
/// front node's recorded action has no strictly better immediate successor.
pub proof fn lemma_front_is_argmax<G: Game>(root: G, s: Seq<SearchNode<G>>)
    requires
        s.len() > 0,
        ranked(s),
        all_root_children(root, s),
        covers_actions(root, s),
    ensures
        argmax_choice(root, s[0].first_action),
{
    assert(root_child(root, s[0]));
    let j0 = choose|j: int|
        0 <= j < root.sp_actions().len() && s[0].first_action == Some(root.sp_actions()[j])
            && s[0].score as int == root.sp_child_score(root.sp_actions()[j]);
    let a0 = root.sp_actions()[j0];
    assert forall|j: int| 0 <= j < root.sp_actions().len() implies root.sp_child_score(
        #[trigger] root.sp_actions()[j],
    ) <= root.sp_child_score(a0) by {
        assert(covered(root, s, j));
        let iw = choose|i2: int|
            0 <= i2 < s.len() && s[i2].first_action == Some(root.sp_actions()[j])
                && s[i2].score as int == root.sp_child_score(root.sp_actions()[j]);
        assert(s[0].score >= s[iw].score);
    }
}

/// Expands one retained node: clones the state once per legal action,
/// advances and evaluates the clone, and collects every child into `out`.
/// At the root level the child records the expanding action as its
/// `first_action`; below the root it inherits its parent's.  A finished
/// node has no successors.
pub(crate) fn expand_into<G: Game>(
    node: &SearchNode<G>,
    root: Ghost<G>,
    at_root: bool,
    out: &mut Frontier<G>,
)
    requires
        node.inv(),
        old(out).wf(),
        all_ok(root@, old(out).view()),
        at_root ==> node.state.sp_actions() == root@.sp_actions(),
        at_root ==> forall|a: G::Act| node.state.sp_child_score(a) == root@.sp_child_score(a),
        !at_root ==> node.first_action is Some && from_root(root@, node.first_action),
    ensures
        final(out).wf(),
        all_ok(root@, final(out).view()),
        final(out).view().len() == old(out).view().len() + if node.state.sp_done() {
            0int
        } else {
            node.state.sp_actions().len() as int
        },
        at_root && all_root_children(root@, old(out).view()) ==> all_root_children(
            root@,
            final(out).view(),
        ),
        at_root && !node.state.sp_done() ==> covers_actions(root@, final(out).view()),
{
    if node.state.is_done() {
        return ;
    }
    let acts = node.state.legal_actions();
    let ghost base = out.view().len() as int;
    let ghost entry = out.view();
    let mut j: usize = 0;
    while j < acts.len()
        invariant
            node.inv(),
            !node.state.sp_done(),
            acts@ == node.state.sp_actions(),
            at_root ==> node.state.sp_actions() == root@.sp_actions(),
            at_root ==> forall|a: G::Act| node.state.sp_child_score(a) == root@.sp_child_score(a),
            !at_root ==> node.first_action is Some && from_root(root@, node.first_action),
            out.wf(),
            all_ok(root@, out.view()),
            j <= acts.len(),
            out.view().len() == base + j,
            at_root && all_root_children(root@, entry) ==> all_root_children(root@, out.view()),
            at_root ==> forall|j2: int| 0 <= j2 < j ==> #[trigger] covered(root@, out.view(), j2),
        decreases acts.len() - j,
    {
        let a = acts[j];
        let mut child = node.state.duplicate();
        proof {
            assert(node.state.sp_actions()[j as int] == a);
            assert(node.state.sp_actions().contains(a));
        }
        child.advance(a);
        let sc = child.evaluate();
        let fa = if at_root {
            Some(a)
        } else {
            node.first_action
        };
        let child_node = SearchNode { state: child, score: sc, first_action: fa };
        proof {
            if at_root {
                assert(root@.sp_actions().contains(a));
                assert(root@.sp_actions()[j as int] == a);
                assert(child_node.score as int == root@.sp_child_score(a));
                assert(root_child(root@, child_node));
            }
            assert(node_ok(root@, child_node));
        }
        let ghost pre = out.view();
        out.push(child_node);
        proof {
            all_ok_after_push(root@, pre, out.view(), child_node);
            if at_root {
                if all_root_children(root@, entry) {
                    children_after_push(root@, pre, out.view(), child_node);
                }
                assert forall|j2: int| 0 <= j2 < j + 1 implies #[trigger] covered(
                    root@,
                    out.view(),
                    j2,
                ) by {
                    if j2 < j {
                        covered_after_insert(root@, pre, out.view(), child_node, j2);
                    } else {
                        let iw = choose|i: int|
                            0 <= i < out.view().len() && out.view()[i] == child_node;
                        assert(out.view()[iw].first_action == Some(root@.sp_actions()[j2])
                            && out.view()[iw].score as int == root@.sp_child_score(
                            root@.sp_actions()[j2],
                        ));
                    }
                }
            }
        }
        j += 1;
    }
    proof {
        if at_root {
            assert(acts@.len() == root@.sp_actions().len());
        }
    }
}

/// Uniformly samples one of the state's legal actions; a dead end (no legal
/// action) yields no action at all.
pub fn random_action<G: Game>(state: &G, rng: &mut rand::rngs::StdRng) -> (r: Option<G::Act>)
    requires
        state.wf(),
    ensures
        r is Some <==> state.sp_actions().len() > 0,
        from_root(*state, r),
{
    let acts = state.legal_actions();
    if acts.len() == 0 {
        return None;
    }
    let idx = (crate::rng::next_u64(rng) % (acts.len() as u64)) as usize;
    assert(idx < acts@.len());
    let a = acts[idx];
    proof {
        assert(state.sp_actions()[idx as int] == a);
        assert(state.sp_actions().contains(a));
    }
    Some(a)
}

/// One-ply lookahead: advances a clone of the state by every legal action,
/// evaluates each successor, and picks the strictly greatest successor
/// score; on a tie the first-encountered action wins, with no re-scan.  A
/// dead end or a finished state yields no action.
pub fn greedy_action<G: Game>(state: &G) -> (r: Option<G::Act>)
    requires
        state.wf(),
    ensures
        r is Some <==> (!state.sp_done() && state.sp_actions().len() > 0),
        from_root(*state, r),
        r matches Some(a) ==> exists|i: int|
            {
                &&& 0 <= i < state.sp_actions().len()
                &&& state.sp_actions()[i] == a
                &&& forall|j: int|
                    0 <= j < state.sp_actions().len() ==> state.sp_child_score(
                        #[trigger] state.sp_actions()[j],
                    ) <= state.sp_child_score(a)
                &&& forall|j: int|
                    0 <= j < i ==> state.sp_child_score(#[trigger] state.sp_actions()[j])
                        < state.sp_child_score(a)
            },
{
    if state.is_done() {
        return None;
    }
    let acts = state.legal_actions();
    let mut best_action: Option<G::Act> = None;
    let mut best_score: i64 = -SCORE_INF;
    let ghost mut bi: int = 0;
    let mut j: usize = 0;
    while j < acts.len()
        invariant
            state.wf(),
            !state.sp_done(),
            acts@ == state.sp_actions(),
            j <= acts.len(),
            best_action is Some <==> j > 0,
            best_action is None ==> best_score == -SCORE_INF,
            from_root(*state, best_action),
            -SCORE_INF <= best_score < SCORE_INF,
            j > 0 ==> 0 <= bi < j && best_action == Some(acts@[bi]) && best_score as int
                == state.sp_child_score(acts@[bi]),
            forall|t: int|
                0 <= t < j ==> state.sp_child_score(#[trigger] acts@[t]) <= best_score as int,
            forall|t: int|
                0 <= t < bi ==> state.sp_child_score(#[trigger] acts@[t]) < best_score as int,
        decreases acts.len() - j,
    {
        let a = acts[j];
        let mut now = state.duplicate();
        proof {
            assert(state.sp_actions()[j as int] == a);
            assert(state.sp_actions().contains(a));
        }
        now.advance(a);
        let sc = now.evaluate();
        proof {
            assert(sc as int == state.sp_child_score(a));
        }
        if sc > best_score {
            best_action = Some(a);
            best_score = sc;
            proof {
                bi = j as int;
            }
        }
        j += 1;
    }
    proof {
        if acts@.len() > 0 {
            assert(best_action == Some(acts@[bi]));
        }
    }
    best_action
}

/// Breadth-first beam search for exactly `beam_depth` levels, retaining at
/// most the `beam_width` best nodes of each frontier, and answering with the
/// root action of the best node in the final frontier.  The search stops
/// early once the best node of a frontier is finished, or once a frontier
/// has no successor at all (every retained node is a dead end); the best
/// node seen so far then answers.  No action is returned exactly when
/// nothing was ever expanded: a zero width or depth, a finished root, or a
/// root without legal actions.
pub fn beam_search_action<G: Game>(state: &G, beam_width: usize, beam_depth: usize) -> (r: Option<
    G::Act,
>)
    requires
        state.wf(),
    ensures
        from_root(*state, r),
        (r is None) <==> (beam_width == 0 || beam_depth == 0 || state.sp_done()
            || state.sp_actions().len() == 0),
        beam_depth == 1 ==> argmax_choice(*state, r),
{
    let root = SearchNode { state: state.duplicate(), score: state.evaluate(), first_action: None };
    let mut best = root.clone_node();
    let mut now_beam: Frontier<G> = Frontier::new();
    now_beam.push(root);
    let mut t: usize = 0;
    while t < beam_depth
        invariant
            state.wf(),
            now_beam.wf(),
            t <= beam_depth,
            t == 0 ==> now_beam.view().len() == 1 && now_beam.view()[0].inv()
                && like_root(*state, now_beam.view()[0].state) && now_beam.view()[0].first_action is None,
            t == 0 ==> best.first_action is None,
            t >= 1 ==> all_ok(*state, now_beam.view()),
            t >= 1 ==> best.first_action is Some && from_root(*state, best.first_action),
            t >= 1 ==> beam_width >= 1 && !state.sp_done() && state.sp_actions().len() >= 1,
            t >= 1 && beam_depth == 1 ==> argmax_choice(*state, best.first_action),
        decreases beam_depth - t,
    {
        let mut next_beam: Frontier<G> = Frontier::new();
        let fr_len = now_beam.len();
        let width = if beam_width < fr_len {
            beam_width
        } else {
            fr_len
        };
        let mut i: usize = 0;
        while i < width
            invariant
                state.wf(),
                now_beam.wf(),
                width <= now_beam.view().len(),
                width <= beam_width,
                t == 0 ==> now_beam.view().len() == 1 && now_beam.view()[0].inv()
                    && like_root(*state, now_beam.view()[0].state)
                    && now_beam.view()[0].first_action is None,
                t >= 1 ==> all_ok(*state, now_beam.view()),
                i <= width,
                next_beam.wf(),
                all_ok(*state, next_beam.view()),
                width == 0 ==> next_beam.view().len() == 0,
                i == 0 ==> next_beam.view().len() == 0,
                t == 0 && i >= 1 && !state.sp_done() ==> next_beam.view().len()
                    == state.sp_actions().len(),
                t == 0 && i >= 1 && state.sp_done() ==> next_beam.view().len() == 0,
                t == 0 ==> all_root_children(*state, next_beam.view()),
                t == 0 && i >= 1 && !state.sp_done() ==> covers_actions(*state, next_beam.view()),
            decreases width - i,
        {
            let node = now_beam.get(i);
            proof {
                if t >= 1 {
                    assert(node_ok(*state, now_beam.view()[i as int]));
                }
            }
            expand_into(node, Ghost(*state), t == 0, &mut next_beam);
            i += 1;
        }
        if next_beam.len() == 0 {
            return best.first_action;
        }
        now_beam = next_beam;
        best = now_beam.get(0).clone_node();
        proof {
            assert(node_ok(*state, now_beam.view()[0]));
            if t == 0 {
                assert(!state.sp_done());
                lemma_front_is_argmax(*state, now_beam.view());
                assert(argmax_choice(*state, best.first_action));
            }
        }
        if best.state.is_done() {
            return best.first_action;
        }
        t += 1;
    }
    best.first_action
}

/// Depth-unbounded beam search under a wall-clock budget of
/// `time_threshold_millis` milliseconds.  The expansion is the same as in
/// `beam_search_action`; the deadline is polled before each retained node is
/// expanded, and on expiry the best node computed so far answers at once.
/// Whenever an action is returned it is legal at the root, no matter when
/// the deadline fires; a zero budget, a zero width, a finished root or a
/// root without legal actions never return an action.
pub fn beam_search_action_with_time_threshold<G: Game>(
    state: &G,
    beam_width: usize,
    time_threshold_millis: u64,
) -> (r: Option<G::Act>)
    requires
        state.wf(),
        time_threshold_millis <= 1_000_000_000,
    ensures
        from_root(*state, r),
        r is Some ==> (beam_width >= 1 && !state.sp_done() && state.sp_actions().len() > 0),
        time_threshold_millis == 0 ==> r is None,
{
    let keeper = TimeKeeper::build(time_threshold_millis);
    let root = SearchNode { state: state.duplicate(), score: state.evaluate(), first_action: None };
    let mut best = root.clone_node();
    let mut now_beam: Frontier<G> = Frontier::new();
    now_beam.push(root);
    let mut t: usize = 0;
    while t < usize::MAX
        invariant
            state.wf(),
            keeper.threshold() == time_threshold_millis * 1_000_000,
            now_beam.wf(),
            t == 0 ==> now_beam.view().len() == 1 && now_beam.view()[0].inv()
                && like_root(*state, now_beam.view()[0].state) && now_beam.view()[0].first_action is None,
            t == 0 ==> best.first_action is None,
            t >= 1 ==> all_ok(*state, now_beam.view()),
            t >= 1 ==> best.first_action is Some && from_root(*state, best.first_action),
            t >= 1 ==> beam_width >= 1 && !state.sp_done() && state.sp_actions().len() >= 1
                && time_threshold_millis != 0,
        decreases usize::MAX - t,
    {
        let at_root_level = t == 0;
        let mut next_beam: Frontier<G> = Frontier::new();
        let fr_len = now_beam.len();
        let width = if beam_width < fr_len {
            beam_width
        } else {
            fr_len
        };
        let mut i: usize = 0;
        while i < width
            invariant
                state.wf(),
                keeper.threshold() == time_threshold_millis * 1_000_000,
                now_beam.wf(),
                width <= now_beam.view().len(),
                width <= beam_width,
                at_root_level == (t == 0),
                t == 0 ==> now_beam.view().len() == 1 && now_beam.view()[0].inv()
                    && like_root(*state, now_beam.view()[0].state)
                    && now_beam.view()[0].first_action is None,
                t == 0 ==> best.first_action is None,
                t >= 1 ==> all_ok(*state, now_beam.view()),
                t >= 1 ==> best.first_action is Some && from_root(*state, best.first_action),
                t >= 1 ==> beam_width >= 1 && !state.sp_done() && state.sp_actions().len() >= 1
                    && time_threshold_millis != 0,
                i <= width,
                next_beam.wf(),
                all_ok(*state, next_beam.view()),
                width == 0 ==> next_beam.view().len() == 0,
                i == 0 ==> next_beam.view().len() == 0,
                t == 0 && i >= 1 && !state.sp_done() ==> next_beam.view().len()
                    == state.sp_actions().len(),
                t == 0 && i >= 1 && state.sp_done() ==> next_beam.view().len() == 0,
                i >= 1 ==> time_threshold_millis != 0,
            decreases width - i,
        {
            if keeper.is_time_over() {
                return best.first_action;
            }
            let node = now_beam.get(i);
            proof {
                if t >= 1 {
                    assert(node_ok(*state, now_beam.view()[i as int]));
                }
            }
            expand_into(node, Ghost(*state), at_root_level, &mut next_beam);
            i += 1;
        }
        if next_beam.len() == 0 {
            return best.first_action;
        }
        now_beam = next_beam;
        best = now_beam.get(0).clone_node();
        proof {
            assert(node_ok(*state, now_beam.view()[0]));
        }
        if best.state.is_done() {
            return best.first_action;
        }
        t += 1;
    }
    best.first_action
}

} // verus!
