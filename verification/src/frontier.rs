use vstd::prelude::*;
use crate::domain::Game;

verus! {

/// A domain state decorated with its evaluation score and with the action
/// that was applied at the search root on this node's lineage.  The score
/// field caches the state's evaluation so that ranking never re-evaluates.
pub struct SearchNode<G: Game> {
    pub state: G,
    pub score: i64,
    pub first_action: Option<G::Act>,
}

impl<G: Game> SearchNode<G> {
    /// A node is coherent when its cached score is the evaluation of its
    /// well-formed state.
    pub open spec fn inv(&self) -> bool {
        &&& self.state.wf()
        &&& self.score as int == self.state.sp_score()
    }

    pub fn clone_node(&self) -> (r: Self)
        ensures
            r.score == self.score,
            r.first_action == self.first_action,
            r.state.wf() == self.state.wf(),
            r.state.sp_done() == self.state.sp_done(),
            r.state.sp_actions() == self.state.sp_actions(),
            r.state.sp_score() == self.state.sp_score(),
            r.inv() == self.inv(),
    {
        SearchNode {
            state: self.state.duplicate(),
            score: self.score,
            first_action: self.first_action,
        }
    }
}

/// Whether a sequence of nodes is ranked by score, best first.
pub open spec fn ranked<G: Game>(s: Seq<SearchNode<G>>) -> bool {
    forall|i: int, j: int| 0 <= i <= j < s.len() ==> #[trigger] s[i].score >= #[trigger] s[j].score
}

/// A frontier: the bounded, score-ordered collection of candidate nodes at
/// one search depth.  Nodes are kept ranked by score, best first; nodes of
/// equal score are in no particular relative order.
pub struct Frontier<G: Game> {
    nodes: Vec<SearchNode<G>>,
}

impl<G: Game> Frontier<G> {
    pub closed spec fn view(&self) -> Seq<SearchNode<G>> {
        self.nodes@
    }

    pub open spec fn wf(&self) -> bool {
        ranked(self.view())
    }

    pub fn new() -> (r: Self)
        ensures
            r.wf(),
            r.view() =~= Seq::<SearchNode<G>>::empty(),
    {
        Frontier { nodes: Vec::new() }
    }

    pub fn len(&self) -> (r: usize)
        ensures
            r == self.view().len(),
    {
        self.nodes.len()
    }

    pub fn get(&self, i: usize) -> (r: &SearchNode<G>)
        requires
            i < self.view().len(),
        ensures
            *r == self.view()[i as int],
    {
        &self.nodes[i]
    }

    /// Inserts a node at its rank.  Among equal scores the new node comes
    /// last, but callers may not rely on that.
    pub fn push(&mut self, n: SearchNode<G>)
        requires
            old(self).wf(),
        ensures
            final(self).wf(),
            final(self).view().len() == old(self).view().len() + 1,
            final(self).view().contains(n),
            exists|k: int|
                0 <= k <= old(self).view().len() && final(self).view() == old(self).view().insert(
                    k,
                    n,
                ),
            forall|i: int|
                0 <= i < final(self).view().len()
                    ==> final(self).view()[i] == n || old(self).view().contains(
                    #[trigger] final(self).view()[i],
                ),
    {
        let ghost pre = self.nodes@;
        let mut k: usize = 0;
        while k < self.nodes.len() && self.nodes[k].score >= n.score
            invariant
                self.nodes@ == pre,
                ranked(pre),
                k <= pre.len(),
                forall|i: int| 0 <= i < k ==> #[trigger] pre[i].score >= n.score,
            decreases pre.len() - k,
        {
            k += 1;
        }
        assert(k < pre.len() ==> pre[k as int].score < n.score);
        self.nodes.insert(k, n);
        let ghost post = self.nodes@;
        assert(post == pre.insert(k as int, n));
        assert forall|i: int, j: int| 0 <= i <= j < post.len() implies #[trigger] post[i].score
            >= #[trigger] post[j].score by {
            if i < k && j < k {
            } else if i < k && j == k {
            } else if i < k && j > k {
                assert(post[j] == pre[j - 1]);
            } else if i == k {
                if j > k {
                    assert(post[j] == pre[j - 1]);
                    assert(pre[k as int].score >= pre[j - 1].score);
                }
            } else {
                assert(post[i] == pre[i - 1]);
                assert(post[j] == pre[j - 1]);
            }
        }
        assert forall|i: int|
            0 <= i < post.len() implies post[i] == n || pre.contains(#[trigger] post[i]) by {
            if i < k {
                assert(post[i] == pre[i]);
            } else if i > k {
                assert(post[i] == pre[i - 1]);
            }
        }
        assert(post[k as int] == n);
        assert(0 <= k as int <= pre.len() && post == pre.insert(k as int, n));
    }
}

} // verus!
