use vstd::prelude::*;
use crate::board::{Board, EDGE_COUNT, NODE_COUNT};

verus! {

/// The larger of two numbers.
pub open spec fn larger(a: nat, b: nat) -> nat {
    if a >= b {
        a
    } else {
        b
    }
}

/// How many entries of `visited` are still `false`.
pub open spec fn unvisited(visited: Seq<bool>) -> nat
    decreases visited.len(),
{
    if visited.len() == 0 {
        0
    } else {
        unvisited(visited.drop_last()) + if visited.last() {
            0nat
        } else {
            1nat
        }
    }
}

/// The marks before a search: one for every edge, none of them set.
pub open spec fn no_edge_visited() -> Seq<bool> {
    Seq::new(EDGE_COUNT as nat, |e: int| false)
}

/// Marking an unmarked entry leaves one entry fewer to visit.
pub proof fn lemma_visit(visited: Seq<bool>, e: int)
    requires
        0 <= e < visited.len(),
        !visited[e],
    ensures
        unvisited(visited.update(e, true)) + 1 == unvisited(visited),
    decreases visited.len(),
{
    let marked = visited.update(e, true);
    if e == visited.len() - 1 {
        assert(marked.drop_last() =~= visited.drop_last());
    } else {
        assert(marked.drop_last() =~= visited.drop_last().update(e, true));
        lemma_visit(visited.drop_last(), e);
    }
}

/// Unmarking an entry that was marked for a while gives the marks back.
pub proof fn lemma_unvisit(visited: Seq<bool>, e: int)
    requires
        0 <= e < visited.len(),
        !visited[e],
    ensures
        visited.update(e, true).update(e, false) == visited,
{
    assert(visited.update(e, true).update(e, false) =~= visited);
}

#[allow(non_snake_case)]
impl Board {
    /// A path of `player` that has not used edge `e` may go on over it:
    /// `e` is an edge of the map, holds a road of `player`, and is not marked.
    pub open spec fn may_extend(self, player: usize, visited: Seq<bool>, e: int) -> bool {
        &&& 0 <= e < visited.len()
        &&& !visited[e]
        &&& self.owns_road(e, player)
    }

    /// Length, in edges, of the longest path of `player` that starts with
    /// edge `e` and uses no marked edge. `e` itself counts and is taken to
    /// be marked.
    pub open spec fn path_from(self, player: usize, visited: Seq<bool>, e: int) -> nat
        decreases unvisited(visited), 2nat, 0nat,
    {
        1 + self.path_through_ends(player, visited, e, 0)
    }

    /// The longest continuation of a path that has just used edge `e`,
    /// through the `i`-th end of `e` or a later one.
    pub open spec fn path_through_ends(self, player: usize, visited: Seq<bool>, e: int, i: int) -> nat
        decreases unvisited(visited), 1nat, self.edges@[e].adjacent_nodes@.len() - i,
    {
        if 0 <= i < self.edges@[e].adjacent_nodes@.len() {
            larger(
                self.path_through_edges(
                    player,
                    visited,
                    self.edges@[e].adjacent_nodes@[i] as int,
                    0,
                ),
                self.path_through_ends(player, visited, e, i + 1),
            )
        } else {
            0
        }
    }

    /// The longest continuation of a path that has arrived at node `n`, over
    /// the `j`-th edge at `n` or a later one.
    pub open spec fn path_through_edges(self, player: usize, visited: Seq<bool>, n: int, j: int) -> nat
        decreases unvisited(visited), 0nat, self.nodes@[n].adjacent_edges@.len() - j,
    {
        if 0 <= j < self.nodes@[n].adjacent_edges@.len() {
            let next = self.nodes@[n].adjacent_edges@[j] as int;
            let over_next = if self.may_extend(player, visited, next) {
                proof {
                    lemma_visit(visited, next);
                }
                self.path_from(player, visited.update(next, true), next)
            } else {
                0
            };
            larger(over_next, self.path_through_edges(player, visited, n, j + 1))
        } else {
            0
        }
    }

    /// Length of the longest path of `player` that starts with edge `root`.
    pub open spec fn road_from_root(self, player: usize, root: usize) -> nat {
        self.path_from(player, no_edge_visited().update(root as int, true), root as int)
    }

    /// The longest road among the paths that start with one of the first
    /// `count` of `roots`.
    pub open spec fn longest_among(self, player: usize, roots: Seq<usize>, count: int) -> nat
        decreases count,
    {
        if count <= 0 {
            0
        } else {
            larger(
                self.longest_among(player, roots, count - 1),
                self.road_from_root(player, roots[count - 1]),
            )
        }
    }

    /// Length of the longest road of `player`, whose placed roads are
    /// `roots`: the longest path that starts with one of them and goes on,
    /// from edge to edge through a shared node, over roads of `player`
    /// without using an edge twice. Without roots it is 0.
    pub open spec fn longest_road(self, player: usize, roots: Seq<usize>) -> nat {
        self.longest_among(player, roots, roots.len() as int)
    }

    /// The longest path of `player` that starts with `edge` and uses no
    /// marked edge.
    pub fn checkRoadSize(&self, player_id: usize, visited: &mut Vec<bool>, edge: usize) -> (length:
        usize)
        requires
            self.wf(),
            old(visited)@.len() == EDGE_COUNT,
            edge < EDGE_COUNT,
        ensures
            final(visited)@ == old(visited)@,
            length == self.path_from(player_id, old(visited)@, edge as int),
            length <= unvisited(old(visited)@) + 1,
        decreases unvisited(old(visited)@), 2nat, 0nat,
    {
        let beyond = self.road_size_through_ends(player_id, visited, edge, 0);
        proof {
            lemma_unvisited_at_most(visited@);
        }
        1 + beyond
    }

    fn road_size_through_ends(
        &self,
        player_id: usize,
        visited: &mut Vec<bool>,
        edge: usize,
        i: usize,
    ) -> (length: usize)
        requires
            self.wf(),
            old(visited)@.len() == EDGE_COUNT,
            edge < EDGE_COUNT,
        ensures
            final(visited)@ == old(visited)@,
            length == self.path_through_ends(player_id, old(visited)@, edge as int, i as int),
            length <= unvisited(old(visited)@),
        decreases unvisited(old(visited)@), 1nat, self.edges@[edge as int].adjacent_nodes@.len() - i,
    {
        if i < self.edges[edge].adjacent_nodes.len() {
            assert(self.edge_ok(edge as int));
            let node = self.edges[edge].adjacent_nodes[i];
            let here = self.road_size_through_edges(player_id, visited, node, 0);
            let later = self.road_size_through_ends(player_id, visited, edge, i + 1);
            if here >= later {
                here
            } else {
                later
            }
        } else {
            0
        }
    }

    fn road_size_through_edges(
        &self,
        player_id: usize,
        visited: &mut Vec<bool>,
        node: usize,
        j: usize,
    ) -> (length: usize)
        requires
            self.wf(),
            old(visited)@.len() == EDGE_COUNT,
            node < NODE_COUNT,
        ensures
            final(visited)@ == old(visited)@,
            length == self.path_through_edges(player_id, old(visited)@, node as int, j as int),
            length <= unvisited(old(visited)@),
        decreases unvisited(old(visited)@), 0nat, self.nodes@[node as int].adjacent_edges@.len() - j,
    {
        if j < self.nodes[node].adjacent_edges.len() {
            assert(self.node_ok(node as int));
            let next = self.nodes[node].adjacent_edges[j];
            let mut over_next: usize = 0;
            if !visited[next] && self.ownsRoad(next, player_id) {
                proof {
                    lemma_visit(visited@, next as int);
                    lemma_unvisit(visited@, next as int);
                }
                visited[next] = true;
                over_next = self.checkRoadSize(player_id, visited, next);
                visited[next] = false;
            }
            let later = self.road_size_through_edges(player_id, visited, node, j + 1);
            if over_next >= later {
                over_next
            } else {
                later
            }
        } else {
            0
        }
    }

    /// The longest road of `player`, whose placed roads are `roots`.
    pub fn longestRoad(&self, player: usize, roots: &Vec<usize>) -> (length: usize)
        requires
            self.wf(),
            forall|k: int| 0 <= k < roots@.len() ==> #[trigger] roots@[k] < EDGE_COUNT,
        ensures
            length == self.longest_road(player, roots@),
            length <= EDGE_COUNT,
    {
        let mut visited: Vec<bool> = Vec::new();
        let mut e: usize = 0;
        while e < 72
            invariant
                e <= 72,
                visited@.len() == e,
                forall|k: int| 0 <= k < e ==> !visited@[k],
            decreases 72 - e,
        {
            visited.push(false);
            e += 1;
        }
        assert(visited@ =~= no_edge_visited());
        proof {
            lemma_unvisited_at_most(visited@);
        }
        let mut longest: usize = 0;
        let mut k: usize = 0;
        while k < roots.len()
            invariant
                self.wf(),
                k <= roots@.len(),
                forall|k: int| 0 <= k < roots@.len() ==> #[trigger] roots@[k] < EDGE_COUNT,
                visited@ == no_edge_visited(),
                unvisited(visited@) <= EDGE_COUNT,
                longest == self.longest_among(player, roots@, k as int),
                longest <= EDGE_COUNT,
            decreases roots@.len() - k,
        {
            let root = roots[k];
            proof {
                lemma_visit(visited@, root as int);
                lemma_unvisit(visited@, root as int);
            }
            visited[root] = true;
            let length = self.checkRoadSize(player, &mut visited, root);
            visited[root] = false;
            if length > longest {
                longest = length;
            }
            k += 1;
        }
        longest
    }
}

/// No more entries are left to visit than there are entries.
pub proof fn lemma_unvisited_at_most(visited: Seq<bool>)
    ensures
        unvisited(visited) <= visited.len(),
    decreases visited.len(),
{
    if visited.len() > 0 {
        lemma_unvisited_at_most(visited.drop_last());
    }
}

} // verus!
