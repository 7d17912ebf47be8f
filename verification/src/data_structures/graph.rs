//! The grid graph of the path-finding demo: a row-major board of cells with
//! a type, a visited flag and a breadth-first-search weight, a frontier
//! queue, and a two-phase step engine — forward expansion until the End cell
//! is dequeued, then a backtracking walk from End towards Start along the
//! visited neighbor of least weight.
//!
//! Cells are 8-connected and the board is a torus: row and column arithmetic
//! wraps around, so the cell one step left of column zero is the last column.
//! Under the toroidal reading, `(0, 4)` on a five-wide board is adjacent to
//! `(0, 0)`.
use vstd::arithmetic::div_mod::{lemma_mod_division_less_than_divisor, lemma_multiply_divide_lt};
use vstd::pervasive::VecAdditionalExecFns;
use vstd::prelude::*;

use std::collections::VecDeque;

verus! {

/// What a cell currently is on the board.
#[derive(Clone, Debug, Copy, PartialEq, Eq, Structural)]
pub enum Type {
    Start,
    End,
    Wall,
    Path,
    Visited,
    Available,
}

/// One cell: its type, whether the forward phase has seen it, and its
/// breadth-first-search weight (hop distance from Start, assigned when the
/// cell is first relaxed).
#[derive(Clone, Debug, Copy, PartialEq, Eq, Structural)]
pub struct Node {
    pub weight: u32,
    pub node_type: Type,
    pub is_visited: bool,
}

impl Node {
    pub fn new() -> (n: Node)
        ensures
            n == (Node { node_type: Type::Available, is_visited: false, weight: 0 }),
    {
        Node { node_type: Type::Available, is_visited: false, weight: 0 }
    }

    pub fn node_type(&self) -> (t: Type)
        ensures
            t == self.node_type,
    {
        self.node_type
    }

    pub fn is_visited(&self) -> (v: bool)
        ensures
            v == self.is_visited,
    {
        self.is_visited
    }

    pub fn set_visited(&mut self)
        ensures
            *final(self) == (Node { is_visited: true, ..*old(self) }),
    {
        self.is_visited = true;
    }

    pub fn set_node_type(&mut self, node_type: Type)
        ensures
            *final(self) == (Node { node_type, ..*old(self) }),
    {
        self.node_type = node_type;
    }
}

/// How many cells of the board the forward phase has seen. Every weight on
/// the board is bounded by this count, which is what keeps the weights small
/// enough to never overflow.
pub open spec fn count_visited(nodes: Seq<Node>) -> nat
    decreases nodes.len(),
{
    if nodes.len() == 0 {
        0
    } else {
        count_visited(nodes.drop_last()) + if nodes.last().is_visited {
            1nat
        } else {
            0nat
        }
    }
}

proof fn lemma_count_visited_le_len(nodes: Seq<Node>)
    ensures
        count_visited(nodes) <= nodes.len(),
    decreases nodes.len(),
{
    if nodes.len() > 0 {
        lemma_count_visited_le_len(nodes.drop_last());
    }
}

/// Replacing a cell by one with the same visited flag keeps the count.
proof fn lemma_count_visited_same(nodes: Seq<Node>, i: int, n: Node)
    requires
        0 <= i < nodes.len(),
        n.is_visited == nodes[i].is_visited,
    ensures
        count_visited(nodes.update(i, n)) == count_visited(nodes),
    decreases nodes.len(),
{
    let updated = nodes.update(i, n);
    if i == nodes.len() - 1 {
        assert(updated.drop_last() =~= nodes.drop_last());
    } else {
        assert(updated.drop_last() =~= nodes.drop_last().update(i, n));
        lemma_count_visited_same(nodes.drop_last(), i, n);
    }
}

/// Marking an unseen cell visited raises the count by exactly one.
proof fn lemma_count_visited_mark(nodes: Seq<Node>, i: int, n: Node)
    requires
        0 <= i < nodes.len(),
        !nodes[i].is_visited,
        n.is_visited,
    ensures
        count_visited(nodes.update(i, n)) == count_visited(nodes) + 1,
    decreases nodes.len(),
{
    let updated = nodes.update(i, n);
    if i == nodes.len() - 1 {
        assert(updated.drop_last() =~= nodes.drop_last());
    } else {
        assert(updated.drop_last() =~= nodes.drop_last().update(i, n));
        lemma_count_visited_mark(nodes.drop_last(), i, n);
    }
}

/// While some cell is still unseen, the count is short of the board size.
proof fn lemma_count_visited_lt_len(nodes: Seq<Node>, i: int)
    requires
        0 <= i < nodes.len(),
        !nodes[i].is_visited,
    ensures
        count_visited(nodes) < nodes.len(),
    decreases nodes.len(),
{
    if i == nodes.len() - 1 {
        lemma_count_visited_le_len(nodes.drop_last());
    } else {
        lemma_count_visited_lt_len(nodes.drop_last(), i);
    }
}

/// One step down in wrap-around arithmetic: `(v - 1) mod m`, for `0 <= v < m`.
pub open spec fn wrap_dec(v: int, m: int) -> int {
    if v == 0 {
        m - 1
    } else {
        v - 1
    }
}

/// One step up in wrap-around arithmetic: `(v + 1) mod m`, for `0 <= v < m`.
pub open spec fn wrap_inc(v: int, m: int) -> int {
    if v + 1 == m {
        0
    } else {
        v + 1
    }
}

/// The row of the `k`-th neighbor of `(row, col)`, `0 <= k < 8`, in the
/// board's enumeration order: the same row first, then the row above, then
/// the row below.
pub open spec fn neighbor_row(row: int, height: int, k: int) -> int {
    if k == 0 || k == 1 {
        row
    } else if k == 2 || k == 3 || k == 4 {
        wrap_dec(row, height)
    } else {
        wrap_inc(row, height)
    }
}

/// The column of the `k`-th neighbor of `(row, col)`: within each row band,
/// the column to the right, then the one to the left, then (for the off-row
/// bands) the center column first.
pub open spec fn neighbor_col(col: int, width: int, k: int) -> int {
    if k == 0 {
        wrap_inc(col, width)
    } else if k == 1 {
        wrap_dec(col, width)
    } else if k == 2 {
        col
    } else if k == 3 {
        wrap_inc(col, width)
    } else if k == 4 {
        wrap_dec(col, width)
    } else if k == 5 {
        col
    } else if k == 6 {
        wrap_inc(col, width)
    } else {
        wrap_dec(col, width)
    }
}

/// The row-major index of the `k`-th neighbor of `(row, col)`.
pub open spec fn neighbor_index(width: int, height: int, row: int, col: int, k: int) -> int {
    neighbor_row(row, height, k) * width + neighbor_col(col, width, k)
}

/// All 8 neighbors of `(row, col)`, in enumeration order.
pub open spec fn neighbors_seq(width: int, height: int, row: int, col: int) -> Seq<int> {
    Seq::new(8, |k: int| neighbor_index(width, height, row, col, k))
}

/// A row-major index names one cell: on a board `width` cells wide, equal
/// indexes force equal rows and columns.
proof fn lemma_index_injective(width: int, r1: int, c1: int, r2: int, c2: int)
    requires
        0 <= c1 < width,
        0 <= c2 < width,
        r1 * width + c1 == r2 * width + c2,
    ensures
        r1 == r2,
        c1 == c2,
{
    assert(r1 == r2 && c1 == c2) by (nonlinear_arith)
        requires
            0 <= c1 < width,
            0 <= c2 < width,
            r1 * width + c1 == r2 * width + c2,
    ;
}

/// A row-major index of an in-range cell is in range of the board.
proof fn lemma_index_in_range(width: int, height: int, row: int, col: int)
    requires
        0 <= row < height,
        0 <= col < width,
    ensures
        0 <= row * width + col < width * height,
{
    assert(0 <= row * width + col < width * height) by (nonlinear_arith)
        requires
            0 <= row < height,
            0 <= col < width,
    ;
}

/// On any board at least three cells wide and three tall, the 8 neighbors of
/// any cell are pairwise distinct — for interior cells and, thanks to the
/// wrap-around, for edge and corner cells alike.
pub proof fn lemma_neighbors_distinct(width: int, height: int, row: int, col: int)
    requires
        3 <= width,
        3 <= height,
        0 <= row < height,
        0 <= col < width,
    ensures
        forall|k1: int, k2: int|
            0 <= k1 < k2 < 8 ==> neighbors_seq(width, height, row, col)[k1] != neighbors_seq(
                width,
                height,
                row,
                col,
            )[k2],
{
    let ns = neighbors_seq(width, height, row, col);
    assert forall|k1: int, k2: int| 0 <= k1 < k2 < 8 implies ns[k1] != ns[k2] by {
        let r1 = neighbor_row(row, height, k1);
        let c1 = neighbor_col(col, width, k1);
        let r2 = neighbor_row(row, height, k2);
        let c2 = neighbor_col(col, width, k2);
        if ns[k1] == ns[k2] {
            lemma_index_injective(width, r1, c1, r2, c2);
        }
    }
}

/// The frontier queue as a sequence of plain indexes.
pub open spec fn queue_model(q: Seq<usize>) -> Seq<int> {
    q.map_values(|i: usize| i as int)
}

/// The ghost image of a [`Graph`]: plain sequences in place of the vectors.
#[verifier::ext_equal]
pub ghost struct GraphModel {
    pub width: u32,
    pub height: u32,
    pub nodes: Seq<Node>,
    pub start_node_index: Option<int>,
    pub end_node_index: Option<int>,
    pub queue: Seq<int>,
    pub is_backtracking: bool,
}

/// The grid graph: `width * height` cells in row-major order, the frontier
/// queue, and the phase flag of the step engine.
pub struct Graph {
    pub width: u32,
    pub height: u32,
    pub nodes: Vec<Node>,
    pub start_node_index: Option<usize>,
    pub end_node_index: Option<usize>,
    pub queue: VecDeque<usize>,
    pub is_backtracking: bool,
}

impl View for Graph {
    type V = GraphModel;

    open spec fn view(&self) -> GraphModel {
        GraphModel {
            width: self.width,
            height: self.height,
            nodes: self.nodes@,
            start_node_index: match self.start_node_index {
                Some(i) => Some(i as int),
                None => None,
            },
            end_node_index: match self.end_node_index {
                Some(i) => Some(i as int),
                None => None,
            },
            queue: queue_model(self.queue@),
            is_backtracking: self.is_backtracking,
        }
    }
}

impl Graph {
    /// The invariant of a well-formed board: the node vector matches the
    /// dimensions, the board size fits the index type, every queued index is
    /// on the board, and every weight is bounded by the number of visited
    /// cells (so a relaxation can never overflow a weight).
    pub open spec fn inv(self) -> bool {
        &&& 1 <= self.width
        &&& 1 <= self.height
        &&& self.width * self.height <= u32::MAX
        &&& self.nodes@.len() == self.width * self.height
        &&& forall|i: int|
            0 <= i < self.queue@.len() ==> (#[trigger] self.queue@[i]) < self.nodes@.len()
        &&& forall|i: int|
            0 <= i < self.nodes@.len() ==> (#[trigger] self.nodes@[i].weight) <= count_visited(
                self.nodes@,
            )
    }

    pub fn new(width: u32, height: u32) -> (g: Graph)
        requires
            1 <= width,
            1 <= height,
            width * height <= u32::MAX,
        ensures
            g.width == width,
            g.height == height,
            g.nodes@.len() == width * height,
            forall|i: int|
                0 <= i < g.nodes@.len() ==> g.nodes@[i] == (Node {
                    node_type: Type::Available,
                    is_visited: false,
                    weight: 0,
                }),
            g.start_node_index is None,
            g.end_node_index is None,
            g.queue@.len() == 0,
            !g.is_backtracking,
            g.inv(),
    {
        let total = width * height;
        let mut nodes: Vec<Node> = Vec::new();
        let mut i: u32 = 0;
        while i < total
            invariant
                i <= total,
                nodes@.len() == i as int,
                forall|j: int|
                    0 <= j < i as int ==> nodes@[j] == (Node {
                        node_type: Type::Available,
                        is_visited: false,
                        weight: 0,
                    }),
            decreases total - i,
        {
            nodes.push(Node::new());
            i = i + 1;
        }
        let g = Graph {
            width,
            height,
            nodes,
            start_node_index: None,
            end_node_index: None,
            queue: VecDeque::new(),
            is_backtracking: false,
        };
        proof {
            lemma_all_unvisited_count(g.nodes@);
        }
        g
    }

    pub fn width(&self) -> (w: u32)
        ensures
            w == self.width,
    {
        self.width
    }

    pub fn height(&self) -> (h: u32)
        ensures
            h == self.height,
    {
        self.height
    }

    /// A read-only view of the cells, in row-major order.
    pub fn nodes(&self) -> (nodes: &Vec<Node>)
        ensures
            nodes@ == self.nodes@,
    {
        &self.nodes
    }

    pub fn is_backtracking(&self) -> (b: bool)
        ensures
            b == self.is_backtracking,
    {
        self.is_backtracking
    }

    pub fn queue_len(&self) -> (n: usize)
        ensures
            n == self.queue@.len(),
    {
        self.queue.len()
    }

    pub fn get_index(&self, row: u32, column: u32) -> (i: usize)
        requires
            self.inv(),
            row < self.height,
            column < self.width,
        ensures
            i == row * self.width + column,
            i < self.nodes@.len(),
    {
        proof {
            lemma_index_in_range(self.width as int, self.height as int, row as int, column as int);
        }
        (row as usize) * (self.width as usize) + (column as usize)
    }

    /// The 8 wrap-around neighbors of `(row, column)`, in enumeration order.
    pub fn get_neighbor_indexes(&self, row: u32, column: u32) -> (indexes: Vec<usize>)
        requires
            self.inv(),
            row < self.height,
            column < self.width,
        ensures
            indexes@.len() == 8,
            forall|k: int|
                0 <= k < 8 ==> (#[trigger] indexes@[k]) == neighbors_seq(
                    self.width as int,
                    self.height as int,
                    row as int,
                    column as int,
                )[k],
            forall|k: int| 0 <= k < 8 ==> (#[trigger] indexes@[k]) < self.nodes@.len(),
    {
        let row_up = if row == 0 {
            self.height - 1
        } else {
            row - 1
        };
        let row_down = if row + 1 == self.height {
            0
        } else {
            row + 1
        };
        let col_left = if column == 0 {
            self.width - 1
        } else {
            column - 1
        };
        let col_right = if column + 1 == self.width {
            0
        } else {
            column + 1
        };

        let mut indexes: Vec<usize> = Vec::new();
        indexes.push(self.get_index(row, col_right));
        indexes.push(self.get_index(row, col_left));
        indexes.push(self.get_index(row_up, column));
        indexes.push(self.get_index(row_up, col_right));
        indexes.push(self.get_index(row_up, col_left));
        indexes.push(self.get_index(row_down, column));
        indexes.push(self.get_index(row_down, col_right));
        indexes.push(self.get_index(row_down, col_left));

        proof {
            let w = self.width as int;
            let h = self.height as int;
            let ns = neighbors_seq(w, h, row as int, column as int);
            assert forall|k: int| 0 <= k < 8 implies (#[trigger] indexes@[k]) == ns[k] by {
                assert(ns[k] == neighbor_index(w, h, row as int, column as int, k));
            }
        }
        indexes
    }

    /// Mark `(row, column)` as the Start cell and seed the frontier with it.
    /// A later call moves the Start mark but only adds to the frontier.
    pub fn set_start_node(&mut self, row: u32, column: u32)
        requires
            old(self).inv(),
            row < old(self).height,
            column < old(self).width,
        ensures
            ({
                let idx = row * old(self).width + column;
                final(self)@ =~= GraphModel {
                    nodes: old(self)@.nodes.update(
                        idx as int,
                        Node { node_type: Type::Start, ..old(self)@.nodes[idx as int] },
                    ),
                    start_node_index: Some(idx as int),
                    queue: old(self)@.queue.push(idx as int),
                    ..old(self)@
                }
            }),
            final(self).inv(),
    {
        let idx = self.get_index(row, column);
        self.start_node_index = Some(idx);
        let mut node = self.nodes[idx];
        node.set_node_type(Type::Start);
        proof {
            lemma_count_visited_same(self.nodes@, idx as int, node);
        }
        self.nodes.set(idx, node);
        self.queue.push_back(idx);
        proof {
            assert(self@.queue =~= old(self)@.queue.push(idx as int));
        }
    }

    /// Mark `(row, column)` as the End cell.
    pub fn set_end_node(&mut self, row: u32, column: u32)
        requires
            old(self).inv(),
            row < old(self).height,
            column < old(self).width,
        ensures
            ({
                let idx = row * old(self).width + column;
                final(self)@ =~= GraphModel {
                    nodes: old(self)@.nodes.update(
                        idx as int,
                        Node { node_type: Type::End, ..old(self)@.nodes[idx as int] },
                    ),
                    end_node_index: Some(idx as int),
                    ..old(self)@
                }
            }),
            final(self).inv(),
    {
        let idx = self.get_index(row, column);
        self.end_node_index = Some(idx);
        let mut node = self.nodes[idx];
        node.set_node_type(Type::End);
        proof {
            lemma_count_visited_same(self.nodes@, idx as int, node);
        }
        self.nodes.set(idx, node);
    }

    /// Mark `(row, column)` as a Wall cell.
    pub fn set_wall_node(&mut self, row: u32, column: u32)
        requires
            old(self).inv(),
            row < old(self).height,
            column < old(self).width,
        ensures
            ({
                let idx = row * old(self).width + column;
                final(self)@ =~= GraphModel {
                    nodes: old(self)@.nodes.update(
                        idx as int,
                        Node { node_type: Type::Wall, ..old(self)@.nodes[idx as int] },
                    ),
                    ..old(self)@
                }
            }),
            final(self).inv(),
    {
        let idx = self.get_index(row, column);
        let mut node = self.nodes[idx];
        node.set_node_type(Type::Wall);
        proof {
            lemma_count_visited_same(self.nodes@, idx as int, node);
        }
        self.nodes.set(idx, node);
    }
}

/// The forward expansion of one dequeued cell, one neighbor at a time, from
/// neighbor `k` on: an already-seen neighbor is skipped; an unseen one is
/// marked seen; a Wall stays out of the frontier; any other unseen neighbor
/// is relaxed to the dequeued cell's weight plus one and enqueued.
pub open spec fn expand(
    nodes: Seq<Node>,
    queue: Seq<int>,
    cur: int,
    ns: Seq<int>,
    k: nat,
) -> (Seq<Node>, Seq<int>)
    decreases ns.len() - k,
{
    if k >= ns.len() {
        (nodes, queue)
    } else {
        let n = ns[k as int];
        if nodes[n].is_visited {
            expand(nodes, queue, cur, ns, k + 1)
        } else {
            let seen = nodes.update(n, Node { is_visited: true, ..nodes[n] });
            if seen[n].node_type == Type::Wall {
                expand(seen, queue, cur, ns, k + 1)
            } else {
                let relaxed = seen.update(
                    n,
                    Node { weight: (seen[cur].weight + 1) as u32, ..seen[n] },
                );
                expand(relaxed, queue.push(n), cur, ns, k + 1)
            }
        }
    }
}

/// Whether any of the neighbors `ns[k..]` is currently typed Start.
pub open spec fn has_start_neighbor(nodes: Seq<Node>, ns: Seq<int>, k: nat) -> bool
    decreases ns.len() - k,
{
    if k >= ns.len() {
        false
    } else {
        nodes[ns[k as int]].node_type == Type::Start || has_start_neighbor(nodes, ns, k + 1)
    }
}

/// The visited neighbor of least weight among `ns[k..]`, folded against the
/// best candidate so far; an earlier candidate wins a tie, as the first
/// minimum does in the enumeration order.
pub open spec fn pick_min(nodes: Seq<Node>, ns: Seq<int>, k: nat, best: Option<int>) -> Option<int>
    decreases ns.len() - k,
{
    if k >= ns.len() {
        best
    } else {
        let cand = ns[k as int];
        let next = if nodes[cand].node_type == Type::Visited {
            match best {
                None => Some(cand),
                Some(b) => if nodes[cand].weight < nodes[b].weight {
                    Some(cand)
                } else {
                    Some(b)
                },
            }
        } else {
            best
        };
        pick_min(nodes, ns, k + 1, next)
    }
}

/// One tick of the step engine, as a whole: what `Graph::bfs` does to the
/// board, the frontier and the phase flag.
pub open spec fn bfs_step_spec(m: GraphModel) -> GraphModel {
    if m.is_backtracking {
        back_step_spec(m)
    } else if m.queue.len() == 0 {
        m
    } else {
        let cur = m.queue[0];
        let rest = m.queue.drop_first();
        if m.nodes[cur].node_type == Type::End {
            GraphModel { queue: seq![cur], is_backtracking: true, ..m }
        } else {
            let marked = if m.nodes[cur].node_type == Type::Available {
                m.nodes.update(cur, Node { node_type: Type::Visited, ..m.nodes[cur] })
            } else {
                m.nodes
            };
            let ns = neighbors_seq(
                m.width as int,
                m.height as int,
                cur / m.width as int,
                cur % m.width as int,
            );
            let expanded = expand(marked, rest, cur, ns, 0);
            GraphModel { nodes: expanded.0, queue: expanded.1, ..m }
        }
    }
}

/// One tick of the backtracking phase: dequeue a cell; if a neighbor is the
/// Start the walk is over and the frontier is cleared; otherwise the visited
/// neighbor of least weight is re-typed to Path and enqueued. A dequeued cell
/// with neither kind of neighbor is dropped and the board is left alone.
pub open spec fn back_step_spec(m: GraphModel) -> GraphModel {
    if m.queue.len() == 0 {
        m
    } else {
        let cur = m.queue[0];
        let rest = m.queue.drop_first();
        let ns = neighbors_seq(
            m.width as int,
            m.height as int,
            cur / m.width as int,
            cur % m.width as int,
        );
        if has_start_neighbor(m.nodes, ns, 0) {
            GraphModel { queue: Seq::empty(), ..m }
        } else {
            match pick_min(m.nodes, ns, 0, None) {
                None => GraphModel { queue: rest, ..m },
                Some(j) => GraphModel {
                    nodes: m.nodes.update(j, Node { node_type: Type::Path, ..m.nodes[j] }),
                    queue: rest.push(j),
                    ..m
                },
            }
        }
    }
}

impl Graph {
    /// One tick of the two-phase step engine.
    ///
    /// In the forward phase: a no-op on an empty frontier; dequeuing the End
    /// cell clears the frontier, re-seeds it with End alone and switches to
    /// backtracking; otherwise the dequeued cell (if Available) turns
    /// Visited and its neighbors are expanded as [`expand`] says. In the
    /// backtracking phase, one tick of [`back_step_spec`].
    pub fn bfs(&mut self)
        requires
            old(self).inv(),
        ensures
            final(self)@ == bfs_step_spec(old(self)@),
            final(self).inv(),
    {
        let ghost m0 = self@;
        if self.is_backtracking {
            self.backtracking();
            return ;
        }
        if self.queue.len() == 0 {
            return ;
        }

        let cur = self.queue.pop_front().unwrap();
        proof {
            assert(queue_model(self.queue@) =~= m0.queue.drop_first());
            assert(cur as int == m0.queue[0]);
        }
        let ghost rest = m0.queue.drop_first();

        let cur_u32 = cur as u32;
        let row = cur_u32 / self.width;
        let column = cur_u32 % self.width;
        proof {
            lemma_multiply_divide_lt(cur as int, self.width as int, self.height as int);
            lemma_mod_division_less_than_divisor(cur as int, self.width as int);
        }

        if self.nodes[cur].node_type() == Type::End {
            self.queue.clear();
            self.queue.push_back(cur);
            self.is_backtracking = true;
            proof {
                assert(queue_model(self.queue@) =~= seq![cur as int]);
                assert(self@ =~= bfs_step_spec(m0));
            }
            return ;
        }

        if self.nodes[cur].node_type() == Type::Available {
            let mut node = self.nodes[cur];
            node.set_node_type(Type::Visited);
            proof {
                lemma_count_visited_same(self.nodes@, cur as int, node);
            }
            self.nodes.set(cur, node);
        }
        let ghost marked = self.nodes@;
        let ghost ns = neighbors_seq(
            m0.width as int,
            m0.height as int,
            cur as int / m0.width as int,
            cur as int % m0.width as int,
        );

        let neighbors = self.get_neighbor_indexes(row, column);
        proof {
            assert(ns.len() == 8);
        }

        let mut k: usize = 0;
        while k < 8
            invariant
                0 <= k <= 8,
                ns.len() == 8,
                self.width == m0.width,
                self.height == m0.height,
                !self.is_backtracking,
                self@.start_node_index == m0.start_node_index,
                self@.end_node_index == m0.end_node_index,
                self.nodes@.len() == m0.nodes.len(),
                m0.width * m0.height <= u32::MAX,
                self.nodes@.len() == m0.width * m0.height,
                cur < self.nodes@.len(),
                neighbors@.len() == 8,
                forall|j: int| 0 <= j < 8 ==> (#[trigger] neighbors@[j]) as int == ns[j],
                forall|j: int| 0 <= j < 8 ==> (#[trigger] neighbors@[j]) < self.nodes@.len(),
                forall|i: int|
                    0 <= i < self.queue@.len() ==> (#[trigger] self.queue@[i])
                        < self.nodes@.len(),
                forall|i: int|
                    0 <= i < self.nodes@.len() ==> (#[trigger] self.nodes@[i].weight)
                        <= count_visited(self.nodes@),
                expand(marked, rest, cur as int, ns, 0) == expand(
                    self.nodes@,
                    queue_model(self.queue@),
                    cur as int,
                    ns,
                    k as nat,
                ),
            decreases 8 - k,
        {
            let ghost nodes_pre = self.nodes@;
            let ghost q_pre = queue_model(self.queue@);

            let n = neighbors[k];
            if !self.nodes[n].is_visited() {
                let mut node = self.nodes[n];
                node.set_visited();
                proof {
                    lemma_count_visited_mark(self.nodes@, n as int, node);
                    lemma_count_visited_lt_len(self.nodes@, n as int);
                }
                self.nodes.set(n, node);
                let ghost seen = self.nodes@;
                proof {
                    assert forall|i: int|
                        0 <= i < self.nodes@.len() implies (#[trigger] self.nodes@[i].weight)
                        <= count_visited(self.nodes@) by {
                        assert(self.nodes@[i].weight == nodes_pre[i].weight);
                    }
                }
                if node.node_type() == Type::Wall {
                    proof {
                        assert(expand(nodes_pre, q_pre, cur as int, ns, k as nat) == expand(
                            seen,
                            q_pre,
                            cur as int,
                            ns,
                            (k + 1) as nat,
                        ));
                    }
                } else {
                    let current_weight = self.nodes[cur].weight;
                    proof {
                        assert(current_weight == nodes_pre[cur as int].weight);
                        assert(current_weight <= count_visited(nodes_pre));
                        assert(count_visited(nodes_pre) < nodes_pre.len());
                    }
                    let mut node2 = self.nodes[n];
                    node2.weight = current_weight + 1;
                    proof {
                        lemma_count_visited_same(self.nodes@, n as int, node2);
                    }
                    self.nodes.set(n, node2);
                    self.queue.push_back(n);
                    proof {
                        assert(queue_model(self.queue@) =~= q_pre.push(n as int));
                        assert(self.nodes@ == seen.update(
                            n as int,
                            Node { weight: (seen[cur as int].weight + 1) as u32, ..seen[n as int] },
                        ));
                        assert(expand(nodes_pre, q_pre, cur as int, ns, k as nat) == expand(
                            self.nodes@,
                            queue_model(self.queue@),
                            cur as int,
                            ns,
                            (k + 1) as nat,
                        ));
                        assert forall|i: int|
                            0 <= i < self.nodes@.len() implies (#[trigger] self.nodes@[i].weight)
                            <= count_visited(self.nodes@) by {
                            if i != n as int {
                                assert(self.nodes@[i].weight == nodes_pre[i].weight);
                            }
                        }
                    }
                }
            }
            k = k + 1;
        }
        proof {
            assert(expand(self.nodes@, queue_model(self.queue@), cur as int, ns, 8) == (
                self.nodes@,
                queue_model(self.queue@),
            ));
            assert(self@ =~= bfs_step_spec(m0));
        }
    }

    /// One backtracking tick: walk one cell from the End towards the Start
    /// along the visited neighbor of least weight, re-typing it to Path, and
    /// stop for good when a Start neighbor appears.
    fn backtracking(&mut self)
        requires
            old(self).inv(),
        ensures
            final(self)@ == back_step_spec(old(self)@),
            final(self).inv(),
    {
        let ghost m0 = self@;
        if self.queue.len() == 0 {
            return ;
        }

        let cur = self.queue.pop_front().unwrap();
        proof {
            assert(queue_model(self.queue@) =~= m0.queue.drop_first());
            assert(cur as int == m0.queue[0]);
        }

        let cur_u32 = cur as u32;
        let row = cur_u32 / self.width;
        let column = cur_u32 % self.width;
        proof {
            lemma_multiply_divide_lt(cur as int, self.width as int, self.height as int);
            lemma_mod_division_less_than_divisor(cur as int, self.width as int);
        }

        let ghost ns = neighbors_seq(
            m0.width as int,
            m0.height as int,
            cur as int / m0.width as int,
            cur as int % m0.width as int,
        );
        let neighbors = self.get_neighbor_indexes(row, column);
        proof {
            assert(ns.len() == 8);
            assert(ns =~= neighbors_seq(
                m0.width as int,
                m0.height as int,
                m0.queue[0] / m0.width as int,
                m0.queue[0] % m0.width as int,
            ));
        }

        let mut lowest: Option<usize> = None;
        let mut k: usize = 0;
        while k < 8
            invariant
                0 <= k <= 8,
                ns.len() == 8,
                m0 == old(self)@,
                m0.queue.len() > 0,
                cur as int == m0.queue[0],
                ns == neighbors_seq(
                    m0.width as int,
                    m0.height as int,
                    m0.queue[0] / m0.width as int,
                    m0.queue[0] % m0.width as int,
                ),
                self.width == m0.width,
                self.height == m0.height,
                self.is_backtracking == m0.is_backtracking,
                self@.start_node_index == m0.start_node_index,
                self@.end_node_index == m0.end_node_index,
                self.nodes@ == m0.nodes,
                m0.width * m0.height <= u32::MAX,
                self.nodes@.len() == m0.width * m0.height,
                queue_model(self.queue@) == m0.queue.drop_first(),
                forall|i: int|
                    0 <= i < self.queue@.len() ==> (#[trigger] self.queue@[i])
                        < self.nodes@.len(),
                forall|i: int|
                    0 <= i < self.nodes@.len() ==> (#[trigger] self.nodes@[i].weight)
                        <= count_visited(self.nodes@),
                neighbors@.len() == 8,
                forall|j: int| 0 <= j < 8 ==> (#[trigger] neighbors@[j]) as int == ns[j],
                forall|j: int| 0 <= j < 8 ==> (#[trigger] neighbors@[j]) < self.nodes@.len(),
                has_start_neighbor(m0.nodes, ns, 0) == has_start_neighbor(m0.nodes, ns, k as nat),
                lowest matches Some(b) ==> b < self.nodes@.len(),
                pick_min(m0.nodes, ns, 0, None) == pick_min(
                    m0.nodes,
                    ns,
                    k as nat,
                    match lowest {
                        Some(b) => Some(b as int),
                        None => None,
                    },
                ),
            decreases 8 - k,
        {
            let n = neighbors[k];
            if self.nodes[n].node_type() == Type::Start {
                self.queue.clear();
                proof {
                    assert(has_start_neighbor(m0.nodes, ns, k as nat));
                    assert(queue_model(self.queue@) =~= Seq::<int>::empty());
                    assert(self@ =~= back_step_spec(m0));
                }
                return ;
            }
            if self.nodes[n].node_type() == Type::Visited {
                lowest = match lowest {
                    Some(b) => if self.nodes[n].weight < self.nodes[b].weight {
                        Some(n)
                    } else {
                        Some(b)
                    },
                    None => Some(n),
                };
            }
            k = k + 1;
        }

        proof {
            assert(!has_start_neighbor(m0.nodes, ns, 8));
            assert(!has_start_neighbor(m0.nodes, ns, 0));
        }
        match lowest {
            None => {
                proof {
                    assert(self@ =~= back_step_spec(m0));
                }
            },
            Some(j) => {
                let mut node = self.nodes[j];
                node.set_node_type(Type::Path);
                proof {
                    lemma_count_visited_same(self.nodes@, j as int, node);
                }
                self.nodes.set(j, node);
                self.queue.push_back(j);
                proof {
                    assert(queue_model(self.queue@) =~= m0.queue.drop_first().push(j as int));
                    assert(self@ =~= back_step_spec(m0));
                    assert forall|i: int|
                        0 <= i < self.nodes@.len() implies (#[trigger] self.nodes@[i].weight)
                        <= count_visited(self.nodes@) by {
                        assert(self.nodes@[i].weight == m0.nodes[i].weight);
                    }
                }
            },
        }
    }
}

/// What [`pick_min`] finds: a visited cell among the neighbors (or the
/// running candidate), of minimal weight among them; and it finds one
/// whenever any neighbor is visited.
proof fn lemma_pick_min_properties(nodes: Seq<Node>, ns: Seq<int>, k: nat, best: Option<int>)
    requires
        k <= ns.len(),
        forall|i: int| 0 <= i < ns.len() ==> 0 <= #[trigger] ns[i] < nodes.len(),
        best matches Some(b) ==> 0 <= b < nodes.len() && nodes[b].node_type == Type::Visited,
    ensures
        ({
            let r = pick_min(nodes, ns, k, best);
            &&& r is None ==> best is None
            &&& r matches Some(j) ==> 0 <= j < nodes.len() && nodes[j].node_type == Type::Visited
            &&& r matches Some(j) ==> forall|i: int|
                k <= i < ns.len() && nodes[#[trigger] ns[i]].node_type == Type::Visited
                    ==> nodes[j].weight <= nodes[ns[i]].weight
            &&& (r is Some && best is Some) ==> nodes[r->0].weight <= nodes[best->0].weight
            &&& (exists|i: int|
                k <= i < ns.len() && nodes[#[trigger] ns[i]].node_type == Type::Visited) ==> r
                is Some
        }),
    decreases ns.len() - k,
{
    if k < ns.len() {
        let cand = ns[k as int];
        let next = if nodes[cand].node_type == Type::Visited {
            match best {
                None => Some(cand),
                Some(b) => if nodes[cand].weight < nodes[b].weight {
                    Some(cand)
                } else {
                    Some(b)
                },
            }
        } else {
            best
        };
        lemma_pick_min_properties(nodes, ns, k + 1, next);
    }
}

/// `has_start_neighbor` holds exactly when some neighbor slot from `k` on
/// names a cell typed Start.
proof fn lemma_has_start_neighbor_pointwise(nodes: Seq<Node>, ns: Seq<int>, k: nat)
    requires
        k <= ns.len(),
    ensures
        has_start_neighbor(nodes, ns, k) <==> exists|j: int|
            k <= j < ns.len() && nodes[#[trigger] ns[j]].node_type == Type::Start,
    decreases ns.len() - k,
{
    if k < ns.len() {
        lemma_has_start_neighbor_pointwise(nodes, ns, k + 1);
    }
}

/// The neighbor list of the cell at row-major index `v` on the board of `m`.
pub open spec fn cell_neighbors(m: GraphModel, v: int) -> Seq<int> {
    neighbors_seq(m.width as int, m.height as int, v / m.width as int, v % m.width as int)
}

/// Whether the cell at `v` keeps a way back towards the Start: a neighbor
/// typed Start (whatever weight the expansion later gave it), or a Visited
/// neighbor exactly one weight lighter.
pub open spec fn has_parent(m: GraphModel, v: int) -> bool {
    exists|k: int|
        0 <= k < 8 && {
            let u = #[trigger] cell_neighbors(m, v)[k];
            &&& 0 <= u < m.nodes.len()
            &&& (m.nodes[u].node_type == Type::Start || (m.nodes[u].node_type == Type::Visited
                && m.nodes[u].weight == m.nodes[v].weight - 1))
        }
}

/// The state the backtracking walk keeps between ticks: one cell in the
/// frontier; its weight at least one, with a way back; every lighter Visited
/// cell also with a way back; and every cell already re-typed Path at least
/// as heavy as the frontier cell.
pub open spec fn walk_inv(m: GraphModel) -> bool {
    &&& m.is_backtracking
    &&& 1 <= m.width
    &&& 1 <= m.height
    &&& m.nodes.len() == m.width * m.height
    &&& m.queue.len() == 1
    &&& 0 <= m.queue[0] < m.nodes.len()
    &&& ({
        let h = m.queue[0];
        let w = m.nodes[h].weight as int;
        &&& w >= 1
        &&& has_parent(m, h)
        &&& forall|v: int|
            0 <= v < m.nodes.len() && (#[trigger] m.nodes[v]).node_type == Type::Visited
                && m.nodes[v].weight < w ==> m.nodes[v].weight >= 1 && has_parent(m, v)
        &&& forall|p: int|
            0 <= p < m.nodes.len() && (#[trigger] m.nodes[p]).node_type == Type::Path
                ==> m.nodes[p].weight >= w
    })
}

/// Every neighbor slot of an in-range cell names an in-range cell.
proof fn lemma_cell_neighbors_in_range(m: GraphModel, v: int)
    requires
        1 <= m.width,
        1 <= m.height,
        m.nodes.len() == m.width * m.height,
        0 <= v < m.nodes.len(),
    ensures
        cell_neighbors(m, v).len() == 8,
        forall|k: int|
            0 <= k < 8 ==> 0 <= #[trigger] cell_neighbors(m, v)[k] < m.nodes.len(),
{
    let w = m.width as int;
    let h = m.height as int;
    let row = v / w;
    let col = v % w;
    lemma_multiply_divide_lt(v, w, h);
    lemma_mod_division_less_than_divisor(v, w);
    assert(0 <= row) by (nonlinear_arith)
        requires
            0 <= v,
            1 <= w,
            row == v / w,
    ;
    assert forall|k: int| 0 <= k < 8 implies 0 <= #[trigger] cell_neighbors(m, v)[k]
        < m.nodes.len() by {
        lemma_index_in_range(w, h, neighbor_row(row, h, k), neighbor_col(col, w, k));
    }
}

/// The law of the backtracking walk. From any state that keeps `walk_inv`,
/// one tick either finds the Start beside the frontier cell and clears the
/// frontier — the walk ends adjacent to the Start — or re-types exactly one
/// Visited cell to Path, strictly lighter than the frontier cell, and keeps
/// `walk_inv`. Iterated, the weights of the cells re-typed Path strictly
/// decrease, and the walk can only end beside the Start.
pub proof fn lemma_backtrack_walk_descends(m: GraphModel)
    requires
        walk_inv(m),
    ensures
        ({
            let m2 = back_step_spec(m);
            let h = m.queue[0];
            if has_start_neighbor(m.nodes, cell_neighbors(m, h), 0) {
                m2 == GraphModel { queue: Seq::empty(), ..m }
            } else {
                &&& walk_inv(m2)
                &&& m2.queue.len() == 1
                &&& ({
                    let j = m2.queue[0];
                    &&& 0 <= j < m.nodes.len()
                    &&& m.nodes[j].node_type == Type::Visited
                    &&& m2.nodes == m.nodes.update(
                        j,
                        Node { node_type: Type::Path, ..m.nodes[j] },
                    )
                    &&& m2.nodes[j].weight < m.nodes[h].weight
                    &&& forall|p: int|
                        0 <= p < m.nodes.len() && (#[trigger] m.nodes[p]).node_type == Type::Path
                            ==> m2.nodes[j].weight < m.nodes[p].weight
                })
            }
        }),
{
    let h = m.queue[0];
    let ns = cell_neighbors(m, h);
    let w = m.nodes[h].weight as int;
    lemma_cell_neighbors_in_range(m, h);
    lemma_has_start_neighbor_pointwise(m.nodes, ns, 0);

    if has_start_neighbor(m.nodes, ns, 0) {
        assert(back_step_spec(m) == GraphModel { queue: Seq::empty(), ..m });
    } else {
        // The frontier cell's parent cannot be the Start, or the walk would
        // have ended: it is a Visited neighbor one weight lighter.
        let pk = choose|k: int|
            0 <= k < 8 && {
                let u = #[trigger] cell_neighbors(m, h)[k];
                &&& 0 <= u < m.nodes.len()
                &&& (m.nodes[u].node_type == Type::Start || (m.nodes[u].node_type
                    == Type::Visited && m.nodes[u].weight == m.nodes[h].weight - 1))
            };
        let parent = ns[pk];
        assert(m.nodes[parent].node_type == Type::Visited);
        assert(m.nodes[parent].weight == m.nodes[h].weight - 1);

        lemma_pick_min_properties(m.nodes, ns, 0, None);
        let picked = pick_min(m.nodes, ns, 0, None);
        assert(picked is Some);
        let j = picked->0;
        assert(m.nodes[j].weight <= m.nodes[parent].weight);
        assert(m.nodes[j].weight < w);

        let m2 = back_step_spec(m);
        assert(m2.queue =~= m.queue.drop_first().push(j));
        assert(m2.queue.len() == 1 && m2.queue[0] == j);

        // The new frontier cell was Visited and lighter than the old one,
        // so the old state's gradient gives it a weight and a parent.
        assert(m.nodes[j].weight >= 1 && has_parent(m, j));

        // Its parent is either the Start or strictly lighter still; either
        // way it is not the cell just re-typed, and survives the update.
        let jk = choose|k: int|
            0 <= k < 8 && {
                let u = #[trigger] cell_neighbors(m, j)[k];
                &&& 0 <= u < m.nodes.len()
                &&& (m.nodes[u].node_type == Type::Start || (m.nodes[u].node_type
                    == Type::Visited && m.nodes[u].weight == m.nodes[j].weight - 1))
            };
        assert(cell_neighbors(m2, j) =~= cell_neighbors(m, j));
        assert(cell_neighbors(m2, j)[jk] == cell_neighbors(m, j)[jk]);
        assert(m2.nodes[cell_neighbors(m, j)[jk]] == m.nodes[cell_neighbors(m, j)[jk]]);
        assert(has_parent(m2, j));

        // Every lighter Visited cell keeps its parent: both the cell and
        // its parent are lighter than the new frontier cell, hence
        // untouched by the update.
        assert forall|v: int|
            0 <= v < m2.nodes.len() && (#[trigger] m2.nodes[v]).node_type == Type::Visited
                && m2.nodes[v].weight < m2.nodes[j].weight implies m2.nodes[v].weight >= 1
            && has_parent(m2, v) by {
            assert(m.nodes[v].node_type == Type::Visited);
            assert(m.nodes[v].weight < w);
            let vk = choose|k: int|
                0 <= k < 8 && {
                    let u = #[trigger] cell_neighbors(m, v)[k];
                    &&& 0 <= u < m.nodes.len()
                    &&& (m.nodes[u].node_type == Type::Start || (m.nodes[u].node_type
                        == Type::Visited && m.nodes[u].weight == m.nodes[v].weight - 1))
                };
            assert(cell_neighbors(m2, v) =~= cell_neighbors(m, v));
            assert(m2.nodes[cell_neighbors(m, v)[vk]] == m.nodes[cell_neighbors(m, v)[vk]]);
            assert(has_parent(m2, v));
        }

        // Every Path cell is at least as heavy as the new frontier cell:
        // the old ones were heavier than the old frontier cell, and the new
        // one is the frontier cell itself.
        assert forall|p: int|
            0 <= p < m2.nodes.len() && (#[trigger] m2.nodes[p]).node_type == Type::Path
                implies m2.nodes[p].weight >= m2.nodes[j].weight by {
            if p != j {
                assert(m.nodes[p].node_type == Type::Path);
            }
        }

        assert(walk_inv(m2));
    }
}

/// Being a neighbor is symmetric on the torus: the cell `v` appears among
/// the neighbors of each of its own neighbors.
proof fn lemma_neighbor_symmetric(w: int, h: int, v: int, k: int)
    requires
        1 <= w,
        1 <= h,
        0 <= v < w * h,
        0 <= k < 8,
    ensures
        ({
            let u = neighbors_seq(w, h, v / w, v % w)[k];
            exists|k2: int| 0 <= k2 < 8 && #[trigger] neighbors_seq(w, h, u / w, u % w)[k2] == v
        }),
{
    let r = v / w;
    let c = v % w;
    lemma_multiply_divide_lt(v, w, h);
    lemma_mod_division_less_than_divisor(v, w);
    assert(0 <= r) by (nonlinear_arith)
        requires
            0 <= v,
            1 <= w,
            r == v / w,
    ;
    let nr = neighbor_row(r, h, k);
    let nc = neighbor_col(c, w, k);
    let u = neighbors_seq(w, h, r, c)[k];
    lemma_index_in_range(w, h, nr, nc);
    vstd::arithmetic::div_mod::lemma_fundamental_div_mod_converse(u, w, nr, nc);
    assert(u / w == nr && u % w == nc);
    assert(v == r * w + c) by {
        vstd::arithmetic::div_mod::lemma_fundamental_div_mod(v, w);
    }
    let back: int = if k == 0 {
        1
    } else if k == 1 {
        0
    } else if k == 2 {
        5
    } else if k == 3 {
        7
    } else if k == 4 {
        6
    } else if k == 5 {
        2
    } else if k == 6 {
        4
    } else {
        3
    };
    assert(neighbor_row(nr, h, back) == r);
    assert(neighbor_col(nc, w, back) == c);
    assert(neighbors_seq(w, h, u / w, u % w)[back] == v);
}

/// On a board at least two cells wide and two tall, no cell is its own
/// neighbor.
proof fn lemma_not_own_neighbor(w: int, h: int, v: int, k: int)
    requires
        2 <= w,
        2 <= h,
        0 <= v < w * h,
        0 <= k < 8,
    ensures
        neighbors_seq(w, h, v / w, v % w)[k] != v,
{
    let r = v / w;
    let c = v % w;
    lemma_multiply_divide_lt(v, w, h);
    lemma_mod_division_less_than_divisor(v, w);
    assert(0 <= r) by (nonlinear_arith)
        requires
            0 <= v,
            1 <= w,
            r == v / w,
    ;
    assert(v == r * w + c) by {
        vstd::arithmetic::div_mod::lemma_fundamental_div_mod(v, w);
    }
    let nr = neighbor_row(r, h, k);
    let nc = neighbor_col(c, w, k);
    if neighbors_seq(w, h, r, c)[k] == v {
        lemma_index_injective(w, nr, nc, r, c);
    }
}

/// Every cell typed Visited carries the visited flag: the step engine types
/// a cell Visited only after dequeuing it from the frontier it was flagged
/// into.
pub open spec fn flag_inv(m: GraphModel) -> bool {
    forall|v: int|
        0 <= v < m.nodes.len() && (#[trigger] m.nodes[v]).node_type == Type::Visited
            ==> m.nodes[v].is_visited
}

/// The breadth-first gradient: every cell typed Visited has a positive
/// weight and a way back.
pub open spec fn visited_gradient(m: GraphModel) -> bool {
    forall|v: int|
        0 <= v < m.nodes.len() && (#[trigger] m.nodes[v]).node_type == Type::Visited
            ==> m.nodes[v].weight >= 1 && has_parent(m, v)
}

/// What holds of one frontier entry during the forward phase: a Start seed,
/// or a flagged, relaxed cell (Available, or the End) with a way back.
pub open spec fn queue_entry_ok(m: GraphModel, i: int) -> bool {
    &&& 0 <= i < m.nodes.len()
    &&& (m.nodes[i].node_type == Type::Start || {
        &&& m.nodes[i].node_type == Type::Available || m.nodes[i].node_type == Type::End
        &&& m.nodes[i].is_visited
        &&& m.nodes[i].weight >= 1
        &&& has_parent(m, i)
    })
}

/// Only Start seeds may appear in the frontier more than once: a relaxed
/// cell is flagged as it is enqueued and never enqueued again.
pub open spec fn no_dup_unless_start(nodes: Seq<Node>, queue: Seq<int>) -> bool {
    forall|a: int, b: int|
        0 <= a < b < queue.len() && #[trigger] queue[a] == #[trigger] queue[b] ==> 0 <= queue[a]
            < nodes.len() && nodes[queue[a]].node_type == Type::Start
}

/// The state the forward phase keeps between ticks, on a board at least two
/// cells wide and two tall: no cell typed Path yet, the flag and gradient
/// invariants, and every frontier entry as `queue_entry_ok` says.
pub open spec fn forward_inv(m: GraphModel) -> bool {
    &&& !m.is_backtracking
    &&& 2 <= m.width
    &&& 2 <= m.height
    &&& m.nodes.len() == m.width * m.height
    &&& m.width * m.height <= u32::MAX
    &&& forall|v: int|
        0 <= v < m.nodes.len() ==> (#[trigger] m.nodes[v]).weight <= count_visited(m.nodes)
    &&& flag_inv(m)
    &&& visited_gradient(m)
    &&& forall|qi: int| 0 <= qi < m.queue.len() ==> queue_entry_ok(m, #[trigger] m.queue[qi])
    &&& no_dup_unless_start(m.nodes, m.queue)
    &&& forall|v: int|
        0 <= v < m.nodes.len() ==> (#[trigger] m.nodes[v]).node_type != Type::Path
}

/// A freshly seeded board keeps the forward invariant: nothing is Visited or
/// Path yet, and the frontier holds Start seeds alone.
pub proof fn lemma_forward_inv_initial(m: GraphModel)
    requires
        !m.is_backtracking,
        2 <= m.width,
        2 <= m.height,
        m.nodes.len() == m.width * m.height,
        m.width * m.height <= u32::MAX,
        forall|v: int| 0 <= v < m.nodes.len() ==> (#[trigger] m.nodes[v]).weight == 0,
        forall|v: int|
            0 <= v < m.nodes.len() ==> ((#[trigger] m.nodes[v]).node_type == Type::Start
                || m.nodes[v].node_type == Type::End || m.nodes[v].node_type == Type::Wall
                || m.nodes[v].node_type == Type::Available),
        forall|qi: int|
            0 <= qi < m.queue.len() ==> 0 <= #[trigger] m.queue[qi] < m.nodes.len()
                && m.nodes[m.queue[qi]].node_type == Type::Start,
    ensures
        forward_inv(m),
{
}

/// One pass of `expand` preserves the forward invariants: it flags and
/// relaxes only unflagged cells, every cell it enqueues satisfies
/// `queue_entry_ok` (its way back being the expanding cell itself), and the
/// expanding cell — no neighbor of its own — is left untouched.
proof fn lemma_expand_preserves(m: GraphModel, nodes: Seq<Node>, queue: Seq<int>, cur: int, k: nat)
    requires
        2 <= m.width,
        2 <= m.height,
        m.nodes.len() == m.width * m.height,
        m.width * m.height <= u32::MAX,
        nodes.len() == m.nodes.len(),
        forall|v: int|
            0 <= v < nodes.len() ==> (#[trigger] nodes[v]).weight <= count_visited(nodes),
        0 <= cur < nodes.len(),
        nodes[cur].node_type == Type::Visited || nodes[cur].node_type == Type::Start,
        k <= 8,
        flag_inv(GraphModel { nodes, ..m }),
        visited_gradient(GraphModel { nodes, ..m }),
        forall|qi: int|
            0 <= qi < queue.len() ==> queue_entry_ok(GraphModel { nodes, ..m }, #[trigger] queue[qi]),
        no_dup_unless_start(nodes, queue),
        forall|v: int| 0 <= v < nodes.len() ==> (#[trigger] nodes[v]).node_type != Type::Path,
    ensures
        ({
            let expanded = expand(nodes, queue, cur, cell_neighbors(m, cur), k);
            let m2 = GraphModel { nodes: expanded.0, ..m };
            &&& expanded.0.len() == nodes.len()
            &&& expanded.0[cur] == nodes[cur]
            &&& forall|v: int|
                0 <= v < expanded.0.len() ==> (#[trigger] expanded.0[v]).weight <= count_visited(
                    expanded.0,
                )
            &&& forall|v: int|
                0 <= v < nodes.len() ==> (#[trigger] expanded.0[v]).node_type
                    == nodes[v].node_type
            &&& flag_inv(m2)
            &&& visited_gradient(m2)
            &&& forall|qi: int|
                0 <= qi < expanded.1.len() ==> queue_entry_ok(m2, #[trigger] expanded.1[qi])
            &&& no_dup_unless_start(expanded.0, expanded.1)
        }),
    decreases 8 - k,
{
    let ns = cell_neighbors(m, cur);
    lemma_cell_neighbors_in_range(m, cur);
    if k >= 8 {
    } else {
        let n = ns[k as int];
        lemma_not_own_neighbor(m.width as int, m.height as int, cur, k as int);
        assert(n != cur);
        if nodes[n].is_visited {
            lemma_expand_preserves(m, nodes, queue, cur, k + 1);
        } else {
            // The unflagged neighbor cannot be typed Visited.
            assert(nodes[n].node_type != Type::Visited);
            let seen = nodes.update(n, Node { is_visited: true, ..nodes[n] });
            let m_seen = GraphModel { nodes: seen, ..m };
            lemma_count_visited_mark(nodes, n, seen[n]);
            lemma_count_visited_lt_len(nodes, n);
            assert forall|v: int| 0 <= v < seen.len() implies (#[trigger] seen[v]).weight
                <= count_visited(seen) by {
                assert(seen[v].weight == nodes[v].weight);
            }

            // Flagging a cell changes no type and no weight, so both board
            // invariants carry over witness by witness.
            assert(flag_inv(m_seen));
            assert forall|v: int|
                0 <= v < seen.len() && (#[trigger] seen[v]).node_type == Type::Visited implies seen[v].weight
                >= 1 && has_parent(m_seen, v) by {
                assert(nodes[v].node_type == Type::Visited);
                lemma_parent_carries_over(m, nodes, seen, v, n);
            }
            assert forall|qi: int| 0 <= qi < queue.len() implies queue_entry_ok(
                m_seen,
                #[trigger] queue[qi],
            ) by {
                let i = queue[qi];
                if seen[i].node_type != Type::Start {
                    lemma_parent_carries_over(m, nodes, seen, i, n);
                }
            }

            if seen[n].node_type == Type::Wall {
                lemma_expand_preserves(m, seen, queue, cur, k + 1);
            } else {
                let relaxed = seen.update(
                    n,
                    Node { weight: (seen[cur].weight + 1) as u32, ..seen[n] },
                );
                let m_relaxed = GraphModel { nodes: relaxed, ..m };
                lemma_count_visited_same(seen, n, relaxed[n]);
                // The expanding cell's weight is bounded by the visited
                // count, itself short of the board size, so the relaxed
                // weight does not wrap.
                assert(seen[cur].weight + 1 <= count_visited(seen));
                assert(count_visited(seen) <= seen.len()) by {
                    lemma_count_visited_le_len(seen);
                }
                assert(relaxed[n].weight == seen[cur].weight + 1);
                assert forall|v: int| 0 <= v < relaxed.len() implies (#[trigger] relaxed[v]).weight
                    <= count_visited(relaxed) by {
                    if v != n {
                        assert(relaxed[v].weight == seen[v].weight);
                    }
                }
                assert(flag_inv(m_relaxed));
                assert forall|v: int|
                    0 <= v < relaxed.len() && (#[trigger] relaxed[v]).node_type == Type::Visited implies relaxed[v].weight
                    >= 1 && has_parent(m_relaxed, v) by {
                    assert(seen[v].node_type == Type::Visited);
                    assert(v != n);
                    lemma_parent_carries_over(m, seen, relaxed, v, n);
                }
                assert forall|qi: int| 0 <= qi < queue.len() implies queue_entry_ok(
                    m_relaxed,
                    #[trigger] queue[qi],
                ) by {
                    let i = queue[qi];
                    if relaxed[i].node_type != Type::Start {
                        assert(i != n);
                        lemma_parent_carries_over(m, seen, relaxed, i, n);
                    }
                }
                // The enqueued neighbor's way back is the expanding cell
                // itself, one of its own neighbors by symmetry.
                lemma_neighbor_symmetric(m.width as int, m.height as int, cur, k as int);
                assert(queue_entry_ok(m_relaxed, n)) by {
                    if relaxed[n].node_type != Type::Start {
                        let k2 = choose|k2: int|
                            0 <= k2 < 8 && #[trigger] neighbors_seq(
                                m.width as int,
                                m.height as int,
                                n / m.width as int,
                                n % m.width as int,
                            )[k2] == cur;
                        assert(cell_neighbors(m_relaxed, n) =~= neighbors_seq(
                            m.width as int,
                            m.height as int,
                            n / m.width as int,
                            n % m.width as int,
                        ));
                        assert(cell_neighbors(m_relaxed, n)[k2] == cur);
                        assert(relaxed[cur] == nodes[cur]);
                        assert(relaxed[n].weight == seen[cur].weight + 1);
                        assert(seen[cur] == nodes[cur]);
                        assert(has_parent(m_relaxed, n));
                    }
                }
                // A duplicate of the new entry could only be an older entry
                // naming the same cell; a relaxed non-Start entry was
                // already flagged while this one was not, so only a Start
                // seed can repeat.
                assert forall|a: int, b: int|
                    0 <= a < b < queue.push(n).len() && #[trigger] queue.push(n)[a]
                        == #[trigger] queue.push(n)[b] implies 0 <= queue.push(n)[a]
                    < relaxed.len() && relaxed[queue.push(n)[a]].node_type == Type::Start by {
                    if b == queue.len() {
                        let e = queue[a];
                        assert(queue_entry_ok(GraphModel { nodes, ..m }, e));
                        if nodes[e].node_type != Type::Start {
                            assert(nodes[e].is_visited);
                            assert(!nodes[n].is_visited);
                        }
                    }
                }
                lemma_expand_preserves(m, relaxed, queue.push(n), cur, k + 1);
            }
        }
    }
}

/// A cell's way back survives any update that retypes or reweighs no cell
/// typed Start or Visited, and leaves the cell's own weight alone.
proof fn lemma_parent_carries_over(
    m: GraphModel,
    before: Seq<Node>,
    after: Seq<Node>,
    v: int,
    changed: int,
)
    requires
        before.len() == after.len(),
        0 <= changed < before.len(),
        0 <= v < before.len(),
        v != changed,
        after == before.update(changed, after[changed]),
        before[changed].node_type != Type::Visited,
        after[changed].node_type == before[changed].node_type,
        has_parent(GraphModel { nodes: before, ..m }, v),
    ensures
        has_parent(GraphModel { nodes: after, ..m }, v),
{
    let m_before = GraphModel { nodes: before, ..m };
    let m_after = GraphModel { nodes: after, ..m };
    let pk = choose|k: int|
        0 <= k < 8 && {
            let u = #[trigger] cell_neighbors(m_before, v)[k];
            &&& 0 <= u < m_before.nodes.len()
            &&& (m_before.nodes[u].node_type == Type::Start || (m_before.nodes[u].node_type
                == Type::Visited && m_before.nodes[u].weight == m_before.nodes[v].weight - 1))
        };
    let u = cell_neighbors(m_before, v)[pk];
    assert(cell_neighbors(m_after, v) =~= cell_neighbors(m_before, v));
    // A Visited way back is untouched; a Start way back may have been
    // flagged or reweighed, but it counts by its type alone, which stays.
    if u == changed {
        assert(m_before.nodes[u].node_type == Type::Start);
        assert(m_after.nodes[u].node_type == Type::Start);
    } else {
        assert(m_after.nodes[u] == m_before.nodes[u]);
    }
    assert(m_after.nodes[v].weight == m_before.nodes[v].weight);
}

/// The law of the forward phase. From any state that keeps `forward_inv`,
/// one tick is a no-op on an empty frontier; dequeuing the End hands the
/// walk a state that keeps `walk_inv` — so the whole backtracking walk, by
/// [`lemma_backtrack_walk_descends`], types a strictly descending path and
/// ends beside the Start; and any other tick keeps `forward_inv`.
pub proof fn lemma_forward_step_preserves(m: GraphModel)
    requires
        forward_inv(m),
    ensures
        ({
            let m2 = bfs_step_spec(m);
            &&& m.queue.len() == 0 ==> m2 == m
            &&& (m.queue.len() > 0 && m.nodes[m.queue[0]].node_type == Type::End) ==> walk_inv(
                m2,
            ) && m2.queue =~= seq![m.queue[0]]
            &&& (m.queue.len() > 0 && m.nodes[m.queue[0]].node_type != Type::End)
                ==> forward_inv(m2)
        }),
{
    if m.queue.len() == 0 {
    } else {
        let cur = m.queue[0];
        let rest = m.queue.drop_first();
        assert(queue_entry_ok(m, cur));
        if m.nodes[cur].node_type == Type::End {
            let m2 = bfs_step_spec(m);
            assert(m2.queue =~= seq![cur]);
            assert(m2.nodes == m.nodes);
            assert forall|v: int|
                0 <= v < m2.nodes.len() && (#[trigger] m2.nodes[v]).node_type == Type::Visited
                    && m2.nodes[v].weight < m2.nodes[cur].weight implies m2.nodes[v].weight >= 1
                && has_parent(m2, v) by {
                assert(m.nodes[v].node_type == Type::Visited);
            }
            assert(walk_inv(m2));
        } else {
            let marked = if m.nodes[cur].node_type == Type::Available {
                m.nodes.update(cur, Node { node_type: Type::Visited, ..m.nodes[cur] })
            } else {
                m.nodes
            };
            let m_marked = GraphModel { nodes: marked, ..m };
            assert(marked[cur].node_type == Type::Visited || marked[cur].node_type
                == Type::Start) by {
                if m.nodes[cur].node_type == Type::Available {
                } else {
                    assert(m.nodes[cur].node_type == Type::Start);
                }
            }
            // Re-typing the dequeued cell Visited keeps every invariant: the
            // cell was flagged and relaxed, and it was nobody's way back.
            if m.nodes[cur].node_type == Type::Available {
                lemma_count_visited_same(m.nodes, cur, marked[cur]);
            }
            assert forall|v: int| 0 <= v < marked.len() implies (#[trigger] marked[v]).weight
                <= count_visited(marked) by {
                assert(marked[v].weight == m.nodes[v].weight);
            }
            assert(flag_inv(m_marked));
            assert forall|v: int|
                0 <= v < marked.len() && (#[trigger] marked[v]).node_type == Type::Visited implies marked[v].weight
                >= 1 && has_parent(m_marked, v) by {
                if v == cur {
                    lemma_parent_retype_keeps(m, cur, v);
                } else {
                    assert(m.nodes[v].node_type == Type::Visited);
                    lemma_parent_retype_keeps(m, cur, v);
                }
            }
            assert forall|qi: int| 0 <= qi < rest.len() implies queue_entry_ok(
                m_marked,
                #[trigger] rest[qi],
            ) by {
                let i = rest[qi];
                assert(i == m.queue[qi + 1]);
                assert(queue_entry_ok(m, i));
                if marked[i].node_type != Type::Start {
                    // A second occurrence of the dequeued cell would make it
                    // a Start seed, and Start cells are never re-typed.
                    assert(i != cur);
                    lemma_parent_retype_keeps(m, cur, i);
                }
            }
            assert forall|a: int, b: int|
                0 <= a < b < rest.len() && #[trigger] rest[a] == #[trigger] rest[b] implies 0
                <= rest[a] < marked.len() && marked[rest[a]].node_type == Type::Start by {
                assert(rest[a] == m.queue[a + 1] && rest[b] == m.queue[b + 1]);
            }
            lemma_expand_preserves(m, marked, rest, cur, 0);
            let m2 = bfs_step_spec(m);
            assert(m2.nodes == expand(marked, rest, cur, cell_neighbors(m, cur), 0).0);
            assert(forward_inv(m2));
        }
    }
}

/// A cell's way back survives the dequeued cell turning from Available to
/// Visited: an Available cell was nobody's way back.
proof fn lemma_parent_retype_keeps(m: GraphModel, cur: int, v: int)
    requires
        0 <= cur < m.nodes.len(),
        0 <= v < m.nodes.len(),
        has_parent(m, v),
    ensures
        ({
            let marked = if m.nodes[cur].node_type == Type::Available {
                m.nodes.update(cur, Node { node_type: Type::Visited, ..m.nodes[cur] })
            } else {
                m.nodes
            };
            has_parent(GraphModel { nodes: marked, ..m }, v)
        }),
{
    let marked = if m.nodes[cur].node_type == Type::Available {
        m.nodes.update(cur, Node { node_type: Type::Visited, ..m.nodes[cur] })
    } else {
        m.nodes
    };
    let m_marked = GraphModel { nodes: marked, ..m };
    let pk = choose|k: int|
        0 <= k < 8 && {
            let u = #[trigger] cell_neighbors(m, v)[k];
            &&& 0 <= u < m.nodes.len()
            &&& (m.nodes[u].node_type == Type::Start || (m.nodes[u].node_type == Type::Visited
                && m.nodes[u].weight == m.nodes[v].weight - 1))
        };
    let u = cell_neighbors(m, v)[pk];
    assert(cell_neighbors(m_marked, v) =~= cell_neighbors(m, v));
    assert(u != cur || m.nodes[cur].node_type != Type::Available);
    assert(m_marked.nodes[u] == m.nodes[u]);
    assert(m_marked.nodes[v].weight == m.nodes[v].weight);
}

/// The backtracking walk descends: a tick that dequeues `cur`, sees no Start
/// neighbor, and has some Visited neighbor strictly lighter than `cur`,
/// re-types to Path a cell that was Visited, carries the least weight among
/// the Visited neighbors, and is strictly lighter than `cur` — so the weights
/// along the path strictly decrease.
pub proof fn lemma_backtrack_step_descends(m: GraphModel)
    requires
        m.is_backtracking,
        m.queue.len() > 0,
        1 <= m.width,
        1 <= m.height,
        m.nodes.len() == m.width * m.height,
        0 <= m.queue[0] < m.nodes.len(),
        ({
            let ns = neighbors_seq(
                m.width as int,
                m.height as int,
                m.queue[0] / m.width as int,
                m.queue[0] % m.width as int,
            );
            &&& !has_start_neighbor(m.nodes, ns, 0)
            &&& exists|i: int|
                0 <= i < 8 && m.nodes[#[trigger] ns[i]].node_type == Type::Visited
                    && m.nodes[ns[i]].weight < m.nodes[m.queue[0]].weight
        }),
    ensures
        ({
            let m2 = back_step_spec(m);
            let ns = neighbors_seq(
                m.width as int,
                m.height as int,
                m.queue[0] / m.width as int,
                m.queue[0] % m.width as int,
            );
            &&& m2.queue.len() == m.queue.len()
            &&& ({
                let j = m2.queue[m2.queue.len() - 1];
                &&& 0 <= j < m.nodes.len()
                &&& m.nodes[j].node_type == Type::Visited
                &&& m2.nodes == m.nodes.update(j, Node { node_type: Type::Path, ..m.nodes[j] })
                &&& m.nodes[j].weight < m.nodes[m.queue[0]].weight
                &&& forall|i: int|
                    0 <= i < 8 && m.nodes[#[trigger] ns[i]].node_type == Type::Visited
                        ==> m.nodes[j].weight <= m.nodes[ns[i]].weight
            })
        }),
{
    let cur = m.queue[0];
    let w = m.width as int;
    let h = m.height as int;
    let row = cur / w;
    let col = cur % w;
    let ns = neighbors_seq(w, h, row, col);
    lemma_multiply_divide_lt(cur, w, h);
    lemma_mod_division_less_than_divisor(cur, w);
    assert(0 <= row) by (nonlinear_arith)
        requires
            0 <= cur,
            1 <= w,
            row == cur / w,
    ;
    assert forall|i: int| 0 <= i < ns.len() implies 0 <= #[trigger] ns[i] < m.nodes.len() by {
        lemma_index_in_range(w, h, neighbor_row(row, h, i), neighbor_col(col, w, i));
    }
    lemma_pick_min_properties(m.nodes, ns, 0, None);
    let r = pick_min(m.nodes, ns, 0, None);
    assert(r is Some);
    let j = r->0;
    assert(back_step_spec(m).queue =~= m.queue.drop_first().push(j));
}

/// A board on which nothing was visited has a visited count of zero.
proof fn lemma_all_unvisited_count(nodes: Seq<Node>)
    requires
        forall|i: int| 0 <= i < nodes.len() ==> !(#[trigger] nodes[i].is_visited),
    ensures
        count_visited(nodes) == 0,
    decreases nodes.len(),
{
    if nodes.len() > 0 {
        lemma_all_unvisited_count(nodes.drop_last());
    }
}

} // verus!
