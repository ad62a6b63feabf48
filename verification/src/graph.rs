//! The graph that the walls of a map draw between its vertices, and the
//! walk that looks for faces in it.

use crate::map::Face;
use std::collections::{HashMap, HashSet};
use vstd::prelude::*;
use vstd::std_specs::iter::IteratorSpec;

verus! {

broadcast use vstd::std_specs::hash::group_hash_axioms;

/// The two vertices a wall joins.
#[derive(Debug, Clone, Copy, PartialEq, Eq, Structural)]
pub struct WallEnds {
    pub vertex1_index: usize,
    pub vertex2_index: usize,
}

/// The vertices of a map and, for each vertex a wall touches, the list of
/// the vertices its walls lead to.
#[derive(Debug)]
pub struct Graph {
    pub vertex_count: usize,
    pub edges: HashMap<usize, Vec<usize>>,
}

impl Graph {
    /// The adjacency lists as sequences.
    pub open spec fn adjacency(&self) -> Map<usize, Seq<usize>> {
        Map::new(|k: usize| self.edges@.contains_key(k), |k: usize| self.edges@[k]@)
    }

    /// Every vertex of the map has an adjacency list, and so has every
    /// vertex that a list names: a walk can start anywhere and follow every
    /// wall.
    pub open spec fn walkable(&self) -> bool {
        &&& closed(self.adjacency())
        &&& forall|u: usize| u < self.vertex_count ==> self.adjacency().contains_key(u)
    }

    /// Whether a walk can start at every vertex and follow every wall.
    pub fn is_walkable(&self) -> (r: bool)
        ensures
            r == self.walkable(),
    {
        let mut u: usize = 0;
        while u < self.vertex_count
            invariant
                u <= self.vertex_count,
                forall|k: usize| k < u ==> self.adjacency().contains_key(k),
            decreases self.vertex_count - u,
        {
            if !self.edges.contains_key(&u) {
                assert(!self.adjacency().contains_key(u));
                return false;
            }
            u += 1;
        }
        let ghost adj = self.adjacency();
        for entry in it: self.edges.iter()
            invariant
                adj == self.adjacency(),
                it.seq() == vstd::std_specs::hash::spec_hash_map_iter(&self.edges).remaining(),
                forall|k: usize| k < self.vertex_count ==> adj.contains_key(k),
                forall|m: int, i: int|
                    0 <= m < it.index() && 0 <= i < it.seq()[m].1@.len() ==> adj.contains_key(
                        #[trigger] it.seq()[m].1@[i],
                    ),
        {
            let list: &Vec<usize> = entry.1;
            let ghost k: usize = *entry.0;
            let mut i: usize = 0;
            while i < list.len()
                invariant
                    i <= list@.len(),
                    adj == self.adjacency(),
                    self.edges@.contains_key(k) && self.edges@[k] == *list,
                    forall|j: int| 0 <= j < i ==> adj.contains_key(#[trigger] list@[j]),
                decreases list@.len() - i,
            {
                if !self.edges.contains_key(&list[i]) {
                    assert(adj.contains_key(k) && adj[k][i as int] == list@[i as int]);
                    return false;
                }
                i += 1;
            }
        }
        proof {
            let v = vstd::std_specs::hash::spec_hash_map_iter(&self.edges).remaining();
            assert forall|k: usize, i: int|
                adj.contains_key(k) && 0 <= i < adj[k].len() implies adj.contains_key(
                #[trigger] adj[k][i],
            ) by {
                let m = choose|m: int| 0 <= m < v.len() && v[m] == (&k, &self.edges@[k]);
                assert(v[m].1@[i] == adj[k][i]);
            }
        }
        true
    }
}

/// The vertices the walls lead to from vertex `k`, in the order of the
/// walls. A wall from a vertex to itself counts twice.
pub open spec fn incident(walls: Seq<WallEnds>, k: usize) -> Seq<usize>
    decreases walls.len(),
{
    if walls.len() == 0 {
        Seq::empty()
    } else {
        let wall = walls.last();
        let before = incident(walls.drop_last(), k);
        let forth = if wall.vertex1_index == k {
            before.push(wall.vertex2_index)
        } else {
            before
        };
        if wall.vertex2_index == k {
            forth.push(wall.vertex1_index)
        } else {
            forth
        }
    }
}

/// The adjacency lists that a list of walls gives: one for each vertex a
/// wall touches, holding what [`incident`] says.
pub open spec fn adjacency_of(walls: Seq<WallEnds>) -> Map<usize, Seq<usize>> {
    Map::new(|k: usize| incident(walls, k).len() > 0, |k: usize| incident(walls, k))
}

/// Appends `to` to the adjacency list of `from`, which is created where
/// there was none.
fn push_neighbor(edges: &mut HashMap<usize, Vec<usize>>, from: usize, to: usize)
    ensures
        final(edges)@.dom() == old(edges)@.dom().insert(from),
        final(edges)@[from]@ == if old(edges)@.contains_key(from) {
            old(edges)@[from]@.push(to)
        } else {
            seq![to]
        },
        forall|k: usize| k != from && old(edges)@.contains_key(k) ==> final(edges)@[k] == old(
            edges,
        )@[k],
{
    let mut list: Vec<usize> = match edges.remove(&from) {
        Some(list) => list,
        None => Vec::new(),
    };
    list.push(to);
    edges.insert(from, list);
}

/// The graph of a map with `vertex_count` vertices and the given walls.
pub fn build_graph(vertex_count: usize, walls: &Vec<WallEnds>) -> (graph: Graph)
    ensures
        graph.vertex_count == vertex_count,
        graph.adjacency() == adjacency_of(walls@),
        closed(graph.adjacency()),
{
    let mut edges: HashMap<usize, Vec<usize>> = HashMap::new();
    let mut i: usize = 0;
    while i < walls.len()
        invariant
            i <= walls@.len(),
            forall|k: usize| edges@.contains_key(k) <==> incident(walls@.take(i as int), k).len() > 0,
            forall|k: usize|
                edges@.contains_key(k) ==> (#[trigger] edges@[k])@ == incident(
                    walls@.take(i as int),
                    k,
                ),
        decreases walls@.len() - i,
    {
        let wall = walls[i];
        assert(walls@.take(i + 1).drop_last() =~= walls@.take(i as int));
        push_neighbor(&mut edges, wall.vertex1_index, wall.vertex2_index);
        push_neighbor(&mut edges, wall.vertex2_index, wall.vertex1_index);
        i += 1;
    }
    assert(walls@.take(walls@.len() as int) =~= walls@);
    let graph = Graph { vertex_count, edges };
    proof {
        lemma_walls_give_closed_graph(walls@);
    }
    graph
}

/// Every vertex that an adjacency list names has a list of its own.
pub open spec fn closed(adj: Map<usize, Seq<usize>>) -> bool {
    forall|k: usize, i: int|
        adj.contains_key(k) && 0 <= i < adj[k].len() ==> adj.contains_key(#[trigger] adj[k][i])
}

/// Each vertex that a wall leads to has a wall that leads back.
proof fn lemma_incident_members(walls: Seq<WallEnds>, k: usize, i: int)
    requires
        0 <= i < incident(walls, k).len(),
    ensures
        incident(walls, incident(walls, k)[i]).len() > 0,
    decreases walls.len(),
{
    if i < incident(walls.drop_last(), k).len() {
        lemma_incident_members(walls.drop_last(), k, i);
    }
}

/// The adjacency lists that walls give are closed: a list names only
/// vertices that have a list of their own.
pub proof fn lemma_walls_give_closed_graph(walls: Seq<WallEnds>)
    ensures
        closed(adjacency_of(walls)),
{
    let adj = adjacency_of(walls);
    assert forall|k: usize, i: int| adj.contains_key(k) && 0 <= i < adj[k].len() implies adj.contains_key(
        #[trigger] adj[k][i],
    ) by {
        lemma_incident_members(walls, k, i);
    }
}

/// A vertex whose adjacency list is being walked, and how far.
pub struct Frame {
    pub vertex: usize,
    pub next: nat,
}

/// A depth-first walk in progress.
pub struct Search {
    /// The vertices under way, the start of the walk first.
    pub stack: Seq<Frame>,
    /// Every vertex the walk has entered, in the order of entry.
    pub path: Seq<usize>,
    /// The vertices entered by this walk or an earlier one.
    pub visited: Set<usize>,
    /// The faces found.
    pub faces: Seq<Seq<usize>>,
}

impl Search {
    /// The walk enters the vertex `v`.
    pub open spec fn enter(self, v: usize) -> Search {
        Search {
            stack: self.stack.push(Frame { vertex: v, next: 0 }),
            path: self.path.push(v),
            visited: self.visited.insert(v),
            faces: self.faces,
        }
    }

    /// The vertex on top of the stack has one neighbour less to look at.
    pub open spec fn advance(self) -> Search {
        let top = self.stack.last();
        Search {
            stack: self.stack.drop_last().push(Frame { vertex: top.vertex, next: top.next + 1 }),
            ..self
        }
    }

    /// One move of the walk. The vertex on top of the stack is left when
    /// its list is exhausted. Otherwise its next neighbour is looked at: a
    /// new vertex is entered; the vertex the path began with closes a face,
    /// which is the whole path, if that holds more than two vertices.
    pub open spec fn step(self, adj: Map<usize, Seq<usize>>) -> Search {
        let top = self.stack.last();
        let list = adj[top.vertex];
        if top.next >= list.len() {
            Search { stack: self.stack.drop_last(), ..self }
        } else {
            let v = list[top.next as int];
            if !self.visited.contains(v) {
                self.advance().enter(v)
            } else if v == self.path[0] && self.path.len() > 2 {
                Search { faces: self.faces.push(self.path), ..self.advance() }
            } else {
                self.advance()
            }
        }
    }

    /// The vertices under way have adjacency lists, and none is further
    /// along its list than the list is long.
    pub open spec fn sound(self, adj: Map<usize, Seq<usize>>) -> bool {
        &&& adj.dom().finite()
        &&& closed(adj)
        &&& forall|i: int|
            0 <= i < self.stack.len() ==> adj.contains_key((#[trigger] self.stack[i]).vertex)
                && self.stack[i].next <= adj[self.stack[i].vertex].len()
    }
}

/// Number of moves that the vertices under way still take by themselves.
pub open spec fn pending(adj: Map<usize, Seq<usize>>, stack: Seq<Frame>) -> nat
    decreases stack.len(),
{
    if stack.len() == 0 {
        0
    } else {
        pending(adj, stack.drop_last()) + (adj[stack.last().vertex].len()
            - stack.last().next) as nat + 1
    }
}

/// The vertices with an adjacency list that no walk has entered.
pub open spec fn unvisited(adj: Map<usize, Seq<usize>>, s: Search) -> Set<usize> {
    adj.dom().difference(s.visited)
}

/// A move keeps a walk sound, and brings it nearer to its end: it enters
/// a vertex that was not visited, or uses up one of the pending moves.
pub proof fn lemma_step_progress(adj: Map<usize, Seq<usize>>, s: Search)
    requires
        s.sound(adj),
        s.stack.len() > 0,
    ensures
        s.step(adj).sound(adj),
        unvisited(adj, s.step(adj)).finite(),
        unvisited(adj, s).finite(),
        unvisited(adj, s.step(adj)).len() < unvisited(adj, s).len() || (unvisited(
            adj,
            s.step(adj),
        ).len() == unvisited(adj, s).len() && pending(adj, s.step(adj).stack) < pending(
            adj,
            s.stack,
        )),
{
    let top = s.stack.last();
    let list = adj[top.vertex];
    if top.next < list.len() {
        assert(s.advance().stack.drop_last() =~= s.stack.drop_last());
        let v = list[top.next as int];
        if !s.visited.contains(v) {
            assert(unvisited(adj, s.step(adj)) =~= unvisited(adj, s).remove(v));
        }
    }
}

/// The walk `s`, carried on until no vertex is under way.
pub open spec fn run(adj: Map<usize, Seq<usize>>, s: Search) -> Search
    decreases unvisited(adj, s).len(), pending(adj, s.stack),
    when s.sound(adj)
    via run_decreases
{
    if s.stack.len() == 0 {
        s
    } else {
        run(adj, s.step(adj))
    }
}

#[via_fn]
proof fn run_decreases(adj: Map<usize, Seq<usize>>, s: Search) {
    if s.stack.len() > 0 {
        lemma_step_progress(adj, s);
    }
}

/// The walk that starts at `u`, given the path, the visited vertices and
/// the faces that earlier walks left.
pub open spec fn walk_from(
    adj: Map<usize, Seq<usize>>,
    u: usize,
    path: Seq<usize>,
    visited: Set<usize>,
    faces: Seq<Seq<usize>>,
) -> Search {
    run(adj, Search { stack: Seq::empty(), path, visited, faces }.enter(u))
}

/// A list of faces as sequences.
pub open spec fn faces_view(faces: Seq<Vec<usize>>) -> Seq<Seq<usize>> {
    faces.map_values(|f: Vec<usize>| f@)
}

/// Walks the graph depth first from `u`.
///
/// Every vertex that is entered is appended to `current_face` and marked
/// in `visited`. Whenever the walk meets the vertex that `current_face`
/// begins with, and `current_face` holds more than two vertices, a copy of
/// it is appended to `face_vec`.
pub fn dfs(
    graph: &Graph,
    u: usize,
    current_face: &mut Vec<usize>,
    visited: &mut HashSet<usize>,
    face_vec: &mut Vec<Vec<usize>>,
)
    requires
        closed(graph.adjacency()),
        graph.adjacency().contains_key(u),
    ensures
        final(current_face)@ == walk_from(
            graph.adjacency(),
            u,
            old(current_face)@,
            old(visited)@,
            faces_view(old(face_vec)@),
        ).path,
        final(visited)@ == walk_from(
            graph.adjacency(),
            u,
            old(current_face)@,
            old(visited)@,
            faces_view(old(face_vec)@),
        ).visited,
        faces_view(final(face_vec)@) == walk_from(
            graph.adjacency(),
            u,
            old(current_face)@,
            old(visited)@,
            faces_view(old(face_vec)@),
        ).faces,
{
    let ghost adj = graph.adjacency();
    let ghost start = Search {
        stack: Seq::empty(),
        path: current_face@,
        visited: visited@,
        faces: faces_view(face_vec@),
    }.enter(u);
    let ghost mut s = start;
    visited.insert(u);
    current_face.push(u);
    let mut stack: Vec<(usize, usize)> = Vec::new();
    stack.push((u, 0));
    proof {
        assert(adj.dom() =~= graph.edges@.dom());
        vstd::std_specs::hash::axiom_hashmap_view_finite_dom(graph.edges);
    }
    while stack.len() > 0
        invariant
            adj == graph.adjacency(),
            s.sound(adj),
            stack@.len() == s.stack.len(),
            forall|i: int|
                0 <= i < stack@.len() ==> (#[trigger] stack@[i]).0 == s.stack[i].vertex
                    && stack@[i].1 == s.stack[i].next,
            current_face@ == s.path,
            s.path.len() > 0,
            visited@ == s.visited,
            faces_view(face_vec@) == s.faces,
            run(adj, s) == run(adj, start),
        decreases unvisited(adj, s).len(), pending(adj, s.stack),
    {
        proof {
            lemma_step_progress(adj, s);
        }
        let top: usize = stack.len() - 1;
        let (x, i) = stack[top];
        let list: &Vec<usize> = graph.edges.get(&x).unwrap();
        if i >= list.len() {
            stack.pop();
        } else {
            let v: usize = list[i];
            stack[top] = (x, i + 1);
            if !visited.contains(&v) {
                visited.insert(v);
                current_face.push(v);
                stack.push((v, 0));
            } else if v == current_face[0] && current_face.len() > 2 {
                face_vec.push(current_face.clone());
            }
        }
        proof {
            s = s.step(adj);
        }
    }
}

/// What the walks from the first vertices of a map have visited and found.
pub struct Sweep {
    pub visited: Set<usize>,
    pub faces: Seq<Seq<usize>>,
}

/// The walks from the vertices below `n`, in rising order: each vertex
/// that no earlier walk has visited starts a walk with a path of its own.
pub open spec fn sweep(adj: Map<usize, Seq<usize>>, n: nat) -> Sweep
    decreases n,
{
    if n == 0 {
        Sweep { visited: Set::empty(), faces: Seq::empty() }
    } else {
        let before = sweep(adj, (n - 1) as nat);
        let u = (n - 1) as usize;
        if before.visited.contains(u) {
            before
        } else {
            let walk = walk_from(adj, u, Seq::empty(), before.visited, before.faces);
            Sweep { visited: walk.visited, faces: walk.faces }
        }
    }
}

/// The faces that depth-first walks from all vertices of the graph find.
pub fn find_faces(graph: &Graph) -> (faces: Vec<Vec<usize>>)
    requires
        graph.walkable(),
    ensures
        faces_view(faces@) == sweep(graph.adjacency(), graph.vertex_count as nat).faces,
{
    let mut visited: HashSet<usize> = HashSet::new();
    let mut faces: Vec<Vec<usize>> = Vec::new();
    let mut u: usize = 0;
    while u < graph.vertex_count
        invariant
            graph.walkable(),
            u <= graph.vertex_count,
            visited@ == sweep(graph.adjacency(), u as nat).visited,
            faces_view(faces@) == sweep(graph.adjacency(), u as nat).faces,
        decreases graph.vertex_count - u,
    {
        if !visited.contains(&u) {
            let mut current_face: Vec<usize> = Vec::new();
            dfs(graph, u, &mut current_face, &mut visited, &mut faces);
        }
        u += 1;
    }
    faces
}

/// The loop that is left of a face when the vertex at `i` is taken out:
/// the vertices behind it, then those in front of it.
pub open spec fn loop_without(face: Seq<usize>, i: int) -> Seq<usize> {
    face.subrange(i + 1, face.len() as int) + face.subrange(0, i)
}

/// The loop that is left of `face` when the vertex at `i` is taken out.
pub fn inner_loop_candidate(face: &Vec<usize>, i: usize) -> (candidate: Vec<usize>)
    requires
        i < face@.len(),
    ensures
        candidate@ == loop_without(face@, i as int),
{
    let n: usize = face.len();
    let mut candidate: Vec<usize> = Vec::new();
    let mut j: usize = if i + 1 == n {
        0
    } else {
        i + 1
    };
    let ghost whole = loop_without(face@, i as int);
    while j != i
        invariant
            n == face@.len(),
            i < n,
            j < n,
            whole == loop_without(face@, i as int),
            i < j ==> candidate@.len() == j - i - 1,
            j < i ==> candidate@.len() == n - i - 1 + j,
            j == i ==> candidate@.len() == n - 1,
            candidate@ == whole.take(candidate@.len() as int),
        decreases n - 1 - candidate@.len(),
    {
        candidate.push(face[j]);
        j = if j + 1 == n {
            0
        } else {
            j + 1
        };
    }
    candidate
}

/// The verdict on the candidate that leaves out the vertex at `k`: `true`
/// where the table holds it and says so.
pub open spec fn verdict(row: Seq<bool>, k: int) -> bool {
    0 <= k < row.len() && row[k]
}

/// The inner loops of a face: of the candidates that leave out one of its
/// first `k` vertices, those of more than two vertices that the verdicts
/// accept, in order.
pub open spec fn inner_loops_of(face: Seq<usize>, row: Seq<bool>, k: nat) -> Seq<Seq<usize>>
    decreases k,
{
    if k == 0 {
        Seq::empty()
    } else {
        let before = inner_loops_of(face, row, (k - 1) as nat);
        if face.len() > 3 && verdict(row, k - 1) {
            before.push(loop_without(face, k - 1))
        } else {
            before
        }
    }
}

/// The faces with their inner loops. `is_inner[i][k]` says whether the
/// candidate that leaves the vertex at `k` out of face `i` lies inside that
/// face; a verdict that the table lacks counts as no.
pub fn identify_faces(found: &Vec<Vec<usize>>, is_inner: &Vec<Vec<bool>>) -> (faces: Vec<Face>)
    ensures
        faces@.len() == found@.len(),
        forall|i: int|
            0 <= i < found@.len() ==> (#[trigger] faces@[i]).outer_loop@ == found@[i]@
                && faces_view(faces@[i].inner_loops@) == inner_loops_of(
                found@[i]@,
                if i < is_inner@.len() {
                    is_inner@[i]@
                } else {
                    Seq::empty()
                },
                found@[i]@.len(),
            ),
{
    let mut faces: Vec<Face> = Vec::new();
    let mut i: usize = 0;
    while i < found.len()
        invariant
            i <= found@.len(),
            faces@.len() == i,
            forall|m: int|
                0 <= m < i ==> (#[trigger] faces@[m]).outer_loop@ == found@[m]@ && faces_view(
                    faces@[m].inner_loops@,
                ) == inner_loops_of(
                    found@[m]@,
                    if m < is_inner@.len() {
                        is_inner@[m]@
                    } else {
                        Seq::empty()
                    },
                    found@[m]@.len(),
                ),
        decreases found@.len() - i,
    {
        let face: &Vec<usize> = &found[i];
        let ghost row: Seq<bool> = if i < is_inner@.len() {
            is_inner@[i as int]@
        } else {
            Seq::empty()
        };
        let mut inner_loops: Vec<Vec<usize>> = Vec::new();
        let mut k: usize = 0;
        while k < face.len()
            invariant
                i < found@.len(),
                face@ == found@[i as int]@,
                row == if i < is_inner@.len() {
                    is_inner@[i as int]@
                } else {
                    Seq::<bool>::empty()
                },
                k <= face@.len(),
                faces_view(inner_loops@) == inner_loops_of(face@, row, k as nat),
            decreases face@.len() - k,
        {
            let yes: bool = i < is_inner.len() && k < is_inner[i].len() && is_inner[i][k];
            if face.len() > 3 && yes {
                inner_loops.push(inner_loop_candidate(face, k));
            }
            k += 1;
        }
        faces.push(Face { outer_loop: face.clone(), inner_loops });
        i += 1;
    }
    faces
}

} // verus!
