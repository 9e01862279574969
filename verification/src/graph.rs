//! The link graph, as a force layout wants it: one node per indexed file, in
//! the order the index holds them, and one edge per distinct ordered pair of
//! files that an observed, resolved link joins.
//!
//! A link to a note that does not exist is not an edge: drawing a phantom node
//! for it would invent a relationship the vault does not contain. Three links
//! from A to B are one edge, and a note linking to itself draws no loop.
use vstd::prelude::*;
use crate::index::{Graph, GraphEdge, GraphNode, NoteRef};
use crate::text::{own, str_eq};

verus! {

/// Where a path sits among the nodes: its last position, as a lookup keyed by
/// path finds it.
pub open spec fn position(paths: Seq<Seq<char>>, p: Seq<char>) -> Option<int>
    decreases paths.len(),
{
    if paths.len() == 0 {
        None
    } else if paths.last() == p {
        Some(paths.len() - 1)
    } else {
        position(paths.drop_last(), p)
    }
}

pub open spec fn note_paths(notes: Seq<NoteRef>) -> Seq<Seq<char>> {
    notes.map_values(|n: NoteRef| n.path@)
}

pub open spec fn pair_views(pairs: Seq<(String, String)>) -> Seq<(Seq<char>, Seq<char>)> {
    pairs.map_values(|p: (String, String)| (p.0@, p.1@))
}

/// The edge a resolved link would add, if both of its ends are nodes.
pub open spec fn edge_for(paths: Seq<Seq<char>>, link: (Seq<char>, Seq<char>)) -> Option<(int, int)> {
    match (position(paths, link.0), position(paths, link.1)) {
        (Some(s), Some(t)) => Some((s, t)),
        _ => None,
    }
}

/// The edges that a list of resolved links (source path, target path) makes,
/// in the order each first appears.
pub open spec fn edges_of(paths: Seq<Seq<char>>, links: Seq<(Seq<char>, Seq<char>)>) -> Seq<(int, int)>
    decreases links.len(),
{
    if links.len() == 0 {
        seq![]
    } else {
        let prev = edges_of(paths, links.drop_last());
        match edge_for(paths, links.last()) {
            Some(e) => if e.0 == e.1 || prev.contains(e) {
                prev
            } else {
                prev.push(e)
            },
            None => prev,
        }
    }
}

/// A node's degree: how many edges start at it plus how many end at it.
pub open spec fn degree(edges: Seq<(int, int)>, i: int) -> nat
    decreases edges.len(),
{
    if edges.len() == 0 {
        0
    } else {
        degree(edges.drop_last(), i) + (if edges.last().0 == i {
            1nat
        } else {
            0nat
        }) + (if edges.last().1 == i {
            1nat
        } else {
            0nat
        })
    }
}

pub open spec fn edge_views(edges: Seq<GraphEdge>) -> Seq<(int, int)> {
    edges.map_values(|e: GraphEdge| (e.source as int, e.target as int))
}

pub proof fn lemma_position(paths: Seq<Seq<char>>, p: Seq<char>)
    ensures
        position(paths, p) matches Some(k) ==> 0 <= k < paths.len() && paths[k] == p,
        position(paths, p) is None ==> !paths.contains(p),
    decreases paths.len(),
{
    if paths.len() > 0 && paths.last() != p {
        lemma_position(paths.drop_last(), p);
        if paths.contains(p) {
            let k = choose|k: int| 0 <= k < paths.len() && paths[k] == p;
            assert(paths.drop_last()[k] == p);
        }
    }
}

/// Every edge joins two different nodes.
pub open spec fn loop_free(edges: Seq<(int, int)>) -> bool {
    forall|k: int| 0 <= k < edges.len() ==> (#[trigger] edges[k]).0 != edges[k].1
}

pub open spec fn within(edges: Seq<(int, int)>, n: int) -> bool {
    forall|k: int|
        0 <= k < edges.len() ==> 0 <= (#[trigger] edges[k]).0 < n && 0 <= edges[k].1 < n
}

pub open spec fn distinct(edges: Seq<(int, int)>) -> bool {
    forall|k: int, l: int| 0 <= k < l < edges.len() ==> #[trigger] edges[k] != #[trigger] edges[l]
}

pub proof fn lemma_edges_shape(paths: Seq<Seq<char>>, links: Seq<(Seq<char>, Seq<char>)>)
    ensures
        loop_free(edges_of(paths, links)),
        within(edges_of(paths, links), paths.len() as int),
        distinct(edges_of(paths, links)),
        edges_of(paths, links).len() <= links.len(),
    decreases links.len(),
{
    if links.len() > 0 {
        lemma_edges_shape(paths, links.drop_last());
        lemma_position(paths, links.last().0);
        lemma_position(paths, links.last().1);
        let prev = edges_of(paths, links.drop_last());
        if let Some(e) = edge_for(paths, links.last()) {
            if !(e.0 == e.1 || prev.contains(e)) {
                let cur = prev.push(e);
                assert forall|k: int, l: int| 0 <= k < l < cur.len() implies #[trigger] cur[k]
                    != #[trigger] cur[l] by {
                    if l == cur.len() - 1 {
                        assert(prev[k] == cur[k]);
                    }
                }
            }
        }
    }
}

pub proof fn lemma_degree_bound(edges: Seq<(int, int)>, i: int)
    requires
        loop_free(edges),
    ensures
        degree(edges, i) <= edges.len(),
    decreases edges.len(),
{
    if edges.len() > 0 {
        assert(loop_free(edges.drop_last())) by {
            assert forall|k: int| 0 <= k < edges.drop_last().len() implies (
            #[trigger] edges.drop_last()[k]).0 != edges.drop_last()[k].1 by {
                assert(edges.drop_last()[k] == edges[k]);
            }
        }
        lemma_degree_bound(edges.drop_last(), i);
        assert(edges.last() == edges[edges.len() - 1]);
    }
}

/// The last node with this path.
fn position_of(notes: &Vec<NoteRef>, p: &str) -> (r: Option<usize>)
    ensures
        match position(note_paths(notes@), p@) {
            Some(k) => r == Some(k as usize),
            None => r is None,
        },
{
    let ghost paths = note_paths(notes@);
    let mut i: usize = notes.len();
    assert(paths.take(i as int) =~= paths);
    while i > 0
        invariant
            0 <= i <= notes@.len(),
            paths == note_paths(notes@),
            position(paths, p@) == position(paths.take(i as int), p@),
        decreases i,
    {
        assert(paths.take(i as int).last() == notes@[i - 1].path@);
        if str_eq(notes[i - 1].path.as_str(), p) {
            return Some(i - 1);
        }
        assert(paths.take(i as int).drop_last() =~= paths.take(i - 1));
        i = i - 1;
    }
    None
}

/// Whether the edge is already drawn.
fn has_edge(edges: &Vec<GraphEdge>, s: usize, t: usize) -> (r: bool)
    ensures
        r == edge_views(edges@).contains((s as int, t as int)),
{
    let ghost ev = edge_views(edges@);
    let mut i: usize = 0;
    while i < edges.len()
        invariant
            0 <= i <= edges@.len(),
            ev == edge_views(edges@),
            forall|k: int| 0 <= k < i ==> ev[k] != (s as int, t as int),
        decreases edges@.len() - i,
    {
        if edges[i].source == s && edges[i].target == t {
            assert(ev[i as int] == (s as int, t as int));
            return true;
        }
        i = i + 1;
    }
    false
}

/// The graph of the indexed files (`notes`, in index order) and of the
/// resolved links between them (`links`, each a source path and the path it
/// resolves to).
///
/// Node `i` is `notes[i]`, with its degree. Only links whose ends are both
/// nodes become edges; a link from a note to itself, and a link that repeats
/// an edge already drawn, add nothing.
pub fn graph_from(notes: Vec<NoteRef>, links: &Vec<(String, String)>) -> (g: Graph)
    ensures
        g.nodes@.len() == notes@.len(),
        edge_views(g.edges@) == edges_of(note_paths(notes@), pair_views(links@)),
        forall|i: int|
            0 <= i < g.nodes@.len() ==> {
                &&& (#[trigger] g.nodes@[i]).id == i
                &&& g.nodes@[i].path@ == notes@[i].path@
                &&& g.nodes@[i].title@ == notes@[i].title@
                &&& g.nodes@[i].is_canvas == notes@[i].is_canvas
                &&& g.nodes@[i].degree == degree(edge_views(g.edges@), i)
            },
{
    let ghost paths = note_paths(notes@);
    let ghost pv = pair_views(links@);
    let n = notes.len();
    let mut degrees: Vec<usize> = Vec::new();
    while degrees.len() < n
        invariant
            degrees@.len() <= n,
            forall|i: int| 0 <= i < degrees@.len() ==> degrees@[i] == 0,
        decreases n - degrees@.len(),
    {
        degrees.push(0);
    }
    let mut edges: Vec<GraphEdge> = Vec::new();
    let mut j: usize = 0;
    while j < links.len()
        invariant
            0 <= j <= links@.len(),
            n == notes@.len(),
            paths == note_paths(notes@),
            pv == pair_views(links@),
            degrees@.len() == n,
            edge_views(edges@) == edges_of(paths, pv.take(j as int)),
            forall|i: int|
                0 <= i < n ==> #[trigger] degrees@[i] == degree(edge_views(edges@), i),
        decreases links@.len() - j,
    {
        let ghost before = edge_views(edges@);
        proof {
            lemma_edges_shape(paths, pv.take(j as int));
            assert(pv.take(j + 1).drop_last() =~= pv.take(j as int));
            assert(pv.take(j + 1).last() == pv[j as int]);
            lemma_position(paths, pv[j as int].0);
            lemma_position(paths, pv[j as int].1);
        }
        let s = position_of(&notes, links[j].0.as_str());
        let t = position_of(&notes, links[j].1.as_str());
        match (s, t) {
            (Some(s), Some(t)) => {
                if s != t && !has_edge(&edges, s, t) {
                    proof {
                        lemma_degree_bound(before, s as int);
                        lemma_degree_bound(before, t as int);
                    }
                    let ds = degrees[s];
                    degrees.set(s, ds + 1);
                    let dt = degrees[t];
                    degrees.set(t, dt + 1);
                    edges.push(GraphEdge { source: s, target: t });
                    assert(edge_views(edges@) =~= before.push((s as int, t as int)));
                    assert forall|i: int| 0 <= i < n implies #[trigger] degrees@[i] == degree(
                        edge_views(edges@),
                        i,
                    ) by {
                        assert(edge_views(edges@).drop_last() =~= before);
                    }
                }
            },
            _ => {},
        }
        assert(edge_views(edges@) == edges_of(paths, pv.take(j + 1)));
        j = j + 1;
    }
    assert(pv.take(links@.len() as int) =~= pv);
    let mut nodes: Vec<GraphNode> = Vec::new();
    let mut i: usize = 0;
    while i < n
        invariant
            0 <= i <= n,
            n == notes@.len(),
            degrees@.len() == n,
            nodes@.len() == i,
            forall|k: int| 0 <= k < n ==> #[trigger] degrees@[k] == degree(edge_views(edges@), k),
            forall|k: int|
                0 <= k < i ==> {
                    &&& (#[trigger] nodes@[k]).id == k
                    &&& nodes@[k].path@ == notes@[k].path@
                    &&& nodes@[k].title@ == notes@[k].title@
                    &&& nodes@[k].is_canvas == notes@[k].is_canvas
                    &&& nodes@[k].degree == degree(edge_views(edges@), k)
                },
        decreases n - i,
    {
        let node = GraphNode {
            id: i,
            path: own(notes[i].path.as_str()),
            title: own(notes[i].title.as_str()),
            is_canvas: notes[i].is_canvas,
            degree: degrees[i],
        };
        nodes.push(node);
        i = i + 1;
    }
    Graph { nodes, edges }
}

/// Whether an edge a link would add, if any, is among `edges`; a link from a
/// node to itself adds none.
pub open spec fn drawn(edges: Seq<(int, int)>, e: Option<(int, int)>) -> bool {
    match e {
        Some(x) => x.0 != x.1 ==> edges.contains(x),
        None => true,
    }
}

/// The degrees of nodes `0..n`, added up.
pub open spec fn degree_sum(edges: Seq<(int, int)>, n: int) -> nat
    decreases n,
{
    if n <= 0 {
        0
    } else {
        degree_sum(edges, n - 1) + degree(edges, n - 1)
    }
}

proof fn lemma_degree_sum_empty(n: int)
    ensures
        degree_sum(Seq::<(int, int)>::empty(), n) == 0,
    decreases n,
{
    if n > 0 {
        lemma_degree_sum_empty(n - 1);
    }
}

proof fn lemma_degree_sum_push(prev: Seq<(int, int)>, x: (int, int), m: int)
    ensures
        degree_sum(prev.push(x), m) == degree_sum(prev, m) + (if 0 <= x.0 < m {
            1int
        } else {
            0int
        }) + (if 0 <= x.1 < m {
            1int
        } else {
            0int
        }),
    decreases m,
{
    if m > 0 {
        lemma_degree_sum_push(prev, x, m - 1);
        assert(prev.push(x).drop_last() =~= prev);
    }
}

proof fn lemma_degree_sum(edges: Seq<(int, int)>, n: int)
    requires
        within(edges, n),
    ensures
        degree_sum(edges, n) == 2 * edges.len(),
    decreases edges.len(),
{
    if edges.len() == 0 {
        assert(edges =~= Seq::<(int, int)>::empty());
        lemma_degree_sum_empty(n);
    } else {
        let prev = edges.drop_last();
        let x = edges.last();
        assert(within(prev, n)) by {
            assert forall|k: int| 0 <= k < prev.len() implies 0 <= (#[trigger] prev[k]).0 < n
                && 0 <= prev[k].1 < n by {
                assert(prev[k] == edges[k]);
            }
        }
        lemma_degree_sum(prev, n);
        assert(edges[edges.len() - 1] == x);
        assert(prev.push(x) =~= edges);
        lemma_degree_sum_push(prev, x, n);
    }
}

proof fn lemma_edges_sound_complete(paths: Seq<Seq<char>>, links: Seq<(Seq<char>, Seq<char>)>)
    ensures
        forall|k: int|
            0 <= k < edges_of(paths, links).len() ==> exists|m: int|
                0 <= m < links.len() && edge_for(paths, #[trigger] links[m]) == Some(
                    #[trigger] edges_of(paths, links)[k],
                ),
        forall|m: int|
            0 <= m < links.len() ==> drawn(edges_of(paths, links), #[trigger] edge_for(paths, links[m])),
    decreases links.len(),
{
    if links.len() > 0 {
        let init = links.drop_last();
        lemma_edges_sound_complete(paths, init);
        let prev = edges_of(paths, init);
        let cur = edges_of(paths, links);
        assert forall|k: int| 0 <= k < cur.len() implies exists|m: int|
            0 <= m < links.len() && edge_for(paths, #[trigger] links[m]) == Some(
                #[trigger] cur[k],
            ) by {
            if k < prev.len() {
                assert(cur[k] == prev[k]);
                let m = choose|m: int|
                    0 <= m < init.len() && edge_for(paths, #[trigger] init[m]) == Some(
                        #[trigger] prev[k],
                    );
                assert(links[m] == init[m]);
            } else {
                assert(links[links.len() - 1] == links.last());
            }
        }
        assert forall|m: int| 0 <= m < links.len() implies drawn(cur, #[trigger] edge_for(paths, links[m])) by {
            if m < init.len() {
                assert(links[m] == init[m]);
                if let Some(x) = edge_for(paths, links[m]) {
                    if x.0 != x.1 {
                        assert(prev.contains(x));
                        let k = choose|k: int| 0 <= k < prev.len() && prev[k] == x;
                        if cur != prev {
                            assert(cur[k] == prev[k]);
                        }
                    }
                }
            } else {
                assert(links[m] == links.last());
                if let Some(x) = edge_for(paths, links[m]) {
                    if x.0 != x.1 && !prev.contains(x) {
                        assert(cur[cur.len() - 1] == x);
                    }
                }
            }
        }
    }
}

/// The graph's edges are exactly the resolved links, once each: no edge
/// joins a node to itself, both ends of every edge are nodes, no edge is
/// drawn twice, every edge is some link's, and every link whose two ends are
/// different nodes is drawn.
pub proof fn law_edges_are_the_resolved_links_once_each(
    paths: Seq<Seq<char>>,
    links: Seq<(Seq<char>, Seq<char>)>,
)
    ensures
        loop_free(edges_of(paths, links)),
        within(edges_of(paths, links), paths.len() as int),
        distinct(edges_of(paths, links)),
        forall|k: int|
            0 <= k < edges_of(paths, links).len() ==> exists|m: int|
                0 <= m < links.len() && edge_for(paths, #[trigger] links[m]) == Some(
                    #[trigger] edges_of(paths, links)[k],
                ),
        forall|m: int|
            0 <= m < links.len() ==> drawn(edges_of(paths, links), #[trigger] edge_for(paths, links[m])),
{
    lemma_edges_shape(paths, links);
    lemma_edges_sound_complete(paths, links);
}

/// The degrees of all nodes add up to twice the number of edges: every edge
/// counts once at each end.
pub proof fn law_degrees_add_up_to_twice_the_edges(
    paths: Seq<Seq<char>>,
    links: Seq<(Seq<char>, Seq<char>)>,
)
    ensures
        degree_sum(edges_of(paths, links), paths.len() as int) == 2 * edges_of(paths, links).len(),
{
    lemma_edges_shape(paths, links);
    lemma_degree_sum(edges_of(paths, links), paths.len() as int);
}

} // verus!
