//! The level graph: its node kinds, its layered layout, how a level is
//! generated from a random source, and how the player moves through it.
use vstd::prelude::*;
use rand_xoshiro::Xoroshiro128PlusPlus;
use crate::rng::draw_inclusive;

verus! {

pub const MIN_LAYERS: usize = 7;
pub const MAX_LAYERS: usize = 9;
pub const MIN_NODES_IN_LAYER: usize = 2;
pub const MAX_NODES_IN_LAYER: usize = 4;

/// How many kinds may stand in an interior layer (all kinds but Start and End).
pub const INTERIOR_KINDS: usize = 1;

/// The kind of a node of the map. Start and End are the first and the last
/// kind; the kinds between them are the interior kinds.
#[derive(Copy, Clone, PartialEq, Eq, Debug, Structural)]
pub enum MapNode {
    Start,
    Combat,
    End,
}

impl MapNode {
    /// The kind's numeric tag, in declaration order.
    pub open spec fn tag(self) -> u8 {
        match self {
            MapNode::Start => 0,
            MapNode::Combat => 1,
            MapNode::End => 2,
        }
    }

    /// A kind that may stand in an interior layer.
    pub open spec fn is_interior(self) -> bool {
        self != MapNode::Start && self != MapNode::End
    }

    /// The numeric tag handed to the renderer.
    pub fn as_u8(self) -> (r: u8)
        ensures
            r == self.tag(),
    {
        match self {
            MapNode::Start => 0,
            MapNode::Combat => 1,
            MapNode::End => 2,
        }
    }

    /// The interior kind with index `i`, counting from the kind after Start.
    pub fn interior(i: usize) -> (k: MapNode)
        requires
            i < INTERIOR_KINDS,
        ensures
            k.is_interior(),
            k.tag() == i + 1,
    {
        MapNode::Combat
    }
}

/// The first node id of layer `k` when the layers hold `sizes` nodes each.
pub open spec fn layer_start(sizes: Seq<usize>, k: int) -> int
    decreases k,
{
    if k <= 0 {
        0
    } else {
        layer_start(sizes, k - 1) + sizes[k - 1]
    }
}

/// Node id `i` lies in layer `k`.
pub open spec fn in_layer(sizes: Seq<usize>, k: int, i: int) -> bool {
    layer_start(sizes, k) <= i < layer_start(sizes, k + 1)
}

/// The number of nodes of a level laid out in `sizes`.
pub open spec fn node_count(sizes: Seq<usize>) -> int {
    layer_start(sizes, sizes.len() as int)
}

/// A layout the generator may draw: 7 to 9 layers, one node in the first and
/// in the last, 2 to 4 in each other layer.
pub open spec fn valid_layout(sizes: Seq<usize>) -> bool {
    &&& MIN_LAYERS <= sizes.len() <= MAX_LAYERS
    &&& sizes[0] == 1
    &&& sizes[sizes.len() - 1] == 1
    &&& forall|k: int|
        1 <= k < sizes.len() - 1 ==> MIN_NODES_IN_LAYER <= #[trigger] sizes[k] <= MAX_NODES_IN_LAYER
}

pub proof fn lemma_layer_start_push(sizes: Seq<usize>, x: usize, k: int)
    requires
        0 <= k <= sizes.len(),
    ensures
        layer_start(sizes.push(x), k) == layer_start(sizes, k),
    decreases k,
{
    if k > 0 {
        lemma_layer_start_push(sizes, x, k - 1);
    }
}

pub proof fn lemma_layer_start_mono(sizes: Seq<usize>, i: int, j: int)
    requires
        0 <= i <= j <= sizes.len(),
    ensures
        layer_start(sizes, i) <= layer_start(sizes, j),
    decreases j - i,
{
    if i < j {
        lemma_layer_start_mono(sizes, i, j - 1);
    }
}

/// The map of one run: node kinds by id, the ids each node leads to, where
/// the player stands and the ids the player has left, in the order left.
#[derive(Clone, PartialEq, Eq, Debug)]
pub struct GameLevel {
    pub nodes: Vec<MapNode>,
    pub edges: Vec<Vec<usize>>,
    pub current: usize,
    pub visited: Vec<usize>,
}

impl GameLevel {
    /// There is an edge from node `a` to node `b`.
    pub open spec fn has_edge(self, a: int, b: usize) -> bool {
        0 <= a < self.edges@.len() && self.edges@[a]@.contains(b)
    }

    /// Some node leads to node `b`.
    pub open spec fn is_reached(self, b: usize) -> bool {
        exists|a: int| #[trigger] self.has_edge(a, b)
    }

    /// The level is laid out in the layers `sizes`: Start alone first, End
    /// alone last, interior kinds between, each node but End leading on, each
    /// node but Start reached, and edges only from one layer to the next.
    pub open spec fn laid_out_as(self, sizes: Seq<usize>) -> bool {
        let n = self.nodes@.len() as int;
        &&& valid_layout(sizes)
        &&& n == node_count(sizes)
        &&& self.edges@.len() == n
        &&& self.nodes@[0] == MapNode::Start
        &&& self.nodes@[n - 1] == MapNode::End
        &&& forall|i: int| 0 < i < n - 1 ==> (#[trigger] self.nodes@[i]).is_interior()
        &&& forall|a: int| 0 <= a < n - 1 ==> (#[trigger] self.edges@[a]).len() > 0
        &&& self.edges@[n - 1].len() == 0
        &&& forall|b: usize| 0 < b < n ==> #[trigger] self.is_reached(b)
        &&& forall|k: int, a: int, j: int|
            #![trigger in_layer(sizes, k, a), self.edges@[a]@[j]]
            0 <= k < sizes.len() && in_layer(sizes, k, a) && 0 <= j < self.edges@[a].len()
                ==> in_layer(sizes, k + 1, self.edges@[a]@[j] as int)
    }

    /// The level is laid out in some valid layout.
    pub open spec fn is_layered(self) -> bool {
        exists|sizes: Seq<usize>| self.laid_out_as(sizes)
    }

}

impl GameLevel {
    /// The edges between each pair of adjacent layers `k` and `k + 1` are
    /// those of the cursor walk for that pair under `choices[k]`, with
    /// positions counted from each layer's first id.
    pub open spec fn walks_as(self, sizes: Seq<usize>, choices: Seq<Vec<u8>>) -> bool {
        forall|k: int, a: int, b: usize|
            #![trigger in_layer(sizes, k, a), self.edges@[a]@.contains(b)]
            0 <= k < sizes.len() - 1 && in_layer(sizes, k, a) ==> (self.edges@[a]@.contains(b)
                <==> pair_walk(sizes, choices, k).contains(
                (a - layer_start(sizes, k), b - layer_start(sizes, k + 1)),
            ))
    }

    /// Builds the level that a run of draws describes: the layer sizes, the
    /// interior kind index of each interior node in id order, and the walk
    /// choices of each pair of adjacent layers. The player stands on Start
    /// and has left no node.
    pub fn level_from_draws(sizes: &Vec<usize>, kinds: &Vec<usize>, choices: &Vec<Vec<u8>>) -> (level: GameLevel)
        requires
            valid_layout(sizes@),
            kinds@.len() == node_count(sizes@) - 2,
            forall|i: int| 0 <= i < kinds@.len() ==> #[trigger] kinds@[i] < INTERIOR_KINDS,
            choices@.len() == sizes@.len() - 1,
        ensures
            level.laid_out_as(sizes@),
            level.walks_as(sizes@, choices@),
            forall|i: int|
                0 < i < level.nodes@.len() - 1 ==> (#[trigger] level.nodes@[i]).tag() == kinds@[i - 1] + 1,
            level.well_formed(),
            level.current == 0,
            level.visited@.len() == 0,
    {
        let ghost sz = sizes@;
        let nr_layers = sizes.len();
        let ghost nl = nr_layers as int;
        let mut starts: Vec<usize> = Vec::new();
        let mut acc: usize = 0;
        let mut k: usize = 0;
        while k < nr_layers
            invariant
                sz == sizes@,
                nl == nr_layers,
                nl == sz.len(),
                valid_layout(sz),
                k <= nl,
                starts@.len() == k,
                acc == layer_start(sz, k as int),
                acc <= 4 * k,
                forall|i: int| 0 <= i < k ==> #[trigger] starts@[i] == layer_start(sz, i),
            decreases nl - k,
        {
            assert(sz[k as int] <= 4);
            starts.push(acc);
            acc = acc + sizes[k];
            k += 1;
        }
        starts.push(acc);
        proof {
            assert(layer_start(sz, 0) == 0);
            assert(layer_start(sz, 1) == 1);
            assert(layer_start(sz, nl) == layer_start(sz, nl - 1) + 1);
        }
        let mut nodes: Vec<MapNode> = Vec::new();
        nodes.push(MapNode::Start);
        let mut i: usize = 0;
        while i < kinds.len()
            invariant
                i <= kinds@.len(),
                kinds@.len() + 2 == acc,
                acc <= 36,
                nodes@.len() == i + 1,
                nodes@[0] == MapNode::Start,
                forall|j: int| 0 <= j < kinds@.len() ==> #[trigger] kinds@[j] < INTERIOR_KINDS,
                forall|m: int|
                    0 < m < nodes@.len() ==> (#[trigger] nodes@[m]).is_interior() && nodes@[m].tag()
                        == kinds@[m - 1] + 1,
            decreases kinds@.len() - i,
        {
            nodes.push(MapNode::interior(kinds[i]));
            i += 1;
        }
        nodes.push(MapNode::End);
        let n = nodes.len();
        let ghost nodes_view = nodes@;
        assert(forall|k: int| 0 <= k <= nl ==> #[trigger] starts@[k] == layer_start(sz, k));

        let mut edges: Vec<Vec<usize>> = Vec::new();
        while edges.len() < n
            invariant
                edges@.len() <= n,
                forall|a: int| 0 <= a < edges@.len() ==> (#[trigger] edges@[a]).len() == 0,
            decreases n - edges@.len(),
        {
            edges.push(Vec::new());
        }

        let mut c: usize = nr_layers - 1;
        while c > 0
            invariant
                sizes@ == sz,
                nl == nr_layers,
                choices@.len() == nl - 1,
                forall|k: int, a: int, b: usize|
                    #![trigger in_layer(sz, k, a), edges@[a]@.contains(b)]
                    c <= k < nl - 1 && in_layer(sz, k, a) ==> (edges@[a]@.contains(b) <==> pair_walk(
                        sz,
                        choices@,
                        k,
                    ).contains((a - layer_start(sz, k), b - layer_start(sz, k + 1)))),
                sz.len() == nl,
                valid_layout(sz),
                n == layer_start(sz, nl),
                n == layer_start(sz, nl - 1) + 1,
                starts@.len() == nl + 1,
                forall|k: int| 0 <= k <= nl ==> #[trigger] starts@[k] == layer_start(sz, k),
                c <= nl - 1,
                edges@.len() == n,
                forall|a: int|
                    0 <= a < layer_start(sz, c as int) ==> (#[trigger] edges@[a]).len() == 0,
                forall|a: int|
                    layer_start(sz, c as int) <= a < n - 1 ==> (#[trigger] edges@[a]).len() > 0,
                edges@[n - 1].len() == 0,
                forall|b: usize|
                    layer_start(sz, c + 1) <= b < n ==> #[trigger] fed_from(
                        edges@,
                        layer_start(sz, c as int),
                        n as int,
                        b,
                    ),
                forall|k: int, a: int, j: int|
                    #![trigger in_layer(sz, k, a), edges@[a]@[j]]
                    c <= k < nl && in_layer(sz, k, a) && 0 <= j < edges@[a].len() ==> in_layer(
                        sz,
                        k + 1,
                        edges@[a]@[j] as int,
                    ),
            decreases c,
        {
            let ghost prev = edges@;
            let ghost ps = layer_start(sz, c - 1);
            let ghost cs = layer_start(sz, c as int);
            let ghost ce = layer_start(sz, c + 1);
            proof {
                lemma_layer_start_mono(sz, c + 1, nl);
                lemma_layer_start_mono(sz, c as int, nl - 1);
                assert(sz[c - 1] >= 1);
                assert(starts@[c - 1] == ps);
                assert(starts@[c as int] == cs);
                assert(ps + sz[c - 1] == cs);
                assert(cs + sz[c as int] == ce);
            }
            connect_layers(&mut edges, starts[c - 1], sizes[c - 1], starts[c], sizes[c], &choices[c - 1]);
            proof {
                assert forall|b: usize| cs <= b < n implies #[trigger] fed_from(
                    edges@,
                    ps,
                    n as int,
                    b,
                ) by {
                    if b < ce {
                        assert(fed_from(edges@, ps, cs, b));
                        let a = choose|a: int| ps <= a < cs && #[trigger] edges@[a]@.contains(b);
                        assert(edges@[a]@.contains(b));
                    } else {
                        assert(fed_from(prev, cs, n as int, b));
                        let a = choose|a: int| cs <= a < n && #[trigger] prev[a]@.contains(b);
                        assert(edges@[a] == prev[a]);
                        assert(edges@[a]@.contains(b));
                    }
                }
                assert forall|k: int, a: int, j: int|
                    #![trigger in_layer(sz, k, a), edges@[a]@[j]]
                    c - 1 <= k < nl && in_layer(sz, k, a) && 0 <= j < edges@[a].len() implies in_layer(
                        sz,
                        k + 1,
                        edges@[a]@[j] as int,
                    ) by {
                    if k >= c {
                        lemma_layer_start_mono(sz, c as int, k);
                        lemma_layer_start_mono(sz, k + 1, nl);
                        assert(edges@[a] == prev[a]);
                    } else {
                        assert(ps <= a < cs);
                        assert(cs <= edges@[a]@[j] < ce);
                    }
                }
                assert forall|k: int, a: int, b: usize|
                    #![trigger in_layer(sz, k, a), edges@[a]@.contains(b)]
                    c - 1 <= k < nl - 1 && in_layer(sz, k, a) implies (edges@[a]@.contains(b)
                        <==> pair_walk(sz, choices@, k).contains(
                        (a - layer_start(sz, k), b - layer_start(sz, k + 1)),
                    )) by {
                    if k >= c {
                        lemma_layer_start_mono(sz, c as int, k);
                        lemma_layer_start_mono(sz, k + 1, nl);
                        assert(edges@[a] == prev[a]);
                    } else {
                        assert(ps <= a < cs);
                    }
                }
            }
            c -= 1;
        }
        let level = GameLevel { nodes, edges, current: 0, visited: Vec::new() };
        assert(level.nodes@ == nodes_view);
        proof {
            assert(layer_start(sz, 0) == 0);
            assert(layer_start(sz, 1) == 1);
            assert forall|b: usize| 0 < b < n implies #[trigger] level.is_reached(b) by {
                assert(fed_from(level.edges@, 0, n as int, b));
                let a = choose|a: int| 0 <= a < n && #[trigger] level.edges@[a]@.contains(b);
                assert(level.has_edge(a, b));
            }
            assert(level.laid_out_as(sz));
            assert forall|a: int, j: int|
                0 <= a < level.edges@.len() && 0 <= j < level.edges@[a]@.len() implies a
                    < #[trigger] level.edges@[a]@[j] < level.nodes@.len() by {
                assert(level.has_edge(a, level.edges@[a]@[j]));
                lemma_walks_end_at_end(level, a, level.edges@[a]@[j]);
            }
        }
        level
    }

    /// Generates a level from `r`: a layer count, then each interior layer's
    /// size and its nodes' kinds, then the walk choices of each pair of
    /// adjacent layers from the last pair to the first; the level is the one
    /// these draws describe.
    pub fn new_from_random(r: &mut Xoroshiro128PlusPlus) -> (level: GameLevel)
        ensures
            exists|sizes: Seq<usize>, choices: Seq<Vec<u8>>|
                level.laid_out_as(sizes) && level.walks_as(sizes, choices),
            level.well_formed(),
            level.current == 0,
            level.visited@.len() == 0,
    {
        let nr_layers = draw_inclusive(r, MIN_LAYERS, MAX_LAYERS);
        let mut sizes: Vec<usize> = Vec::new();
        let mut kinds: Vec<usize> = Vec::new();
        sizes.push(1);
        assert(layer_start(sizes@, 0) == 0);
        assert(layer_start(sizes@, 1) == 1);
        let mut l: usize = 1;
        while l < nr_layers - 1
            invariant
                MIN_LAYERS <= nr_layers <= MAX_LAYERS,
                1 <= l <= nr_layers - 1,
                sizes@.len() == l,
                sizes@[0] == 1,
                forall|k: int|
                    1 <= k < l ==> MIN_NODES_IN_LAYER <= #[trigger] sizes@[k] <= MAX_NODES_IN_LAYER,
                kinds@.len() + 1 == layer_start(sizes@, l as int),
                kinds@.len() <= 4 * l,
                forall|i: int| 0 <= i < kinds@.len() ==> #[trigger] kinds@[i] < INTERIOR_KINDS,
            decreases nr_layers - l,
        {
            let count = draw_inclusive(r, MIN_NODES_IN_LAYER, MAX_NODES_IN_LAYER);
            let ghost before = sizes@;
            sizes.push(count);
            let mut j: usize = 0;
            while j < count
                invariant
                    j <= count <= MAX_NODES_IN_LAYER,
                    kinds@.len() + 1 == layer_start(before, l as int) + j,
                    layer_start(before, l as int) <= 4 * l + 1,
                    l < MAX_LAYERS,
                    forall|i: int| 0 <= i < kinds@.len() ==> #[trigger] kinds@[i] < INTERIOR_KINDS,
                decreases count - j,
            {
                let t = draw_inclusive(r, 0, INTERIOR_KINDS - 1);
                kinds.push(t);
                j += 1;
            }
            proof {
                assert forall|k: int| 0 <= k <= l implies layer_start(sizes@, k) == layer_start(
                    before,
                    k,
                ) by {
                    lemma_layer_start_push(before, count, k);
                }
                assert(layer_start(sizes@, l + 1) == layer_start(sizes@, l as int) + count);
            }
            l += 1;
        }
        let ghost before = sizes@;
        sizes.push(1);
        proof {
            assert forall|k: int| 0 <= k <= l implies layer_start(sizes@, k) == layer_start(
                before,
                k,
            ) by {
                lemma_layer_start_push(before, 1, k);
            }
            assert(layer_start(sizes@, l + 1) == layer_start(sizes@, l as int) + 1);
        }
        assert(valid_layout(sizes@));

        let mut choices: Vec<Vec<u8>> = Vec::new();
        while choices.len() < nr_layers - 1
            invariant
                choices@.len() <= nr_layers - 1,
            decreases nr_layers - 1 - choices@.len(),
        {
            choices.push(Vec::new());
        }
        let mut c: usize = nr_layers - 1;
        while c > 0
            invariant
                c <= nr_layers - 1,
                choices@.len() == nr_layers - 1,
                sizes@.len() == nr_layers,
                valid_layout(sizes@),
            decreases c,
        {
            assert(sizes@[c - 1] >= 1 && sizes@[c as int] >= 1);
            let ch = draw_pair_choices(r, sizes[c - 1], sizes[c]);
            choices.set(c - 1, ch);
            c -= 1;
        }
        let level = GameLevel::level_from_draws(&sizes, &kinds, &choices);
        assert(level.laid_out_as(sizes@) && level.walks_as(sizes@, choices@));
        level
    }
}

/// What the renderer reports the player did on the map.
#[derive(Copy, Clone, PartialEq, Eq, Debug, Structural)]
pub enum GameMapAction {
    Waiting,
    PauseGame,
    GoToNode(usize),
}

/// What the map asks of the controller after an action.
#[derive(Copy, Clone, PartialEq, Eq, Debug, Structural)]
pub enum MapSignal {
    StayOnMap,
    EnterPauseMenu,
}

impl GameLevel {
    /// `next` is this level after a legal move to `id`: the current node
    /// joins the visited ones and `id` becomes current; nodes and edges stay.
    pub open spec fn moved_to(self, next: GameLevel, id: usize) -> bool {
        &&& next.nodes == self.nodes
        &&& next.edges == self.edges
        &&& next.current == id
        &&& next.visited@ == self.visited@.push(self.current)
    }

    /// The player stands on a node of the level, and every node left lies
    /// before it, so the current node is never among the visited ones.
    pub open spec fn position_ok(self) -> bool {
        &&& self.current < self.nodes@.len()
        &&& forall|i: int| 0 <= i < self.visited@.len() ==> #[trigger] self.visited@[i] < self.current
    }

    /// Every edge leads from a node to a later node of the level, and the
    /// player's position is as `position_ok` says: what a level read back
    /// from storage must satisfy before play resumes on it.
    pub open spec fn well_formed(self) -> bool {
        &&& self.edges@.len() == self.nodes@.len()
        &&& self.position_ok()
        &&& forall|a: int, j: int|
            0 <= a < self.edges@.len() && 0 <= j < self.edges@[a]@.len() ==> a < #[trigger] self.edges@[a]@[j]
                < self.nodes@.len()
    }

    /// Whether the level is well formed.
    pub fn is_well_formed(&self) -> (b: bool)
        ensures
            b == self.well_formed(),
    {
        let n = self.nodes.len();
        if self.edges.len() != n || self.current >= n {
            return false;
        }
        let mut i: usize = 0;
        while i < self.visited.len()
            invariant
                i <= self.visited@.len(),
                forall|k: int| 0 <= k < i ==> #[trigger] self.visited@[k] < self.current,
            decreases self.visited@.len() - i,
        {
            if self.visited[i] >= self.current {
                return false;
            }
            i += 1;
        }
        let mut a: usize = 0;
        while a < n
            invariant
                n == self.nodes@.len(),
                n == self.edges@.len(),
                a <= n,
                forall|x: int, j: int|
                    0 <= x < a && 0 <= j < self.edges@[x]@.len() ==> x < #[trigger] self.edges@[x]@[j] < n,
            decreases n - a,
        {
            let row = &self.edges[a];
            let mut j: usize = 0;
            while j < row.len()
                invariant
                    a < n,
                    n == self.nodes@.len(),
                    n == self.edges@.len(),
                    row == self.edges@[a as int],
                    j <= row@.len(),
                    forall|x: int, k: int|
                        0 <= x < a && 0 <= k < self.edges@[x]@.len() ==> x < #[trigger] self.edges@[x]@[k] < n,
                    forall|k: int| 0 <= k < j ==> a < #[trigger] row@[k] < n,
                decreases row@.len() - j,
            {
                if row[j] <= a || row[j] >= n {
                    return false;
                }
                j += 1;
            }
            a += 1;
        }
        true
    }

    /// Whether the current node leads to `id`.
    pub fn can_go_to(&self, id: usize) -> (b: bool)
        ensures
            b == self.has_edge(self.current as int, id),
    {
        if self.current >= self.edges.len() {
            return false;
        }
        let row = &self.edges[self.current];
        let mut i: usize = 0;
        while i < row.len()
            invariant
                0 <= i <= row@.len(),
                self.current < self.edges@.len(),
                row == self.edges@[self.current as int],
                forall|j: int| 0 <= j < i ==> row@[j] != id,
            decreases row@.len() - i,
        {
            if row[i] == id {
                assert(self.edges@[self.current as int]@[i as int] == id);
                return true;
            }
            i += 1;
        }
        false
    }

    /// Moves the player to `id` if the current node leads there: the node
    /// left is added to the visited ones. Otherwise nothing changes.
    pub fn go_to_node(&mut self, id: usize) -> (moved: bool)
        ensures
            moved == old(self).has_edge(old(self).current as int, id),
            moved ==> old(self).moved_to(*final(self), id),
            !moved ==> *final(self) == *old(self),
            old(self).well_formed() ==> final(self).well_formed(),
    {
        if self.can_go_to(id) {
            let left = self.current;
            self.visited.push(left);
            self.current = id;
            true
        } else {
            false
        }
    }

    /// Applies what the renderer reported: `Waiting` (or no report) changes
    /// nothing, `PauseGame` asks for the pause menu and changes nothing, and
    /// `GoToNode(id)` moves the player when the current node leads to `id`.
    pub fn advance(&mut self, action: Option<GameMapAction>) -> (signal: MapSignal)
        ensures
            signal == (if action == Some(GameMapAction::PauseGame) {
                MapSignal::EnterPauseMenu
            } else {
                MapSignal::StayOnMap
            }),
            match action {
                Some(GameMapAction::GoToNode(id)) => if old(self).has_edge(
                    old(self).current as int,
                    id,
                ) {
                    old(self).moved_to(*final(self), id)
                } else {
                    *final(self) == *old(self)
                },
                _ => *final(self) == *old(self),
            },
            old(self).well_formed() ==> final(self).well_formed(),
    {
        match action {
            Some(GameMapAction::PauseGame) => MapSignal::EnterPauseMenu,
            Some(GameMapAction::GoToNode(id)) => {
                self.go_to_node(id);
                MapSignal::StayOnMap
            },
            _ => MapSignal::StayOnMap,
        }
    }
}

/// Node `i`, below the first id of layer `k`, lies in a layer before `k`.
proof fn lemma_layer_of(sizes: Seq<usize>, i: int, k: int)
    requires
        0 <= i < layer_start(sizes, k),
        0 <= k <= sizes.len(),
    ensures
        exists|k2: int| 0 <= k2 < k && #[trigger] in_layer(sizes, k2, i),
    decreases k,
{
    if i >= layer_start(sizes, k - 1) {
        assert(in_layer(sizes, k - 1, i));
    } else {
        lemma_layer_of(sizes, i, k - 1);
    }
}

/// In a layered level every edge leads to a higher id, so each walk along
/// edges ends; and the only node without an edge onward is End, the last id,
/// where every such walk stops.
pub proof fn lemma_walks_end_at_end(level: GameLevel, a: int, b: usize)
    requires
        level.is_layered(),
        0 <= a < level.nodes@.len(),
    ensures
        level.has_edge(a, b) ==> a < b < level.nodes@.len(),
        level.edges@[a].len() == 0 <==> a == level.nodes@.len() - 1,
{
    let sizes = choose|sizes: Seq<usize>| level.laid_out_as(sizes);
    if level.has_edge(a, b) {
        lemma_layer_of(sizes, a, sizes.len() as int);
        let k = choose|k: int| 0 <= k < sizes.len() && #[trigger] in_layer(sizes, k, a);
        let j = choose|j: int| 0 <= j < level.edges@[a]@.len() && level.edges@[a]@[j] == b;
        assert(in_layer(sizes, k + 1, level.edges@[a]@[j] as int));
        if k + 1 < sizes.len() {
            lemma_layer_start_mono(sizes, k + 2, sizes.len() as int);
        } else {
            assert(layer_start(sizes, sizes.len() as int) == layer_start(sizes, sizes.len() - 1) + 1);
        }
    }
}

/// `ids` is a walk of legal moves from Start: it begins on Start and each id
/// leads to the next.
pub open spec fn is_walk(level: GameLevel, ids: Seq<usize>) -> bool {
    &&& ids.len() >= 1
    &&& ids[0] == 0
    &&& forall|i: int| 0 <= i < ids.len() - 1 ==> #[trigger] level.has_edge(ids[i] as int, ids[i + 1])
}

proof fn lemma_walk_layer(level: GameLevel, sizes: Seq<usize>, ids: Seq<usize>, i: int)
    requires
        level.laid_out_as(sizes),
        is_walk(level, ids),
        0 <= i < ids.len(),
    ensures
        i < sizes.len(),
        in_layer(sizes, i, ids[i] as int),
    decreases i,
{
    let n = level.nodes@.len() as int;
    let nl = sizes.len() as int;
    assert(layer_start(sizes, nl) == layer_start(sizes, nl - 1) + 1);
    if i == 0 {
        assert(layer_start(sizes, 0) == 0);
        assert(layer_start(sizes, 1) == 1);
    } else {
        lemma_walk_layer(level, sizes, ids, i - 1);
        let a = ids[i - 1] as int;
        assert(level.has_edge(a, ids[i]));
        let j = choose|j: int| 0 <= j < level.edges@[a]@.len() && level.edges@[a]@[j] == ids[i];
        assert(in_layer(sizes, i - 1, a));
        assert(in_layer(sizes, i, level.edges@[a]@[j] as int));
        if i - 1 == nl - 1 {
            assert(a == n - 1);
        }
    }
}

/// On a level laid out in `sizes`, the i-th node of a walk of legal moves
/// from Start lies in layer i. So the walk cannot be longer than the layers,
/// it can go on exactly until it stands on End, and it stands on End exactly
/// when it has made one move per layer after the first.
pub proof fn lemma_walk_reaches_end(level: GameLevel, sizes: Seq<usize>, ids: Seq<usize>)
    requires
        level.laid_out_as(sizes),
        is_walk(level, ids),
    ensures
        forall|i: int| 0 <= i < ids.len() ==> #[trigger] in_layer(sizes, i, ids[i] as int),
        ids.len() <= sizes.len(),
        level.edges@[ids[ids.len() - 1] as int].len() == 0 <==> ids.len() == sizes.len(),
        ids[ids.len() - 1] == level.nodes@.len() - 1 <==> ids.len() == sizes.len(),
{
    let n = level.nodes@.len() as int;
    let nl = sizes.len() as int;
    let m = ids.len() - 1;
    assert forall|i: int| 0 <= i < ids.len() implies #[trigger] in_layer(sizes, i, ids[i] as int) by {
        lemma_walk_layer(level, sizes, ids, i);
    }
    lemma_walk_layer(level, sizes, ids, m);
    let last = ids[m] as int;
    assert(layer_start(sizes, nl) == layer_start(sizes, nl - 1) + 1);
    lemma_layer_start_mono(sizes, m + 1, nl);
    lemma_walks_end_at_end(level, last, 0);
    if m < nl - 1 {
        lemma_layer_start_mono(sizes, m + 1, nl - 1);
    }
}

/// Some list of `edges` from `lo` up to `hi` holds `c`.
pub open spec fn fed_from(edges: Seq<Vec<usize>>, lo: int, hi: int, c: usize) -> bool {
    exists|a: int| lo <= a < hi && #[trigger] edges[a]@.contains(c)
}

/// The cursor walk over a pair of adjacent layers of `pn` and `cn` nodes,
/// from cursors `pi` and `ci`, as a list of (previous, current) positions
/// joined by an edge. After each edge: stop when both cursors are at their
/// layer's end; move the one that is not when the other is; otherwise choice
/// `j` moves the previous cursor (0), the current one (1) or both (any other
/// value). A missing choice counts as 0.
pub open spec fn walk_from(pn: int, cn: int, pi: int, ci: int, choices: Seq<u8>, j: int) -> Seq<(int, int)>
    decreases (pn - pi) + (cn - ci),
{
    if pi < 0 || ci < 0 || pi >= pn || ci >= cn {
        seq![]
    } else if pi == pn - 1 && ci == cn - 1 {
        seq![(pi, ci)]
    } else if ci == cn - 1 {
        seq![(pi, ci)] + walk_from(pn, cn, pi + 1, ci, choices, j)
    } else if pi == pn - 1 {
        seq![(pi, ci)] + walk_from(pn, cn, pi, ci + 1, choices, j)
    } else {
        let d = if 0 <= j < choices.len() {
            choices[j]
        } else {
            0
        };
        if d == 0 {
            seq![(pi, ci)] + walk_from(pn, cn, pi + 1, ci, choices, j + 1)
        } else if d == 1 {
            seq![(pi, ci)] + walk_from(pn, cn, pi, ci + 1, choices, j + 1)
        } else {
            seq![(pi, ci)] + walk_from(pn, cn, pi + 1, ci + 1, choices, j + 1)
        }
    }
}

/// The walk between layer `k` and layer `k + 1` under the choices drawn for
/// that pair.
pub open spec fn pair_walk(sizes: Seq<usize>, choices: Seq<Vec<u8>>, k: int) -> Seq<(int, int)> {
    walk_from(sizes[k] as int, sizes[k + 1] as int, 0, 0, choices[k]@, 0)
}

/// The walk between two layers of `pn` and `cn` nodes, from cursors `pi`
/// and `ci`, starts there and ends on both layers' last nodes; it moves both
/// positions forward only, so no two of its edges cross and none repeats;
/// and it has at least as many edges as the larger remaining layer and at
/// most one fewer than both together.
pub proof fn lemma_walk_shape(pn: int, cn: int, pi: int, ci: int, choices: Seq<u8>, j: int)
    requires
        0 <= pi < pn,
        0 <= ci < cn,
    ensures
        ({
            let w = walk_from(pn, cn, pi, ci, choices, j);
            &&& w.len() >= 1
            &&& w[0] == (pi, ci)
            &&& w[w.len() - 1] == (pn - 1, cn - 1)
            &&& pn - pi <= w.len() && cn - ci <= w.len()
            &&& w.len() <= (pn - pi) + (cn - ci) - 1
            &&& forall|i: int| 0 <= i < w.len() ==> pi <= (#[trigger] w[i]).0 < pn && ci <= w[i].1 < cn
            &&& forall|i: int, k: int|
                0 <= i < k < w.len() ==> (#[trigger] w[i]).0 <= (#[trigger] w[k]).0 && w[i].1 <= w[k].1
                    && w[i].0 + w[i].1 < w[k].0 + w[k].1
        }),
    decreases (pn - pi) + (cn - ci),
{
    let w = walk_from(pn, cn, pi, ci, choices, j);
    if pi == pn - 1 && ci == cn - 1 {
    } else {
        let d = if 0 <= j < choices.len() {
            choices[j]
        } else {
            0
        };
        let (npi, nci, nj) = if ci == cn - 1 {
            (pi + 1, ci, j)
        } else if pi == pn - 1 {
            (pi, ci + 1, j)
        } else if d == 0 {
            (pi + 1, ci, j + 1)
        } else if d == 1 {
            (pi, ci + 1, j + 1)
        } else {
            (pi + 1, ci + 1, j + 1)
        };
        lemma_walk_shape(pn, cn, npi, nci, choices, nj);
        let rest = walk_from(pn, cn, npi, nci, choices, nj);
        assert(w == seq![(pi, ci)] + rest);
        assert forall|i: int| 0 <= i < w.len() implies pi <= (#[trigger] w[i]).0 < pn && ci <= w[i].1 < cn by {
            if i > 0 {
                assert(w[i] == rest[i - 1]);
            }
        }
        assert forall|i: int, k: int|
            0 <= i < k < w.len() implies (#[trigger] w[i]).0 <= (#[trigger] w[k]).0 && w[i].1 <= w[k].1
                && w[i].0 + w[i].1 < w[k].0 + w[k].1 by {
            assert(w[k] == rest[k - 1]);
            if i > 0 {
                assert(w[i] == rest[i - 1]);
            } else {
                assert(rest[k - 1].0 >= npi && rest[k - 1].1 >= nci);
            }
        }
    }
}

/// Between each pair of adjacent layers of a level built from draws, the
/// first nodes are joined, the last nodes are joined, no two edges cross,
/// and the number of edges is at least the larger layer's size and at most
/// one less than both sizes together.
pub proof fn lemma_pair_shape(sizes: Seq<usize>, choices: Seq<Vec<u8>>, k: int)
    requires
        valid_layout(sizes),
        0 <= k < sizes.len() - 1,
    ensures
        ({
            let w = pair_walk(sizes, choices, k);
            let a = sizes[k] as int;
            let c = sizes[k + 1] as int;
            &&& w.contains((0, 0))
            &&& w.contains((a - 1, c - 1))
            &&& forall|e1: (int, int), e2: (int, int)|
                #[trigger] w.contains(e1) && #[trigger] w.contains(e2) && e1.0 < e2.0 ==> e1.1 <= e2.1
            &&& w.no_duplicates()
            &&& a <= w.len() && c <= w.len() && w.len() <= a + c - 1
        }),
{
    let a = sizes[k] as int;
    let c = sizes[k + 1] as int;
    let w = pair_walk(sizes, choices, k);
    assert(a >= 1 && c >= 1);
    lemma_walk_shape(a, c, 0, 0, choices[k]@, 0);
    assert(w[0] == (0int, 0int));
    assert(w[w.len() - 1] == (a - 1, c - 1));
    assert forall|e1: (int, int), e2: (int, int)|
        #[trigger] w.contains(e1) && #[trigger] w.contains(e2) && e1.0 < e2.0 implies e1.1 <= e2.1 by {
        let i1 = choose|i: int| 0 <= i < w.len() && w[i] == e1;
        let i2 = choose|i: int| 0 <= i < w.len() && w[i] == e2;
        if i2 < i1 {
            assert(w[i2].0 <= w[i1].0);
        } else if i1 < i2 {
            assert(w[i1].1 <= w[i2].1);
        }
    }
    assert forall|i: int, m: int| 0 <= i < w.len() && 0 <= m < w.len() && i != m implies w[i] != w[m] by {
        if i < m {
            assert(w[i].0 + w[i].1 < w[m].0 + w[m].1);
        } else {
            assert(w[m].0 + w[m].1 < w[i].0 + w[i].1);
        }
    }
}

proof fn lemma_push_contains<A>(s: Seq<A>, v: A, x: A)
    ensures
        s.push(v).contains(x) <==> (s.contains(x) || x == v),
{
    if s.contains(x) {
        let i = choose|i: int| 0 <= i < s.len() && s[i] == x;
        assert(s.push(v)[i] == x);
    }
    if x == v {
        assert(s.push(v)[s.len() as int] == x);
    }
    if s.push(v).contains(x) {
        let i = choose|i: int| 0 <= i < s.push(v).len() && s.push(v)[i] == x;
        if i < s.len() {
            assert(s[i] == x);
        }
    }
}

/// Draws the choices that the cursor walk over a pair of layers of `pn` and
/// `cn` nodes consumes: one draw from {0, 1, 2} at each step where neither
/// cursor is at its layer's end.
fn draw_pair_choices(r: &mut Xoroshiro128PlusPlus, pn: usize, cn: usize) -> (ch: Vec<u8>)
    requires
        pn >= 1,
        cn >= 1,
    ensures
        forall|j: int| 0 <= j < ch@.len() ==> #[trigger] ch@[j] <= 2,
{
    let mut ch: Vec<u8> = Vec::new();
    let mut pi: usize = 0;
    let mut ci: usize = 0;
    while pi < pn - 1 || ci < cn - 1
        invariant
            pi < pn,
            ci < cn,
            forall|j: int| 0 <= j < ch@.len() ==> #[trigger] ch@[j] <= 2,
        decreases (pn - pi) + (cn - ci),
    {
        if ci == cn - 1 {
            pi += 1;
        } else if pi == pn - 1 {
            ci += 1;
        } else {
            let d = draw_inclusive(r, 0, 2) as u8;
            ch.push(d);
            if d == 0 {
                pi += 1;
            } else if d == 1 {
                ci += 1;
            } else {
                pi += 1;
                ci += 1;
            }
        }
    }
    ch
}

/// Connects the layer of `pn` nodes from id `ps` to the following layer of
/// `cn` nodes from id `cs` along the cursor walk under `choices`.
fn connect_layers(
    edges: &mut Vec<Vec<usize>>,
    ps: usize,
    pn: usize,
    cs: usize,
    cn: usize,
    choices: &Vec<u8>,
)
    requires
        pn >= 1,
        cn >= 1,
        ps + pn == cs,
        cs + cn <= old(edges).len(),
    ensures
        final(edges)@.len() == old(edges)@.len(),
        forall|a: int|
            0 <= a < old(edges)@.len() && !(ps <= a < cs) ==> #[trigger] final(edges)@[a] == old(edges)@[a],
        forall|a: int| ps <= a < cs ==> (#[trigger] final(edges)@[a]).len() > 0,
        forall|a: int, j: int|
            ps <= a < cs && 0 <= j < final(edges)@[a].len() ==> cs <= #[trigger] final(edges)@[a]@[j] < cs + cn,
        forall|c: usize| cs <= c < cs + cn ==> #[trigger] fed_from(final(edges)@, ps as int, cs as int, c),
        forall|a: int, x: usize|
            ps <= a < cs ==> (#[trigger] final(edges)@[a]@.contains(x) <==> walk_from(
                pn as int,
                cn as int,
                0,
                0,
                choices@,
                0,
            ).contains((a - ps, x - cs))),
{
    let mut pi: usize = 0;
    let mut ci: usize = 0;
    let mut j: usize = 0;
    let mut row: Vec<usize> = Vec::new();
    let ghost full = walk_from(pn as int, cn as int, 0, 0, choices@, 0);
    let ghost mut emitted: Seq<(int, int)> = seq![];
    loop
        invariant_except_break
            pi < pn,
            ci < cn,
            j <= pi + ci,
            full == emitted + walk_from(pn as int, cn as int, pi as int, ci as int, choices@, j as int),
            forall|e: (int, int)| #[trigger] emitted.contains(e) ==> e.0 <= pi,
            forall|a: int, x: usize|
                ps <= a < ps + pi ==> (#[trigger] edges@[a]@.contains(x) <==> emitted.contains(
                    (a - ps, x - cs),
                )),
            forall|x: usize| #[trigger] row@.contains(x) <==> emitted.contains((pi as int, x - cs)),
            forall|a: int|
                0 <= a < edges@.len() && !(ps <= a < ps + pi) ==> #[trigger] edges@[a] == old(edges)@[a],
            forall|a: int| ps <= a < ps + pi ==> (#[trigger] edges@[a]).len() > 0,
            forall|a: int, j: int|
                ps <= a < ps + pi && 0 <= j < edges@[a].len() ==> cs <= #[trigger] edges@[a]@[j]
                    < cs + cn,
            forall|j: int| 0 <= j < row@.len() ==> cs <= #[trigger] row@[j] < cs + cn,
            forall|c: usize|
                cs <= c < cs + ci ==> #[trigger] fed_from(edges@, ps as int, ps + pi, c) || row@.contains(c),
        invariant
            pn >= 1,
            cn >= 1,
            ps + pn == cs,
            cs + cn <= old(edges).len(),
            edges@.len() == old(edges)@.len(),
            full == walk_from(pn as int, cn as int, 0, 0, choices@, 0),
        ensures
            edges@.len() == old(edges)@.len(),
            forall|a: int|
                0 <= a < old(edges)@.len() && !(ps <= a < cs) ==> #[trigger] edges@[a] == old(edges)@[a],
            forall|a: int| ps <= a < cs ==> (#[trigger] edges@[a]).len() > 0,
            forall|a: int, j: int|
                ps <= a < cs && 0 <= j < edges@[a].len() ==> cs <= #[trigger] edges@[a]@[j] < cs + cn,
            forall|c: usize| cs <= c < cs + cn ==> #[trigger] fed_from(edges@, ps as int, cs as int, c),
            forall|a: int, x: usize|
                ps <= a < cs ==> (#[trigger] edges@[a]@.contains(x) <==> full.contains((a - ps, x - cs))),
        decreases (pn - pi) + (cn - ci),
    {
        let ghost row_before = row@;
        let ghost emitted_before = emitted;
        row.push(cs + ci);
        proof {
            emitted = emitted.push((pi as int, ci as int));
            assert forall|x: usize| #[trigger] row@.contains(x) <==> emitted.contains(
                (pi as int, x - cs),
            ) by {
                lemma_push_contains(row_before, (cs + ci) as usize, x);
                lemma_push_contains(emitted_before, (pi as int, ci as int), (pi as int, x - cs));
            }
            assert forall|e: (int, int)| #[trigger] emitted.contains(e) implies e.0 <= pi by {
                lemma_push_contains(emitted_before, (pi as int, ci as int), e);
            }
            assert forall|a: int, x: usize|
                ps <= a < ps + pi implies (#[trigger] edges@[a]@.contains(x) <==> emitted.contains(
                    (a - ps, x - cs),
                )) by {
                lemma_push_contains(emitted_before, (pi as int, ci as int), (a - ps, x - cs));
            }
            assert forall|c: usize| cs <= c <= cs + ci implies #[trigger] fed_from(
                edges@,
                ps as int,
                ps + pi,
                c,
            ) || row@.contains(c) by {
                if c == cs + ci {
                    assert(row@[row_before.len() as int] == c);
                } else if row_before.contains(c) {
                    let j = choose|j: int| 0 <= j < row_before.len() && row_before[j] == c;
                    assert(row@[j] == c);
                }
            }
        }
        let current_is_last = ci == cn - 1;
        let previous_is_last = pi == pn - 1;
        let ghost old_j = j as int;
        let (move_previous, move_current) = if current_is_last && previous_is_last {
            (false, false)
        } else if current_is_last {
            (true, false)
        } else if previous_is_last {
            (false, true)
        } else {
            let d: u8 = if j < choices.len() {
                choices[j]
            } else {
                0
            };
            j += 1;
            if d == 0 {
                (true, false)
            } else if d == 1 {
                (false, true)
            } else {
                (true, true)
            }
        };
        proof {
            let rest = walk_from(pn as int, cn as int, pi as int, ci as int, choices@, old_j);
            let next_pi: int = if move_previous { pi + 1 } else { pi as int };
            let next_ci: int = if move_current { ci + 1 } else { ci as int };
            if move_previous || move_current {
                assert(rest == seq![(pi as int, ci as int)] + walk_from(
                    pn as int,
                    cn as int,
                    next_pi,
                    next_ci,
                    choices@,
                    j as int,
                ));
                assert(full == emitted + walk_from(
                    pn as int,
                    cn as int,
                    next_pi,
                    next_ci,
                    choices@,
                    j as int,
                ));
            } else {
                assert(rest == seq![(pi as int, ci as int)]);
                assert(full =~= emitted);
            }
        }
        if move_previous || !move_current {
            let ghost prev = edges@;
            let ghost full_row = row@;
            let a = ps + pi;
            edges.set(a, row);
            row = Vec::new();
            proof {
                assert(edges@[a as int]@ == full_row);
                assert forall|c: usize|
                    cs <= c <= cs + ci implies #[trigger] fed_from(edges@, ps as int, ps + pi + 1, c) by {
                    if full_row.contains(c) {
                        assert(edges@[a as int]@.contains(c));
                    } else {
                        assert(fed_from(prev, ps as int, ps + pi, c) || full_row.contains(c));
                        let x = choose|x: int| ps <= x < ps + pi && #[trigger] prev[x]@.contains(c);
                        assert(edges@[x] == prev[x]);
                        assert(edges@[x]@.contains(c));
                    }
                }
                assert forall|b: int, x: usize|
                    ps <= b < ps + pi + 1 implies (#[trigger] edges@[b]@.contains(x)
                        <==> emitted.contains((b - ps, x - cs))) by {
                    if b < ps + pi {
                        assert(edges@[b] == prev[b]);
                    }
                }
                assert forall|x: usize| !(#[trigger] row@.contains(x)) && !emitted.contains(
                    (pi + 1, x - cs),
                ) by {
                    if emitted.contains((pi + 1, x - cs)) {
                        assert(emitted.contains((pi + 1, x - cs)) ==> pi + 1 <= pi);
                    }
                }
            }
        }
        let ghost old_pi = pi as int;
        let ghost old_ci = ci as int;
        if !move_previous && !move_current {
            proof {
                assert forall|c: usize| cs <= c < cs + cn implies #[trigger] fed_from(
                    edges@,
                    ps as int,
                    cs as int,
                    c,
                ) by {
                    assert(fed_from(edges@, ps as int, ps + old_pi + 1, c));
                }
                assert forall|a: int, x: usize|
                    ps <= a < cs implies (#[trigger] edges@[a]@.contains(x) <==> full.contains(
                        (a - ps, x - cs),
                    )) by {
                    assert(ps <= a < ps + old_pi + 1);
                }
            }
            break;
        }
        if move_previous {
            pi = pi + 1;
        }
        if move_current {
            ci = ci + 1;
        }
        proof {
            assert forall|c: usize| cs <= c < cs + ci implies #[trigger] fed_from(
                edges@,
                ps as int,
                ps + pi,
                c,
            ) || row@.contains(c) by {
                if move_previous {
                    assert(fed_from(edges@, ps as int, ps + old_pi + 1, c));
                } else {
                    assert(fed_from(edges@, ps as int, ps + old_pi, c) || row@.contains(c));
                }
            }
        }
    }
}

} // verus!
