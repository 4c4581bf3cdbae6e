//! Ore deposits as the map shows them: the ore recorded for each tile of the
//! explored chunks, and the total left in a deposit, that is in all tiles of
//! one ore kind connected side by side to the tile under the cursor.
use vstd::prelude::*;
use crate::world::{chunk_split, tile_to_chunk_local, ChunkCoord, ResourceId, RES_NONE};

verus! {

/// The ore summary kept with one explored chunk: a kind and an amount per
/// tile, in row-major order.
pub struct ExploredChunk {
    pub coord: ChunkCoord,
    pub resource_kinds: Vec<ResourceId>,
    pub resource_amounts: Vec<u16>,
}

/// The ore the map knows on one tile.
#[derive(Debug, Copy, Clone, PartialEq, Eq, Structural)]
pub struct MapResourceCell {
    pub kind: ResourceId,
    pub amount: u16,
}

/// What the map tells of a deposit: its ore and how much is left in it.
#[derive(Debug, Copy, Clone, PartialEq, Eq, Structural)]
pub struct ResourceNodeSummary {
    pub kind: ResourceId,
    pub total: u32,
}

/// `j` is the first explored chunk at `coord`.
pub open spec fn is_first_at(explored: Seq<ExploredChunk>, coord: ChunkCoord, j: int) -> bool {
    &&& 0 <= j < explored.len()
    &&& explored[j].coord == coord
    &&& forall|i: int| 0 <= i < j ==> explored[i].coord != coord
}

/// The explored chunk at `coord`: the first one listed there.
pub open spec fn chunk_at(explored: Seq<ExploredChunk>, coord: ChunkCoord) -> Option<int> {
    if exists|j: int| is_first_at(explored, coord, j) {
        Some(choose|j: int| is_first_at(explored, coord, j))
    } else {
        None
    }
}

proof fn lemma_chunk_at_found(explored: Seq<ExploredChunk>, coord: ChunkCoord, j: int)
    requires
        is_first_at(explored, coord, j),
    ensures
        chunk_at(explored, coord) == Some(j),
{
    let c = choose|k: int| is_first_at(explored, coord, k);
    assert(is_first_at(explored, coord, c));
    if c < j {
        assert(explored[c].coord != coord);
    } else if j < c {
        assert(explored[j].coord != coord);
    }
}

/// The ore recorded at tile `idx` of an explored chunk, if any is left.
pub open spec fn cell_ore(e: ExploredChunk, idx: int) -> Option<MapResourceCell> {
    let kind = if 0 <= idx < e.resource_kinds@.len() {
        e.resource_kinds@[idx]
    } else {
        RES_NONE
    };
    let amount = if 0 <= idx < e.resource_amounts@.len() {
        e.resource_amounts@[idx]
    } else {
        0u16
    };
    if kind == RES_NONE || amount == 0 {
        None
    } else {
        Some(MapResourceCell { kind, amount })
    }
}

/// `x` is an `i32`.
pub open spec fn in_i32(x: int) -> bool {
    i32::MIN <= x <= i32::MAX
}

/// The ore the map shows on global tile `(x, y)`.
pub open spec fn map_cell_spec(explored: Seq<ExploredChunk>, x: int, y: int) -> Option<MapResourceCell> {
    if !(in_i32(x) && in_i32(y)) {
        None
    } else {
        let coord = ChunkCoord { cx: chunk_split(x).0 as i32, cy: chunk_split(y).0 as i32 };
        match chunk_at(explored, coord) {
            Some(j) => cell_ore(explored[j], chunk_split(y).1 * 32 + chunk_split(x).1),
            None => None,
        }
    }
}

fn find_explored(explored: &[ExploredChunk], coord: ChunkCoord) -> (r: Option<usize>)
    ensures
        match r {
            Some(j) => chunk_at(explored@, coord) == Some(j as int),
            None => chunk_at(explored@, coord) is None,
        },
{
    let mut i: usize = 0;
    while i < explored.len()
        invariant
            0 <= i <= explored@.len(),
            forall|k: int| 0 <= k < i ==> explored@[k].coord != coord,
        decreases explored@.len() - i,
    {
        if explored[i].coord == coord {
            proof {
                lemma_chunk_at_found(explored@, coord, i as int);
            }
            return Some(i);
        }
        i = i + 1;
    }
    None
}

fn cell_ore_at(e: &ExploredChunk, idx: usize) -> (r: Option<MapResourceCell>)
    ensures
        r == cell_ore(*e, idx as int),
{
    let kind = if idx < e.resource_kinds.len() {
        e.resource_kinds[idx]
    } else {
        RES_NONE
    };
    let amount = if idx < e.resource_amounts.len() {
        e.resource_amounts[idx]
    } else {
        0
    };
    if kind == RES_NONE || amount == 0 {
        None
    } else {
        Some(MapResourceCell { kind, amount })
    }
}

/// The ore the map shows on global tile `(tile_x, tile_y)`, if any.
pub fn map_resource_at(explored: &[ExploredChunk], tile_x: i32, tile_y: i32) -> (r: Option<MapResourceCell>)
    ensures
        r == map_cell_spec(explored@, tile_x as int, tile_y as int),
{
    let (coord, local_x, local_y) = tile_to_chunk_local(tile_x, tile_y);
    let j = match find_explored(explored, coord) {
        Some(j) => j,
        None => return None,
    };
    let idx = (local_y as usize) * 32 + (local_x as usize);
    cell_ore_at(&explored[j], idx)
}

/// The chunk holding global tile `(x, y)`.
pub open spec fn coord_of(x: int, y: int) -> ChunkCoord {
    ChunkCoord { cx: chunk_split(x).0 as i32, cy: chunk_split(y).0 as i32 }
}

/// Tile `(x, y)` shows ore of `kind` on the map.
pub open spec fn shows_kind(explored: Seq<ExploredChunk>, kind: ResourceId, x: int, y: int) -> bool {
    match map_cell_spec(explored, x, y) {
        Some(c) => c.kind == kind,
        None => false,
    }
}

/// Two tiles share a side.
pub open spec fn side_by_side(a: (int, int), b: (int, int)) -> bool {
    ||| a.1 == b.1 && (a.0 - b.0 == 1 || b.0 - a.0 == 1)
    ||| a.0 == b.0 && (a.1 - b.1 == 1 || b.1 - a.1 == 1)
}

/// A walk from tile to side-sharing tile, all of them showing `kind`.
pub open spec fn is_deposit_path(explored: Seq<ExploredChunk>, kind: ResourceId, path: Seq<(int, int)>) -> bool {
    &&& path.len() > 0
    &&& forall|i: int| 0 <= i < path.len() ==> #[trigger] shows_kind(explored, kind, path[i].0, path[i].1)
    &&& forall|i: int| 0 <= i < path.len() - 1 ==> side_by_side(#[trigger] path[i], path[i + 1])
}

/// Tile `t` belongs to the deposit of `kind` that holds `origin`.
pub open spec fn in_deposit(explored: Seq<ExploredChunk>, kind: ResourceId, origin: (int, int), t: (int, int)) -> bool {
    exists|path: Seq<(int, int)>|
        #[trigger] is_deposit_path(explored, kind, path) && path[0] == origin && path.last() == t
}

/// The global tile of entry `k` of the explored chunks laid end to end, a
/// chunk's tiles in row-major order.
pub open spec fn cell_tile(explored: Seq<ExploredChunk>, k: int) -> (int, int) {
    let c = explored[k / 1024].coord;
    (c.cx * 32 + (k % 1024) % 32, c.cy * 32 + (k % 1024) / 32)
}

/// The ore amount the map records at entry `k`.
pub open spec fn cell_amount(explored: Seq<ExploredChunk>, k: int) -> int {
    match cell_ore(explored[k / 1024], k % 1024) {
        Some(c) => c.amount as int,
        None => 0,
    }
}

/// Entry `k` is the map's own record of a tile of the deposit (a chunk
/// listed twice counts once, by its first record).
pub open spec fn deposit_flag(explored: Seq<ExploredChunk>, kind: ResourceId, origin: (int, int), k: int) -> bool {
    &&& is_first_at(explored, explored[k / 1024].coord, k / 1024)
    &&& in_deposit(explored, kind, origin, cell_tile(explored, k))
}

/// The sum of `weight(k)` over the entries `k < n` whose flag is set.
pub open spec fn weighted_sum(flags: Seq<bool>, weight: spec_fn(int) -> int, n: int) -> int
    decreases n,
{
    if n <= 0 {
        0
    } else {
        weighted_sum(flags, weight, n - 1) + if flags[n - 1] { weight(n - 1) } else { 0 }
    }
}

/// The ore amount of each entry.
pub open spec fn amounts(explored: Seq<ExploredChunk>) -> spec_fn(int) -> int {
    |k: int| cell_amount(explored, k)
}

/// The deposit's tiles, entry by entry.
pub open spec fn deposit_flags(explored: Seq<ExploredChunk>, kind: ResourceId, origin: (int, int)) -> Seq<bool> {
    Seq::new(explored.len() * 1024, |k: int| deposit_flag(explored, kind, origin, k))
}

/// All the ore left in the deposit of `kind` that holds `origin`.
pub open spec fn deposit_total(explored: Seq<ExploredChunk>, kind: ResourceId, origin: (int, int)) -> int {
    weighted_sum(deposit_flags(explored, kind, origin), amounts(explored), (explored.len() * 1024) as int)
}

/// The entry of global tile `(x, y)`, where its chunk is explored.
pub open spec fn tile_index(explored: Seq<ExploredChunk>, x: int, y: int) -> int {
    match chunk_at(explored, coord_of(x, y)) {
        Some(j) => j * 1024 + chunk_split(y).1 * 32 + chunk_split(x).1,
        None => -1,
    }
}

proof fn lemma_split_of(c: int, l: int)
    requires
        0 <= l < 32,
    ensures
        chunk_split(c * 32 + l) == (c, l),
{
    assert((c * 32 + l) / 32 == c && (c * 32 + l) % 32 == l) by (nonlinear_arith)
        requires
            0 <= l < 32,
    ;
}

proof fn lemma_entry_parts(j: int, ly: int, lx: int)
    requires
        0 <= ly < 32,
        0 <= lx < 32,
    ensures
        (j * 1024 + ly * 32 + lx) / 1024 == j,
        (j * 1024 + ly * 32 + lx) % 1024 == ly * 32 + lx,
        (ly * 32 + lx) % 32 == lx,
        (ly * 32 + lx) / 32 == ly,
{
    assert((j * 1024 + ly * 32 + lx) / 1024 == j && (j * 1024 + ly * 32 + lx) % 1024 == ly * 32 + lx
        && (ly * 32 + lx) % 32 == lx && (ly * 32 + lx) / 32 == ly) by (nonlinear_arith)
        requires
            0 <= ly < 32,
            0 <= lx < 32,
    ;
}

proof fn lemma_entry_split(k: int, n: int)
    requires
        0 <= k < n * 1024,
    ensures
        k / 1024 < n,
        k == (k / 1024) * 1024 + ((k % 1024) / 32) * 32 + (k % 1024) % 32,
        0 <= (k % 1024) / 32 < 32,
        0 <= (k % 1024) % 32 < 32,
        k / 1024 >= 0,
{
    assert(k == (k / 1024) * 1024 + ((k % 1024) / 32) * 32 + (k % 1024) % 32
        && 0 <= (k % 1024) / 32 < 32 && 0 <= (k % 1024) % 32 < 32 && k / 1024 >= 0
        && k / 1024 < n) by (nonlinear_arith)
        requires
            0 <= k < n * 1024,
    ;
}

proof fn lemma_tile_entry(explored: Seq<ExploredChunk>, x: int, y: int)
    requires
        in_i32(x),
        in_i32(y),
        chunk_at(explored, coord_of(x, y)) is Some,
    ensures
        ({
            let k = tile_index(explored, x, y);
            &&& 0 <= k < explored.len() * 1024
            &&& k / 1024 == chunk_at(explored, coord_of(x, y))->0
            &&& k % 1024 == chunk_split(y).1 * 32 + chunk_split(x).1
            &&& cell_tile(explored, k) == (x, y)
            &&& is_first_at(explored, explored[k / 1024].coord, k / 1024)
            &&& map_cell_spec(explored, x, y) == cell_ore(explored[k / 1024], k % 1024)
        }),
{
    let coord = coord_of(x, y);
    assert(exists|j: int| is_first_at(explored, coord, j));
    let j = chunk_at(explored, coord)->0;
    assert(is_first_at(explored, coord, j));
    let lx = chunk_split(x).1;
    let ly = chunk_split(y).1;
    lemma_entry_parts(j, ly, lx);
    let k = j * 1024 + ly * 32 + lx;
    assert(k < explored.len() * 1024) by (nonlinear_arith)
        requires
            k == j * 1024 + ly * 32 + lx,
            0 <= j < explored.len(),
            0 <= ly < 32,
            0 <= lx < 32,
    ;
    assert(explored[j].coord == coord);
    assert(x == chunk_split(x).0 * 32 + lx);
    assert(y == chunk_split(y).0 * 32 + ly);
}

proof fn lemma_entry_tile(explored: Seq<ExploredChunk>, k: int)
    requires
        0 <= k < explored.len() * 1024,
        is_first_at(explored, explored[k / 1024].coord, k / 1024),
        in_i32(cell_tile(explored, k).0),
        in_i32(cell_tile(explored, k).1),
    ensures
        chunk_at(explored, coord_of(cell_tile(explored, k).0, cell_tile(explored, k).1)) == Some(k / 1024),
        tile_index(explored, cell_tile(explored, k).0, cell_tile(explored, k).1) == k,
        map_cell_spec(explored, cell_tile(explored, k).0, cell_tile(explored, k).1)
            == cell_ore(explored[k / 1024], k % 1024),
{
    lemma_entry_split(k, explored.len() as int);
    let j = k / 1024;
    let c = explored[j].coord;
    let lx = (k % 1024) % 32;
    let ly = (k % 1024) / 32;
    lemma_split_of(c.cx as int, lx);
    lemma_split_of(c.cy as int, ly);
    let t = cell_tile(explored, k);
    assert(coord_of(t.0, t.1) == c);
    lemma_chunk_at_found(explored, c, j);
}

proof fn lemma_sum_set(flags: Seq<bool>, weight: spec_fn(int) -> int, n: int, k: int)
    requires
        0 <= k < n <= flags.len(),
        !flags[k],
    ensures
        weighted_sum(flags.update(k, true), weight, n) == weighted_sum(flags, weight, n) + weight(k),
    decreases n,
{
    if n - 1 == k {
        lemma_sum_agree(flags.update(k, true), flags, weight, n - 1);
    } else {
        lemma_sum_set(flags, weight, n - 1, k);
    }
}

proof fn lemma_sum_agree(a: Seq<bool>, b: Seq<bool>, weight: spec_fn(int) -> int, n: int)
    requires
        n <= a.len(),
        n <= b.len(),
        forall|i: int| 0 <= i < n ==> a[i] == b[i],
    ensures
        weighted_sum(a, weight, n) == weighted_sum(b, weight, n),
    decreases n,
{
    if n > 0 {
        lemma_sum_agree(a, b, weight, n - 1);
    }
}

proof fn lemma_sum_mono(a: Seq<bool>, b: Seq<bool>, weight: spec_fn(int) -> int, n: int)
    requires
        n <= a.len(),
        n <= b.len(),
        forall|i: int| 0 <= i < n && #[trigger] a[i] ==> b[i],
        forall|i: int| 0 <= i < n ==> #[trigger] weight(i) >= 0,
    ensures
        weighted_sum(a, weight, n) <= weighted_sum(b, weight, n),
    decreases n,
{
    if n > 0 {
        lemma_sum_mono(a, b, weight, n - 1);
        assert(weight(n - 1) >= 0);
    }
}

/// Weight one for every entry: the sum counts the flags that are set.
spec fn unit_weight() -> spec_fn(int) -> int {
    |k: int| 1int
}

proof fn lemma_count_bounds(flags: Seq<bool>, n: int)
    requires
        0 <= n,
    ensures
        0 <= weighted_sum(flags, unit_weight(), n) <= n,
    decreases n,
{
    if n > 0 {
        lemma_count_bounds(flags, n - 1);
    }
}

proof fn lemma_deposit_start(explored: Seq<ExploredChunk>, kind: ResourceId, origin: (int, int))
    requires
        shows_kind(explored, kind, origin.0, origin.1),
    ensures
        in_deposit(explored, kind, origin, origin),
{
    let path = seq![origin];
    assert(is_deposit_path(explored, kind, path));
}

proof fn lemma_deposit_grows(explored: Seq<ExploredChunk>, kind: ResourceId, origin: (int, int), a: (int, int), b: (int, int))
    requires
        in_deposit(explored, kind, origin, a),
        side_by_side(a, b),
        shows_kind(explored, kind, b.0, b.1),
    ensures
        in_deposit(explored, kind, origin, b),
{
    let path = choose|path: Seq<(int, int)>|
        #[trigger] is_deposit_path(explored, kind, path) && path[0] == origin && path.last() == a;
    let longer = path.push(b);
    assert forall|i: int| 0 <= i < longer.len() implies #[trigger] shows_kind(explored, kind, longer[i].0, longer[i].1) by {
        if i < path.len() {
            assert(longer[i] == path[i]);
        }
    }
    assert forall|i: int| 0 <= i < longer.len() - 1 implies side_by_side(#[trigger] longer[i], longer[i + 1]) by {
        if i < path.len() - 1 {
            assert(longer[i] == path[i] && longer[i + 1] == path[i + 1]);
        }
    }
    assert(is_deposit_path(explored, kind, longer));
    assert(longer[0] == origin);
    assert(longer.last() == b);
}

proof fn lemma_deposit_back(explored: Seq<ExploredChunk>, kind: ResourceId, origin: (int, int), t: (int, int))
    requires
        in_deposit(explored, kind, origin, t),
    ensures
        in_deposit(explored, kind, t, origin),
{
    let path = choose|path: Seq<(int, int)>|
        #[trigger] is_deposit_path(explored, kind, path) && path[0] == origin && path.last() == t;
    let n = path.len();
    let back = Seq::new(n, |i: int| path[n - 1 - i]);
    assert forall|i: int| 0 <= i < back.len() implies #[trigger] shows_kind(explored, kind, back[i].0, back[i].1) by {
        assert(shows_kind(explored, kind, path[n - 1 - i].0, path[n - 1 - i].1));
    }
    assert forall|i: int| 0 <= i < back.len() - 1 implies side_by_side(#[trigger] back[i], back[i + 1]) by {
        assert(side_by_side(path[n - 2 - i], path[n - 1 - i]));
    }
    assert(is_deposit_path(explored, kind, back));
    assert(back[0] == t && back.last() == origin);
}

proof fn lemma_deposit_chain(
    explored: Seq<ExploredChunk>,
    kind: ResourceId,
    a: (int, int),
    b: (int, int),
    c: (int, int),
)
    requires
        in_deposit(explored, kind, a, b),
        in_deposit(explored, kind, b, c),
    ensures
        in_deposit(explored, kind, a, c),
{
    let p = choose|path: Seq<(int, int)>|
        #[trigger] is_deposit_path(explored, kind, path) && path[0] == a && path.last() == b;
    let q = choose|path: Seq<(int, int)>|
        #[trigger] is_deposit_path(explored, kind, path) && path[0] == b && path.last() == c;
    let r = p + q.drop_first();
    let m = p.len() as int;
    assert forall|i: int| 0 <= i < r.len() implies #[trigger] shows_kind(explored, kind, r[i].0, r[i].1) by {
        if i < m {
            assert(r[i] == p[i]);
        } else {
            assert(r[i] == q[i - m + 1]);
        }
    }
    assert forall|i: int| 0 <= i < r.len() - 1 implies side_by_side(#[trigger] r[i], r[i + 1]) by {
        if i < m - 1 {
            assert(r[i] == p[i] && r[i + 1] == p[i + 1]);
        } else if i == m - 1 {
            assert(r[i] == p[m - 1] && r[i + 1] == q[1]);
            assert(side_by_side(q[0], q[1]));
        } else {
            assert(r[i] == q[i - m + 1] && r[i + 1] == q[i - m + 2]);
        }
    }
    assert(is_deposit_path(explored, kind, r));
    if q.len() == 1 {
        assert(r =~= p);
    } else {
        assert(r.last() == q.last());
    }
    assert(r[0] == a);
}

/// Every tile of a deposit shows the same deposit: started from any of its
/// tiles, the deposit holds the same tiles and the same total, so the map
/// tells the same summary wherever the cursor rests on it.
pub proof fn lemma_deposit_same_from_any_tile(explored: Seq<ExploredChunk>, kind: ResourceId, origin: (int, int), t: (int, int))
    requires
        in_deposit(explored, kind, origin, t),
    ensures
        shows_kind(explored, kind, t.0, t.1),
        deposit_flags(explored, kind, t) == deposit_flags(explored, kind, origin),
        deposit_total(explored, kind, t) == deposit_total(explored, kind, origin),
{
    let path = choose|path: Seq<(int, int)>|
        #[trigger] is_deposit_path(explored, kind, path) && path[0] == origin && path.last() == t;
    assert(shows_kind(explored, kind, path[path.len() - 1].0, path[path.len() - 1].1));
    lemma_deposit_back(explored, kind, origin, t);
    assert forall|x: (int, int)| in_deposit(explored, kind, t, x) <==> in_deposit(explored, kind, origin, x) by {
        if in_deposit(explored, kind, t, x) {
            lemma_deposit_chain(explored, kind, origin, t, x);
        }
        if in_deposit(explored, kind, origin, x) {
            lemma_deposit_chain(explored, kind, t, origin, x);
        }
    }
    assert(deposit_flags(explored, kind, t) =~= deposit_flags(explored, kind, origin));
}

/// The map's summary is the same over every tile of a deposit.
pub proof fn lemma_summary_same_over_deposit(explored: Seq<ExploredChunk>, origin: (int, int), t: (int, int))
    requires
        map_cell_spec(explored, origin.0, origin.1) is Some,
        in_deposit(explored, map_cell_spec(explored, origin.0, origin.1)->0.kind, origin, t),
    ensures
        summary_spec(explored, t.0, t.1) == summary_spec(explored, origin.0, origin.1),
{
    let kind = map_cell_spec(explored, origin.0, origin.1)->0.kind;
    lemma_deposit_same_from_any_tile(explored, kind, origin, t);
}

/// `(x, y)` is waiting in the work list.
spec fn in_pending(pending: Seq<(i32, i32)>, x: int, y: int) -> bool {
    exists|i: int| 0 <= i < pending.len() && pending[i].0 == x && pending[i].1 == y
}

/// `(x, y)` shows `kind` and its entry is marked.
spec fn marked_tile(explored: Seq<ExploredChunk>, kind: ResourceId, marks: Seq<bool>, x: int, y: int) -> bool {
    shows_kind(explored, kind, x, y) && marks[tile_index(explored, x, y)]
}

/// Nothing is left to learn at `(x, y)`: it waits in the work list, shows
/// no ore of `kind`, or is marked.
spec fn settled(explored: Seq<ExploredChunk>, kind: ResourceId, marks: Seq<bool>, pending: Seq<(i32, i32)>, x: int, y: int) -> bool {
    in_pending(pending, x, y) || !shows_kind(explored, kind, x, y) || marked_tile(explored, kind, marks, x, y)
}

/// The four tiles beside `(x, y)` are settled.
spec fn closed_around(explored: Seq<ExploredChunk>, kind: ResourceId, marks: Seq<bool>, pending: Seq<(i32, i32)>, x: int, y: int) -> bool {
    &&& settled(explored, kind, marks, pending, x + 1, y)
    &&& settled(explored, kind, marks, pending, x - 1, y)
    &&& settled(explored, kind, marks, pending, x, y + 1)
    &&& settled(explored, kind, marks, pending, x, y - 1)
}

proof fn lemma_walk_marked(
    explored: Seq<ExploredChunk>,
    kind: ResourceId,
    marks: Seq<bool>,
    pending: Seq<(i32, i32)>,
    path: Seq<(int, int)>,
    i: int,
)
    requires
        pending.len() == 0,
        is_deposit_path(explored, kind, path),
        marked_tile(explored, kind, marks, path[0].0, path[0].1),
        forall|x: int, y: int| #[trigger] marked_tile(explored, kind, marks, x, y)
            ==> closed_around(explored, kind, marks, pending, x, y),
        0 <= i < path.len(),
    ensures
        marked_tile(explored, kind, marks, path[i].0, path[i].1),
    decreases i,
{
    if i > 0 {
        lemma_walk_marked(explored, kind, marks, pending, path, i - 1);
        let a = path[i - 1];
        let b = path[i];
        assert(side_by_side(path[i - 1], path[i]));
        assert(closed_around(explored, kind, marks, pending, a.0, a.1));
        assert(shows_kind(explored, kind, b.0, b.1));
        assert(!in_pending(pending, b.0, b.1));
    }
}

fn locate_tile(explored: &[ExploredChunk], x: i32, y: i32) -> (r: Option<(usize, usize)>)
    ensures
        match r {
            Some((j, idx)) => chunk_at(explored@, coord_of(x as int, y as int)) == Some(j as int)
                && idx == chunk_split(y as int).1 * 32 + chunk_split(x as int).1,
            None => chunk_at(explored@, coord_of(x as int, y as int)) is None,
        },
{
    let (coord, local_x, local_y) = tile_to_chunk_local(x, y);
    match find_explored(explored, coord) {
        Some(j) => Some((j, (local_y as usize) * 32 + (local_x as usize))),
        None => None,
    }
}

proof fn lemma_sum_none(flags: Seq<bool>, weight: spec_fn(int) -> int, n: int)
    requires
        n <= flags.len(),
        forall|i: int| 0 <= i < n ==> !flags[i],
    ensures
        weighted_sum(flags, weight, n) == 0,
    decreases n,
{
    if n > 0 {
        lemma_sum_none(flags, weight, n - 1);
    }
}

proof fn lemma_settled_carry(
    ex: Seq<ExploredChunk>,
    kind: ResourceId,
    m1: Seq<bool>,
    p1: Seq<(i32, i32)>,
    m2: Seq<bool>,
    p2: Seq<(i32, i32)>,
    x: int,
    y: int,
    a: int,
    b: int,
)
    requires
        settled(ex, kind, m1, p1, a, b),
        in_pending(p1, a, b) ==> in_pending(p2, a, b) || (a == x && b == y),
        marked_tile(ex, kind, m1, a, b) ==> marked_tile(ex, kind, m2, a, b),
        marked_tile(ex, kind, m2, x, y),
    ensures
        settled(ex, kind, m2, p2, a, b),
{
}

/// The map's deposit may be summed: its total fits in a `u32`, and none of
/// its tiles lies on the edge of the `i32` plane, so each has four neighbours.
pub open spec fn deposit_in_range(explored: Seq<ExploredChunk>, kind: ResourceId, origin: (int, int)) -> bool {
    &&& deposit_total(explored, kind, origin) <= u32::MAX
    &&& forall|x: int, y: int| #[trigger] in_deposit(explored, kind, origin, (x, y))
        ==> i32::MIN < x < i32::MAX && i32::MIN < y < i32::MAX
}

/// The map's summary of the deposit under tile `(x, y)`: its ore and the
/// total left, where the map shows ore there and some is left.
pub open spec fn summary_spec(explored: Seq<ExploredChunk>, x: int, y: int) -> Option<ResourceNodeSummary> {
    match map_cell_spec(explored, x, y) {
        None => None,
        Some(o) => if deposit_total(explored, o.kind, (x, y)) > 0 {
            Some(ResourceNodeSummary { kind: o.kind, total: deposit_total(explored, o.kind, (x, y)) as u32 })
        } else {
            None
        },
    }
}

/// What holds between the steps of the search from `(tx, ty)`: marked
/// entries are deposit tiles, each tile in the work list is the start or
/// beside a marked tile (its parent), the neighbours of marked tiles are
/// settled, and the start waits or is marked.
#[verifier::opaque]
spec fn flood_inv(
    ex: Seq<ExploredChunk>,
    kind: ResourceId,
    tx: int,
    ty: int,
    marks: Seq<bool>,
    pending: Seq<(i32, i32)>,
    parents: Seq<int>,
) -> bool {
    &&& shows_kind(ex, kind, tx, ty)
    &&& marks.len() == ex.len() * 1024
    &&& forall|k: int| 0 <= k < marks.len() && #[trigger] marks[k] ==> deposit_flag(ex, kind, (tx, ty), k)
    &&& parents.len() == pending.len()
    &&& forall|i: int| 0 <= i < pending.len() ==> {
        ||| #[trigger] parents[i] == -1 && pending[i].0 == tx && pending[i].1 == ty
        ||| 0 <= parents[i] < marks.len() && marks[parents[i]]
            && side_by_side(cell_tile(ex, parents[i]), (pending[i].0 as int, pending[i].1 as int))
    }
    &&& forall|x: int, y: int| #[trigger] marked_tile(ex, kind, marks, x, y)
        ==> closed_around(ex, kind, marks, pending, x, y)
    &&& in_pending(pending, tx, ty) || marked_tile(ex, kind, marks, tx, ty)
}

proof fn lemma_flood_start(ex: Seq<ExploredChunk>, kind: ResourceId, tx: int, ty: int, marks: Seq<bool>, pending: Seq<(i32, i32)>)
    requires
        shows_kind(ex, kind, tx, ty),
        marks.len() == ex.len() * 1024,
        forall|k: int| 0 <= k < marks.len() ==> !marks[k],
        pending.len() == 1,
        pending[0].0 == tx,
        pending[0].1 == ty,
    ensures
        flood_inv(ex, kind, tx, ty, marks, pending, seq![-1int]),
{
    reveal(flood_inv);
    assert(in_pending(pending, tx, ty));
    assert forall|x: int, y: int| #[trigger] marked_tile(ex, kind, marks, x, y)
        implies closed_around(ex, kind, marks, pending, x, y) by {
        lemma_tile_entry(ex, x, y);
    }
}

/// The last tile of the work list is dropped: it shows no ore of the
/// deposit's kind, or it is marked already.
proof fn lemma_flood_skip(
    ex: Seq<ExploredChunk>,
    kind: ResourceId,
    tx: int,
    ty: int,
    marks: Seq<bool>,
    pending: Seq<(i32, i32)>,
    parents: Seq<int>,
)
    requires
        flood_inv(ex, kind, tx, ty, marks, pending, parents),
        pending.len() > 0,
        !shows_kind(ex, kind, pending.last().0 as int, pending.last().1 as int)
            || marked_tile(ex, kind, marks, pending.last().0 as int, pending.last().1 as int),
    ensures
        flood_inv(ex, kind, tx, ty, marks, pending.drop_last(), parents.drop_last()),
{
    reveal(flood_inv);
    let rest = pending.drop_last();
    let p = pending.last();
    assert forall|x: int, y: int| in_pending(pending, x, y) && !(x == p.0 && y == p.1)
        implies #[trigger] in_pending(rest, x, y) by {
        let i = choose|i: int| 0 <= i < pending.len() && pending[i].0 == x && pending[i].1 == y;
        assert(i < rest.len());
        assert(rest[i] == pending[i]);
    }
    assert forall|x: int, y: int| #[trigger] marked_tile(ex, kind, marks, x, y)
        implies closed_around(ex, kind, marks, rest, x, y) by {
        assert(closed_around(ex, kind, marks, pending, x, y));
        assert(in_pending(pending, x + 1, y) ==> in_pending(rest, x + 1, y) || (x + 1 == p.0 && y == p.1));
        assert(in_pending(pending, x - 1, y) ==> in_pending(rest, x - 1, y) || (x - 1 == p.0 && y == p.1));
        assert(in_pending(pending, x, y + 1) ==> in_pending(rest, x, y + 1) || (x == p.0 && y + 1 == p.1));
        assert(in_pending(pending, x, y - 1) ==> in_pending(rest, x, y - 1) || (x == p.0 && y - 1 == p.1));
    }
    assert(in_pending(pending, tx, ty) ==> in_pending(rest, tx, ty) || (tx == p.0 && ty == p.1));
    let rp = parents.drop_last();
    assert forall|i: int| 0 <= i < rest.len() implies {
        ||| #[trigger] rp[i] == -1 && rest[i].0 == tx && rest[i].1 == ty
        ||| 0 <= rp[i] < marks.len() && marks[rp[i]]
            && side_by_side(cell_tile(ex, rp[i]), (rest[i].0 as int, rest[i].1 as int))
    } by {
        assert(rp[i] == parents[i] && rest[i] == pending[i]);
    }
}

/// When the work list is empty, the marks are exactly the deposit's tiles.
proof fn lemma_flood_done(ex: Seq<ExploredChunk>, kind: ResourceId, tx: int, ty: int, marks: Seq<bool>, pending: Seq<(i32, i32)>, parents: Seq<int>)
    requires
        flood_inv(ex, kind, tx, ty, marks, pending, parents),
        pending.len() == 0,
    ensures
        marks == deposit_flags(ex, kind, (tx, ty)),
{
    reveal(flood_inv);
    let flags = deposit_flags(ex, kind, (tx, ty));
    assert(!in_pending(pending, tx, ty));
    assert forall|k: int| 0 <= k < marks.len() implies marks[k] == flags[k] by {
        if flags[k] {
            assert(deposit_flag(ex, kind, (tx, ty), k));
            let t = cell_tile(ex, k);
            let path = choose|path: Seq<(int, int)>|
                #[trigger] is_deposit_path(ex, kind, path) && path[0] == (tx, ty) && path.last() == t;
            lemma_walk_marked(ex, kind, marks, pending, path, path.len() - 1);
            assert(shows_kind(ex, kind, t.0, t.1));
            lemma_entry_tile(ex, k);
        }
    }
}

/// The last tile of the work list, where it shows the deposit's ore,
/// belongs to the deposit.
proof fn lemma_flood_reach(
    ex: Seq<ExploredChunk>,
    kind: ResourceId,
    tx: int,
    ty: int,
    marks: Seq<bool>,
    pending: Seq<(i32, i32)>,
    parents: Seq<int>,
)
    requires
        flood_inv(ex, kind, tx, ty, marks, pending, parents),
        pending.len() > 0,
        shows_kind(ex, kind, pending.last().0 as int, pending.last().1 as int),
    ensures
        in_deposit(ex, kind, (tx, ty), (pending.last().0 as int, pending.last().1 as int)),
{
    reveal(flood_inv);
    let i = pending.len() - 1;
    let p = (pending[i].0 as int, pending[i].1 as int);
    if parents[i] == -1 && pending[i].0 == tx && pending[i].1 == ty {
        lemma_deposit_start(ex, kind, (tx, ty));
    } else {
        let q = parents[i];
        assert(marks[q]);
        assert(deposit_flag(ex, kind, (tx, ty), q));
        lemma_deposit_grows(ex, kind, (tx, ty), cell_tile(ex, q), p);
    }
}

/// Marking entry `k` adds its amount to the marked sum, which stays within
/// the deposit's total.
proof fn lemma_flood_total(ex: Seq<ExploredChunk>, kind: ResourceId, tx: int, ty: int, marks: Seq<bool>, k: int)
    requires
        marks.len() == ex.len() * 1024,
        forall|i: int| 0 <= i < marks.len() && #[trigger] marks[i] ==> deposit_flag(ex, kind, (tx, ty), i),
        0 <= k < marks.len(),
        !marks[k],
        deposit_flag(ex, kind, (tx, ty), k),
    ensures
        weighted_sum(marks.update(k, true), amounts(ex), marks.len() as int)
            == weighted_sum(marks, amounts(ex), marks.len() as int) + cell_amount(ex, k),
        weighted_sum(marks.update(k, true), amounts(ex), marks.len() as int) <= deposit_total(ex, kind, (tx, ty)),
        weighted_sum(marks.update(k, true), unit_weight(), marks.len() as int)
            == weighted_sum(marks, unit_weight(), marks.len() as int) + 1,
{
    let n = marks.len() as int;
    lemma_sum_set(marks, amounts(ex), n, k);
    lemma_sum_set(marks, unit_weight(), n, k);
    let flags = deposit_flags(ex, kind, (tx, ty));
    let m2 = marks.update(k, true);
    assert forall|i: int| 0 <= i < n && #[trigger] m2[i] implies flags[i] by {
        if i != k {
            assert(marks[i]);
        }
    }
    assert forall|i: int| 0 <= i < n implies #[trigger] amounts(ex)(i) >= 0 by {
        assert(cell_amount(ex, i) >= 0);
    }
    lemma_sum_mono(m2, flags, amounts(ex), n);
}

/// The last tile `(x, y)` of the work list shows the deposit's ore and its
/// entry `k` is not marked: it is marked and its four neighbours join the
/// list.
proof fn lemma_flood_mark(
    ex: Seq<ExploredChunk>,
    kind: ResourceId,
    tx: int,
    ty: int,
    marks: Seq<bool>,
    pending: Seq<(i32, i32)>,
    parents: Seq<int>,
    grown: Seq<(i32, i32)>,
    x: int,
    y: int,
    k: int,
)
    requires
        flood_inv(ex, kind, tx, ty, marks, pending, parents),
        pending.len() > 0,
        pending.last().0 == x,
        pending.last().1 == y,
        shows_kind(ex, kind, x, y),
        k == tile_index(ex, x, y),
        !marks[k],
        grown.len() == pending.len() + 3,
        forall|i: int| 0 <= i < pending.len() - 1 ==> grown[i] == pending[i],
        grown[pending.len() - 1].0 == x + 1 && grown[pending.len() - 1].1 == y,
        grown[pending.len() as int].0 == x - 1 && grown[pending.len() as int].1 == y,
        grown[pending.len() + 1int].0 == x && grown[pending.len() + 1int].1 == y + 1,
        grown[pending.len() + 2int].0 == x && grown[pending.len() + 2int].1 == y - 1,
    ensures
        flood_inv(ex, kind, tx, ty, marks.update(k, true), grown, parents.drop_last() + seq![k, k, k, k]),
{
    lemma_flood_reach(ex, kind, tx, ty, marks, pending, parents);
    reveal(flood_inv);
    lemma_tile_entry(ex, x, y);
    let m2 = marks.update(k, true);
    let pa2 = parents.drop_last() + seq![k, k, k, k];
    let last = pending.len() - 1;
    assert(deposit_flag(ex, kind, (tx, ty), k));
    assert(marked_tile(ex, kind, m2, x, y));
    assert forall|a: int, b: int| in_pending(pending, a, b) implies #[trigger] in_pending(grown, a, b) || (a == x && b == y) by {
        let i = choose|i: int| 0 <= i < pending.len() && pending[i].0 == a && pending[i].1 == b;
        if i < last {
            assert(grown[i] == pending[i]);
        }
    }
    assert forall|a: int, b: int| #[trigger] marked_tile(ex, kind, marks, a, b) implies marked_tile(ex, kind, m2, a, b) by {
        lemma_tile_entry(ex, a, b);
    }
    assert forall|a: int, b: int| #[trigger] marked_tile(ex, kind, m2, a, b) implies closed_around(ex, kind, m2, grown, a, b) by {
        lemma_tile_entry(ex, a, b);
        if tile_index(ex, a, b) == k {
            assert(a == x && b == y);
            assert(in_pending(grown, x + 1, y)) by { assert(grown[last].0 == x + 1 && grown[last].1 == y); }
            assert(in_pending(grown, x - 1, y)) by { assert(grown[last + 1].0 == x - 1 && grown[last + 1].1 == y); }
            assert(in_pending(grown, x, y + 1)) by { assert(grown[last + 2].0 == x && grown[last + 2].1 == y + 1); }
            assert(in_pending(grown, x, y - 1)) by { assert(grown[last + 3].0 == x && grown[last + 3].1 == y - 1); }
        } else {
            assert(marked_tile(ex, kind, marks, a, b));
            assert(closed_around(ex, kind, marks, pending, a, b));
            lemma_settled_carry(ex, kind, marks, pending, m2, grown, x, y, a + 1, b);
            lemma_settled_carry(ex, kind, marks, pending, m2, grown, x, y, a - 1, b);
            lemma_settled_carry(ex, kind, marks, pending, m2, grown, x, y, a, b + 1);
            lemma_settled_carry(ex, kind, marks, pending, m2, grown, x, y, a, b - 1);
        }
    }
    assert forall|i: int| 0 <= i < grown.len() implies {
        ||| #[trigger] pa2[i] == -1 && grown[i].0 == tx && grown[i].1 == ty
        ||| 0 <= pa2[i] < m2.len() && m2[pa2[i]]
            && side_by_side(cell_tile(ex, pa2[i]), (grown[i].0 as int, grown[i].1 as int))
    } by {
        if i < last {
            assert(pa2[i] == parents[i] && grown[i] == pending[i]);
        } else {
            assert(pa2[i] == k);
        }
    }
    assert forall|i: int| 0 <= i < m2.len() && #[trigger] m2[i] implies deposit_flag(ex, kind, (tx, ty), i) by {
        if i != k {
            assert(marks[i]);
        }
    }
    assert(in_pending(pending, tx, ty) ==> in_pending(grown, tx, ty) || (tx == x && ty == y));
}

/// The deposit under tile `(x, y)` may be summed: the map shows no ore
/// there, or its deposit is in range.
pub open spec fn deposit_summable(explored: Seq<ExploredChunk>, x: int, y: int) -> bool {
    match map_cell_spec(explored, x, y) {
        Some(o) => deposit_in_range(explored, o.kind, (x, y)),
        None => true,
    }
}

/// A tile with four neighbours in the `i32` plane.
pub open spec fn inner_tile(t: (int, int)) -> bool {
    i32::MIN < t.0 < i32::MAX && i32::MIN < t.1 < i32::MAX
}

/// The deposit under tile `(tile_x, tile_y)`: the ore the map shows there and
/// the total left in every explored tile of that ore reached from it side by
/// side; `None` where the map shows no ore on that tile.
pub fn map_resource_node_summary(explored: &[ExploredChunk], tile_x: i32, tile_y: i32) -> (r: Option<ResourceNodeSummary>)
    requires
        explored@.len() * 1024 <= usize::MAX,
        deposit_summable(explored@, tile_x as int, tile_y as int),
    ensures
        r == summary_spec(explored@, tile_x as int, tile_y as int),
{
    match sum_deposit(explored, tile_x, tile_y) {
        Some(r) => r,
        None => None,
    }
}

/// The deposit under tile `(tile_x, tile_y)` as `map_resource_node_summary`
/// gives it, where it can be summed; `None` where the explored chunks are
/// too many to index or the deposit is out of range (its total beyond a
/// `u32`, or a tile of it on the edge of the `i32` plane).
pub fn map_resource_node_summary_checked(explored: &[ExploredChunk], tile_x: i32, tile_y: i32) -> (r: Option<ResourceNodeSummary>)
    ensures
        r == if explored@.len() * 1024 <= usize::MAX && deposit_summable(explored@, tile_x as int, tile_y as int) {
            summary_spec(explored@, tile_x as int, tile_y as int)
        } else {
            None
        },
{
    if explored.len() > usize::MAX / 1024 {
        return None;
    }
    match sum_deposit(explored, tile_x, tile_y) {
        Some(r) => r,
        None => None,
    }
}

/// Sums the deposit under tile `(tile_x, tile_y)` by a search over the
/// explored tiles, giving up (`None`) on finding it out of range.
fn sum_deposit(explored: &[ExploredChunk], tile_x: i32, tile_y: i32) -> (r: Option<Option<ResourceNodeSummary>>)
    requires
        explored@.len() * 1024 <= usize::MAX,
    ensures
        r is Some <==> deposit_summable(explored@, tile_x as int, tile_y as int),
        r matches Some(s) ==> s == summary_spec(explored@, tile_x as int, tile_y as int),
{
    let origin_cell = match map_resource_at(explored, tile_x, tile_y) {
        Some(c) => c,
        None => return Some(None),
    };
    let kind = origin_cell.kind;
    let ghost ex = explored@;
    let n = explored.len() * 1024;
    let mut marks: Vec<bool> = Vec::new();
    while marks.len() < n
        invariant
            marks@.len() <= n,
            forall|k: int| 0 <= k < marks@.len() ==> !marks@[k],
        decreases n - marks@.len(),
    {
        marks.push(false);
    }
    let mut pending: Vec<(i32, i32)> = Vec::new();
    pending.push((tile_x, tile_y));
    let ghost mut parents: Seq<int> = seq![-1int];
    let mut total: u64 = 0;
    proof {
        lemma_flood_start(ex, kind, tile_x as int, tile_y as int, marks@, pending@);
        lemma_sum_none(marks@, amounts(ex), n as int);
    }
    while pending.len() > 0
        invariant
            ex == explored@,
            n == ex.len() * 1024,
            map_cell_spec(ex, tile_x as int, tile_y as int) == Some(origin_cell),
            kind == origin_cell.kind,
            flood_inv(ex, kind, tile_x as int, tile_y as int, marks@, pending@, parents),
            marks@.len() == n,
            total == weighted_sum(marks@, amounts(ex), n as int),
            total <= u32::MAX,
            forall|k: int| 0 <= k < marks@.len() && #[trigger] marks@[k] ==> inner_tile(cell_tile(ex, k)),
        decreases pending@.len() + 4 * (n - weighted_sum(marks@, unit_weight(), n as int)),
    {
        proof {
            lemma_count_bounds(marks@, n as int);
        }
        let ghost old_pending = pending@;
        let ghost old_parents = parents;
        let ghost old_marks = marks@;
        let (x, y) = pending.pop().unwrap();
        let mut grew = false;
        if let Some((j, idx)) = locate_tile(explored, x, y) {
            if let Some(cell) = cell_ore_at(&explored[j], idx) {
                proof {
                    lemma_tile_entry(ex, x as int, y as int);
                }
                let k = j * 1024 + idx;
                if cell.kind == kind && !marks[k] {
                    proof {
                        lemma_flood_reach(ex, kind, tile_x as int, tile_y as int, old_marks, old_pending, old_parents);
                        reveal(flood_inv);
                        lemma_flood_total(ex, kind, tile_x as int, tile_y as int, old_marks, k as int);
                        assert(in_deposit(ex, kind, (tile_x as int, tile_y as int), (x as int, y as int)));
                    }
                    if x == i32::MIN || x == i32::MAX || y == i32::MIN || y == i32::MAX {
                        return None;
                    }
                    total = total + cell.amount as u64;
                    if total > 0xffff_ffff {
                        return None;
                    }
                    marks.set(k, true);
                    pending.push((x + 1, y));
                    pending.push((x - 1, y));
                    pending.push((x, y + 1));
                    pending.push((x, y - 1));
                    proof {
                        lemma_flood_mark(
                            ex,
                            kind,
                            tile_x as int,
                            tile_y as int,
                            old_marks,
                            old_pending,
                            old_parents,
                            pending@,
                            x as int,
                            y as int,
                            k as int,
                        );
                        parents = old_parents.drop_last() + seq![k as int, k as int, k as int, k as int];
                    }
                    grew = true;
                }
            }
        }
        if !grew {
            proof {
                lemma_flood_skip(ex, kind, tile_x as int, tile_y as int, marks@, old_pending, old_parents);
                parents = old_parents.drop_last();
            }
        }
    }
    proof {
        lemma_flood_done(ex, kind, tile_x as int, tile_y as int, marks@, pending@, parents);
        assert forall|x: int, y: int| #[trigger] in_deposit(ex, kind, (tile_x as int, tile_y as int), (x, y))
            implies i32::MIN < x < i32::MAX && i32::MIN < y < i32::MAX by {
            let path = choose|path: Seq<(int, int)>|
                #[trigger] is_deposit_path(ex, kind, path) && path[0] == (tile_x as int, tile_y as int)
                    && path.last() == (x, y);
            assert(shows_kind(ex, kind, path[path.len() - 1].0, path[path.len() - 1].1));
            lemma_tile_entry(ex, x, y);
            let k = tile_index(ex, x, y);
            assert(deposit_flag(ex, kind, (tile_x as int, tile_y as int), k));
            assert(marks@[k]);
        }
    }
    if total > 0 {
        Some(Some(ResourceNodeSummary { kind, total: total as u32 }))
    } else {
        Some(None)
    }
}

} // verus!
