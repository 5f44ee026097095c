//! Connected regions of air ("pockets").

use vstd::prelude::*;

use crate::grid::{lemma_index_inside, lemma_index_position, Grid, World};
use crate::tile::TileId;

verus! {

/// One connected region of air cells, over the four sides of a cell.
#[derive(Debug, Clone, Copy)]
pub struct Region {
    pub min_y: u32,
    pub max_y: u32,
    pub cells: u32,
    /// The region reaches above the sky row: it is no enclosed pocket.
    pub open_to_sky: bool,
}

/// A label for every cell and the figures of each region. Label 0 is a cell
/// that is not air; region `id` is `regions[id - 1]`.
pub struct Pockets {
    pub label: Vec<u32>,
    pub regions: Vec<Region>,
}

/// The cell `i` of the grid is air.
pub open spec fn air(g: Grid, i: int) -> bool {
    0 <= i < g.cells.len() && g.cells[i].id == TileId::Air
}

/// The cells `i` and `j` share a side.
pub open spec fn beside(g: Grid, i: int, j: int) -> bool {
    let (x, y) = (i % g.width, i / g.width);
    let (a, b) = (j % g.width, j / g.width);
    ||| (b == y && (a == x - 1 || a == x + 1))
    ||| (a == x && (b == y - 1 || b == y + 1))
}

/// `path` leads through air from side to side.
pub open spec fn air_path(g: Grid, path: Seq<int>) -> bool {
    &&& path.len() > 0
    &&& forall|k: int| 0 <= k < path.len() ==> #[trigger] air(g, path[k])
    &&& forall|k: int| #![trigger path[k]] 1 <= k < path.len() ==> beside(g, path[k - 1], path[k])
}

/// Air leads from the cell `i` to the cell `j`.
pub open spec fn connected(g: Grid, i: int, j: int) -> bool {
    exists|path: Seq<int>| #[trigger]
        air_path(g, path) && path.first() == i && path.last() == j
}

/// Both cells are air.
pub open spec fn together(g: Grid, i: int, j: int) -> bool {
    air(g, i) && air(g, j)
}

/// The cells with label `id`.
pub open spec fn members(label: Seq<u32>, id: int) -> Set<int> {
    Set::new(|i: int| 0 <= i < label.len() && label[i] == id)
}

/// The figures of the region that consists of `cells`.
pub open spec fn describes(g: Grid, cells: Set<int>, sky_row: int, r: Region) -> bool {
    &&& r.cells == cells.len()
    &&& exists|i: int| cells.contains(i) && #[trigger] (i / g.width) == r.min_y
    &&& exists|i: int| cells.contains(i) && #[trigger] (i / g.width) == r.max_y
    &&& forall|i: int| #[trigger] cells.contains(i) ==> r.min_y <= i / g.width <= r.max_y
    &&& r.open_to_sky <==> exists|i: int| cells.contains(i) && #[trigger] (i / g.width) < sky_row
}

/// A cell with a label has the label of all its air neighbours.
pub open spec fn closed_up(g: Grid, label: Seq<u32>) -> bool {
    forall|i: int, j: int|
        #![trigger label[i], label[j]]
        air(g, i) && air(g, j) && label[i] != 0 && beside(g, i, j) ==> label[j] == label[i]
}

/// The cells without a label.
spec fn blank(label: Seq<u32>) -> Set<int> {
    Set::new(|i: int| 0 <= i < label.len() && label[i] == 0)
}

proof fn lemma_blank_finite(label: Seq<u32>)
    ensures
        blank(label).finite(),
        blank(label).len() <= label.len(),
{
    vstd::set_lib::lemma_int_range(0, label.len() as int);
    vstd::set_lib::lemma_len_subset(
        blank(label),
        vstd::set_lib::set_int_range(0, label.len() as int),
    );
}

/// A path can be extended by a neighbour.
proof fn lemma_connected_step(g: Grid, start: int, i: int, j: int)
    requires
        connected(g, start, i),
        air(g, j),
        beside(g, i, j),
    ensures
        connected(g, start, j),
{
    let path = choose|path: Seq<int>| #[trigger]
        air_path(g, path) && path.first() == start && path.last() == i;
    let longer = path.push(j);
    assert forall|k: int| 0 <= k < longer.len() implies #[trigger] air(g, longer[k]) by {
        if k < path.len() {
            assert(air(g, path[k]));
        }
    }
    assert forall|k: int| #![trigger longer[k]] 1 <= k < longer.len() implies beside(
        g,
        longer[k - 1],
        longer[k],
    ) by {
        if k < path.len() {
            assert(path[k] == longer[k]);
        }
    }
    assert(air_path(g, longer));
}

/// Along a path every cell has the label of the first.
proof fn lemma_path_label(g: Grid, label: Seq<u32>, path: Seq<int>, k: int)
    requires
        closed_up(g, label),
        air_path(g, path),
        label[path[0]] != 0,
        0 <= k < path.len(),
    ensures
        label[path[k]] == label[path[0]],
    decreases k,
{
    if k > 0 {
        lemma_path_label(g, label, path, k - 1);
        assert(air(g, path[k - 1]));
        assert(air(g, path[k]));
        assert(beside(g, path[k - 1], path[k]));
    }
}

/// The neighbours of the cell `i` are the cells at distance one in its row
/// and at distance one row.
proof fn lemma_beside(g: Grid, i: int)
    requires
        g.wf(),
        0 <= i < g.cells.len(),
    ensures
        g.width > 0,
        0 <= i % g.width < g.width,
        0 <= i / g.width < g.height,
        i % g.width > 0 ==> beside(g, i, i - 1) && 0 <= i - 1,
        i % g.width + 1 < g.width ==> beside(g, i, i + 1) && i + 1 < g.cells.len(),
        i / g.width > 0 ==> beside(g, i, i - g.width) && 0 <= i - g.width,
        i / g.width + 1 < g.height ==> beside(g, i, i + g.width) && i + g.width < g.cells.len(),
        forall|j: int|
            0 <= j < g.cells.len() && #[trigger] beside(g, i, j) ==> {
                ||| i % g.width > 0 && j == i - 1
                ||| i % g.width + 1 < g.width && j == i + 1
                ||| i / g.width > 0 && j == i - g.width
                ||| i / g.width + 1 < g.height && j == i + g.width
            },
{
    let w = g.width;
    lemma_index_position(g, i);
    let (x, y) = (i % w, i / w);
    assert(i == y * w + x);
    if x > 0 {
        vstd::arithmetic::div_mod::lemma_fundamental_div_mod_converse(i - 1, w, y, x - 1);
        lemma_index_inside(g, x - 1, y);
    }
    if x + 1 < w {
        vstd::arithmetic::div_mod::lemma_fundamental_div_mod_converse(i + 1, w, y, x + 1);
        lemma_index_inside(g, x + 1, y);
    }
    assert((y - 1) * w == y * w - w) by (nonlinear_arith);
    assert((y + 1) * w == y * w + w) by (nonlinear_arith);
    if y > 0 {
        vstd::arithmetic::div_mod::lemma_fundamental_div_mod_converse(i - w, w, y - 1, x);
        lemma_index_inside(g, x, y - 1);
    }
    if y + 1 < g.height {
        vstd::arithmetic::div_mod::lemma_fundamental_div_mod_converse(i + w, w, y + 1, x);
        lemma_index_inside(g, x, y + 1);
    }
    assert forall|j: int| 0 <= j < g.cells.len() && #[trigger] beside(g, i, j) implies {
        ||| x > 0 && j == i - 1
        ||| x + 1 < w && j == i + 1
        ||| y > 0 && j == i - w
        ||| y + 1 < g.height && j == i + w
    } by {
        lemma_index_position(g, j);
    }
}

/// One visit grows a region: what it changed in the labels, and what came on
/// the stack.
spec fn grown(
    g: Grid,
    id: u32,
    centre: int,
    label: Seq<u32>,
    stack: Seq<u32>,
    label2: Seq<u32>,
    stack2: Seq<u32>,
) -> bool {
    &&& label2.len() == label.len()
    &&& forall|i: int|
        #![trigger label2[i]]
        0 <= i < label.len() && label2[i] != label[i] ==> {
            &&& label[i] == 0
            &&& label2[i] == id
            &&& air(g, i)
            &&& beside(g, centre, i)
            &&& stack2.contains(i as u32)
        }
    &&& stack2.no_duplicates()
    &&& forall|c: u32| #[trigger] stack.contains(c) ==> stack2.contains(c)
    &&& forall|c: u32| #[trigger]
        stack2.contains(c) ==> (c < label.len() && label2[c as int] == id) && (stack.contains(c)
            || label[c as int] == 0)
    &&& blank(label2).len() + stack2.len() == blank(label).len() + stack.len()
}

/// Labels the cell `n` if it is air without a label, and stacks it.
fn visit(
    world: &World,
    label: &mut Vec<u32>,
    stack: &mut Vec<u32>,
    n: usize,
    id: u32,
    Ghost(centre): Ghost<int>,
)
    requires
        world.wf(),
        old(label).len() == world@.cells.len(),
        n < old(label).len(),
        id != 0,
        beside(world@, centre, n as int),
        old(stack)@.no_duplicates(),
        forall|c: u32| #[trigger]
            old(stack)@.contains(c) ==> c < old(label).len() && old(label)@[c as int] == id,
    ensures
        grown(world@, id, centre, old(label)@, old(stack)@, final(label)@, final(stack)@),
        air(world@, n as int) ==> final(label)@[n as int] != 0,
{
    if label[n] == 0 && world.tiles[n].id == TileId::Air {
        let ghost (label0, stack0) = (label@, stack@);
        label.set(n, id);
        stack.push(n as u32);
        proof {
            assert(!stack0.contains(n as u32));
            assert(stack@[stack0.len() as int] == n as u32);
            assert forall|c: u32| stack0.contains(c) implies #[trigger] stack@.contains(c) by {
                let k = stack0.index_of(c);
                assert(stack@[k] == c);
            }
            assert forall|c: u32| #[trigger] stack@.contains(c) implies c == n as u32
                || stack0.contains(c) by {
                let k = stack@.index_of(c);
                if k < stack0.len() {
                    assert(stack0[k] == c);
                }
            }
            lemma_blank_finite(label0);
            assert(blank(label@) =~= blank(label0).remove(n as int));
        }
    }
}

proof fn lemma_grown_trans(
    g: Grid,
    id: u32,
    centre: int,
    l1: Seq<u32>,
    s1: Seq<u32>,
    l2: Seq<u32>,
    s2: Seq<u32>,
    l3: Seq<u32>,
    s3: Seq<u32>,
)
    requires
        grown(g, id, centre, l1, s1, l2, s2),
        grown(g, id, centre, l2, s2, l3, s3),
    ensures
        grown(g, id, centre, l1, s1, l3, s3),
{
    assert forall|i: int| #![trigger l3[i]] 0 <= i < l1.len() && l3[i] != l1[i] implies {
        &&& l1[i] == 0
        &&& l3[i] == id
        &&& air(g, i)
        &&& beside(g, centre, i)
        &&& s3.contains(i as u32)
    } by {
        if l2[i] != l1[i] {
            assert(s2.contains(i as u32));
        }
    }
    assert forall|c: u32| #[trigger] s3.contains(c) implies (c < l1.len() && l3[c as int] == id)
        && (s1.contains(c) || l1[c as int] == 0) by {
        if s2.contains(c) {
        } else {
            assert(l2[c as int] == 0);
            assert(l1[c as int] == 0 || l2[c as int] != l1[c as int]);
        }
    }
}

/// One cell is taken from the stack and its neighbours are visited: what was
/// finished stays finished, and that cell now is too.
#[verifier::rlimit(30)]
proof fn lemma_iteration(
    g: Grid,
    id: u32,
    start: int,
    label0: Seq<u32>,
    label1: Seq<u32>,
    stack1: Seq<u32>,
    done1: Set<int>,
    top: u32,
    stack2: Seq<u32>,
    label: Seq<u32>,
    stack: Seq<u32>,
)
    requires
        g.cells.len() <= u32::MAX,
        label0.len() == g.cells.len(),
        label1.len() == g.cells.len(),
        id != 0,
        closed_up(g, label0),
        forall|i: int| 0 <= i < label0.len() ==> #[trigger] label0[i] != id,
        forall|i: int|
            #![trigger label1[i]]
            0 <= i < label0.len() && label1[i] != label0[i] ==> label0[i] == 0 && label1[i] == id
                && air(g, i),
        forall|c: u32| #[trigger] stack1.contains(c) ==> c < label1.len() && label1[c as int] == id,
        forall|i: int| #[trigger]
            done1.contains(i) <==> 0 <= i < label1.len() && label1[i] == id && !stack1.contains(
                i as u32,
            ),
        forall|i: int, j: int|
            #![trigger done1.contains(i), label1[j]]
            done1.contains(i) && air(g, j) && beside(g, i, j) ==> label1[j] == id,
        forall|i: int|
            0 <= i < label1.len() && #[trigger] label1[i] == id ==> connected(g, start, i),
        stack1.contains(top),
        forall|c: u32| #[trigger] stack2.contains(c) <==> stack1.contains(c) && c != top,
        grown(g, id, top as int, label1, stack2, label, stack),
        air(g, top as int),
        forall|j: int| air(g, j) && #[trigger] beside(g, top as int, j) ==> label[j] != 0,
    ensures
        forall|i: int|
            #![trigger label[i]]
            0 <= i < label0.len() && label[i] != label0[i] ==> label0[i] == 0 && label[i] == id
                && air(g, i),
        forall|i: int| #[trigger]
            done1.insert(top as int).contains(i) <==> 0 <= i < label.len() && label[i] == id
                && !stack.contains(i as u32),
        forall|i: int, j: int|
            #![trigger done1.insert(top as int).contains(i), label[j]]
            done1.insert(top as int).contains(i) && air(g, j) && beside(g, i, j) ==> label[j] == id,
        forall|i: int|
            0 <= i < label.len() && #[trigger] label[i] == id ==> connected(g, start, i),
{
    let c = top as int;
    let done = done1.insert(c);
    assert forall|i: int|
        #![trigger label[i]]
        0 <= i < label0.len() && label[i] != label0[i] implies label0[i] == 0 && label[i] == id
        && air(g, i) by {
        assert(label1[i] == label0[i] || label1[i] != label0[i]);
    }
    assert forall|j: int| air(g, j) && #[trigger] beside(g, c, j) implies label[j] == id by {
        if label[j] != id {
            assert(label0[j] == label[j]);
            assert(beside(g, j, c));
            assert(label0[c] == label0[j]);
            assert(label1[c] == label0[c]);
        }
    }
    assert forall|i: int| #[trigger] done.contains(i) <==> 0 <= i < label.len() && label[i] == id
        && !stack.contains(i as u32) by {
        if done.contains(i) {
            if i == c {
                assert(label1[c] == id);
                assert(label[c] == id);
                assert(!stack2.contains(top));
            } else {
                assert(done1.contains(i));
                assert(label1[i] == id);
                assert(label[i] == id);
                assert(!stack1.contains(i as u32));
                assert(!stack2.contains(i as u32));
            }
        } else if 0 <= i < label.len() && label[i] == id {
            if label1[i] == id {
                assert(!done1.contains(i));
                assert(stack1.contains(i as u32));
                assert(i as u32 != top);
                assert(stack2.contains(i as u32));
            }
        }
    }
    assert forall|i: int, j: int|
        #![trigger done.contains(i), label[j]]
        done.contains(i) && air(g, j) && beside(g, i, j) implies label[j] == id by {
        if i != c {
            assert(done1.contains(i));
            assert(label1[j] == id);
        }
    }
    assert forall|i: int| 0 <= i < label.len() && #[trigger] label[i] == id implies connected(
        g,
        start,
        i,
    ) by {
        if label1[i] != id {
            assert(label[i] != label1[i]);
            assert(label1[c] == id);
            lemma_connected_step(g, start, c, i);
        }
    }
}

/// Labels the air around `start` with `id`.
fn flood(world: &World, sky_row: u32, label: &mut Vec<u32>, start: usize, id: u32) -> (r: Region)
    requires
        world.wf(),
        old(label).len() == world@.cells.len(),
        start < old(label).len(),
        old(label)@[start as int] == 0,
        air(world@, start as int),
        id != 0,
        closed_up(world@, old(label)@),
        forall|i: int| 0 <= i < old(label).len() ==> #[trigger] old(label)@[i] != id,
        forall|i: int|
            0 <= i < old(label).len() && #[trigger] old(label)@[i] != 0 ==> air(world@, i),
    ensures
        final(label).len() == old(label).len(),
        final(label)@[start as int] == id,
        forall|i: int|
            #![trigger final(label)@[i]]
            0 <= i < old(label).len() && final(label)@[i] != old(label)@[i] ==> old(label)@[i] == 0
                && final(label)@[i] == id && air(world@, i),
        closed_up(world@, final(label)@),
        forall|i: int|
            0 <= i < old(label).len() && #[trigger] final(label)@[i] == id ==> connected(
                world@,
                start as int,
                i,
            ),
        describes(world@, members(final(label)@, id as int), sky_row as int, r),
{
    let ghost g = world@;
    let ghost label0 = label@;
    let w: usize = world.width as usize;
    let h: usize = world.height as usize;
    let mut stack: Vec<u32> = Vec::new();
    let mut region = Region { min_y: u32::MAX, max_y: 0, cells: 0, open_to_sky: false };
    label.set(start, id);
    stack.push(start as u32);
    let ghost mut done: Set<int> = Set::empty();
    proof {
        lemma_blank_finite(label@);
        let path = seq![start as int];
        assert(air_path(g, path));
        assert(connected(g, start as int, start as int));
        assert(stack@[0] == start as u32);
    }
    while stack.len() > 0
        invariant
            world.wf(),
            g == world@,
            w == g.width,
            h == g.height,
            label.len() == g.cells.len(),
            label0.len() == label.len(),
            start < label.len(),
            id != 0,
            label@[start as int] == id,
            closed_up(g, label0),
            forall|i: int| 0 <= i < label0.len() ==> #[trigger] label0[i] != id,
            forall|i: int| 0 <= i < label0.len() && #[trigger] label0[i] != 0 ==> air(g, i),
            forall|i: int|
                #![trigger label@[i]]
                0 <= i < label0.len() && label@[i] != label0[i] ==> label0[i] == 0 && label@[i]
                    == id && air(g, i),
            stack@.no_duplicates(),
            forall|c: u32| #[trigger]
                stack@.contains(c) ==> c < label.len() && label@[c as int] == id,
            forall|i: int| #[trigger]
                done.contains(i) <==> 0 <= i < label.len() && label@[i] == id && !stack@.contains(
                    i as u32,
                ),
            done.finite(),
            region.cells == done.len(),
            done.len() <= label.len(),
            forall|i: int, j: int|
                #![trigger done.contains(i), label@[j]]
                done.contains(i) && air(g, j) && beside(g, i, j) ==> label@[j] == id,
            forall|i: int|
                0 <= i < label.len() && #[trigger] label@[i] == id ==> connected(
                    g,
                    start as int,
                    i,
                ),
            done.len() == 0 ==> region.min_y == u32::MAX && region.max_y == 0,
            done.len() > 0 ==> exists|i: int|
                done.contains(i) && #[trigger] (i / g.width) == region.min_y,
            done.len() > 0 ==> exists|i: int|
                done.contains(i) && #[trigger] (i / g.width) == region.max_y,
            forall|i: int| #[trigger]
                done.contains(i) ==> region.min_y <= i / g.width <= region.max_y,
            region.open_to_sky <==> exists|i: int|
                done.contains(i) && #[trigger] (i / g.width) < sky_row,
        decreases blank(label@).len() + stack.len(),
    {
        let ghost (label1, stack1) = (label@, stack@);
        let ghost done1 = done;
        let ghost region1 = region;
        let top: u32 = match stack.pop() {
            Some(c) => c,
            None => 0,
        };
        let ghost stack2 = stack@;
        let idx: usize = top as usize;
        proof {
            assert(stack1[stack1.len() - 1] == top);
            assert(stack1.contains(top));
            assert(air(g, idx as int));
            lemma_beside(g, idx as int);
            assert(stack2 =~= stack1.drop_last());
            assert forall|c: u32| #[trigger] stack2.contains(c) implies stack1.contains(c) && c
                != top by {
                let k = stack2.index_of(c);
                assert(stack1[k] == c);
            }
            assert forall|c: u32| stack1.contains(c) && c != top implies #[trigger] stack2.contains(
                c,
            ) by {
                let k = stack1.index_of(c);
                assert(stack2[k] == c);
            }
        }
        let x: usize = idx % w;
        let y: usize = idx / w;
        proof {
            done = done.insert(idx as int);
            assert(!done1.contains(idx as int));
            vstd::set_lib::lemma_int_range(0, label.len() as int);
            vstd::set_lib::lemma_len_subset(
                done,
                vstd::set_lib::set_int_range(0, label.len() as int),
            );
        }
        region.cells = region.cells + 1;
        if (y as u32) < region.min_y {
            region.min_y = y as u32;
        }
        if (y as u32) > region.max_y {
            region.max_y = y as u32;
        }
        if (y as u32) < sky_row {
            region.open_to_sky = true;
        }
        proof {
            assert(idx as int / g.width == y);
            assert(done.contains(idx as int));
            if region.min_y != y {
                assert(done1.len() > 0);
                let i = choose|i: int|
                    done1.contains(i) && #[trigger] (i / g.width) == region1.min_y;
                assert(done.contains(i));
            }
            if region.max_y != y {
                assert(done1.len() > 0);
                let i = choose|i: int|
                    done1.contains(i) && #[trigger] (i / g.width) == region1.max_y;
                assert(done.contains(i));
            }
        }
        if x > 0 {
            visit(world, label, &mut stack, idx - 1, id, Ghost(idx as int));
        }
        let ghost (label3, stack3) = (label@, stack@);
        if x + 1 < w {
            visit(world, label, &mut stack, idx + 1, id, Ghost(idx as int));
        }
        let ghost (label4, stack4) = (label@, stack@);
        if y > 0 {
            visit(world, label, &mut stack, idx - w, id, Ghost(idx as int));
        }
        let ghost (label5, stack5) = (label@, stack@);
        if y + 1 < h {
            visit(world, label, &mut stack, idx + w, id, Ghost(idx as int));
        }
        proof {
            let c = idx as int;
            assert(grown(g, id, c, label1, stack2, label1, stack2));
            assert(grown(g, id, c, label1, stack2, label3, stack3));
            lemma_grown_trans(g, id, c, label1, stack2, label3, stack3, label4, stack4);
            lemma_grown_trans(g, id, c, label1, stack2, label4, stack4, label5, stack5);
            lemma_grown_trans(g, id, c, label1, stack2, label5, stack5, label@, stack@);
            assert forall|j: int| air(g, j) && #[trigger] beside(g, c, j) implies label@[j]
                != 0 by {
                assert(label3[j] != 0 || label4[j] != 0 || label5[j] != 0 || label@[j] != 0);
                assert(label3[j] != 0 ==> label4[j] == label3[j]);
                assert(label4[j] != 0 ==> label5[j] == label4[j]);
                assert(label5[j] != 0 ==> label@[j] == label5[j]);
            }
            lemma_iteration(
                g,
                id,
                start as int,
                label0,
                label1,
                stack1,
                done1,
                top,
                stack2,
                label@,
                stack@,
            );
            assert(blank(label@).len() + stack@.len() == blank(label1).len() + stack2.len());
        }
    }
    proof {
        assert(done =~= members(label@, id as int));
        assert(done.contains(start as int));
        assert forall|i: int, j: int|
            #![trigger label@[i], label@[j]]
            air(g, i) && air(g, j) && label@[i] != 0 && beside(g, i, j) implies label@[j]
            == label@[i] by {
            if label@[i] == id {
                assert(done.contains(i));
            } else {
                assert(label0[i] == label@[i]);
                assert(label0[j] == label0[i]);
            }
        }
    }
    region
}

proof fn lemma_connected_sym(g: Grid, i: int, j: int)
    requires
        connected(g, i, j),
    ensures
        connected(g, j, i),
{
    let path = choose|path: Seq<int>| #[trigger]
        air_path(g, path) && path.first() == i && path.last() == j;
    let back = path.reverse();
    assert forall|k: int| 0 <= k < back.len() implies #[trigger] air(g, back[k]) by {
        assert(air(g, path[path.len() - 1 - k]));
    }
    assert forall|k: int| #![trigger back[k]] 1 <= k < back.len() implies beside(
        g,
        back[k - 1],
        back[k],
    ) by {
        let m = path.len() - k;
        assert(beside(g, path[m - 1], path[m]));
    }
    assert(air_path(g, back));
}

proof fn lemma_connected_trans(g: Grid, i: int, j: int, k: int)
    requires
        connected(g, i, j),
        connected(g, j, k),
    ensures
        connected(g, i, k),
{
    let p = choose|path: Seq<int>| #[trigger]
        air_path(g, path) && path.first() == i && path.last() == j;
    let q = choose|path: Seq<int>| #[trigger]
        air_path(g, path) && path.first() == j && path.last() == k;
    let both = p + q.drop_first();
    assert forall|m: int| 0 <= m < both.len() implies #[trigger] air(g, both[m]) by {
        if m < p.len() {
            assert(air(g, p[m]));
        } else {
            assert(air(g, q[m - p.len() + 1]));
        }
    }
    assert forall|m: int| #![trigger both[m]] 1 <= m < both.len() implies beside(
        g,
        both[m - 1],
        both[m],
    ) by {
        if m < p.len() {
            assert(beside(g, p[m - 1], p[m]));
        } else {
            let n = m - p.len() + 1;
            assert(beside(g, q[n - 1], q[n]));
        }
    }
    assert(air_path(g, both));
    assert(both.last() == k);
}

/// The first cell of region `id` comes before all cells of later regions.
pub open spec fn numbered(label: Seq<u32>, id: int) -> bool {
    exists|s: int|
        0 <= s < label.len() && #[trigger] label[s] == id && forall|j: int|
            0 <= j < label.len() && #[trigger] label[j] >= id ==> s <= j
}

impl Pockets {
    /// The labels are right: air and nothing else has one, two air cells have
    /// the same one exactly if air connects them, the regions are numbered in
    /// scan order, and each has its figures.
    pub open spec fn labels(&self, g: Grid, sky_row: int) -> bool {
        &&& self.label@.len() == g.cells.len()
        &&& forall|i: int|
            0 <= i < g.cells.len() ==> (#[trigger] self.label@[i] != 0 <==> air(g, i))
        &&& forall|i: int| 0 <= i < g.cells.len() ==> #[trigger] self.label@[i] <= self.regions.len()
        &&& forall|i: int, j: int| #[trigger]
            together(g, i, j) ==> (self.label@[i] == self.label@[j] <==> connected(g, i, j))
        &&& forall|k: int|
            0 <= k < self.regions.len() ==> describes(
                g,
                members(self.label@, k + 1),
                sky_row,
                #[trigger] self.regions@[k],
            ) && numbered(self.label@, k + 1)
    }

    /// The region of a cell, `None` where there is no air.
    pub fn region_at(&self, world: &World, x: u32, y: u32) -> (id: Option<u32>)
        requires
            world.wf(),
            self.label.len() == world@.cells.len(),
            world@.inside(x as int, y as int),
        ensures
            id == (if self.label@[world@.index(x as int, y as int)] == 0 {
                None
            } else {
                Some(self.label@[world@.index(x as int, y as int)])
            }),
    {
        proof {
            lemma_index_inside(world@, x as int, y as int);
        }
        assert(0 <= y * world.width <= y * world.width + x);
        let id: u32 = self.label[(y * world.width + x) as usize];
        if id != 0 {
            Some(id)
        } else {
            None
        }
    }
}

/// Labels all air cells by region. Air above `sky_row` is open sky: any
/// region that reaches it is open.
pub fn find_air_pockets(world: &World, sky_row: u32) -> (p: Pockets)
    requires
        world.wf(),
    ensures
        p.labels(world@, sky_row as int),
{
    let ghost g = world@;
    let n: usize = world.tiles.len();
    let mut label: Vec<u32> = vec![0; n];
    let mut regions: Vec<Region> = Vec::new();
    let ghost mut seeds: Seq<int> = Seq::empty();
    let mut start: usize = 0;
    while start < n
        invariant
            world.wf(),
            g == world@,
            n == g.cells.len(),
            label.len() == n,
            start <= n,
            regions.len() <= start,
            seeds.len() == regions.len(),
            closed_up(g, label@),
            forall|i: int| 0 <= i < start && air(g, i) ==> #[trigger] label@[i] != 0,
            forall|i: int| 0 <= i < n && #[trigger] label@[i] != 0 ==> air(g, i),
            forall|i: int| 0 <= i < n ==> #[trigger] label@[i] <= regions.len(),
            forall|i: int|
                #![trigger label@[i]]
                0 <= i < n && label@[i] != 0 ==> connected(g, seeds[label@[i] - 1], i)
                    && seeds[label@[i] - 1] <= i,
            forall|k: int|
                #![trigger seeds[k]]
                0 <= k < seeds.len() ==> 0 <= seeds[k] < start && label@[seeds[k]] == k + 1,
            forall|k: int, m: int|
                #![trigger seeds[k], seeds[m]]
                0 <= k < m < seeds.len() ==> seeds[k] < seeds[m],
            forall|k: int|
                0 <= k < regions.len() ==> describes(
                    g,
                    members(label@, k + 1),
                    sky_row as int,
                    #[trigger] regions@[k],
                ),
        decreases n - start,
    {
        if label[start] == 0 && world.tiles[start].id == TileId::Air {
            let id: u32 = regions.len() as u32 + 1;
            let ghost label0 = label@;
            let ghost seeds0 = seeds;
            let region = flood(world, sky_row, &mut label, start, id);
            regions.push(region);
            proof {
                seeds = seeds.push(start as int);
                assert forall|k: int| 0 <= k < regions.len() implies describes(
                    g,
                    members(label@, k + 1),
                    sky_row as int,
                    #[trigger] regions@[k],
                ) by {
                    if k < regions.len() - 1 {
                        assert(members(label@, k + 1) =~= members(label0, k + 1));
                    }
                }
                assert forall|i: int|
                    #![trigger label@[i]]
                    0 <= i < n && label@[i] != 0 implies connected(g, seeds[label@[i] - 1], i)
                    && seeds[label@[i] - 1] <= i by {
                    if label@[i] == id {
                        assert(label0[i] == 0);
                        assert(air(g, i));
                        assert(i >= start);
                    } else {
                        assert(label0[i] == label@[i]);
                        assert(seeds[label@[i] - 1] == seeds0[label@[i] - 1]);
                    }
                }
                assert forall|k: int| #![trigger seeds[k]] 0 <= k < seeds.len() implies 0 <= seeds[k]
                    < start + 1 && label@[seeds[k]] == k + 1 by {
                    if k < seeds0.len() {
                        assert(seeds[k] == seeds0[k]);
                        assert(label0[seeds0[k]] == k + 1);
                    }
                }
                assert forall|i: int| 0 <= i < start + 1 && air(g, i) implies #[trigger] label@[i]
                    != 0 by {
                    if i < start {
                        assert(label0[i] != 0);
                    }
                }
            }
        }
        start = start + 1;
    }
    let p = Pockets { label, regions };
    proof {
        assert forall|i: int, j: int| #[trigger] together(g, i, j) implies (p.label@[i] == p.label@[j] <==> connected(g, i, j)) by {
            if p.label@[i] == p.label@[j] {
                let s = seeds[p.label@[i] - 1];
                assert(connected(g, s, i));
                assert(connected(g, s, j));
                lemma_connected_sym(g, s, i);
                lemma_connected_trans(g, i, s, j);
            }
            if connected(g, i, j) {
                let path = choose|path: Seq<int>| #[trigger]
                    air_path(g, path) && path.first() == i && path.last() == j;
                lemma_path_label(g, p.label@, path, path.len() - 1);
            }
        }
        assert forall|k: int| 0 <= k < p.regions.len() implies describes(
            g,
            members(p.label@, k + 1),
            sky_row as int,
            #[trigger] p.regions@[k],
        ) && numbered(p.label@, k + 1) by {
            let s = seeds[k];
            assert(p.label@[s] == k + 1);
            assert forall|j: int| 0 <= j < p.label@.len() && #[trigger] p.label@[j] >= k + 1 implies s
                <= j by {
                assert(seeds[p.label@[j] - 1] <= j);
            }
        }
    }
    p
}

/// A pocket is as high as its highest and as deep as its deepest cell, has as
/// many cells as there are, and is open to the sky if one of them lies above
/// the sky row.
pub proof fn law_pockets_are_described(g: Grid, cells: Set<int>, sky_row: int, r: Region, i: int)
    requires
        describes(g, cells, sky_row, r),
        cells.contains(i),
    ensures
        r.min_y <= i / g.width && i / g.width <= r.max_y,
        i / g.width < sky_row ==> r.open_to_sky,
        r.open_to_sky ==> r.min_y < sky_row,
        r.cells == cells.len(),
{
}

/// Cells lie together exactly if they are next to each other in a row or in a
/// column; air that lies together is one pocket, other air is another.
pub proof fn law_neighbours_share_a_pocket(g: Grid, x: int, y: int, a: int, b: int, p: Pockets, sky_row: int)
    requires
        g.wf(),
        g.inside(x, y),
        g.inside(a, b),
        g.at(x, y).id == TileId::Air,
        g.at(a, b).id == TileId::Air,
        (a - x) * (a - x) + (b - y) * (b - y) == 1,
        p.labels(g, sky_row),
    ensures
        p.label@[g.index(x, y)] == p.label@[g.index(a, b)],
        p.label@[g.index(x, y)] != 0,
{
    reveal(Grid::at);
    crate::grid::lemma_index_inside(g, x, y);
    crate::grid::lemma_index_inside(g, a, b);
    let (i, j) = (g.index(x, y), g.index(a, b));
    let w = g.width;
    assert(i % w == x && i / w == y) by (nonlinear_arith)
        requires
            i == y * w + x,
            0 <= x < w,
    ;
    assert(j % w == a && j / w == b) by (nonlinear_arith)
        requires
            j == b * w + a,
            0 <= a < w,
    ;
    assert((b == y && (a == x - 1 || a == x + 1)) || (a == x && (b == y - 1 || b == y + 1)))
        by (nonlinear_arith)
        requires
            (a - x) * (a - x) + (b - y) * (b - y) == 1,
    ;
    let path = seq![i, j];
    assert(air(g, i) && air(g, j));
    assert(air_path(g, path)) by {
        assert forall|k: int| 0 <= k < path.len() implies #[trigger] air(g, path[k]) by {
            assert(k == 0 || k == 1);
        }
        assert forall|k: int| #![trigger path[k]] 1 <= k < path.len() implies beside(
            g,
            path[k - 1],
            path[k],
        ) by {
            assert(k == 1);
        }
    }
    assert(path.first() == i && path.last() == j);
    assert(connected(g, i, j));
    assert(together(g, i, j));
}

} // verus!
