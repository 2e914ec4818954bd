use vstd::prelude::*;
use vstd::set_lib::*;
use vstd::relations::injective_on;
use std::collections::BTreeSet;
use rand::rngs::ThreadRng;
use rand::Rng;
use crate::options::Options;

verus! {

broadcast use vstd::std_specs::btree::group_btree_axioms, vstd::laws_cmp::group_laws_cmp;

#[verifier::external_type_specification]
#[verifier::external_body]
pub struct ExThreadRng(ThreadRng);

/// Relies on rand::thread_rng: a handle on the thread's generator, seeded by
/// the operating system. Nothing is promised of the numbers it yields.
pub assume_specification[ rand::thread_rng ]() -> ThreadRng;

/// Relies on rand::Rng::gen_range: a value drawn uniformly from [0, bound).
/// It panics on an empty range, which `requires` leaves out.
#[verifier::external_body]
fn draw_below(rng: &mut ThreadRng, bound: u16) -> (r: u16)
    requires
        0 < bound,
    ensures
        r < bound,
{
    rng.gen_range(0, bound)
}

/// How many of `cells` hold a mine of `mines`.
pub open spec fn mines_among(cells: Seq<int>, mines: Set<u16>) -> nat
    decreases cells.len(),
{
    if cells.len() == 0 {
        0
    } else {
        mines_among(cells.drop_last(), mines) + (if mines.contains(cells.last() as u16) {
            1nat
        } else {
            0nat
        })
    }
}

pub proof fn lemma_mines_among_bound(cells: Seq<int>, mines: Set<u16>)
    ensures
        mines_among(cells, mines) <= cells.len(),
    decreases cells.len(),
{
    if cells.len() > 0 {
        lemma_mines_among_bound(cells.drop_last(), mines);
    }
}

/// Where the mines are. Owned by the grid, re-laid on every reset.
#[derive(Debug)]
pub struct Minefield {
    options: Options,
    mines: BTreeSet<u16>,
}

impl Minefield {
    pub closed spec fn spec_options(&self) -> Options {
        self.options
    }

    /// The cells that hold a mine.
    pub closed spec fn mine_set(&self) -> Set<u16> {
        self.mines@
    }

    /// Exactly `mines` distinct cells, all on the board, hold a mine.
    pub open spec fn wf(&self) -> bool {
        &&& self.spec_options().wf()
        &&& forall|m: u16| #[trigger] self.mine_set().contains(m) ==> m < self.spec_options().tile_count()
        &&& self.mine_set().len() == self.spec_options().mines
        &&& self.mine_set().finite()
    }

    /// A minefield for `options`, with its mines laid.
    pub fn new(options: Options) -> (r: Self)
        requires
            options.wf(),
        ensures
            r.wf(),
            r.spec_options() == options,
    {
        let mut obj = Self { options, mines: BTreeSet::new() };
        obj.reset();
        obj
    }

    pub fn options(&self) -> (r: Options)
        ensures
            r == self.spec_options(),
    {
        self.options
    }

    /// Whether the cell at `index` holds a mine.
    pub fn mine_at(&self, index: u16) -> (r: bool)
        ensures
            r == self.mine_set().contains(index),
    {
        self.mines.contains(&index)
    }

    /// How many of the neighbours of the cell at `index` hold a mine.
    pub fn adjacent_mines(&self, index: u16) -> (r: u8)
        requires
            self.wf(),
            index < self.spec_options().tile_count(),
        ensures
            r == mines_among(self.spec_options().neighbors(index as int), self.mine_set()),
            r <= 8,
    {
        let ghost o = self.options;
        let ghost all = o.neighbors(index as int);
        let cells = self.options.for_each_neighbor(index);
        proof {
            crate::options::lemma_neighbor_cells(o, index as int);
        }
        let mut sum: u8 = 0;
        let mut k: usize = 0;
        while k < cells.len()
            invariant
                o == self.options,
                o.wf(),
                k <= cells@.len(),
                cells@ == o.neighbor_cells(index as int),
                cells@.len() <= 8,
                all == o.neighbors(index as int),
                forall|j: int| 0 <= j < cells@.len()
                    ==> o.inside(#[trigger] cells@[j].0 as int, cells@[j].1 as int),
                sum as nat == mines_among(all.take(k as int), self.mines@),
                sum <= k,
            decreases cells@.len() - k,
        {
            let (r, c) = cells[k];
            assert(o.inside(cells@[k as int].0 as int, cells@[k as int].1 as int));
            let i = self.options.index(r, c);
            proof {
                assert(all.take(k + 1).drop_last() =~= all.take(k as int));
                assert(all.take(k + 1).last() == all[k as int]);
                assert(all[k as int] == i as int);
            }
            if self.mines.contains(&i) {
                sum += 1;
            }
            k += 1;
        }
        assert(all.take(cells@.len() as int) =~= all);
        sum
    }

    /// Clears the mines and lays `mines` new ones at random cells.
    pub fn reset(&mut self)
        requires
            old(self).spec_options().wf(),
        ensures
            final(self).wf(),
            final(self).spec_options() == old(self).spec_options(),
    {
        self.mines.clear();
        self.place_mines();
    }

    /// Lays mines by drawing cells at random and keeping those not yet
    /// mined, until there are `mines` of them. Should the draws for one
    /// mine keep hitting mined cells, as many times as the board has cells,
    /// that mine goes to the first free cell instead, so the loop ends.
    fn place_mines(&mut self)
        requires
            old(self).options.wf(),
            old(self).mines@ == Set::<u16>::empty(),
        ensures
            final(self).wf(),
            final(self).options == old(self).options,
    {
        let max_index = self.options.tiles() as u16;
        let mine_count = self.options.mines() as usize;
        let mut rng = rand::thread_rng();
        proof {
            lemma_below_bounded(self.mines@, max_index);
        }
        while self.mines.len() < mine_count
            invariant
                self.options == old(self).options,
                self.options.wf(),
                max_index == self.options.tile_count(),
                mine_count == self.options.mines,
                mine_count < max_index,
                forall|m: u16| #[trigger] self.mines@.contains(m) ==> m < max_index,
                self.mines@.finite(),
                self.mines@.len() <= mine_count,
            decreases mine_count - self.mines@.len(),
        {
            let index = self.draw_free(&mut rng, max_index);
            self.mines.insert(index);
            proof {
                lemma_below_bounded(self.mines@, max_index);
            }
        }
    }

    /// A cell below `max_index` that holds no mine yet.
    fn draw_free(&self, rng: &mut ThreadRng, max_index: u16) -> (r: u16)
        requires
            0 < max_index,
            forall|m: u16| #[trigger] self.mines@.contains(m) ==> m < max_index,
            self.mines@.finite(),
            self.mines@.len() < max_index,
        ensures
            r < max_index,
            !self.mines@.contains(r),
    {
        let mut attempts: u16 = 0;
        while attempts < max_index
            invariant
                0 < max_index,
            decreases max_index - attempts,
        {
            let index = draw_below(rng, max_index);
            if !self.mines.contains(&index) {
                return index;
            }
            attempts += 1;
        }
        proof {
            lemma_free_below(self.mines@, max_index);
        }
        let mut index: u16 = 0;
        while index < max_index
            invariant
                forall|m: u16| m < index ==> #[trigger] self.mines@.contains(m),
                exists|m: u16| m < max_index && !#[trigger] self.mines@.contains(m),
            decreases max_index - index,
        {
            if !self.mines.contains(&index) {
                return index;
            }
            index += 1;
        }
        // every cell below max_index is mined, which the count forbids
        proof {
            let m = choose|m: u16| m < max_index && !#[trigger] self.mines@.contains(m);
            assert(self.mines@.contains(m));
        }
        0
    }
}

/// The cells below `n`.
pub open spec fn cells_below(n: u16) -> Set<u16> {
    Set::new(|m: u16| m < n)
}

proof fn lemma_cells_below(n: u16)
    ensures
        cells_below(n).finite(),
        cells_below(n).len() == n,
{
    let f = |i: int| i as u16;
    lemma_int_range(0, n as int);
    assert(injective_on(f, set_int_range(0, n as int)));
    assert(set_int_range(0, n as int).map(f) =~= cells_below(n)) by {
        assert forall|m: u16| #[trigger] cells_below(n).contains(m)
            implies set_int_range(0, n as int).map(f).contains(m) by {
            assert(set_int_range(0, n as int).contains(m as int));
            assert(f(m as int) == m);
        }
    }
    lemma_map_size(set_int_range(0, n as int), cells_below(n), f);
}

/// A set of cells below `n` is finite and has at most `n` members.
proof fn lemma_below_bounded(s: Set<u16>, n: u16)
    requires
        forall|m: u16| #[trigger] s.contains(m) ==> m < n,
    ensures
        s.finite(),
        s.len() <= n,
{
    lemma_cells_below(n);
    assert(s.subset_of(cells_below(n)));
    lemma_len_subset(s, cells_below(n));
}

/// A set with fewer than `n` members misses some cell below `n`.
proof fn lemma_free_below(s: Set<u16>, n: u16)
    requires
        s.finite(),
        s.len() < n,
    ensures
        exists|m: u16| m < n && !#[trigger] s.contains(m),
{
    if forall|m: u16| m < n ==> #[trigger] s.contains(m) {
        lemma_cells_below(n);
        assert(cells_below(n).subset_of(s));
        lemma_len_subset(cells_below(n), s);
    }
}

/// The cells of `cells` that hold a mine of `mines`, as a set.
pub open spec fn mined_cells(cells: Seq<int>, mines: Set<u16>) -> Set<int> {
    Set::new(|n: int| cells.contains(n) && mines.contains(n as u16))
}

/// Over distinct cells, the count of mined ones is the size of their set.
pub proof fn lemma_mines_among_set(cells: Seq<int>, mines: Set<u16>)
    requires
        cells.no_duplicates(),
    ensures
        mined_cells(cells, mines).finite(),
        mined_cells(cells, mines).len() == mines_among(cells, mines),
    decreases cells.len(),
{
    if cells.len() == 0 {
        assert(mined_cells(cells, mines) =~= Set::<int>::empty());
    } else {
        let rest = cells.drop_last();
        let x = cells.last();
        assert(rest.no_duplicates());
        lemma_mines_among_set(rest, mines);
        assert(!rest.contains(x)) by {
            if rest.contains(x) {
                let k = choose|k: int| 0 <= k < rest.len() && rest[k] == x;
                assert(cells[k] == cells[cells.len() - 1]);
            }
        }
        assert forall|n: int| cells.contains(n) <==> (rest.contains(n) || n == x) by {
            if cells.contains(n) {
                let k = choose|k: int| 0 <= k < cells.len() && cells[k] == n;
                if k < cells.len() - 1 {
                    assert(rest[k] == n);
                }
            }
            if rest.contains(n) {
                let k = choose|k: int| 0 <= k < rest.len() && rest[k] == n;
                assert(cells[k] == n);
            }
            if n == x {
                assert(cells[cells.len() - 1] == x);
            }
        }
        if mines.contains(x as u16) {
            assert(mined_cells(cells, mines) =~= mined_cells(rest, mines).insert(x));
        } else {
            assert(mined_cells(cells, mines) =~= mined_cells(rest, mines));
        }
    }
}

/// The number of mines around the cell at `index` is the size of the set of
/// its neighbours that hold a mine.
pub proof fn lemma_adjacent_is_mined_neighbor_count(o: Options, index: int, mines: Set<u16>)
    requires
        o.wf(),
        0 <= index < o.tile_count(),
    ensures
        mines_among(o.neighbors(index), mines) == mined_cells(o.neighbors(index), mines).len(),
        mines_among(o.neighbors(index), mines) <= 8,
{
    let cells = o.neighbor_cells(index);
    let ns = o.neighbors(index);
    crate::options::lemma_neighbors_distinct(o, index);
    crate::options::lemma_neighbor_cells(o, index);
    assert forall|j: int, k: int| 0 <= j < ns.len() && 0 <= k < ns.len() && j != k implies ns[j] != ns[k] by {
        let p = cells[j];
        let q = cells[k];
        crate::options::lemma_index_inside(o, p.0 as int, p.1 as int);
        crate::options::lemma_index_inside(o, q.0 as int, q.1 as int);
        assert(p != q);
    }
    lemma_mines_among_set(ns, mines);
    lemma_mines_among_bound(ns, mines);
}

} // verus!
