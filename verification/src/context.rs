//! The shared-state store: one mutable cell per context token.
//!
//! A context token stands for one kind of shared state (one conceptual
//! type). Creating a context for a token that already has one allocates a
//! fresh cell and repoints the token at it; handles obtained earlier keep
//! pointing at the old cell and never observe the new value. All reads and
//! writes go through the store itself, so at most one write is in flight at
//! any instant by construction.

use vstd::prelude::*;

verus! {

/// The mathematical content of a [`Context`]: every cell ever allocated,
/// and which cell each token currently points at.
pub struct ContextView<V> {
    /// All cells, in order of allocation. Cells are never removed: a
    /// replaced cell stays reachable through handles obtained before the
    /// replacement.
    pub cells: Seq<V>,
    /// The cell that currently answers for each token.
    pub index: Map<u64, int>,
}

impl<V> ContextView<V> {
    /// True once `create_context` has been called for `token`.
    pub open spec fn has(self, token: u64) -> bool {
        self.index.contains_key(token)
    }

    /// The cell that currently answers for `token`.
    pub open spec fn cell_of(self, token: u64) -> int {
        self.index[token]
    }

    /// The store as `new` leaves it: no cells, no tokens.
    pub open spec fn empty() -> Self {
        ContextView { cells: Seq::empty(), index: Map::empty() }
    }

    /// What `create_context` does: allocate a fresh cell holding `value`
    /// and point `token` at it.
    pub open spec fn create(self, token: u64, value: V) -> Self {
        ContextView {
            cells: self.cells.push(value),
            index: self.index.insert(token, self.cells.len() as int),
        }
    }

    /// What `write` does through a handle on cell `cell`.
    pub open spec fn write_cell(self, cell: int, value: V) -> Self {
        ContextView { cells: self.cells.update(cell, value), index: self.index }
    }
}

/// A handle to one cell of a [`Context`]: the token it was obtained for and
/// the cell the token pointed at then. Copyable and stable: it keeps
/// designating that same cell whatever happens to the store afterwards.
#[derive(Clone, Copy)]
pub struct ContextHandle {
    token: u64,
    cell: usize,
}

impl ContextHandle {
    /// The token this handle was obtained for.
    pub closed spec fn token(self) -> u64 {
        self.token
    }

    /// The cell this handle designates.
    pub closed spec fn cell(self) -> int {
        self.cell as int
    }
}

/// The token-to-cell map that an association list with pairwise distinct
/// tokens denotes.
spec fn assoc_map(entries: Seq<(u64, usize)>) -> Map<u64, int> {
    Map::new(
        |t: u64| exists|j: int| 0 <= j < entries.len() && (#[trigger] entries[j]).0 == t,
        |t: u64|
            entries[choose|j: int|
                0 <= j < entries.len() && (#[trigger] entries[j]).0 == t].1 as int,
    )
}

/// Tokens appear at most once in the association list.
spec fn unique_tokens(entries: Seq<(u64, usize)>) -> bool {
    forall|j: int, k: int|
        0 <= j < k < entries.len() ==> (#[trigger] entries[j]).0 != (#[trigger] entries[k]).0
}

/// An entry of an association list with distinct tokens is exactly what the
/// denoted map says of its token.
proof fn lemma_assoc_map_at(entries: Seq<(u64, usize)>, j: int)
    requires
        unique_tokens(entries),
        0 <= j < entries.len(),
    ensures
        assoc_map(entries).contains_key(entries[j].0),
        assoc_map(entries)[entries[j].0] == entries[j].1 as int,
{
    let t = entries[j].0;
    assert(0 <= j < entries.len() && entries[j].0 == t);
    let k = choose|k: int| 0 <= k < entries.len() && (#[trigger] entries[k]).0 == t;
    if k != j {
        if k < j {
            assert(entries[k].0 != entries[j].0);
        } else {
            assert(entries[j].0 != entries[k].0);
        }
    }
}

/// A token on no entry of the association list is not in the denoted map.
proof fn lemma_assoc_map_absent(entries: Seq<(u64, usize)>, t: u64)
    requires
        forall|j: int| 0 <= j < entries.len() ==> (#[trigger] entries[j]).0 != t,
    ensures
        !assoc_map(entries).contains_key(t),
{
}

/// The shared-state store. `V` is the application's universe of context
/// values (typically a small enum, one variant per kind of shared state).
pub struct Context<V> {
    cells: Vec<V>,
    index: Vec<(u64, usize)>,
}

impl<V> View for Context<V> {
    type V = ContextView<V>;

    closed spec fn view(&self) -> ContextView<V> {
        ContextView { cells: self.cells@, index: assoc_map(self.index@) }
    }
}

impl<V> Context<V> {
    /// Tokens appear at most once in the association list, and every entry
    /// points at an allocated cell.
    pub closed spec fn wf(self) -> bool {
        &&& unique_tokens(self.index@)
        &&& forall|j: int|
            0 <= j < self.index@.len() ==> (#[trigger] self.index@[j]).1 < self.cells@.len()
    }

    /// An empty store: no context exists for any token.
    pub fn new() -> (store: Self)
        ensures
            store.wf(),
            store@ == ContextView::<V>::empty(),
    {
        let store = Context { cells: Vec::new(), index: Vec::new() };
        proof {
            assert(store@.index =~= Map::<u64, int>::empty());
            assert(store@.cells =~= Seq::<V>::empty());
            assert(store@ =~= ContextView::<V>::empty());
        }
        store
    }

    /// The position of `token` in the association list, if any.
    fn position_of(&self, token: u64) -> (r: Option<usize>)
        ensures
            match r {
                Some(j) => j < self.index@.len() && self.index@[j as int].0 == token,
                None => forall|j: int|
                    0 <= j < self.index@.len() ==> (#[trigger] self.index@[j]).0 != token,
            },
    {
        let mut j: usize = 0;
        while j < self.index.len()
            invariant
                j <= self.index@.len(),
                forall|k: int| 0 <= k < j ==> (#[trigger] self.index@[k]).0 != token,
            decreases self.index@.len() - j,
        {
            if self.index[j].0 == token {
                return Some(j);
            }
            j = j + 1;
        }
        None
    }

    /// Creates the context for `token`, holding `value`. If one already
    /// exists it is replaced: a fresh cell is allocated and the token
    /// repointed, while the old cell stays where handles obtained earlier
    /// still find it.
    pub fn create_context(&mut self, token: u64, value: V)
        requires
            old(self).wf(),
            old(self)@.cells.len() < usize::MAX,
        ensures
            final(self).wf(),
            final(self)@ == old(self)@.create(token, value),
    {
        let ghost old_entries = self.index@;
        let cell: usize = self.cells.len();
        self.cells.push(value);
        let position = self.position_of(token);
        match position {
            Some(j) => {
                let slot = &mut self.index[j];
                *slot = (token, cell);
                proof {
                    let entries = self.index@;
                    assert(entries == old_entries.update(j as int, (token, cell)));
                    assert forall|i: int| 0 <= i < entries.len() implies (#[trigger] entries[i]).0
                        == old_entries[i].0 by {
                        if i != j {
                            assert(entries[i] == old_entries[i]);
                        }
                    }
                    lemma_create_common(old_entries, entries, j as int, token, cell);
                }
            },
            None => {
                self.index.push((token, cell));
                proof {
                    let entries = self.index@;
                    lemma_create_common(old_entries, entries, old_entries.len() as int, token,
                        cell);
                }
            },
        }
        proof {
            assert(self@.cells =~= old(self)@.cells.push(value));
            assert(self@ =~= old(self)@.create(token, value));
        }
    }

    /// True once a context exists for `token`.
    pub fn is_context_exists(&self, token: u64) -> (r: bool)
        requires
            self.wf(),
        ensures
            r == self@.has(token),
    {
        let position = self.position_of(token);
        match position {
            Some(j) => {
                proof {
                    lemma_assoc_map_at(self.index@, j as int);
                }
                true
            },
            None => {
                proof {
                    lemma_assoc_map_absent(self.index@, token);
                }
                false
            },
        }
    }

    /// A handle to the cell that currently answers for `token`. The caller
    /// must have created the context first; asking for an absent token is a
    /// programming error, so it is ruled out rather than reported.
    pub fn get_context(&self, token: u64) -> (h: ContextHandle)
        requires
            self.wf(),
            self@.has(token),
        ensures
            h.token() == token,
            h.cell() == self@.cell_of(token),
            0 <= h.cell() < self@.cells.len(),
    {
        let position = self.position_of(token);
        match position {
            Some(j) => {
                proof {
                    lemma_assoc_map_at(self.index@, j as int);
                }
                ContextHandle { token, cell: self.index[j].1 }
            },
            None => {
                proof {
                    lemma_assoc_map_absent(self.index@, token);
                    assert(false);
                }
                ContextHandle { token, cell: 0 }
            },
        }
    }

    /// Shared read access to the cell a handle designates.
    pub fn read(&self, h: &ContextHandle) -> (r: &V)
        requires
            0 <= h.cell() < self@.cells.len(),
        ensures
            *r == self@.cells[h.cell()],
    {
        &self.cells[h.cell]
    }

    /// Exclusive write access to the cell a handle designates. Taking the
    /// store exclusively for the duration of the call is what keeps writes
    /// one at a time.
    pub fn write(&mut self, h: &ContextHandle, value: V)
        requires
            old(self).wf(),
            0 <= h.cell() < old(self)@.cells.len(),
        ensures
            final(self).wf(),
            final(self)@ == old(self)@.write_cell(h.cell(), value),
    {
        let slot = &mut self.cells[h.cell];
        *slot = value;
        proof {
            assert(self@.cells =~= old(self)@.cells.update(h.cell(), value));
            assert(self@ =~= old(self)@.write_cell(h.cell(), value));
        }
    }
}

/// After the association list gains `(token, cell)` at position `j` — either
/// overriding the one entry that held `token`, or appended when none did —
/// the denoted map is the old one with `token` now answering `cell`.
proof fn lemma_create_common(
    old_entries: Seq<(u64, usize)>,
    entries: Seq<(u64, usize)>,
    j: int,
    token: u64,
    cell: usize,
)
    requires
        unique_tokens(old_entries),
        0 <= j <= old_entries.len(),
        entries.len() == if j < old_entries.len() {
            old_entries.len()
        } else {
            old_entries.len() + 1
        },
        entries[j] == (token, cell),
        forall|i: int|
            0 <= i < old_entries.len() && i != j ==> #[trigger] entries[i] == old_entries[i],
        forall|i: int|
            0 <= i < old_entries.len() ==> ((#[trigger] old_entries[i]).0 == token <==> i == j),
    ensures
        unique_tokens(entries),
        assoc_map(entries) =~= assoc_map(old_entries).insert(token, cell as int),
{
    assert forall|a: int, b: int| 0 <= a < b < entries.len() implies (#[trigger] entries[a]).0
        != (#[trigger] entries[b]).0 by {
        if a != j && b != j {
            assert(entries[a] == old_entries[a]);
            assert(entries[b] == old_entries[b]);
        } else if a == j && b != j {
            assert(entries[b] == old_entries[b]);
            assert(old_entries[b].0 != token);
        } else if b == j && a != j {
            assert(entries[a] == old_entries[a]);
            assert(old_entries[a].0 != token);
        }
    }
    let m1 = assoc_map(entries);
    let m2 = assoc_map(old_entries).insert(token, cell as int);
    assert forall|t: u64| m1.contains_key(t) <==> m2.contains_key(t) by {
        if t == token {
            lemma_assoc_map_at(entries, j);
        } else {
            if m1.contains_key(t) {
                let i = choose|i: int| 0 <= i < entries.len() && (#[trigger] entries[i]).0 == t;
                assert(i != j);
                assert(entries[i] == old_entries[i]);
                lemma_assoc_map_at(old_entries, i);
            }
            if m2.contains_key(t) {
                let i = choose|i: int|
                    0 <= i < old_entries.len() && (#[trigger] old_entries[i]).0 == t;
                assert(i != j);
                assert(entries[i] == old_entries[i]);
                lemma_assoc_map_at(entries, i);
            }
        }
    }
    assert forall|t: u64| m1.contains_key(t) implies m1[t] == m2[t] by {
        if t == token {
            lemma_assoc_map_at(entries, j);
        } else {
            let i = choose|i: int| 0 <= i < entries.len() && (#[trigger] entries[i]).0 == t;
            assert(i != j);
            assert(entries[i] == old_entries[i]);
            lemma_assoc_map_at(entries, i);
            lemma_assoc_map_at(old_entries, i);
        }
    }
}

/// No context exists for any token before `create_context` has been called
/// for it; one exists for exactly the tokens created since.
pub proof fn lemma_context_exists_after_create<V>(m: ContextView<V>, token: u64, value: V)
    ensures
        !ContextView::<V>::empty().has(token),
        m.create(token, value).has(token),
        forall|t: u64| m.has(t) ==> #[trigger] m.create(token, value).has(t),
        forall|t: u64| t != token ==> (m.create(token, value).has(t) <==> m.has(t)),
{
}

/// After creating the context for `token` with `value`, the handle obtained
/// for `token` reads back exactly `value`.
pub proof fn lemma_create_then_get<V>(m: ContextView<V>, token: u64, value: V)
    ensures
        m.create(token, value).cells[m.create(token, value).cell_of(token)] == value,
{
}

/// The shared-cell law: two handles on the same cell observe each other's
/// writes — writing through one is read back through the other.
pub proof fn lemma_shared_cell<V>(m: ContextView<V>, h1: ContextHandle, h2: ContextHandle, value: V)
    requires
        h1.cell() == h2.cell(),
        0 <= h1.cell() < m.cells.len(),
    ensures
        m.write_cell(h1.cell(), value).cells[h2.cell()] == value,
{
}

/// The documented sharp edge: a handle obtained before a context is
/// re-created keeps pointing at the old cell, so it does not observe the
/// replacement value.
pub proof fn lemma_stale_handle<V>(m: ContextView<V>, h: ContextHandle, token: u64, value: V)
    requires
        0 <= h.cell() < m.cells.len(),
    ensures
        m.create(token, value).cells[h.cell()] == m.cells[h.cell()],
        m.create(token, value).cell_of(token) != h.cell(),
{
}

} // verus!
