//! The retained state store: state cells keyed by the identity of the node
//! that owns them.
//!
//! An identity is the structural position of a node: the path of slots that
//! leads to it from the root of the tree. It does not depend on whether the
//! node is shown, so a subtree that is hidden for a while finds its state
//! again. A cell is made when its identity is first asked for and stays
//! until its subtree is torn down. Each identity keeps its place in the
//! store for good, so a handle stays a handle of the same node.

use vstd::prelude::*;

verus! {

/// The position of a node in the tree.
#[derive(Debug, PartialEq, Eq, Hash)]
pub struct Identity {
    path: Vec<u32>,
}

impl View for Identity {
    type V = Seq<u32>;

    closed spec fn view(&self) -> Seq<u32> {
        self.path@
    }
}

impl Clone for Identity {
    fn clone(&self) -> (r: Identity)
        ensures
            r@ == self@,
    {
        Identity { path: self.path.clone() }
    }
}

impl Identity {
    /// The identity of the root.
    pub fn root() -> (r: Identity)
        ensures
            r@ == Seq::<u32>::empty(),
    {
        Identity { path: Vec::new() }
    }

    /// The identity of the child of this node in slot `slot`.
    pub fn child(&self, slot: u32) -> (r: Identity)
        ensures
            r@ == self@.push(slot),
    {
        let mut path = self.path.clone();
        path.push(slot);
        Identity { path }
    }

    /// How many slots lie between the root and this node.
    pub fn depth(&self) -> (r: usize)
        ensures
            r == self@.len(),
    {
        self.path.len()
    }

    /// Whether this and `other` are the identity of one node.
    pub fn same(&self, other: &Identity) -> (r: bool)
        ensures
            r == (self@ == other@),
    {
        let n = self.path.len();
        if n != other.path.len() {
            return false;
        }
        let mut i: usize = 0;
        while i < n
            invariant
                n == self.path@.len(),
                n == other.path@.len(),
                0 <= i <= n,
                forall|j: int| 0 <= j < i ==> self.path@[j] == other.path@[j],
            decreases n - i,
        {
            if self.path[i] != other.path[i] {
                return false;
            }
            i += 1;
        }
        assert(self.path@ =~= other.path@);
        true
    }

    /// Whether this node lies in the subtree of `ancestor`, which holds
    /// `ancestor` itself.
    pub fn is_within(&self, ancestor: &Identity) -> (r: bool)
        ensures
            r == ancestor@.is_prefix_of(self@),
    {
        let n = ancestor.path.len();
        if n > self.path.len() {
            return false;
        }
        let mut i: usize = 0;
        while i < n
            invariant
                n == ancestor.path@.len(),
                n <= self.path@.len(),
                0 <= i <= n,
                forall|j: int| 0 <= j < i ==> self.path@[j] == ancestor.path@[j],
            decreases n - i,
        {
            if self.path[i] != ancestor.path[i] {
                assert(self.path@.subrange(0, n as int)[i as int] != ancestor.path@[i as int]);
                return false;
            }
            i += 1;
        }
        assert(self.path@.subrange(0, n as int) =~= ancestor.path@);
        true
    }
}

/// Hands out the slots below one node, each once. A list whose length
/// varies takes the identity of an item from here when the item is first
/// mounted and keeps it with the item, so that no two items ever share one
/// and none changes its identity when the list around it changes.
#[derive(Debug)]
pub struct SlotCounter {
    parent: Identity,
    next: u32,
}

impl SlotCounter {
    /// The node whose slots are handed out.
    pub closed spec fn parent(&self) -> Seq<u32> {
        self.parent@
    }

    /// How many slots were handed out: the slots below this number are
    /// taken, those from it on are free.
    pub closed spec fn issued(&self) -> u32 {
        self.next
    }

    /// A counter for the slots below `parent`, none of them taken.
    pub fn new(parent: Identity) -> (r: SlotCounter)
        ensures
            r.parent() == parent@,
            r.issued() == 0,
    {
        SlotCounter { parent, next: 0 }
    }

    /// The identity of a new child, in the lowest free slot. When every slot
    /// is taken there is none, and the counter stays as it is.
    pub fn mint(&mut self) -> (r: Option<Identity>)
        ensures
            final(self).parent() == old(self).parent(),
            old(self).issued() < u32::MAX ==> final(self).issued() == old(self).issued() + 1 && r
                is Some && r->0@ == old(self).parent().push(old(self).issued()),
            old(self).issued() == u32::MAX ==> final(self).issued() == old(self).issued() && r
                is None,
    {
        if self.next == u32::MAX {
            return None;
        }
        let identity = self.parent.child(self.next);
        self.next = self.next + 1;
        Some(identity)
    }
}

/// Two children are one node only if they have one parent and one slot, and
/// no child is its own parent.
pub proof fn lemma_children_are_distinct(a: Seq<u32>, s: u32, b: Seq<u32>, t: u32)
    ensures
        a.push(s) == b.push(t) ==> a == b && s == t,
        a.push(s) != a,
{
    if a.push(s) == b.push(t) {
        assert(a.push(s).len() == b.push(t).len());
        assert(a.push(s)[a.len() as int] == s);
        assert(b.push(t)[b.len() as int] == t);
        assert(a =~= a.push(s).drop_last());
        assert(b =~= b.push(t).drop_last());
    }
    assert(a.push(s).len() != a.len());
}

/// The place of a state cell in its store.
#[derive(Clone, Copy, Debug, PartialEq, Eq, Hash)]
pub struct Handle {
    pub slot: usize,
}

/// A request to render the subtree of the node whose state changed.
#[derive(Clone, Copy, Debug, PartialEq, Eq)]
pub struct RenderRequest {
    pub owner: Handle,
}

/// A handle whose cell holds no state: it was never made or was torn down.
#[derive(Clone, Copy, Debug, PartialEq, Eq)]
pub struct StaleHandleError {
    pub handle: Handle,
}

struct Cell<T> {
    identity: Identity,
    value: Option<T>,
}

spec fn distinct<T>(cells: Seq<Cell<T>>) -> bool {
    forall|i: int, j: int|
        0 <= i < j < cells.len() ==> (#[trigger] cells[i]).identity@ != (#[trigger] cells[j]).identity@
}

spec fn live_at<T>(cells: Seq<Cell<T>>, i: int, key: Seq<u32>) -> bool {
    0 <= i < cells.len() && cells[i].identity@ == key && cells[i].value is Some
}

spec fn live_map<T>(cells: Seq<Cell<T>>) -> Map<Seq<u32>, T> {
    Map::new(
        |key: Seq<u32>| exists|i: int| live_at(cells, i, key),
        |key: Seq<u32>| cells[choose|i: int| live_at(cells, i, key)].value->0,
    )
}

spec fn cell_keys<T>(cells: Seq<Cell<T>>) -> Seq<Seq<u32>> {
    Seq::new(cells.len(), |i: int| cells[i].identity@)
}

proof fn lemma_live_lookup<T>(cells: Seq<Cell<T>>, i: int, key: Seq<u32>)
    requires
        distinct(cells),
        live_at(cells, i, key),
    ensures
        live_map(cells).contains_key(key),
        live_map(cells)[key] == cells[i].value->0,
{
    let j = choose|j: int| live_at(cells, j, key);
    if i < j {
        assert(cells[i].identity@ != cells[j].identity@);
    } else if j < i {
        assert(cells[j].identity@ != cells[i].identity@);
    }
}

proof fn lemma_not_live<T>(cells: Seq<Cell<T>>, key: Seq<u32>)
    requires
        distinct(cells),
        forall|i: int|
            0 <= i < cells.len() && (#[trigger] cells[i]).identity@ == key ==> cells[i].value is None,
    ensures
        !live_map(cells).contains_key(key),
{
    assert forall|j: int| !live_at(cells, j, key) by {
        if 0 <= j < cells.len() && cells[j].identity@ == key {
            assert(cells[j].value is None);
        }
    }
}

proof fn lemma_keys_are_distinct<T>(cells: Seq<Cell<T>>)
    requires
        distinct(cells),
    ensures
        cell_keys(cells).no_duplicates(),
{
    assert forall|i: int, j: int|
        0 <= i < cell_keys(cells).len() && 0 <= j < cell_keys(cells).len() && i != j implies cell_keys(
        cells,
    )[i] != cell_keys(cells)[j] by {
        if i < j {
            assert(cells[i].identity@ != cells[j].identity@);
        } else {
            assert(cells[j].identity@ != cells[i].identity@);
        }
    }
}

/// Putting `value` under `key` into slot `i`, which is a new slot at the end
/// or the slot that `key` has already, is an insertion into the map.
proof fn lemma_after_put<T>(before: Seq<Cell<T>>, after: Seq<Cell<T>>, i: int, key: Seq<u32>, value: T)
    requires
        distinct(before),
        0 <= i < after.len(),
        after[i].identity@ == key,
        after[i].value == Some(value),
        i < before.len() ==> after.len() == before.len() && before[i].identity@ == key,
        i >= before.len() ==> i == before.len() && after.len() == before.len() + 1 && forall|j: int|
            0 <= j < before.len() ==> (#[trigger] before[j]).identity@ != key,
        forall|j: int| 0 <= j < before.len() && j != i ==> #[trigger] after[j] == before[j],
    ensures
        distinct(after),
        live_map(after) == live_map(before).insert(key, value),
        cell_keys(before).is_prefix_of(cell_keys(after)),
        i < before.len() ==> cell_keys(after) == cell_keys(before),
{
    assert forall|a: int, b: int| 0 <= a < b < after.len() implies (#[trigger] after[a]).identity@ != (
    #[trigger] after[b]).identity@ by {
        if b < before.len() {
            assert(before[a].identity@ != before[b].identity@);
        } else {
            assert(before[a].identity@ != key);
        }
    }
    let expected = live_map(before).insert(key, value);
    assert forall|k: Seq<u32>| live_map(after).contains_key(k) <==> expected.contains_key(k) by {
        if k == key {
            assert(live_at(after, i, key));
        } else {
            if live_map(after).contains_key(k) {
                let j = choose|j: int| live_at(after, j, k);
                assert(j != i);
                assert(after[j] == before[j]);
                assert(live_at(before, j, k));
            }
            if live_map(before).contains_key(k) {
                let j = choose|j: int| live_at(before, j, k);
                assert(j != i);
                assert(after[j] == before[j]);
                assert(live_at(after, j, k));
            }
        }
    }
    assert forall|k: Seq<u32>| live_map(after).contains_key(k) implies live_map(after)[k]
        == expected[k] by {
        if k == key {
            lemma_live_lookup(after, i, key);
        } else {
            let j = choose|j: int| live_at(after, j, k);
            assert(j != i);
            assert(after[j] == before[j]);
            lemma_live_lookup(after, j, k);
            lemma_live_lookup(before, j, k);
        }
    }
    assert(live_map(after) =~= expected);
    assert(cell_keys(after).subrange(0, cell_keys(before).len() as int) =~= cell_keys(before)) by {
        assert forall|j: int| 0 <= j < before.len() implies cell_keys(after)[j] == cell_keys(
            before,
        )[j] by {
            if j != i {
                assert(after[j] == before[j]);
            }
        }
    }
    if i < before.len() {
        assert(cell_keys(after) =~= cell_keys(before));
    }
}

/// Emptying the cells whose identity lies in a subtree removes that
/// subtree's keys from the map.
proof fn lemma_after_teardown<T>(before: Seq<Cell<T>>, after: Seq<Cell<T>>, subtree: Seq<u32>)
    requires
        distinct(before),
        after.len() == before.len(),
        forall|j: int|
            0 <= j < before.len() ==> (#[trigger] after[j]).identity@ == before[j].identity@,
        forall|j: int|
            0 <= j < before.len() ==> (#[trigger] after[j]).value == if subtree.is_prefix_of(
                before[j].identity@,
            ) {
                None
            } else {
                before[j].value
            },
    ensures
        distinct(after),
        live_map(after) == live_map(before).remove_keys(subtree_keys(subtree)),
        cell_keys(after) == cell_keys(before),
{
    assert forall|a: int, b: int| 0 <= a < b < after.len() implies (#[trigger] after[a]).identity@ != (
    #[trigger] after[b]).identity@ by {
        assert(before[a].identity@ != before[b].identity@);
    }
    let expected = live_map(before).remove_keys(subtree_keys(subtree));
    assert forall|k: Seq<u32>| live_map(after).contains_key(k) <==> expected.contains_key(k) by {
        if live_map(after).contains_key(k) {
            let j = choose|j: int| live_at(after, j, k);
            assert(after[j].identity@ == before[j].identity@);
            assert(live_at(before, j, k));
            assert(!subtree.is_prefix_of(k));
        }
        if expected.contains_key(k) {
            let j = choose|j: int| live_at(before, j, k);
            assert(after[j].identity@ == before[j].identity@);
            assert(live_at(after, j, k));
        }
    }
    assert forall|k: Seq<u32>| live_map(after).contains_key(k) implies live_map(after)[k]
        == expected[k] by {
        let j = choose|j: int| live_at(after, j, k);
        assert(after[j].identity@ == before[j].identity@);
        lemma_live_lookup(after, j, k);
        lemma_live_lookup(before, j, k);
    }
    assert(live_map(after) =~= expected);
    assert(cell_keys(after) =~= cell_keys(before));
}

/// The state cells of one application.
pub struct RetainedStore<T> {
    cells: Vec<Cell<T>>,
}

impl<T> View for RetainedStore<T> {
    type V = Map<Seq<u32>, T>;

    closed spec fn view(&self) -> Map<Seq<u32>, T> {
        live_map(self.cells@)
    }
}

/// The identity that `handle` stands for among `slots`.
pub open spec fn key_of(slots: Seq<Seq<u32>>, handle: Handle) -> Option<Seq<u32>> {
    if handle.slot < slots.len() {
        Some(slots[handle.slot as int])
    } else {
        None
    }
}

/// The state that `handle` leads to, given the identities by slot and the
/// state by identity.
pub open spec fn state_at<T>(slots: Seq<Seq<u32>>, state: Map<Seq<u32>, T>, handle: Handle) -> Option<T> {
    match key_of(slots, handle) {
        Some(key) => if state.contains_key(key) {
            Some(state[key])
        } else {
            None
        },
        None => None,
    }
}

/// The state after the node `key` was asked for with `fresh` as what its
/// initializer would return: a node that has state keeps it, and `fresh` is
/// not looked at.
pub open spec fn initialized<T>(state: Map<Seq<u32>, T>, key: Seq<u32>, fresh: T) -> Map<
    Seq<u32>,
    T,
> {
    if state.contains_key(key) {
        state
    } else {
        state.insert(key, fresh)
    }
}

/// Asking for a node twice is asking for it once: the second time finds the
/// state of the first, whatever its own initializer would have returned.
pub proof fn lemma_second_init_is_ignored<T>(
    state: Map<Seq<u32>, T>,
    key: Seq<u32>,
    first: T,
    second: T,
)
    ensures
        initialized(initialized(state, key, first), key, second) == initialized(state, key, first),
        initialized(state, key, first)[key] == if state.contains_key(key) {
            state[key]
        } else {
            first
        },
{
}

/// The identities `subtree` and below.
pub open spec fn subtree_keys(subtree: Seq<u32>) -> Set<Seq<u32>> {
    Set::new(|key: Seq<u32>| subtree.is_prefix_of(key))
}

impl<T> RetainedStore<T> {
    #[verifier::type_invariant]
    spec fn well_formed(self) -> bool {
        distinct(self.cells@)
    }

    /// The identity of each slot. A slot is given to an identity once and
    /// for all, whether or not its cell holds state at the moment.
    pub closed spec fn slots(&self) -> Seq<Seq<u32>> {
        cell_keys(self.cells@)
    }

    /// A store without cells.
    pub fn new() -> (r: RetainedStore<T>)
        ensures
            r@ == Map::<Seq<u32>, T>::empty(),
            r.slots() == Seq::<Seq<u32>>::empty(),
    {
        let r = RetainedStore { cells: Vec::new() };
        assert(r@ =~= Map::empty());
        assert(r.slots() =~= Seq::empty());
        r
    }

    fn find(&self, identity: &Identity) -> (r: Option<usize>)
        ensures
            r matches Some(i) ==> i < self.cells@.len() && self.cells@[i as int].identity@ == identity@,
            r is None ==> forall|i: int|
                0 <= i < self.cells@.len() ==> (#[trigger] self.cells@[i]).identity@ != identity@,
    {
        let n = self.cells.len();
        let mut i: usize = 0;
        while i < n
            invariant
                n == self.cells@.len(),
                0 <= i <= n,
                forall|j: int| 0 <= j < i ==> (#[trigger] self.cells@[j]).identity@ != identity@,
            decreases n - i,
        {
            if self.cells[i].identity.same(identity) {
                return Some(i);
            }
            i += 1;
        }
        None
    }

    /// The state that `handle` leads to, if its cell holds any.
    pub open spec fn state(&self, handle: Handle) -> Option<T> {
        state_at(self.slots(), self@, handle)
    }

    /// The handle of the state of the node `identity`. If the node has state
    /// already, the store stays as it is and `init` is not called. If not,
    /// `init` is called once and what it returns becomes the node's state.
    pub fn get_or_init<F: FnOnce() -> T>(&mut self, identity: &Identity, init: F) -> (handle: Handle)
        requires
            !old(self)@.contains_key(identity@) ==> init.requires(()),
        ensures
            final(self)@.contains_key(identity@),
            final(self)@ == initialized(old(self)@, identity@, final(self)@[identity@]),
            !old(self)@.contains_key(identity@) ==> init.ensures((), final(self)@[identity@]),
            old(self).slots().is_prefix_of(final(self).slots()),
            final(self).slots().no_duplicates(),
            key_of(final(self).slots(), handle) == Some(identity@),
    {
        proof {
            use_type_invariant(&*self);
        }
        let ghost before = self.cells@;
        let handle = match self.find(identity) {
            Some(i) => {
                if self.cells[i].value.is_some() {
                    proof {
                        lemma_live_lookup(before, i as int, identity@);
                        assert(cell_keys(before).subrange(0, cell_keys(before).len() as int)
                            =~= cell_keys(before));
                    }
                    Handle { slot: i }
                } else {
                    proof {
                        assert forall|j: int|
                            0 <= j < before.len() && (#[trigger] before[j]).identity@
                                == identity@ implies before[j].value is None by {
                            if j < i {
                                assert(before[j].identity@ != before[i as int].identity@);
                            } else if i < j {
                                assert(before[i as int].identity@ != before[j].identity@);
                            }
                        }
                        lemma_not_live(before, identity@);
                    }
                    let value = init();
                    let mut cells: Vec<Cell<T>> = Vec::new();
                    core::mem::swap(&mut self.cells, &mut cells);
                    cells[i].value = Some(value);
                    proof {
                        lemma_after_put(before, cells@, i as int, identity@, value);
                    }
                    self.cells = cells;
                    Handle { slot: i }
                }
            },
            None => {
                proof {
                    lemma_not_live(before, identity@);
                }
                let value = init();
                let mut cells: Vec<Cell<T>> = Vec::new();
                core::mem::swap(&mut self.cells, &mut cells);
                let slot = cells.len();
                cells.push(Cell { identity: identity.clone(), value: Some(value) });
                proof {
                    lemma_after_put(before, cells@, slot as int, identity@, value);
                }
                self.cells = cells;
                Handle { slot }
            },
        };
        proof {
            use_type_invariant(&*self);
            lemma_keys_are_distinct(self.cells@);
        }
        handle
    }

    /// The state that `handle` leads to.
    pub fn get(&self, handle: Handle) -> (r: Option<&T>)
        ensures
            r is Some <==> self.state(handle) is Some,
            r matches Some(value) ==> Some(*value) == self.state(handle),
    {
        proof {
            use_type_invariant(self);
        }
        if handle.slot >= self.cells.len() {
            return None;
        }
        let r = self.cells[handle.slot].value.as_ref();
        proof {
            let key = self.cells@[handle.slot as int].identity@;
            if r is Some {
                lemma_live_lookup(self.cells@, handle.slot as int, key);
            } else {
                assert forall|j: int|
                    0 <= j < self.cells@.len() && (#[trigger] self.cells@[j]).identity@
                        == key implies self.cells@[j].value is None by {
                    if j < handle.slot {
                        assert(self.cells@[j].identity@ != self.cells@[handle.slot as int].identity@);
                    } else if handle.slot < j {
                        assert(self.cells@[handle.slot as int].identity@ != self.cells@[j].identity@);
                    }
                }
                lemma_not_live(self.cells@, key);
            }
        }
        r
    }

    /// Puts what `mutator` makes of the state behind `handle` in its place
    /// and asks for the owner to be rendered again. A handle without state
    /// is refused and leaves the store as it is.
    pub fn update<F: FnOnce(&T) -> T>(&mut self, handle: Handle, mutator: F) -> (r: Result<
        RenderRequest,
        StaleHandleError,
    >)
        requires
            old(self).state(handle) matches Some(value) ==> mutator.requires((&value,)),
        ensures
            final(self).slots() == old(self).slots(),
            old(self).state(handle) is None ==> final(self)@ == old(self)@ && r == Err::<
                RenderRequest,
                StaleHandleError,
            >(StaleHandleError { handle }),
            old(self).state(handle) matches Some(value) ==> {
                &&& r == Ok::<RenderRequest, StaleHandleError>(RenderRequest { owner: handle })
                &&& final(self).state(handle) matches Some(next)
                &&& mutator.ensures((&value,), next)
                &&& final(self)@ == old(self)@.insert(key_of(old(self).slots(), handle)->0, next)
            },
    {
        proof {
            use_type_invariant(&*self);
        }
        let current = match self.get(handle) {
            None => {
                return Err(StaleHandleError { handle });
            },
            Some(current) => current,
        };
        let ghost before = self.cells@;
        let ghost key = before[handle.slot as int].identity@;
        let next = mutator(current);
        let mut cells: Vec<Cell<T>> = Vec::new();
        core::mem::swap(&mut self.cells, &mut cells);
        cells[handle.slot].value = Some(next);
        proof {
            lemma_after_put(before, cells@, handle.slot as int, key, next);
            lemma_live_lookup(cells@, handle.slot as int, key);
        }
        self.cells = cells;
        Ok(RenderRequest { owner: handle })
    }

    /// Removes the state of the node `subtree` and of every node below it.
    /// This is for a subtree that leaves the application for good; hiding
    /// one does not call for it.
    pub fn teardown(&mut self, subtree: &Identity)
        ensures
            final(self)@ == old(self)@.remove_keys(subtree_keys(subtree@)),
            final(self).slots() == old(self).slots(),
    {
        proof {
            use_type_invariant(&*self);
        }
        let ghost before = self.cells@;
        let mut cells: Vec<Cell<T>> = Vec::new();
        core::mem::swap(&mut self.cells, &mut cells);
        let n = cells.len();
        let mut i: usize = 0;
        while i < n
            invariant
                n == before.len(),
                n == cells@.len(),
                0 <= i <= n,
                forall|j: int| 0 <= j < n ==> (#[trigger] cells@[j]).identity@ == before[j].identity@,
                forall|j: int|
                    0 <= j < i ==> (#[trigger] cells@[j]).value == if subtree@.is_prefix_of(
                        before[j].identity@,
                    ) {
                        None
                    } else {
                        before[j].value
                    },
                forall|j: int| i <= j < n ==> (#[trigger] cells@[j]).value == before[j].value,
            decreases n - i,
        {
            if cells[i].identity.is_within(subtree) {
                cells[i].value = None;
            }
            i += 1;
        }
        proof {
            lemma_after_teardown(before, cells@, subtree@);
        }
        self.cells = cells;
    }

    /// Whether the node `identity` has state in the store.
    pub fn contains(&self, identity: &Identity) -> (r: bool)
        ensures
            r == self@.contains_key(identity@),
    {
        proof {
            use_type_invariant(self);
        }
        match self.find(identity) {
            Some(i) => {
                let r = self.cells[i].value.is_some();
                proof {
                    if r {
                        lemma_live_lookup(self.cells@, i as int, identity@);
                    } else {
                        assert forall|j: int| !live_at(self.cells@, j, identity@) by {
                            if live_at(self.cells@, j, identity@) && j != i {
                                if i < j {
                                    assert(self.cells@[i as int].identity@ != self.cells@[j].identity@);
                                } else {
                                    assert(self.cells@[j].identity@ != self.cells@[i as int].identity@);
                                }
                            }
                        }
                    }
                }
                r
            },
            None => {
                assert forall|j: int| !live_at(self.cells@, j, identity@) by {
                    if 0 <= j < self.cells@.len() {
                        assert(self.cells@[j].identity@ != identity@);
                    }
                }
                false
            },
        }
    }
}

} // verus!
