//! The memory map of the GCD as a sequence of blocks: its invariant, what it
//! says about each address, and the operation that applies a transition to a
//! range of it.
use vstd::prelude::*;
use crate::memory_block::{MemoryBlock, StateTransition};

verus! {

/// Most blocks that the memory map can hold.
pub const MEMORY_BLOCK_SLICE_LEN: usize = 4096;

/// Block `b` covers address `a`.
pub open spec fn covers(b: MemoryBlock, a: int) -> bool {
    b.spec_start() <= a < b.spec_end()
}

/// The blocks cover `[0, end of the last block)` without gaps or overlaps,
/// each with a positive length.
pub open spec fn contiguous(s: Seq<MemoryBlock>) -> bool {
    &&& s.len() > 0
    &&& s[0].spec_start() == 0
    &&& contiguous_pieces(s)
}

/// Blocks `i` and `i + 1` are in the same state.
pub open spec fn pair_same(s: Seq<MemoryBlock>, i: int) -> bool {
    s[i].state() == s[i + 1].state()
}

/// No two neighbouring blocks are in the same state, so none can merge.
pub open spec fn normalized(s: Seq<MemoryBlock>) -> bool {
    forall|i: int| 0 <= i < s.len() - 1 ==> !#[trigger] pair_same(s, i)
}

/// End of the mapped address space.
pub open spec fn map_end(s: Seq<MemoryBlock>) -> int {
    s[s.len() - 1].spec_end()
}

/// The invariant of the memory map.
pub open spec fn map_wf(s: Seq<MemoryBlock>) -> bool {
    &&& contiguous(s)
    &&& normalized(s)
    &&& s.len() <= MEMORY_BLOCK_SLICE_LEN
    &&& map_end(s) <= usize::MAX
}

/// The index of the block that covers address `a`.
pub open spec fn block_index_of(s: Seq<MemoryBlock>, a: int) -> int {
    choose|i: int| 0 <= i < s.len() && #[trigger] covers(s[i], a)
}

/// The state of the memory at address `a`.
pub open spec fn state_at(s: Seq<MemoryBlock>, a: int) -> MemoryBlock {
    s[block_index_of(s, a)].state()
}

/// How applying a transition to `len` bytes at `base`, inside block `i`, ends.
#[derive(PartialEq, Eq, Structural)]
pub enum RangeOutcome {
    /// The range is not inside block `i`.
    OutsideBlock,
    /// The block's state does not allow the transition.
    Refused,
    /// The map has no room for the extra blocks.
    Full,
    /// The transition is applied.
    Done,
}

/// Number of blocks a split of block `b` at the range adds.
pub open spec fn extra_blocks(b: MemoryBlock, base: int, len: int) -> int {
    (if b.spec_start() == base { 0int } else { 1int }) + (if base + len == b.spec_end() { 0int } else { 1int })
}

/// The range is inside block `b` and not empty.
pub open spec fn range_inside(b: MemoryBlock, base: int, len: int) -> bool {
    b.spec_start() <= base && base < base + len && base + len <= b.spec_end()
}

/// How applying `t` to `len` bytes at `base` inside block `i` of `s` ends.
pub open spec fn outcome_at(s: Seq<MemoryBlock>, i: int, base: int, len: int, t: StateTransition) -> RangeOutcome {
    let b = s[i];
    if !range_inside(b, base, len) {
        RangeOutcome::OutsideBlock
    } else if b.transitioned(t) is None {
        RangeOutcome::Refused
    } else if s.len() + extra_blocks(b, base, len) > MEMORY_BLOCK_SLICE_LEN {
        RangeOutcome::Full
    } else {
        RangeOutcome::Done
    }
}

/// The state at address `a` once `t` is applied to `len` bytes at `base` inside block `i`.
pub open spec fn applied_state(s: Seq<MemoryBlock>, i: int, base: int, len: int, t: StateTransition, a: int) -> MemoryBlock {
    if base <= a < base + len {
        s[i].transitioned(t)->0.state()
    } else {
        state_at(s, a)
    }
}

/// `new` is the map `old` with `t` applied to `len` bytes at `base` inside block `i`.
pub open spec fn transition_applied(
    old: Seq<MemoryBlock>,
    new: Seq<MemoryBlock>,
    i: int,
    base: int,
    len: int,
    t: StateTransition,
) -> bool {
    &&& map_wf(new)
    &&& map_end(new) == map_end(old)
    &&& forall|a: int| 0 <= a < map_end(old) ==> #[trigger] state_at(new, a) == applied_state(old, i, base, len, t, a)
}

/// In a contiguous map, a block ends no later than any later block starts.
pub proof fn lemma_sorted(s: Seq<MemoryBlock>, i: int, j: int)
    requires
        contiguous_pieces(s),
        0 <= i < j < s.len(),
    ensures
        s[i].spec_end() <= s[j].spec_start(),
    decreases j - i,
{
    if j > i + 1 {
        lemma_sorted(s, i, j - 1);
        assert(s[j - 1].spec_len() > 0);
        assert(s[j - 1].spec_end() == s[j].spec_start());
    }
}

/// In a contiguous map, some block up to `k` covers any address below the end of block `k`.
pub proof fn lemma_find(s: Seq<MemoryBlock>, a: int, k: int)
    requires
        contiguous_pieces(s),
        0 <= k < s.len(),
        s[0].spec_start() <= a < s[k].spec_end(),
    ensures
        exists|i: int| 0 <= i <= k && #[trigger] covers(s[i], a),
    decreases k,
{
    if a >= s[k].spec_start() {
        assert(covers(s[k], a));
    } else {
        assert(s[k - 1].spec_end() == s[k].spec_start());
        lemma_find(s, a, k - 1);
        let i = choose|i: int| 0 <= i <= k - 1 && #[trigger] covers(s[i], a);
        assert(covers(s[i], a));
    }
}

/// In a contiguous map, the block that covers an address is the one `block_index_of` names.
pub proof fn lemma_index_unique(s: Seq<MemoryBlock>, j: int, a: int)
    requires
        contiguous(s),
        0 <= j < s.len(),
        covers(s[j], a),
    ensures
        block_index_of(s, a) == j,
        state_at(s, a) == s[j].state(),
{
    let i = block_index_of(s, a);
    assert(covers(s[i], a));
    if i < j {
        lemma_sorted(s, i, j);
    } else if i > j {
        lemma_sorted(s, j, i);
    }
}

/// In a contiguous map, every address below its end is covered by exactly one block.
pub proof fn lemma_covered(s: Seq<MemoryBlock>, a: int)
    requires
        contiguous(s),
        0 <= a < map_end(s),
    ensures
        0 <= block_index_of(s, a) < s.len(),
        covers(s[block_index_of(s, a)], a),
{
    lemma_find(s, a, s.len() - 1);
    let i = choose|i: int| 0 <= i <= s.len() - 1 && #[trigger] covers(s[i], a);
    lemma_index_unique(s, i, a);
}

/// A block covers its own range in a contiguous map: every block lies below the map's end.
pub proof fn lemma_block_below_end(s: Seq<MemoryBlock>, i: int)
    requires
        contiguous(s),
        0 <= i < s.len(),
    ensures
        0 <= s[i].spec_start(),
        s[i].spec_end() <= map_end(s),
{
    if i < s.len() - 1 {
        lemma_sorted(s, i, s.len() - 1);
    }
}

/// Merging the blocks `k` and `k + 1` of a contiguous map when they are in
/// the same state keeps the map contiguous and the state of every address.
pub proof fn lemma_merge(s: Seq<MemoryBlock>, k: int, merged: MemoryBlock)
    requires
        contiguous(s),
        0 <= k < s.len() - 1,
        pair_same(s, k),
        merged == s[k].with_range(s[k].spec_start(), s[k].spec_len() + s[k + 1].spec_len()),
        s[k].spec_len() + s[k + 1].spec_len() <= u64::MAX,
    ensures
        ({
            let m = s.update(k, merged).remove(k + 1);
            &&& contiguous(m)
            &&& m.len() == s.len() - 1
            &&& map_end(m) == map_end(s)
            &&& m[k].spec_start() == s[k].spec_start()
            &&& m[k].spec_end() == s[k + 1].spec_end()
            &&& m[k].state() == s[k].state()
            &&& forall|i: int| 0 <= i < k ==> m[i] == s[i]
            &&& forall|i: int| k < i < m.len() ==> m[i] == s[i + 1]
            &&& forall|i: int| 0 <= i < m.len() - 1 ==> (#[trigger] pair_same(m, i) <==> pair_same(
                s,
                if i < k { i } else { i + 1 },
            ))
            &&& forall|a: int| 0 <= a < map_end(s) ==> #[trigger] state_at(m, a) == state_at(s, a)
        }),
{
    let m = s.update(k, merged).remove(k + 1);
    assert(m.len() == s.len() - 1);
    assert(m[k] == merged);
    assert(s[k].spec_end() == s[k + 1].spec_start());
    assert(merged.spec_start() == s[k].spec_start());
    assert(merged.spec_len() == s[k].spec_len() + s[k + 1].spec_len());
    assert(merged.spec_end() == s[k + 1].spec_end());
    assert(merged.state() == s[k].state());
    assert forall|i: int| 0 <= i < m.len() implies #[trigger] m[i].spec_len() > 0 by {
        if i < k {
            assert(m[i] == s[i]);
        } else if i > k {
            assert(m[i] == s[i + 1]);
        }
    }
    assert forall|i: int| 0 <= i < m.len() - 1 implies #[trigger] m[i].spec_end() == m[i + 1].spec_start() by {
        if i < k - 1 {
            assert(m[i] == s[i] && m[i + 1] == s[i + 1]);
        } else if i == k - 1 {
            assert(m[i] == s[i]);
        } else if i == k {
            assert(m[i + 1] == s[i + 2]);
            assert(s[k + 1].spec_end() == s[k + 2].spec_start());
        } else {
            assert(m[i] == s[i + 1] && m[i + 1] == s[i + 2]);
        }
    }
    assert(m[0].spec_start() == 0) by {
        if k > 0 {
            assert(m[0] == s[0]);
        }
    }
    assert(map_end(m) == map_end(s)) by {
        if k < m.len() - 1 {
            assert(m[m.len() - 1] == s[s.len() - 1]);
        } else {
            assert(m[m.len() - 1] == merged);
        }
    }
    assert forall|i: int| 0 <= i < m.len() - 1 implies (#[trigger] pair_same(m, i) <==> pair_same(
        s,
        if i < k { i } else { i + 1 },
    )) by {
        if i < k - 1 {
            assert(m[i] == s[i] && m[i + 1] == s[i + 1]);
        } else if i == k - 1 {
            assert(m[i] == s[i]);
        } else if i == k {
            assert(m[i + 1] == s[i + 2]);
        } else {
            assert(m[i] == s[i + 1] && m[i + 1] == s[i + 2]);
        }
    }
    assert forall|a: int| 0 <= a < map_end(s) implies #[trigger] state_at(m, a) == state_at(s, a) by {
        lemma_covered(s, a);
        let j = block_index_of(s, a);
        if j < k {
            assert(m[j] == s[j]);
            lemma_index_unique(m, j, a);
        } else if j == k || j == k + 1 {
            assert(covers(m[k], a));
            lemma_index_unique(m, k, a);
        } else {
            assert(m[j - 1] == s[j]);
            lemma_index_unique(m, j - 1, a);
        }
    }
}

/// Replacing block `idx` of a normalized contiguous map by pieces that cover
/// the same range keeps the map contiguous; all neighbours still differ,
/// except possibly those of the piece at `k`; addresses outside the block
/// keep their state.
pub proof fn lemma_replace(s: Seq<MemoryBlock>, idx: int, p: Seq<MemoryBlock>, k: int)
    requires
        contiguous(s),
        normalized(s),
        0 <= idx < s.len(),
        1 <= p.len() <= 3,
        0 <= k < p.len(),
        p.len() == 3 ==> k == 1,
        contiguous_pieces(p),
        p[0].spec_start() == s[idx].spec_start(),
        p[p.len() - 1].spec_end() == s[idx].spec_end(),
        forall|j: int| 0 <= j < p.len() && j != k ==> (#[trigger] p[j]).state() == s[idx].state(),
    ensures
        ({
            let l = s.subrange(0, idx) + p + s.subrange(idx + 1, s.len() as int);
            &&& contiguous(l)
            &&& l.len() == s.len() + p.len() - 1
            &&& map_end(l) == map_end(s)
            &&& forall|j: int| 0 <= j < p.len() ==> l[idx + j] == p[j]
            &&& forall|i: int|
                0 <= i < l.len() - 1 && i != idx + k - 1 && i != idx + k ==> !#[trigger] pair_same(l, i)
            &&& forall|a: int|
                0 <= a < map_end(s) && !covers(s[idx], a) ==> #[trigger] state_at(l, a) == state_at(s, a)
            &&& forall|a: int|
                covers(s[idx], a) ==> exists|j: int| 0 <= j < p.len() && #[trigger] covers(p[j], a)
        }),
{
    let l = s.subrange(0, idx) + p + s.subrange(idx + 1, s.len() as int);
    let n = p.len() as int;
    assert(l.len() == s.len() + n - 1);
    assert forall|i: int| 0 <= i < idx implies l[i] == s[i] by {}
    assert forall|j: int| 0 <= j < n implies l[idx + j] == p[j] by {}
    assert forall|i: int| idx + n <= i < l.len() implies l[i] == s[i - n + 1] by {}
    assert forall|i: int| 0 <= i < l.len() implies #[trigger] l[i].spec_len() > 0 by {
        if i < idx {
            assert(l[i] == s[i]);
        } else if i < idx + n {
            assert(l[i] == p[i - idx]);
        } else {
            assert(l[i] == s[i - n + 1]);
        }
    }
    assert forall|i: int| 0 <= i < l.len() - 1 implies #[trigger] l[i].spec_end() == l[i + 1].spec_start() by {
        if i < idx - 1 {
            assert(l[i] == s[i] && l[i + 1] == s[i + 1]);
        } else if i == idx - 1 {
            assert(l[i] == s[i] && l[i + 1] == p[0]);
        } else if i < idx + n - 1 {
            assert(l[i] == p[i - idx] && l[i + 1] == p[i - idx + 1]);
        } else if i == idx + n - 1 {
            assert(l[i] == p[n - 1] && l[i + 1] == s[idx + 1]);
        } else {
            assert(l[i] == s[i - n + 1] && l[i + 1] == s[i - n + 2]);
        }
    }
    assert(l[0].spec_start() == 0) by {
        if idx > 0 {
            assert(l[0] == s[0]);
        } else {
            assert(l[0] == p[0]);
        }
    }
    assert(map_end(l) == map_end(s)) by {
        if idx < s.len() - 1 {
            assert(l[l.len() - 1] == s[s.len() - 1]);
        } else {
            assert(l[l.len() - 1] == p[n - 1]);
        }
    }
    assert forall|i: int|
        0 <= i < l.len() - 1 && i != idx + k - 1 && i != idx + k implies !#[trigger] pair_same(l, i) by {
        if i < idx - 1 {
            assert(l[i] == s[i] && l[i + 1] == s[i + 1]);
            assert(!pair_same(s, i));
        } else if i == idx - 1 {
            assert(l[i] == s[i] && l[i + 1] == p[0]);
            assert(!pair_same(s, i));
        } else if i < idx + n - 1 {
            assert(false);
        } else if i == idx + n - 1 {
            assert(l[i] == p[n - 1] && l[i + 1] == s[idx + 1]);
            assert(!pair_same(s, idx));
        } else {
            assert(l[i] == s[i - n + 1] && l[i + 1] == s[i - n + 2]);
            assert(!pair_same(s, i - n + 1));
        }
    }
    assert forall|a: int| 0 <= a < map_end(s) && !covers(s[idx], a) implies #[trigger] state_at(l, a) == state_at(
        s,
        a,
    ) by {
        lemma_covered(s, a);
        let j = block_index_of(s, a);
        if j < idx {
            lemma_index_unique(l, j, a);
        } else {
            assert(j > idx);
            assert(l[j + n - 1] == s[j]);
            lemma_index_unique(l, j + n - 1, a);
        }
    }
    assert forall|a: int| covers(s[idx], a) implies exists|j: int| 0 <= j < p.len() && #[trigger] covers(p[j], a) by {
        lemma_find(p, a, n - 1);
        let j = choose|j: int| 0 <= j <= n - 1 && #[trigger] covers(p[j], a);
        assert(covers(p[j], a));
    }
}

/// Pieces of a block: positive lengths, each starting where the previous ends.
pub open spec fn contiguous_pieces(p: Seq<MemoryBlock>) -> bool {
    &&& forall|i: int| 0 <= i < p.len() ==> #[trigger] p[i].spec_len() > 0
    &&& forall|i: int| 0 <= i < p.len() - 1 ==> #[trigger] p[i].spec_end() == p[i + 1].spec_start()
}

/// The state of every address after block `idx` is replaced by pieces: the
/// piece at `k` is the transitioned block moved to the range, the others keep
/// the block's state.
pub proof fn lemma_replace_applies(
    s: Seq<MemoryBlock>,
    idx: int,
    p: Seq<MemoryBlock>,
    k: int,
    base: int,
    len: int,
    t: StateTransition,
)
    requires
        contiguous(s),
        normalized(s),
        0 <= idx < s.len(),
        1 <= p.len() <= 3,
        0 <= k < p.len(),
        p.len() == 3 ==> k == 1,
        contiguous_pieces(p),
        p[0].spec_start() == s[idx].spec_start(),
        p[p.len() - 1].spec_end() == s[idx].spec_end(),
        forall|j: int| 0 <= j < p.len() && j != k ==> (#[trigger] p[j]).state() == s[idx].state(),
        s[idx].transitioned(t) is Some,
        p[k].state() == s[idx].transitioned(t)->0.state(),
        p[k].spec_start() == base,
        p[k].spec_len() == len,
    ensures
        ({
            let l = s.subrange(0, idx) + p + s.subrange(idx + 1, s.len() as int);
            &&& contiguous(l)
            &&& l.len() == s.len() + p.len() - 1
            &&& map_end(l) == map_end(s)
            &&& forall|j: int| 0 <= j < p.len() ==> l[idx + j] == p[j]
            &&& forall|i: int|
                0 <= i < l.len() - 1 && i != idx + k - 1 && i != idx + k ==> !#[trigger] pair_same(l, i)
            &&& forall|a: int|
                0 <= a < map_end(s) ==> #[trigger] state_at(l, a) == applied_state(s, idx, base, len, t, a)
        }),
{
    lemma_replace(s, idx, p, k);
    let l = s.subrange(0, idx) + p + s.subrange(idx + 1, s.len() as int);
    assert forall|a: int| 0 <= a < map_end(s) implies #[trigger] state_at(l, a) == applied_state(
        s,
        idx,
        base,
        len,
        t,
        a,
    ) by {
        if covers(s[idx], a) {
            let j = choose|j: int| 0 <= j < p.len() && #[trigger] covers(p[j], a);
            assert(l[idx + j] == p[j]);
            lemma_index_unique(l, idx + j, a);
            lemma_index_unique(s, idx, a);
            if j != k {
                if j < k {
                    lemma_sorted(p, j, k);
                } else {
                    lemma_sorted(p, k, j);
                }
            }
        } else {
            if 0 < k {
                lemma_sorted(p, 0, k);
            }
            if k < p.len() - 1 {
                lemma_sorted(p, k, p.len() - 1);
            }
            assert(!(base <= a < base + len));
        }
    }
}

/// Applying `t1` to a range inside block `i` and then `t2` to the same
/// range gives every address its state back, where `t2` undoes `t1` on the
/// state of that block.
pub proof fn lemma_transitions_cancel(
    s0: Seq<MemoryBlock>,
    s1: Seq<MemoryBlock>,
    s2: Seq<MemoryBlock>,
    i: int,
    j: int,
    base: int,
    len: int,
    t1: StateTransition,
    t2: StateTransition,
)
    requires
        map_wf(s0),
        0 <= i < s0.len(),
        0 <= j < s1.len(),
        outcome_at(s0, i, base, len, t1) == RangeOutcome::Done,
        transition_applied(s0, s1, i, base, len, t1),
        range_inside(s1[j], base, len),
        transition_applied(s1, s2, j, base, len, t2),
        s0[i].transitioned(t1)->0.transitioned(t2) is Some,
        s0[i].transitioned(t1)->0.transitioned(t2)->0.state() == s0[i].state(),
    ensures
        map_end(s2) == map_end(s0),
        forall|a: int| 0 <= a < map_end(s0) ==> #[trigger] state_at(s2, a) == state_at(s0, a),
{
    let x = s0[i].transitioned(t1)->0;
    lemma_block_below_end(s0, i);
    lemma_index_unique(s1, j, base);
    assert(state_at(s1, base) == applied_state(s0, i, base, len, t1, base));
    x.lemma_transition_keeps_range(t2);
    s1[j].lemma_transition_keeps_range(t2);
    assert(s1[j].state() == x.state());
    assert forall|a: int| 0 <= a < map_end(s0) implies #[trigger] state_at(s2, a) == state_at(s0, a) by {
        assert(state_at(s2, a) == applied_state(s1, j, base, len, t2, a));
        if base <= a < base + len {
            lemma_index_unique(s0, i, a);
            assert(x.transitioned(t2)->0.state() == x.state().transitioned(t2)->0);
        } else {
            assert(state_at(s1, a) == applied_state(s0, i, base, len, t1, a));
        }
    }
}

} // verus!
