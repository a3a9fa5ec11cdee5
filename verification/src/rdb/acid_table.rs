//! The table "acids": every record that the node has accepted, with the
//! height of the block that includes it. A record without a height waits in
//! the mempool.
//!
//! Rows are numbered from 1 in the order in which they came, and are never
//! deleted. No id occurs twice.

use super::chain_table::{at_most, chain_row_at, MainChainTable};
use super::error::{Error, SQLITE_FULL};
use crate::data_types::{AcidChainRelation, BlockHeight, ChainIndex, Id};
use vstd::prelude::*;

verus! {

/// A row of the table "acids".
#[derive(Debug, Clone, Copy, PartialEq, Eq)]
pub struct AcidRow {
    /// The number of the row. The first row has the number 1.
    pub seq: i64,
    /// The id of the record.
    pub id: Id,
    /// The height of the block that includes the record; `None` in the mempool.
    pub chain_height: Option<BlockHeight>,
}

/// The constraints of the table: rows are numbered from 1 without a gap, and no id occurs twice.
pub open spec fn acids_wf(rows: Seq<AcidRow>) -> bool {
    &&& rows.len() <= i64::MAX
    &&& forall|i: int| 0 <= i < rows.len() ==> (#[trigger] rows[i]).seq == i + 1
    &&& forall|i: int, j: int| 0 <= i < j < rows.len() ==> rows[i].id != rows[j].id
}

/// Some row holds the record `id`.
pub open spec fn acid_known(rows: Seq<AcidRow>, id: Id) -> bool {
    exists|i: int| 0 <= i < rows.len() && (#[trigger] rows[i]).id == id
}

/// The row that holds the record `id`, for a record that the table knows.
pub open spec fn acid_row(rows: Seq<AcidRow>, id: Id) -> AcidRow {
    rows[choose|i: int| 0 <= i < rows.len() && (#[trigger] rows[i]).id == id]
}

/// The table after the record `id` has been offered to the mempool: a new
/// record gets the next row, unless the numbers have run out; a known record
/// changes nothing.
pub open spec fn acids_accepted_one(rows: Seq<AcidRow>, id: Id) -> Seq<AcidRow> {
    if acid_known(rows, id) || rows.len() >= i64::MAX {
        rows
    } else {
        rows.push(AcidRow { seq: (rows.len() + 1) as i64, id, chain_height: None })
    }
}

/// The table after the records `ids` have been offered to the mempool, one after the other.
pub open spec fn acids_accepted(rows: Seq<AcidRow>, ids: Seq<Id>) -> Seq<AcidRow>
    decreases ids.len(),
{
    if ids.len() == 0 {
        rows
    } else {
        acids_accepted_one(acids_accepted(rows, ids.drop_last()), ids.last())
    }
}

/// Some record of `ids` found no number left for its row.
pub open spec fn acids_refused(rows: Seq<AcidRow>, ids: Seq<Id>) -> bool {
    exists|k: int|
        0 <= k < ids.len() && !acid_known(acids_accepted(rows, ids.take(k)), #[trigger] ids[k])
            && acids_accepted(rows, ids.take(k)).len() >= i64::MAX
}

/// A row after the records `ids` of the mempool have gone to the block at `height`.
pub open spec fn acid_promoted_row(row: AcidRow, ids: Seq<Id>, height: BlockHeight) -> AcidRow {
    if row.chain_height is None && ids.contains(row.id) {
        AcidRow { seq: row.seq, id: row.id, chain_height: Some(height) }
    } else {
        row
    }
}

/// The table after the records `ids` of the mempool have gone to the block at `height`.
pub open spec fn acids_promoted(rows: Seq<AcidRow>, ids: Seq<Id>, height: BlockHeight) -> Seq<
    AcidRow,
> {
    Seq::new(rows.len(), |i: int| acid_promoted_row(rows[i], ids, height))
}

/// The number of rows of the mempool whose record is among `ids`.
pub open spec fn acids_promotable(rows: Seq<AcidRow>, ids: Seq<Id>) -> nat
    decreases rows.len(),
{
    if rows.len() == 0 {
        0
    } else {
        acids_promotable(rows.drop_last(), ids) + if rows.last().chain_height is None
            && ids.contains(rows.last().id) {
            1nat
        } else {
            0nat
        }
    }
}

/// A row after the records of the block at `height` have gone back to the mempool.
pub open spec fn acid_demoted_row(row: AcidRow, height: BlockHeight) -> AcidRow {
    if row.chain_height == Some(height) {
        AcidRow { seq: row.seq, id: row.id, chain_height: None }
    } else {
        row
    }
}

/// The table after the records of the block at `height` have gone back to the mempool.
pub open spec fn acids_demoted(rows: Seq<AcidRow>, height: BlockHeight) -> Seq<AcidRow> {
    Seq::new(rows.len(), |i: int| acid_demoted_row(rows[i], height))
}

/// The number of rows whose record is in the block at `height`.
pub open spec fn acids_at_height(rows: Seq<AcidRow>, height: BlockHeight) -> nat
    decreases rows.len(),
{
    if rows.len() == 0 {
        0
    } else {
        acids_at_height(rows.drop_last(), height) + if rows.last().chain_height == Some(height) {
            1nat
        } else {
            0nat
        }
    }
}

/// Where the known record `id` stands: in the block of the main chain at the
/// height of its row, or in the mempool. A record whose height has no block in
/// the main chain counts as in the mempool.
pub open spec fn acid_state(rows: Seq<AcidRow>, chain: Seq<ChainIndex>, id: Id) -> Option<
    ChainIndex,
> {
    match acid_row(rows, id).chain_height {
        None => None,
        Some(height) => chain_row_at(chain, height as int),
    }
}

/// The states of the records `ids`: one entry for each known record, in the
/// order in which `ids` names it first.
pub open spec fn acids_states(rows: Seq<AcidRow>, chain: Seq<ChainIndex>, ids: Seq<Id>) -> Seq<
    AcidChainRelation,
>
    decreases ids.len(),
{
    if ids.len() == 0 {
        Seq::empty()
    } else {
        let front = acids_states(rows, chain, ids.drop_last());
        let id = ids.last();
        if acid_known(rows, id) && !ids.drop_last().contains(id) {
            front.push(AcidChainRelation { id_: id, chain_index_: acid_state(rows, chain, id) })
        } else {
            front
        }
    }
}

/// The rows of the mempool from the number `min_seq` on, each as its number and its id.
pub open spec fn acids_mempool(rows: Seq<AcidRow>, min_seq: int) -> Seq<(i64, Id)>
    decreases rows.len(),
{
    if rows.len() == 0 {
        Seq::empty()
    } else {
        let front = acids_mempool(rows.drop_last(), min_seq);
        let row = rows.last();
        if row.chain_height is None && row.seq >= min_seq {
            front.push((row.seq, row.id))
        } else {
            front
        }
    }
}

/// `x` is in `s.push(a)` exactly if it is in `s` or is `a`.
pub proof fn lemma_push_contains<T>(s: Seq<T>, a: T, x: T)
    ensures
        s.push(a).contains(x) <==> s.contains(x) || x == a,
{
    let longer = s.push(a);
    if s.contains(x) {
        let j = choose|j: int| 0 <= j < s.len() && s[j] == x;
        assert(longer[j] == x);
    }
    if x == a {
        assert(longer[s.len() as int] == x);
    }
}

/// In a table without a repeated id, the row at `j` is the row of its record.
pub proof fn lemma_acid_row(rows: Seq<AcidRow>, j: int)
    requires
        acids_wf(rows),
        0 <= j < rows.len(),
    ensures
        acid_known(rows, rows[j].id),
        acid_row(rows, rows[j].id) == rows[j],
{
    let id = rows[j].id;
    let i = choose|i: int| 0 <= i < rows.len() && (#[trigger] rows[i]).id == id;
    if i < j {
        assert(rows[i].id != rows[j].id);
    } else if j < i {
        assert(rows[j].id != rows[i].id);
    }
}

/// Offering one more record is refused exactly if an earlier one was, or if
/// this one is new and finds no number left.
pub proof fn lemma_refused_push(rows: Seq<AcidRow>, ids: Seq<Id>, id: Id)
    ensures
        acids_refused(rows, ids.push(id)) <==> acids_refused(rows, ids) || (!acid_known(
            acids_accepted(rows, ids),
            id,
        ) && acids_accepted(rows, ids).len() >= i64::MAX),
{
    let longer = ids.push(id);
    assert forall|m: int| 0 <= m <= ids.len() implies #[trigger] longer.take(m) == ids.take(
        m,
    ) by {
        assert(longer.take(m) =~= ids.take(m));
    }
    assert(ids.take(ids.len() as int) == ids);
    if acids_refused(rows, ids) {
        let m = choose|m: int|
            0 <= m < ids.len() && !acid_known(acids_accepted(rows, ids.take(m)), #[trigger] ids[m])
                && acids_accepted(rows, ids.take(m)).len() >= i64::MAX;
        assert(longer.take(m) == ids.take(m));
        assert(longer[m] == ids[m]);
    }
    if !acid_known(acids_accepted(rows, ids), id) && acids_accepted(rows, ids).len() >= i64::MAX {
        let m = ids.len() as int;
        assert(longer.take(m) == ids);
        assert(longer[m] == id);
    }
    if acids_refused(rows, longer) {
        let m = choose|m: int|
            0 <= m < longer.len() && !acid_known(
                acids_accepted(rows, longer.take(m)),
                #[trigger] longer[m],
            ) && acids_accepted(rows, longer.take(m)).len() >= i64::MAX;
        assert(longer.take(m) == ids.take(m));
        if m < ids.len() {
            assert(longer[m] == ids[m]);
        }
    }
}

/// No row is promotable when no record is named.
pub proof fn lemma_promotable_none(rows: Seq<AcidRow>)
    ensures
        acids_promotable(rows, Seq::<Id>::empty()) == 0,
    decreases rows.len(),
{
    if rows.len() > 0 {
        lemma_promotable_none(rows.drop_last());
    }
}

/// The count of `acids_promotable` is at most the number of rows.
pub proof fn lemma_promotable_bound(rows: Seq<AcidRow>, ids: Seq<Id>)
    ensures
        acids_promotable(rows, ids) <= rows.len(),
    decreases rows.len(),
{
    if rows.len() > 0 {
        lemma_promotable_bound(rows.drop_last(), ids);
    }
}

/// Naming one more record makes one more row promotable exactly if the
/// record is new among the names and waits in the mempool.
pub proof fn lemma_promotable_push(rows: Seq<AcidRow>, ids: Seq<Id>, id: Id)
    requires
        forall|i: int, j: int| 0 <= i < j < rows.len() ==> rows[i].id != rows[j].id,
    ensures
        acids_promotable(rows, ids.push(id)) == acids_promotable(rows, ids) + if !ids.contains(id)
            && acid_known(rows, id) && acid_row(rows, id).chain_height is None {
            1nat
        } else {
            0nat
        },
    decreases rows.len(),
{
    if rows.len() > 0 {
        let front = rows.drop_last();
        let last = rows.last();
        assert forall|i: int, j: int| 0 <= i < j < front.len() implies front[i].id
            != front[j].id by {
            assert(front[i] == rows[i] && front[j] == rows[j]);
        }
        lemma_promotable_push(front, ids, id);
        lemma_push_contains(ids, id, last.id);
        if last.id == id {
            assert(rows[rows.len() - 1].id == id);
            let w = choose|i: int| 0 <= i < rows.len() && (#[trigger] rows[i]).id == id;
            if w < rows.len() - 1 {
                assert(rows[w].id != rows[rows.len() - 1].id);
            }
            if acid_known(front, id) {
                let i = choose|i: int| 0 <= i < front.len() && (#[trigger] front[i]).id == id;
                assert(front[i] == rows[i]);
                assert(rows[i].id != rows[rows.len() - 1].id);
            }
        } else {
            if acid_known(rows, id) {
                let w = choose|i: int| 0 <= i < rows.len() && (#[trigger] rows[i]).id == id;
                assert(front[w] == rows[w]);
                assert(acid_known(front, id));
                let v = choose|i: int| 0 <= i < front.len() && (#[trigger] front[i]).id == id;
                assert(front[v] == rows[v]);
                if v < w {
                    assert(rows[v].id != rows[w].id);
                } else if w < v {
                    assert(rows[w].id != rows[v].id);
                }
            }
            if acid_known(front, id) {
                let v = choose|i: int| 0 <= i < front.len() && (#[trigger] front[i]).id == id;
                assert(front[v] == rows[v]);
                assert(acid_known(rows, id));
            }
        }
    } else {
        assert(!acid_known(rows, id));
    }
}

/// The count of `acids_at_height` is at most the number of rows.
pub proof fn lemma_at_height_bound(rows: Seq<AcidRow>, height: BlockHeight)
    ensures
        acids_at_height(rows, height) <= rows.len(),
    decreases rows.len(),
{
    if rows.len() > 0 {
        lemma_at_height_bound(rows.drop_last(), height);
    }
}

/// The mempool of the first `i` rows is the beginning of the mempool of all rows.
pub proof fn lemma_mempool_prefix(rows: Seq<AcidRow>, min_seq: int, i: int)
    requires
        0 <= i <= rows.len(),
    ensures
        acids_mempool(rows.take(i), min_seq).len() <= acids_mempool(rows, min_seq).len(),
        acids_mempool(rows.take(i), min_seq) == acids_mempool(rows, min_seq).take(
            acids_mempool(rows.take(i), min_seq).len() as int,
        ),
    decreases rows.len() - i,
{
    if i == rows.len() {
        assert(rows.take(i) == rows);
        assert(acids_mempool(rows, min_seq).take(acids_mempool(rows, min_seq).len() as int)
            == acids_mempool(rows, min_seq));
    } else {
        let front = rows.drop_last();
        lemma_mempool_prefix(front, min_seq, i);
        assert(front.take(i) == rows.take(i));
        let short = acids_mempool(rows.take(i), min_seq);
        let mid = acids_mempool(front, min_seq);
        let all = acids_mempool(rows, min_seq);
        assert(short == mid.take(short.len() as int));
        assert(mid == all.take(mid.len() as int));
        assert(short =~= all.take(short.len() as int));
    }
}

/// The number of rows that stand in the mempool in `before` and in a block in `after`.
pub open spec fn acids_transitions(before: Seq<AcidRow>, after: Seq<AcidRow>) -> nat
    decreases before.len(),
{
    if before.len() == 0 || after.len() != before.len() {
        0
    } else {
        acids_transitions(before.drop_last(), after.drop_last()) + if before.last().chain_height is None
            && after.last().chain_height is Some {
            1nat
        } else {
            0nat
        }
    }
}

/// Offering one record twice does what offering it once does. The table grows
/// by exactly one row where the record is new and a number is left for it,
/// and stays as it is where the record is known already.
pub proof fn lemma_accept_twice(rows: Seq<AcidRow>, id: Id)
    requires
        acids_wf(rows),
    ensures
        acids_accepted(acids_accepted(rows, seq![id]), seq![id]) == acids_accepted(rows, seq![id]),
        acids_accepted(rows, seq![id, id]) == acids_accepted(rows, seq![id]),
        !acid_known(rows, id) && rows.len() < i64::MAX ==> acids_accepted(rows, seq![id]).len()
            == rows.len() + 1,
        acid_known(rows, id) ==> acids_accepted(rows, seq![id]) == rows,
{
    let one = seq![id];
    let two = seq![id, id];
    assert(one.drop_last() == Seq::<Id>::empty());
    assert(two.drop_last() == one);
    assert(acids_accepted(rows, Seq::<Id>::empty()) == rows);
    let once = acids_accepted(rows, one);
    assert(once == acids_accepted_one(rows, id));
    if !acid_known(rows, id) && rows.len() < i64::MAX {
        assert(once[rows.len() as int].id == id);
        assert(acid_known(once, id));
    }
    if acid_known(rows, id) {
        assert(once == rows);
    }
    assert(acids_accepted_one(once, id) == once);
    assert(acids_accepted(once, Seq::<Id>::empty()) == once);
    assert(one.last() == id);
    assert(acids_accepted(once, one) == acids_accepted_one(
        acids_accepted(once, one.drop_last()),
        one.last(),
    ));
    assert(acids_accepted(rows, two) == acids_accepted_one(once, id));
}

/// The count that `mempool_to_chain` returns is the number of rows that went
/// from the mempool to a block, and no other row changed.
pub proof fn lemma_promoted_transitions(rows: Seq<AcidRow>, ids: Seq<Id>, height: BlockHeight)
    ensures
        acids_promotable(rows, ids) == acids_transitions(rows, acids_promoted(rows, ids, height)),
        forall|i: int|
            0 <= i < rows.len() && !(rows[i].chain_height is None && ids.contains(rows[i].id))
                ==> #[trigger] acids_promoted(rows, ids, height)[i] == rows[i],
    decreases rows.len(),
{
    if rows.len() > 0 {
        let front = rows.drop_last();
        lemma_promoted_transitions(front, ids, height);
        assert(acids_promoted(rows, ids, height).drop_last() =~= acids_promoted(front, ids, height));
    }
}

/// Some entry of `states` speaks of the record `id`.
pub open spec fn states_name(states: Seq<AcidChainRelation>, id: Id) -> bool {
    exists|i: int| 0 <= i < states.len() && (#[trigger] states[i]).id_ == id
}

/// The states of `acids_states` are a map: a record has an entry exactly if
/// it is asked for and known, it has one entry, and the entry is its state.
pub proof fn lemma_states_are_a_map(rows: Seq<AcidRow>, chain: Seq<ChainIndex>, ids: Seq<Id>)
    ensures
        forall|i: int, j: int|
            0 <= i < j < acids_states(rows, chain, ids).len() ==> acids_states(rows, chain, ids)[i].id_
                != acids_states(rows, chain, ids)[j].id_,
        forall|i: int|
            0 <= i < acids_states(rows, chain, ids).len() ==> (#[trigger] acids_states(
                rows,
                chain,
                ids,
            )[i]).chain_index_ == acid_state(rows, chain, acids_states(rows, chain, ids)[i].id_),
        forall|id: Id|
            #[trigger] states_name(acids_states(rows, chain, ids), id) <==> ids.contains(id)
                && acid_known(rows, id),
    decreases ids.len(),
{
    let states = acids_states(rows, chain, ids);
    if ids.len() > 0 {
        let front_ids = ids.drop_last();
        let last = ids.last();
        let front = acids_states(rows, chain, front_ids);
        lemma_states_are_a_map(rows, chain, front_ids);
        assert(ids == front_ids.push(last));
        assert forall|id: Id| ids.contains(id) <==> front_ids.contains(id) || id == last by {
            lemma_push_contains(front_ids, last, id);
        }
        let added = acid_known(rows, last) && !front_ids.contains(last);
        assert forall|i: int, j: int| 0 <= i < j < states.len() implies states[i].id_
            != states[j].id_ by {
            if j < front.len() {
                assert(states[i] == front[i] && states[j] == front[j]);
            } else {
                assert(states[i] == front[i]);
                if front[i].id_ == last {
                    assert(states_name(front, last));
                }
            }
        }
        assert forall|i: int| 0 <= i < states.len() implies (#[trigger] states[i]).chain_index_
            == acid_state(rows, chain, states[i].id_) by {
            if i < front.len() {
                assert(states[i] == front[i]);
            }
        }
        assert forall|id: Id| #[trigger] states_name(states, id) <==> ids.contains(id)
            && acid_known(rows, id) by {
            if states_name(states, id) {
                let i = choose|i: int| 0 <= i < states.len() && (#[trigger] states[i]).id_ == id;
                if i < front.len() {
                    assert(front[i] == states[i]);
                    assert(states_name(front, id));
                }
            }
            if ids.contains(id) && acid_known(rows, id) {
                if states_name(front, id) {
                    let i = choose|i: int| 0 <= i < front.len() && (#[trigger] front[i]).id_ == id;
                    assert(states[i] == front[i]);
                } else {
                    assert(id == last);
                    assert(added);
                    assert(states[front.len() as int].id_ == id);
                }
            }
        }
    } else {
        assert forall|id: Id| #[trigger] states_name(states, id) <==> ids.contains(id)
            && acid_known(rows, id) by {}
    }
}

/// The table "acids".
pub struct AcidsTable {
    rows: Vec<AcidRow>,
}

impl View for AcidsTable {
    type V = Seq<AcidRow>;

    closed spec fn view(&self) -> Seq<AcidRow> {
        self.rows@
    }
}

impl AcidsTable {
    /// The constraints of the table hold.
    pub open spec fn wf(&self) -> bool {
        acids_wf(self@)
    }

    /// An empty table.
    pub fn new() -> (t: Self)
        ensures
            t.wf(),
            t@ == Seq::<AcidRow>::empty(),
    {
        AcidsTable { rows: Vec::new() }
    }

    /// A copy of the table.
    pub fn copy(&self) -> (t: Self)
        ensures
            t@ == self@,
    {
        let mut rows: Vec<AcidRow> = Vec::new();
        let mut i: usize = 0;
        while i < self.rows.len()
            invariant
                i <= self.rows@.len(),
                rows@ == self.rows@.take(i as int),
            decreases self.rows@.len() - i,
        {
            rows.push(self.rows[i]);
            assert(rows@ =~= self.rows@.take(i + 1));
            i = i + 1;
        }
        assert(self.rows@.take(i as int) =~= self.rows@);
        AcidsTable { rows }
    }

    /// The number of rows.
    pub fn len(&self) -> (n: usize)
        ensures
            n == self@.len(),
    {
        self.rows.len()
    }

    /// The position of the row that holds the record `id`.
    fn position(&self, id: &Id) -> (r: Option<usize>)
        requires
            self.wf(),
        ensures
            match r {
                Some(j) => j < self@.len() && self@[j as int].id == *id && acid_row(self@, *id)
                    == self@[j as int],
                None => true,
            },
            r is Some <==> acid_known(self@, *id),
    {
        let mut i: usize = 0;
        while i < self.rows.len()
            invariant
                i <= self.rows@.len(),
                self.wf(),
                forall|j: int| 0 <= j < i ==> self.rows@[j].id != *id,
            decreases self.rows@.len() - i,
        {
            if self.rows[i].id.same(id) {
                proof {
                    lemma_acid_row(self@, i as int);
                }
                return Some(i);
            }
            i = i + 1;
        }
        None
    }

    /// Offers the records `ids` to the mempool: each one that the table does
    /// not know gets a new row without a height.
    pub fn accept(&mut self, ids: &[Id]) -> (r: Result<(), Error>)
        requires
            old(self).wf(),
        ensures
            final(self).wf(),
            final(self)@ == acids_accepted(old(self)@, ids@),
            r is Err <==> acids_refused(old(self)@, ids@),
            r is Err ==> r->Err_0.code == SQLITE_FULL,
    {
        let mut refused = false;
        let mut k: usize = 0;
        while k < ids.len()
            invariant
                k <= ids@.len(),
                self.wf(),
                self@ == acids_accepted(old(self)@, ids@.take(k as int)),
                refused <==> acids_refused(old(self)@, ids@.take(k as int)),
            decreases ids@.len() - k,
        {
            let ghost start = old(self)@;
            let ghost shorter = ids@.take(k as int);
            let ghost longer = ids@.take(k + 1);
            let ghost before = self@;
            proof {
                assert(longer == shorter.push(ids@[k as int]));
                assert(longer.drop_last() == shorter);
                lemma_refused_push(start, shorter, ids@[k as int]);
            }
            let known = self.position(&ids[k]);
            if known.is_none() {
                let len = self.rows.len() as u64;
                if len >= 0x7fff_ffff_ffff_ffff {
                    refused = true;
                } else {
                    let seq = (len + 1) as i64;
                    let row = AcidRow { seq, id: ids[k], chain_height: None };
                    self.rows.push(row);
                    proof {
                        let after = self@;
                        assert(after == before.push(row));
                        assert forall|i: int, j: int| 0 <= i < j < after.len() implies after[i].id
                            != after[j].id by {
                            assert(after[i] == before[i]);
                            if j < before.len() {
                                assert(after[j] == before[j]);
                            }
                        }
                        assert forall|i: int| 0 <= i < after.len() implies (#[trigger] after[i]).seq
                            == i + 1 by {
                            if i < before.len() {
                                assert(after[i] == before[i]);
                            }
                        }
                    }
                }
            }
            assert(self@ == acids_accepted_one(before, ids@[k as int]));
            k = k + 1;
        }
        assert(ids@.take(k as int) =~= ids@);
        if refused {
            Err(Error::new(SQLITE_FULL))
        } else {
            Ok(())
        }
    }

    /// Moves the records `ids` that wait in the mempool to the block at
    /// `height`, and returns how many rows changed.
    pub fn promote(&mut self, height: BlockHeight, ids: &[Id]) -> (n: usize)
        requires
            old(self).wf(),
        ensures
            final(self).wf(),
            final(self)@ == acids_promoted(old(self)@, ids@, height),
            n == acids_promotable(old(self)@, ids@),
    {
        let mut n: usize = 0;
        let mut k: usize = 0;
        proof {
            lemma_promotable_none(old(self)@);
            assert(ids@.take(0) == Seq::<Id>::empty());
            assert(self@ =~= acids_promoted(old(self)@, ids@.take(0), height));
        }
        while k < ids.len()
            invariant
                k <= ids@.len(),
                self.wf(),
                old(self).wf(),
                self@ == acids_promoted(old(self)@, ids@.take(k as int), height),
                n == acids_promotable(old(self)@, ids@.take(k as int)),
            decreases ids@.len() - k,
        {
            let ghost start = old(self)@;
            let ghost shorter = ids@.take(k as int);
            let ghost longer = ids@.take(k + 1);
            let ghost before = self@;
            let ghost id = ids@[k as int];
            proof {
                assert(longer == shorter.push(id));
                lemma_promotable_push(start, shorter, id);
                lemma_promotable_bound(start, longer);
                assert forall|x: Id| longer.contains(x) <==> shorter.contains(x) || x == id by {
                    lemma_push_contains(shorter, id, x);
                }
            }
            let found = self.position(&ids[k]);
            match found {
                Some(j) => {
                    proof {
                        assert(before[j as int] == acid_promoted_row(start[j as int], shorter, height));
                        assert(start[j as int].id == id);
                        lemma_acid_row(start, j as int);
                    }
                    if self.rows[j].chain_height.is_none() {
                        let len = self.rows.len();
                        assert(n + 1 == acids_promotable(start, longer));
                        assert(start.len() == len);
                        let row = self.rows[j];
                        self.rows.set(j, AcidRow { seq: row.seq, id: row.id, chain_height: Some(height) });
                        n = n + 1;
                    }
                    proof {
                        let after = self@;
                        assert forall|i: int| 0 <= i < after.len() implies after[i]
                            == acid_promoted_row(start[i], longer, height) by {
                            assert(before[i] == acid_promoted_row(start[i], shorter, height));
                            if i != j {
                                assert(after[i] == before[i]);
                                if i < j {
                                    assert(start[i].id != start[j as int].id);
                                } else {
                                    assert(start[j as int].id != start[i].id);
                                }
                            }
                        }
                        assert(after =~= acids_promoted(start, longer, height));
                        assert forall|i: int, j2: int| 0 <= i < j2 < after.len() implies after[i].id
                            != after[j2].id by {
                            assert(start[i].id != start[j2].id);
                        }
                    }
                },
                None => {
                    proof {
                        assert forall|i: int| 0 <= i < before.len() implies before[i]
                            == acid_promoted_row(start[i], longer, height) by {
                            assert(before[i] == acid_promoted_row(start[i], shorter, height));
                            assert(before[i].id == start[i].id);
                            assert(before[i].id != id);
                        }
                        assert(before =~= acids_promoted(start, longer, height));
                        if acid_known(start, id) {
                            let w = choose|i: int|
                                0 <= i < start.len() && (#[trigger] start[i]).id == id;
                            assert(before[w].id == id);
                        }
                    }
                },
            }
            k = k + 1;
        }
        assert(ids@.take(k as int) =~= ids@);
        n
    }

    /// Moves the records of the block at `height` back to the mempool, and
    /// returns how many rows changed.
    pub fn demote(&mut self, height: BlockHeight) -> (n: usize)
        requires
            old(self).wf(),
        ensures
            final(self).wf(),
            final(self)@ == acids_demoted(old(self)@, height),
            n == acids_at_height(old(self)@, height),
    {
        let mut n: usize = 0;
        let mut i: usize = 0;
        while i < self.rows.len()
            invariant
                i <= self.rows@.len(),
                self.rows@.len() == old(self)@.len(),
                forall|j: int| 0 <= j < i ==> self.rows@[j] == acid_demoted_row(old(self)@[j], height),
                forall|j: int| i <= j < self.rows@.len() ==> self.rows@[j] == old(self)@[j],
                n == acids_at_height(old(self)@.take(i as int), height),
                n <= i,
            decreases self.rows@.len() - i,
        {
            let row = self.rows[i];
            proof {
                assert(old(self)@.take(i + 1).drop_last() == old(self)@.take(i as int));
                assert(old(self)@.take(i + 1).last() == old(self)@[i as int]);
            }
            match row.chain_height {
                Some(h) => {
                    if h == height {
                        self.rows.set(i, AcidRow { seq: row.seq, id: row.id, chain_height: None });
                        n = n + 1;
                    }
                },
                None => {},
            }
            i = i + 1;
        }
        proof {
            assert(old(self)@.take(i as int) == old(self)@);
            assert(self@ =~= acids_demoted(old(self)@, height));
            let start = old(self)@;
            let after = self@;
            assert forall|a: int, b: int| 0 <= a < b < after.len() implies after[a].id
                != after[b].id by {
                assert(start[a].id != start[b].id);
            }
        }
        n
    }

    /// The states of the records `ids`, with the blocks looked up in `chain`.
    pub fn states(&self, chain: &MainChainTable, ids: &[Id]) -> (r: Vec<AcidChainRelation>)
        requires
            self.wf(),
            chain.wf(),
        ensures
            r@ == acids_states(self@, chain@, ids@),
    {
        let mut found: Vec<AcidChainRelation> = Vec::new();
        let mut k: usize = 0;
        while k < ids.len()
            invariant
                k <= ids@.len(),
                self.wf(),
                chain.wf(),
                found@ == acids_states(self@, chain@, ids@.take(k as int)),
            decreases ids@.len() - k,
        {
            proof {
                assert(ids@.take(k + 1).drop_last() == ids@.take(k as int));
                assert(ids@.take(k + 1).last() == ids@[k as int]);
            }
            let repeated = Self::named_before(ids, k);
            if !repeated {
                match self.position(&ids[k]) {
                    Some(j) => {
                        let block = match self.rows[j].chain_height {
                            None => None,
                            Some(height) => chain.row_at(height),
                        };
                        found.push(AcidChainRelation { id_: ids[k], chain_index_: block });
                    },
                    None => {},
                }
            }
            k = k + 1;
        }
        assert(ids@.take(k as int) =~= ids@);
        found
    }

    /// Whether `ids[k]` stands in `ids` before the position `k` too.
    fn named_before(ids: &[Id], k: usize) -> (r: bool)
        requires
            k < ids@.len(),
        ensures
            r == ids@.take(k as int).contains(ids@[k as int]),
    {
        let mut i: usize = 0;
        while i < k
            invariant
                i <= k < ids@.len(),
                forall|j: int| 0 <= j < i ==> ids@[j] != ids@[k as int],
            decreases k - i,
        {
            if ids[i].same(&ids[k]) {
                assert(ids@.take(k as int)[i as int] == ids@[k as int]);
                return true;
            }
            i = i + 1;
        }
        assert forall|j: int| 0 <= j < ids@.take(k as int).len() implies ids@.take(k as int)[j]
            != ids@[k as int] by {
            assert(ids@.take(k as int)[j] == ids@[j]);
        }
        false
    }

    /// At most `limit` rows of the mempool from the number `min_seq` on (from
    /// the first row, without a `min_seq`), in the order of their numbers.
    pub fn mempool(&self, min_seq: Option<i64>, limit: u32) -> (r: Vec<(i64, Id)>)
        requires
            self.wf(),
        ensures
            r@ == at_most(
                acids_mempool(
                    self@,
                    match min_seq {
                        Some(m) => m as int,
                        None => 0,
                    },
                ),
                limit as nat,
            ),
    {
        let min: i64 = match min_seq {
            Some(m) => m,
            None => 0,
        };
        let mut found: Vec<(i64, Id)> = Vec::new();
        let mut i: usize = 0;
        while i < self.rows.len() && found.len() < limit as usize
            invariant
                i <= self.rows@.len(),
                found@.len() <= limit,
                found@ == acids_mempool(self.rows@.take(i as int), min as int),
            decreases self.rows@.len() - i,
        {
            proof {
                assert(self.rows@.take(i + 1).drop_last() == self.rows@.take(i as int));
                assert(self.rows@.take(i + 1).last() == self.rows@[i as int]);
            }
            let row = self.rows[i];
            if row.chain_height.is_none() && row.seq >= min {
                found.push((row.seq, row.id));
            }
            i = i + 1;
        }
        proof {
            lemma_mempool_prefix(self.rows@, min as int, i as int);
            if i == self.rows@.len() {
                assert(self.rows@.take(i as int) == self.rows@);
            }
        }
        found
    }
}

} // verus!
