//! The links of the cache's index: the list of the entries in the order of
//! their last use, and the chains of the entries with the same hash.
//!
//! The entries live in an arena and are known by their position in it. A
//! link names the position of the neighbour, or `NIL` where there is none.

use vstd::prelude::*;

verus! {

/// The link that leads nowhere.
pub const NIL: usize = usize::MAX;

/// The links `prevs` and `nexts` join the positions `order`, from the least
/// to the most recently used, into a doubly linked list between `lru` and `mru`.
pub open spec fn list_ok(
    order: Seq<usize>,
    prevs: Seq<usize>,
    nexts: Seq<usize>,
    lru: usize,
    mru: usize,
) -> bool {
    &&& prevs.len() == nexts.len()
    &&& order.no_duplicates()
    &&& forall|i: int| 0 <= i < order.len() ==> (#[trigger] order[i]) < prevs.len()
    &&& (order.len() == 0 ==> lru == NIL && mru == NIL)
    &&& (order.len() > 0 ==> lru == order[0] && mru == order.last())
    &&& forall|i: int|
        0 <= i < order.len() ==> #[trigger] prevs[order[i] as int] == (if i == 0 {
            NIL
        } else {
            order[i - 1]
        })
    &&& forall|i: int|
        0 <= i < order.len() ==> #[trigger] nexts[order[i] as int] == (if i == order.len() - 1 {
            NIL
        } else {
            order[i + 1]
        })
}

/// The links `chain_next` join the positions `chain` into a singly linked list from `head`.
pub open spec fn chain_ok(chain: Seq<usize>, chain_next: Seq<usize>, head: usize) -> bool {
    &&& chain.no_duplicates()
    &&& forall|j: int| 0 <= j < chain.len() ==> (#[trigger] chain[j]) < chain_next.len()
    &&& head == (if chain.len() == 0 {
        NIL
    } else {
        chain[0]
    })
    &&& forall|j: int|
        0 <= j < chain.len() ==> #[trigger] chain_next[chain[j] as int] == (if j == chain.len()
            - 1 {
            NIL
        } else {
            chain[j + 1]
        })
}

/// Every chain is a linked list from its head, and holds the positions
/// whose bucket it is, and no others.
pub open spec fn chains_ok(
    chains: Seq<Seq<usize>>,
    heads: Seq<usize>,
    chain_next: Seq<usize>,
    buckets: Seq<int>,
) -> bool {
    &&& chains.len() == heads.len()
    &&& buckets.len() == chain_next.len()
    &&& forall|c: int| 0 <= c < chains.len() ==> chain_ok(#[trigger] chains[c], chain_next, heads[c])
    &&& forall|c: int, j: int|
        0 <= c < chains.len() && 0 <= j < chains[c].len() ==> buckets[(#[trigger] chains[c][j]) as int]
            == c
}

/// Taking the element at `p` out of a sequence without duplicates leaves one without duplicates.
pub proof fn lemma_remove_no_duplicates(s: Seq<usize>, p: int)
    requires
        s.no_duplicates(),
        0 <= p < s.len(),
    ensures
        s.remove(p).no_duplicates(),
        s.remove(p).len() == s.len() - 1,
        forall|i: int| 0 <= i < p ==> #[trigger] s.remove(p)[i] == s[i],
        forall|i: int| p <= i < s.len() - 1 ==> #[trigger] s.remove(p)[i] == s[i + 1],
        !s.remove(p).contains(s[p]),
        forall|x: usize| x != s[p] && s.contains(x) ==> s.remove(p).contains(x),
        forall|x: usize| s.remove(p).contains(x) ==> s.contains(x),
{
    let r = s.remove(p);
    assert forall|i: int, j: int| 0 <= i < r.len() && 0 <= j < r.len() && i != j implies r[i]
        != r[j] by {
        let a = if i < p { i } else { i + 1 };
        let b = if j < p { j } else { j + 1 };
        assert(r[i] == s[a] && r[j] == s[b]);
    }
    assert forall|i: int| 0 <= i < r.len() implies r[i] != s[p] by {
        let a = if i < p { i } else { i + 1 };
        assert(r[i] == s[a]);
    }
    assert forall|x: usize| x != s[p] && s.contains(x) implies r.contains(x) by {
        let a = choose|a: int| 0 <= a < s.len() && s[a] == x;
        let i = if a < p { a } else { a - 1 };
        assert(r[i] == x);
    }
    assert forall|x: usize| r.contains(x) implies s.contains(x) by {
        let i = choose|i: int| 0 <= i < r.len() && r[i] == x;
        let a = if i < p { i } else { i + 1 };
        assert(s[a] == x);
    }
}

/// Adding an element that a sequence without duplicates lacks leaves one without duplicates.
pub proof fn lemma_push_no_duplicates(s: Seq<usize>, k: usize)
    requires
        s.no_duplicates(),
        !s.contains(k),
    ensures
        s.push(k).no_duplicates(),
        s.push(k).contains(k),
        forall|x: usize| s.contains(x) ==> s.push(k).contains(x),
        forall|x: usize| s.push(k).contains(x) ==> s.contains(x) || x == k,
{
    let r = s.push(k);
    assert forall|i: int, j: int| 0 <= i < r.len() && 0 <= j < r.len() && i != j implies r[i]
        != r[j] by {
        if i < s.len() {
            assert(r[i] == s[i]);
            assert(s.contains(s[i]));
        }
        if j < s.len() {
            assert(r[j] == s[j]);
            assert(s.contains(s[j]));
        }
    }
    assert(r[s.len() as int] == k);
    assert forall|x: usize| s.contains(x) implies r.contains(x) by {
        let a = choose|a: int| 0 <= a < s.len() && s[a] == x;
        assert(r[a] == x);
    }
    assert forall|x: usize| r.contains(x) implies s.contains(x) || x == k by {
        let i = choose|i: int| 0 <= i < r.len() && r[i] == x;
        if i < s.len() {
            assert(s[i] == x);
        }
    }
}

/// A sequence of positions below `n` without duplicates has `n` elements at most.
pub proof fn lemma_no_duplicates_bound(s: Seq<usize>, n: nat)
    requires
        s.no_duplicates(),
        forall|i: int| 0 <= i < s.len() ==> (#[trigger] s[i]) < n,
    ensures
        s.len() <= n,
    decreases n,
{
    if s.len() > 0 {
        if n == 0 {
            assert(s[0] < n);
        } else {
            let top = (n - 1) as usize;
            if s.contains(top) {
                let p = s.index_of(top);
                lemma_remove_no_duplicates(s, p);
                let r = s.remove(p);
                assert forall|i: int| 0 <= i < r.len() implies (#[trigger] r[i]) < n - 1 by {
                    let a = if i < p { i } else { i + 1 };
                    assert(r[i] == s[a]);
                    assert(s[a] < n);
                    assert(s[a] != s[p]);
                }
                lemma_no_duplicates_bound(r, (n - 1) as nat);
            } else {
                assert forall|i: int| 0 <= i < s.len() implies (#[trigger] s[i]) < n - 1 by {
                    assert(s[i] < n);
                    assert(s.contains(s[i]));
                }
                lemma_no_duplicates_bound(s, (n - 1) as nat);
            }
        }
    }
}

/// Links that stay as they are at the positions of the list keep the list.
pub proof fn lemma_list_frame(
    order: Seq<usize>,
    prevs: Seq<usize>,
    nexts: Seq<usize>,
    prevs2: Seq<usize>,
    nexts2: Seq<usize>,
    lru: usize,
    mru: usize,
)
    requires
        list_ok(order, prevs, nexts, lru, mru),
        prevs2.len() == nexts2.len(),
        prevs2.len() >= prevs.len(),
        forall|x: int| 0 <= x < prevs.len() ==> prevs2[x] == prevs[x] && nexts2[x] == nexts[x],
    ensures
        list_ok(order, prevs2, nexts2, lru, mru),
{
    assert forall|i: int| 0 <= i < order.len() implies #[trigger] prevs2[order[i] as int] == (if i
        == 0 {
        NIL
    } else {
        order[i - 1]
    }) by {
        assert(order[i] < prevs.len());
        assert(prevs[order[i] as int] == if i == 0 { NIL } else { order[i - 1] });
    }
    assert forall|i: int| 0 <= i < order.len() implies #[trigger] nexts2[order[i] as int] == (if i
        == order.len() - 1 {
        NIL
    } else {
        order[i + 1]
    }) by {
        assert(order[i] < prevs.len());
        assert(nexts[order[i] as int] == if i == order.len() - 1 { NIL } else { order[i + 1] });
    }
}

/// Links and buckets that stay as they are at the positions of the chains keep the chains.
pub proof fn lemma_chains_frame(
    chains: Seq<Seq<usize>>,
    heads: Seq<usize>,
    chain_next: Seq<usize>,
    buckets: Seq<int>,
    chain_next2: Seq<usize>,
    buckets2: Seq<int>,
)
    requires
        chains_ok(chains, heads, chain_next, buckets),
        chain_next2.len() >= chain_next.len(),
        buckets2.len() == chain_next2.len(),
        forall|x: int| 0 <= x < chain_next.len() ==> chain_next2[x] == chain_next[x],
        forall|c: int, j: int|
            0 <= c < chains.len() && 0 <= j < chains[c].len() ==> buckets2[(
            #[trigger] chains[c][j]) as int] == buckets[chains[c][j] as int],
    ensures
        chains_ok(chains, heads, chain_next2, buckets2),
{
    assert forall|c: int| 0 <= c < chains.len() implies chain_ok(
        #[trigger] chains[c],
        chain_next2,
        heads[c],
    ) by {
        let chain = chains[c];
        assert(chain_ok(chain, chain_next, heads[c]));
        assert forall|j: int| 0 <= j < chain.len() implies #[trigger] chain_next2[chain[j] as int]
            == (if j == chain.len() - 1 {
            NIL
        } else {
            chain[j + 1]
        }) by {
            assert(chain[j] < chain_next.len());
            assert(chain_next[chain[j] as int] == if j == chain.len() - 1 {
                NIL
            } else {
                chain[j + 1]
            });
        }
    }
    assert forall|c: int, j: int|
        0 <= c < chains.len() && 0 <= j < chains[c].len() implies buckets2[(
    #[trigger] chains[c][j]) as int] == c by {
        assert(buckets[chains[c][j] as int] == c);
    }
}

/// Takes the position `k` out of the list.
pub(crate) fn list_unlink(
    prevs: &mut Vec<usize>,
    nexts: &mut Vec<usize>,
    lru: &mut usize,
    mru: &mut usize,
    k: usize,
    Ghost(order): Ghost<Seq<usize>>,
)
    requires
        list_ok(order, old(prevs)@, old(nexts)@, *old(lru), *old(mru)),
        order.contains(k),
    ensures
        list_ok(
            order.remove(order.index_of(k)),
            final(prevs)@,
            final(nexts)@,
            *final(lru),
            *final(mru),
        ),
        final(prevs)@.len() == old(prevs)@.len(),
{
    let ghost pos = order.index_of(k);
    let ghost before_prevs = prevs@;
    let ghost before_nexts = nexts@;
    let len = prevs.len();
    proof {
        assert(order[pos] == k);
        lemma_remove_no_duplicates(order, pos);
        assert forall|i: int| 0 <= i < order.len() implies (#[trigger] order[i]) != NIL by {
            assert(order[i] < len);
        }
    }
    let p = prevs[k];
    let n = nexts[k];
    proof {
        if pos > 0 {
            assert(order[pos - 1] < before_prevs.len());
        }
        if pos < order.len() - 1 {
            assert(order[pos + 1] < before_prevs.len());
        }
    }
    if p != NIL {
        nexts.set(p, n);
    } else {
        *lru = n;
    }
    if n != NIL {
        prevs.set(n, p);
    } else {
        *mru = p;
    }
    proof {
        let after = order.remove(pos);
        assert(p == if pos == 0 { NIL } else { order[pos - 1] });
        assert(n == if pos == order.len() - 1 { NIL } else { order[pos + 1] });
        assert(prevs@ == if n != NIL { before_prevs.update(n as int, p) } else { before_prevs });
        assert(nexts@ == if p != NIL { before_nexts.update(p as int, n) } else { before_nexts });
        assert forall|i: int| 0 <= i < after.len() implies (#[trigger] after[i]) < prevs@.len() by {
            let a = if i < pos { i } else { i + 1 };
            assert(after[i] == order[a]);
        }
        assert forall|i: int| 0 <= i < after.len() implies #[trigger] prevs@[after[i] as int]
            == (if i == 0 {
            NIL
        } else {
            after[i - 1]
        }) by {
            let a = if i < pos { i } else { i + 1 };
            assert(after[i] == order[a]);
            if i > 0 {
                let b = if i - 1 < pos { i - 1 } else { i };
                assert(after[i - 1] == order[b]);
            }
            assert(before_prevs[order[a] as int] == if a == 0 { NIL } else { order[a - 1] });
            if pos < order.len() - 1 {
                if a != pos + 1 {
                    assert(order[a] != order[pos + 1]);
                    assert(prevs@[order[a] as int] == before_prevs[order[a] as int]);
                } else {
                    assert(prevs@[order[a] as int] == p);
                }
            }
        }
        assert forall|i: int| 0 <= i < after.len() implies #[trigger] nexts@[after[i] as int]
            == (if i == after.len() - 1 {
            NIL
        } else {
            after[i + 1]
        }) by {
            let a = if i < pos { i } else { i + 1 };
            assert(after[i] == order[a]);
            if i < after.len() - 1 {
                let b = if i + 1 < pos { i + 1 } else { i + 2 };
                assert(after[i + 1] == order[b]);
            }
            assert(before_nexts[order[a] as int] == if a == order.len() - 1 {
                NIL
            } else {
                order[a + 1]
            });
            if pos > 0 {
                if a != pos - 1 {
                    assert(order[a] != order[pos - 1]);
                    assert(nexts@[order[a] as int] == before_nexts[order[a] as int]);
                } else {
                    assert(nexts@[order[a] as int] == n);
                }
            }
        }
        if after.len() > 0 {
            assert(after[0] == order[if pos == 0 { 1int } else { 0int }]);
            assert(after.last() == order[if pos == order.len() - 1 {
                order.len() - 2
            } else {
                order.len() - 1
            }]);
        }
    }
}

/// Puts the position `k`, which the list lacks, at the end of the list.
pub(crate) fn list_append(
    prevs: &mut Vec<usize>,
    nexts: &mut Vec<usize>,
    lru: &mut usize,
    mru: &mut usize,
    k: usize,
    Ghost(order): Ghost<Seq<usize>>,
)
    requires
        list_ok(order, old(prevs)@, old(nexts)@, *old(lru), *old(mru)),
        !order.contains(k),
        k < old(prevs)@.len(),
    ensures
        list_ok(order.push(k), final(prevs)@, final(nexts)@, *final(lru), *final(mru)),
        final(prevs)@.len() == old(prevs)@.len(),
{
    let len = prevs.len();
    proof {
        lemma_push_no_duplicates(order, k);
        assert forall|i: int| 0 <= i < order.len() implies (#[trigger] order[i]) != NIL by {
            assert(order[i] < len);
        }
    }
    let last = *mru;
    let ghost before_nexts = nexts@;
    prevs.set(k, last);
    nexts.set(k, NIL);
    if last != NIL {
        nexts.set(last, k);
    } else {
        *lru = k;
    }
    *mru = k;
    proof {
        let after = order.push(k);
        assert forall|i: int| 0 <= i < after.len() implies (#[trigger] after[i]) < prevs@.len() by {
            if i < order.len() {
                assert(after[i] == order[i]);
            }
        }
        assert forall|i: int| 0 <= i < after.len() implies #[trigger] prevs@[after[i] as int]
            == (if i == 0 {
            NIL
        } else {
            after[i - 1]
        }) by {
            if i < order.len() {
                assert(after[i] == order[i]);
                assert(order.contains(order[i]));
                if i > 0 {
                    assert(after[i - 1] == order[i - 1]);
                }
            } else {
                if i > 0 {
                    assert(after[i - 1] == order[i - 1]);
                }
            }
        }
        assert forall|i: int| 0 <= i < after.len() implies #[trigger] nexts@[after[i] as int]
            == (if i == after.len() - 1 {
            NIL
        } else {
            after[i + 1]
        }) by {
            assert(nexts@ == if last != NIL {
                before_nexts.update(k as int, NIL).update(last as int, k)
            } else {
                before_nexts.update(k as int, NIL)
            });
            if i < order.len() {
                assert(after[i] == order[i]);
                assert(order.contains(order[i]));
                assert(before_nexts[order[i] as int] == if i == order.len() - 1 {
                    NIL
                } else {
                    order[i + 1]
                });
                if i < order.len() - 1 {
                    assert(after[i + 1] == order[i + 1]);
                    assert(order[i] != order[order.len() - 1]);
                } else {
                    assert(after[i + 1] == k);
                    assert(order[i] == last);
                }
            } else {
                assert(after[i] == k);
                if order.len() > 0 {
                    assert(order.contains(order[order.len() - 1]));
                }
            }
        }
        assert(after[0] == if order.len() == 0 { k } else { order[0] });
    }
}

/// Puts the position `k`, which no chain holds, at the head of the chain `c`, which is its bucket.
pub(crate) fn chain_push(
    heads: &mut Vec<usize>,
    chain_next: &mut Vec<usize>,
    c: usize,
    k: usize,
    Ghost(chains): Ghost<Seq<Seq<usize>>>,
    Ghost(buckets): Ghost<Seq<int>>,
)
    requires
        chains_ok(chains, old(heads)@, old(chain_next)@, buckets),
        c < old(heads)@.len(),
        k < old(chain_next)@.len(),
        buckets[k as int] == c,
        !chains[c as int].contains(k),
    ensures
        chains_ok(
            chains.update(c as int, seq![k] + chains[c as int]),
            final(heads)@,
            final(chain_next)@,
            buckets,
        ),
        final(heads)@.len() == old(heads)@.len(),
        final(chain_next)@.len() == old(chain_next)@.len(),
{
    let ghost chain = chains[c as int];
    let ghost before_next = chain_next@;
    let ghost before_heads = heads@;
    let head = heads[c];
    chain_next.set(k, head);
    heads.set(c, k);
    proof {
        let longer = seq![k] + chain;
        let after = chains.update(c as int, longer);
        assert(chain_ok(chain, before_next, before_heads[c as int]));
        assert forall|i: int, j: int| 0 <= i < longer.len() && 0 <= j < longer.len() && i
            != j implies longer[i] != longer[j] by {
            if i > 0 {
                assert(longer[i] == chain[i - 1]);
                assert(chain.contains(chain[i - 1]));
            }
            if j > 0 {
                assert(longer[j] == chain[j - 1]);
                assert(chain.contains(chain[j - 1]));
            }
        }
        assert forall|j: int| 0 <= j < longer.len() implies (#[trigger] longer[j])
            < chain_next@.len() && chain_next@[longer[j] as int] == (if j == longer.len() - 1 {
            NIL
        } else {
            longer[j + 1]
        }) by {
            if j > 0 {
                assert(longer[j] == chain[j - 1]);
                assert(chain.contains(chain[j - 1]));
                assert(before_next[chain[j - 1] as int] == if j - 1 == chain.len() - 1 {
                    NIL
                } else {
                    chain[j]
                });
                if j < longer.len() - 1 {
                    assert(longer[j + 1] == chain[j]);
                }
            } else {
                if longer.len() > 1 {
                    assert(longer[1] == chain[0]);
                }
            }
        }
        assert(chain_ok(longer, chain_next@, heads@[c as int]));
        assert forall|d: int| 0 <= d < after.len() implies chain_ok(
            #[trigger] after[d],
            chain_next@,
            heads@[d],
        ) by {
            if d != c {
                let other = chains[d];
                assert(chain_ok(other, before_next, before_heads[d]));
                assert forall|j: int| 0 <= j < other.len() implies chain_next@[(
                #[trigger] other[j]) as int] == before_next[other[j] as int] by {
                    assert(buckets[chains[d][j] as int] == d);
                }
            }
        }
        assert forall|d: int, j: int| 0 <= d < after.len() && 0 <= j < after[d].len() implies buckets[(
        #[trigger] after[d][j]) as int] == d by {
            if d == c {
                if j > 0 {
                    assert(longer[j] == chain[j - 1]);
                    assert(buckets[chains[c as int][j - 1] as int] == c);
                }
            } else {
                assert(buckets[chains[d][j] as int] == d);
            }
        }
    }
}

/// Takes the position `k` out of the chain `c`, which holds it.
pub(crate) fn chain_remove(
    heads: &mut Vec<usize>,
    chain_next: &mut Vec<usize>,
    c: usize,
    k: usize,
    Ghost(chains): Ghost<Seq<Seq<usize>>>,
    Ghost(buckets): Ghost<Seq<int>>,
)
    requires
        chains_ok(chains, old(heads)@, old(chain_next)@, buckets),
        c < old(heads)@.len(),
        chains[c as int].contains(k),
    ensures
        chains_ok(
            chains.update(c as int, chains[c as int].remove(chains[c as int].index_of(k))),
            final(heads)@,
            final(chain_next)@,
            buckets,
        ),
        final(heads)@.len() == old(heads)@.len(),
        final(chain_next)@.len() == old(chain_next)@.len(),
{
    let ghost chain = chains[c as int];
    let ghost pos = chain.index_of(k);
    let ghost before_next = chain_next@;
    let ghost before_heads = heads@;
    let len = chain_next.len();
    proof {
        assert(chain_ok(chain, before_next, before_heads[c as int]));
        assert(chain[pos] == k);
        lemma_remove_no_duplicates(chain, pos);
        assert forall|j: int| 0 <= j < chain.len() implies (#[trigger] chain[j]) != NIL by {
            assert(chain[j] < len);
        }
    }
    let next = chain_next[k];
    let ghost mut j: int = 0;
    if heads[c] == k {
        proof {
            if pos != 0 {
                assert(chain[0] != chain[pos]);
            }
        }
        heads.set(c, next);
    } else {
        let mut cur = heads[c];
        proof {
            assert(cur == chain[0]);
        }
        while chain_next[cur] != k
            invariant
                0 <= j < pos < chain.len(),
                cur == chain[j],
                chain_next@ == before_next,
                chain_ok(chain, before_next, before_heads[c as int]),
                chain[pos] == k,
            decreases pos - j,
        {
            proof {
                assert(before_next[chain[j] as int] == chain[j + 1]);
                if j + 1 == pos {
                    assert(chain[j + 1] == k);
                }
                j = j + 1;
            }
            cur = chain_next[cur];
        }
        proof {
            assert(before_next[chain[j] as int] == chain[j + 1]);
            if j + 1 != pos {
                assert(chain[j + 1] != chain[pos]);
            }
            assert(j + 1 == pos);
        }
        chain_next.set(cur, next);
    }
    proof {
        let shorter = chain.remove(pos);
        let after = chains.update(c as int, shorter);
        assert(next == if pos == chain.len() - 1 { NIL } else { chain[pos + 1] });
        assert(chain_next@ == if pos == 0 {
            before_next
        } else {
            before_next.update(chain[pos - 1] as int, next)
        });
        assert forall|i: int| 0 <= i < shorter.len() implies (#[trigger] shorter[i])
            < chain_next@.len() && chain_next@[shorter[i] as int] == (if i == shorter.len() - 1 {
            NIL
        } else {
            shorter[i + 1]
        }) by {
            let a = if i < pos { i } else { i + 1 };
            assert(shorter[i] == chain[a]);
            assert(before_next[chain[a] as int] == if a == chain.len() - 1 {
                NIL
            } else {
                chain[a + 1]
            });
            if i < shorter.len() - 1 {
                let b = if i + 1 < pos { i + 1 } else { i + 2 };
                assert(shorter[i + 1] == chain[b]);
            }
            if pos > 0 && a != pos - 1 {
                assert(chain[a] != chain[pos - 1]);
            }
        }
        if shorter.len() > 0 {
            assert(shorter[0] == chain[if pos == 0 { 1int } else { 0int }]);
        }
        assert(chain_ok(shorter, chain_next@, heads@[c as int]));
        assert forall|d: int| 0 <= d < after.len() implies chain_ok(
            #[trigger] after[d],
            chain_next@,
            heads@[d],
        ) by {
            if d != c {
                let other = chains[d];
                assert(chain_ok(other, before_next, before_heads[d]));
                assert forall|i: int| 0 <= i < other.len() implies chain_next@[(
                #[trigger] other[i]) as int] == before_next[other[i] as int] by {
                    assert(buckets[chains[d][i] as int] == d);
                    if pos > 0 {
                        assert(buckets[chains[c as int][pos - 1] as int] == c);
                    }
                }
            }
        }
        assert forall|d: int, i: int| 0 <= d < after.len() && 0 <= i < after[d].len() implies buckets[(
        #[trigger] after[d][i]) as int] == d by {
            if d == c {
                let a = if i < pos { i } else { i + 1 };
                assert(shorter[i] == chain[a]);
                assert(buckets[chains[c as int][a] as int] == c);
            } else {
                assert(buckets[chains[d][i] as int] == d);
            }
        }
    }
}

} // verus!
