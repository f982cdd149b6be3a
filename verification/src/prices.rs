//! The fixed-width time-series store.
//!
//! Prices are keyed by timestamp; inserting an existing timestamp replaces
//! its price. A query asks for the truncated average of the prices whose
//! timestamps lie in a closed range, 0 when the range holds none.

use vstd::prelude::*;

use vstd::arithmetic::div_mod::lemma_div_by_multiple;
use vstd::arithmetic::div_mod::lemma_div_is_ordered;
use vstd::arithmetic::mul::lemma_mul_inequality;

verus! {

/// Entries ordered strictly by timestamp: sorted, no duplicates.
pub open spec fn sorted_by_time(s: Seq<(i32, i32)>) -> bool {
    forall|i: int, j: int| 0 <= i < j < s.len() ==> s[i].0 < s[j].0
}

/// `s` with `(t, p)` inserted at its place in timestamp order, replacing an
/// entry with the same timestamp.
pub open spec fn insert_entry(s: Seq<(i32, i32)>, t: i32, p: i32) -> Seq<(i32, i32)>
    decreases s.len(),
{
    if s.len() == 0 {
        seq![(t, p)]
    } else if s[0].0 < t {
        seq![s[0]] + insert_entry(s.drop_first(), t, p)
    } else if s[0].0 == t {
        seq![(t, p)] + s.drop_first()
    } else {
        seq![(t, p)] + s
    }
}

/// The entries whose timestamp lies in `[left, right]`.
pub open spec fn selected(s: Seq<(i32, i32)>, left: int, right: int) -> Seq<(i32, i32)> {
    s.filter(|e: (i32, i32)| left <= e.0 as int && e.0 as int <= right)
}

/// The sum of the prices of `s`.
pub open spec fn sum_prices(s: Seq<(i32, i32)>) -> int
    decreases s.len(),
{
    if s.len() == 0 {
        0
    } else {
        sum_prices(s.drop_last()) + s.last().1 as int
    }
}

/// Division that rounds towards zero, as the wire protocol's average does.
pub open spec fn trunc_div(a: int, b: int) -> int {
    if a >= 0 {
        a / b
    } else {
        -((-a) / b)
    }
}

/// The answer to a query: the truncated average price over the range, 0 when
/// the range holds no entry.
pub open spec fn range_mean(s: Seq<(i32, i32)>, left: int, right: int) -> int {
    let sel = selected(s, left, right);
    if sel.len() == 0 {
        0
    } else {
        trunc_div(sum_prices(sel), sel.len() as int)
    }
}

/// Splits `insert_entry` at the first position `i` whose timestamp is not
/// below `t`: everything before `i` stays, `(t, p)` goes in at `i`, and an
/// entry at `i` with timestamp exactly `t` is dropped.
proof fn lemma_insert_entry_at(s: Seq<(i32, i32)>, t: i32, p: i32, i: int)
    requires
        0 <= i <= s.len(),
        forall|j: int| 0 <= j < i ==> s[j].0 < t,
        i < s.len() ==> s[i].0 >= t,
    ensures
        i < s.len() && s[i].0 == t ==> insert_entry(s, t, p) == s.take(i) + seq![(t, p)]
            + s.skip(i + 1),
        !(i < s.len() && s[i].0 == t) ==> insert_entry(s, t, p) == s.take(i) + seq![(t, p)]
            + s.skip(i),
    decreases s.len(),
{
    if i == 0 {
        if s.len() == 0 {
            assert(s.take(0) + seq![(t, p)] + s.skip(0) =~= seq![(t, p)]);
        } else if s[0].0 == t {
            assert(s.take(0) + seq![(t, p)] + s.skip(1) =~= seq![(t, p)] + s.drop_first());
        } else {
            assert(s.take(0) + seq![(t, p)] + s.skip(0) =~= seq![(t, p)] + s);
        }
    } else {
        assert(s[0].0 < t);
        let rest = s.drop_first();
        assert forall|j: int| 0 <= j < i - 1 implies rest[j].0 < t by {
            assert(rest[j] == s[j + 1]);
        }
        lemma_insert_entry_at(rest, t, p, i - 1);
        assert(s.take(i) =~= seq![s[0]] + rest.take(i - 1));
        if i < s.len() && s[i].0 == t {
            assert(s.skip(i + 1) =~= rest.skip(i));
            assert(seq![s[0]] + (rest.take(i - 1) + seq![(t, p)] + rest.skip(i)) =~= s.take(i)
                + seq![(t, p)] + s.skip(i + 1));
        } else {
            assert(s.skip(i) =~= rest.skip(i - 1));
            assert(seq![s[0]] + (rest.take(i - 1) + seq![(t, p)] + rest.skip(i - 1)) =~= s.take(i)
                + seq![(t, p)] + s.skip(i));
        }
    }
}

/// The in-memory price store: entries sorted strictly by timestamp.
pub struct PriceDb {
    entries: Vec<(i32, i32)>,
}

impl View for PriceDb {
    type V = Seq<(i32, i32)>;

    closed spec fn view(&self) -> Seq<(i32, i32)> {
        self.entries@
    }
}

impl PriceDb {
    /// The entries are kept in strict timestamp order.
    pub open spec fn wf(&self) -> bool {
        sorted_by_time(self@)
    }

    /// An empty store.
    pub fn new() -> (r: PriceDb)
        ensures
            r.wf(),
            r@ == Seq::<(i32, i32)>::empty(),
    {
        let r = PriceDb { entries: Vec::new() };
        proof {
            assert(r@ =~= Seq::<(i32, i32)>::empty());
        }
        r
    }

    /// Records `price` at `timestamp`, replacing any earlier price there.
    pub fn insert(&mut self, timestamp: i32, price: i32)
        requires
            old(self).wf(),
        ensures
            final(self).wf(),
            final(self)@ == insert_entry(old(self)@, timestamp, price),
    {
        let mut i: usize = 0;
        while i < self.entries.len() && self.entries[i].0 < timestamp
            invariant
                0 <= i <= self.entries@.len(),
                forall|j: int| 0 <= j < i ==> self.entries@[j].0 < timestamp,
            decreases self.entries@.len() - i,
        {
            i += 1;
        }
        proof {
            lemma_insert_entry_at(self@, timestamp, price, i as int);
        }
        let ghost before = self@;
        if i < self.entries.len() && self.entries[i].0 == timestamp {
            self.entries.remove(i);
            self.entries.insert(i, (timestamp, price));
            proof {
                assert(self@ =~= before.take(i as int) + seq![(timestamp, price)] + before.skip(
                    i as int + 1,
                ));
                assert forall|a: int, b: int| 0 <= a < b < self@.len() implies self@[a].0
                    < self@[b].0 by {
                    assert(sorted_by_time(before));
                }
            }
        } else {
            self.entries.insert(i, (timestamp, price));
            proof {
                assert(self@ =~= before.take(i as int) + seq![(timestamp, price)] + before.skip(
                    i as int,
                ));
                assert forall|a: int, b: int| 0 <= a < b < self@.len() implies self@[a].0
                    < self@[b].0 by {
                    assert(sorted_by_time(before));
                }
            }
        }
    }

    /// Answers a range query: the truncated average of the prices whose
    /// timestamps lie in `[left, right]`, 0 when there are none. A range
    /// with `left > right` selects nothing and answers 0.
    pub fn query_mean(&self, left: i32, right: i32) -> (r: i32)
        ensures
            r as int == range_mean(self@, left as int, right as int),
    {
        let ghost keep = |e: (i32, i32)| left as int <= e.0 as int && e.0 as int <= right as int;
        let mut sum: i128 = 0;
        let mut count: usize = 0;
        let mut i: usize = 0;
        proof {
            assert(self@.take(0) =~= Seq::<(i32, i32)>::empty());
            assert(Seq::<(i32, i32)>::empty().filter(keep) =~= Seq::<(i32, i32)>::empty()) by {
                reveal(Seq::filter);
            }
        }
        while i < self.entries.len()
            invariant
                0 <= i <= self.entries@.len(),
                keep == (|e: (i32, i32)| left as int <= e.0 as int && e.0 as int <= right as int),
                count as int == self@.take(i as int).filter(keep).len(),
                sum as int == sum_prices(self@.take(i as int).filter(keep)),
                count <= i,
                -(count as int) * 0x8000_0000 <= sum as int,
                sum as int <= (count as int) * 0x7fff_ffff,
            decreases self.entries@.len() - i,
        {
            let ghost prefix = self@.take(i as int);
            proof {
                assert(self@.take(i as int + 1) =~= prefix.push(self@[i as int]));
                assert(prefix.push(self@[i as int]).drop_last() =~= prefix);
                reveal(Seq::filter);
            }
            let entry = self.entries[i];
            if left <= entry.0 && entry.0 <= right {
                proof {
                    assert(prefix.filter(keep).push(self@[i as int]).drop_last() =~= prefix.filter(
                        keep,
                    ));
                    assert((count as int + 1) * 0x8000_0000 == count as int * 0x8000_0000
                        + 0x8000_0000) by (nonlinear_arith);
                    assert((count as int + 1) * 0x7fff_ffff == count as int * 0x7fff_ffff
                        + 0x7fff_ffff) by (nonlinear_arith);
                    lemma_mul_inequality(count as int + 1, 0x1_0000_0000_0000_0000, 0x8000_0000);
                    lemma_mul_inequality(count as int + 1, 0x1_0000_0000_0000_0000, 0x7fff_ffff);
                }
                sum = sum + (entry.1 as i128);
                count = count + 1;
            }
            i += 1;
        }
        proof {
            assert(self@.take(self.entries@.len() as int) =~= self@);
        }
        let sel_len = count;
        if sel_len == 0 {
            return 0;
        }
        let c = count as u128;
        proof {
            lemma_mul_inequality(count as int, 0x1_0000_0000_0000_0000, 0x8000_0000);
            lemma_mul_inequality(count as int, 0x1_0000_0000_0000_0000, 0x7fff_ffff);
        }
        if sum >= 0 {
            let q = (sum as u128) / c;
            proof {
                lemma_div_is_ordered(sum as int, count as int * 0x7fff_ffff, count as int);
                lemma_div_by_multiple(0x7fff_ffff, count as int);
            }
            q as i32
        } else {
            let m = (-sum) as u128;
            let q = m / c;
            proof {
                lemma_div_is_ordered(-(sum as int), count as int * 0x8000_0000, count as int);
                lemma_div_by_multiple(0x8000_0000, count as int);
            }
            let neg: i64 = -(q as i64);
            neg as i32
        }
    }
}

} // verus!
