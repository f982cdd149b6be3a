//! The shared participant registry.
//!
//! The registry holds the display names of the currently joined members in
//! join order. It is a plain value here; the room wraps one instance in a
//! mutual-exclusion guard and shares it between all sessions.

use vstd::prelude::*;

use crate::lines::bytes_eq;
use crate::lines::lit;
use crate::lines::lit_bytes;
use crate::lines::push_all;

verus! {

/// The roster rendered for the "room contains" line: the names joined with
/// a comma and a space between each pair.
pub open spec fn comma_join(names: Seq<Seq<u8>>) -> Seq<u8>
    decreases names.len(),
{
    if names.len() == 0 {
        Seq::empty()
    } else if names.len() == 1 {
        names[0]
    } else {
        names[0] + lit_bytes(", "@) + comma_join(names.drop_first())
    }
}

/// Appending one name to a joined roster appends it after a separator when
/// the roster was not empty.
proof fn lemma_comma_join_push(names: Seq<Seq<u8>>, n: Seq<u8>)
    ensures
        comma_join(names.push(n)) == if names.len() == 0 {
            n
        } else {
            comma_join(names) + lit_bytes(", "@) + n
        },
    decreases names.len(),
{
    if names.len() == 0 {
        assert(names.push(n)[0] == n);
    } else {
        assert(names.push(n).drop_first() =~= names.drop_first().push(n));
        lemma_comma_join_push(names.drop_first(), n);
        assert(comma_join(names.push(n)) =~= comma_join(names) + lit_bytes(", "@) + n);
    }
}

/// The set of currently joined display names, in join order.
pub struct Registry {
    names: Vec<Vec<u8>>,
}

impl View for Registry {
    type V = Seq<Seq<u8>>;

    closed spec fn view(&self) -> Seq<Seq<u8>> {
        self.names@.map_values(|v: Vec<u8>| v@)
    }
}

impl Registry {
    /// An empty room.
    pub fn new() -> (r: Registry)
        ensures
            r@ == Seq::<Seq<u8>>::empty(),
    {
        let r = Registry { names: Vec::new() };
        proof {
            assert(r@ =~= Seq::<Seq<u8>>::empty());
        }
        r
    }

    /// How many members are joined.
    pub fn len(&self) -> (n: usize)
        ensures
            n == self@.len(),
    {
        self.names.len()
    }

    /// Records `name` as joined, after all current members.
    pub fn add(&mut self, name: Vec<u8>)
        ensures
            final(self)@ == old(self)@.push(name@),
    {
        let ghost before = self.names@;
        self.names.push(name);
        proof {
            assert(self@ =~= before.map_values(|v: Vec<u8>| v@).push(self.names@.last()@));
        }
    }

    /// Removes every entry equal to `name`; absent names are a no-op.
    pub fn remove(&mut self, name: &[u8])
        ensures
            final(self)@ == old(self)@.filter(|n: Seq<u8>| n != name@),
    {
        let ghost keep = |n: Seq<u8>| n != name@;
        let mut kept: Vec<Vec<u8>> = Vec::new();
        let mut i: usize = 0;
        proof {
            broadcast use vstd::seq_lib::group_filter_ensures;

            assert(self@.take(0) =~= Seq::<Seq<u8>>::empty());
            assert(kept@.map_values(|v: Vec<u8>| v@) =~= Seq::<Seq<u8>>::empty());
            assert(Seq::<Seq<u8>>::empty().filter(keep) =~= Seq::<Seq<u8>>::empty()) by {
                reveal(Seq::filter);
            }
        }
        while i < self.names.len()
            invariant
                0 <= i <= self.names@.len(),
                keep == (|n: Seq<u8>| n != name@),
                kept@.map_values(|v: Vec<u8>| v@) == self@.take(i as int).filter(keep),
            decreases self.names@.len() - i,
        {
            let ghost prefix = self@.take(i as int);
            proof {
                assert(self@.take(i as int + 1) =~= prefix.push(self@[i as int]));
                assert(prefix.push(self@[i as int]).drop_last() =~= prefix);
                assert(prefix.push(self@[i as int]).last() == self@[i as int]);
                reveal(Seq::filter);
            }
            let entry = &self.names[i];
            if !bytes_eq(entry.as_slice(), name) {
                let ghost kept_before = kept@;
                let copy = entry.clone();
                kept.push(copy);
                proof {
                    assert(kept@.map_values(|v: Vec<u8>| v@) =~= kept_before.map_values(
                        |v: Vec<u8>| v@,
                    ).push(self@[i as int]));
                }
            }
            i += 1;
        }
        proof {
            assert(self@.take(self.names@.len() as int) =~= self@);
        }
        self.names = kept;
    }

    /// A point-in-time copy of the roster, in join order.
    pub fn snapshot(&self) -> (r: Vec<Vec<u8>>)
        ensures
            r@.map_values(|v: Vec<u8>| v@) == self@,
    {
        let mut out: Vec<Vec<u8>> = Vec::new();
        let mut i: usize = 0;
        proof {
            assert(out@.map_values(|v: Vec<u8>| v@) =~= self@.take(0));
        }
        while i < self.names.len()
            invariant
                0 <= i <= self.names@.len(),
                out@.map_values(|v: Vec<u8>| v@) == self@.take(i as int),
            decreases self.names@.len() - i,
        {
            let ghost out_before = out@;
            let copy = self.names[i].clone();
            out.push(copy);
            proof {
                assert(out@.map_values(|v: Vec<u8>| v@) =~= out_before.map_values(
                    |v: Vec<u8>| v@,
                ).push(self@[i as int]));
                assert(self@.take(i as int + 1) =~= self@.take(i as int).push(self@[i as int]));
            }
            i += 1;
        }
        proof {
            assert(self@.take(self.names@.len() as int) =~= self@);
        }
        out
    }

    /// The current members joined with `", "`, as the "room contains" line
    /// shows them.
    pub fn joined_names(&self) -> (r: Vec<u8>)
        ensures
            r@ == comma_join(self@),
    {
        let mut out: Vec<u8> = Vec::new();
        let mut i: usize = 0;
        proof {
            assert(self@.take(0) =~= Seq::<Seq<u8>>::empty());
        }
        while i < self.names.len()
            invariant
                0 <= i <= self.names@.len(),
                out@ == comma_join(self@.take(i as int)),
            decreases self.names@.len() - i,
        {
            proof {
                assert(self@.take(i as int + 1) =~= self@.take(i as int).push(self@[i as int]));
                lemma_comma_join_push(self@.take(i as int), self@[i as int]);
            }
            if i > 0 {
                proof {
                    reveal_strlit(", ");
                }
                let sep = lit(", ");
                push_all(&mut out, sep.as_slice());
            }
            let entry = &self.names[i];
            push_all(&mut out, entry.as_slice());
            proof {
                if i > 0 {
                    assert(out@ =~= comma_join(self@.take(i as int)) + lit_bytes(", "@) + self@[
                        i as int
                    ]);
                } else {
                    assert(out@ =~= self@[0]);
                }
            }
            i += 1;
        }
        proof {
            assert(self@.take(self.names@.len() as int) =~= self@);
        }
        out
    }
}

} // verus!
