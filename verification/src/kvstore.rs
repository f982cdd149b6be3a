//! The line-oriented key/value store.
//!
//! A request is one datagram of bytes. A request with an `=` is an insert:
//! the key is everything before the first `=`, the value everything after
//! it, and nothing is answered; the key `version` is never stored. A request
//! without an `=` is a lookup and is answered with `key=value`, the value
//! empty when the key is absent; the key `version` is answered with the
//! fixed version string.

use vstd::prelude::*;

use crate::lines::bytes_eq;
use crate::lines::lit;
use crate::lines::lit_bytes;
use crate::lines::push_all;

verus! {

/// The byte `'='` that separates a key from a value.
pub open spec fn eq_byte() -> u8 {
    61
}

/// The reserved key that reports the store's version.
pub open spec fn version_key() -> Seq<u8> {
    lit_bytes("version"@)
}

/// The fixed reply to a `version` lookup.
pub open spec fn version_reply() -> Seq<u8> {
    lit_bytes("version=1.0.0"@)
}

/// `i` is the position of the first `=` in `s`.
pub open spec fn is_first_eq(s: Seq<u8>, i: int) -> bool {
    &&& 0 <= i < s.len()
    &&& s[i] == eq_byte()
    &&& forall|j: int| 0 <= j < i ==> s[j] != eq_byte()
}

/// `s` holds at least one `=`.
pub open spec fn has_eq(s: Seq<u8>) -> bool {
    exists|i: int| 0 <= i < s.len() && s[i] == eq_byte()
}

/// The stored pairs as a map.
spec fn entries_map(es: Seq<(Vec<u8>, Vec<u8>)>) -> Map<Seq<u8>, Seq<u8>>
    decreases es.len(),
{
    if es.len() == 0 {
        Map::empty()
    } else {
        entries_map(es.drop_last()).insert(es.last().0@, es.last().1@)
    }
}

/// No two entries share a key.
spec fn distinct_keys(es: Seq<(Vec<u8>, Vec<u8>)>) -> bool {
    forall|i: int, j: int| 0 <= i < j < es.len() ==> es[i].0@ != es[j].0@
}

/// The key of entry `i` names exactly that entry in the map.
proof fn lemma_entries_map_index(es: Seq<(Vec<u8>, Vec<u8>)>, i: int)
    requires
        distinct_keys(es),
        0 <= i < es.len(),
    ensures
        entries_map(es).contains_key(es[i].0@),
        entries_map(es)[es[i].0@] == es[i].1@,
    decreases es.len(),
{
    if i < es.len() - 1 {
        assert(es.drop_last()[i] == es[i]);
        lemma_entries_map_index(es.drop_last(), i);
    }
}

/// A key held by no entry is absent from the map.
proof fn lemma_entries_map_absent(es: Seq<(Vec<u8>, Vec<u8>)>, k: Seq<u8>)
    requires
        forall|i: int| 0 <= i < es.len() ==> es[i].0@ != k,
    ensures
        !entries_map(es).contains_key(k),
    decreases es.len(),
{
    if es.len() > 0 {
        lemma_entries_map_absent(es.drop_last(), k);
    }
}

/// Removing entry `i` removes exactly its key from the map.
proof fn lemma_entries_map_remove(es: Seq<(Vec<u8>, Vec<u8>)>, i: int)
    requires
        distinct_keys(es),
        0 <= i < es.len(),
    ensures
        entries_map(es.remove(i)) == entries_map(es).remove(es[i].0@),
    decreases es.len(),
{
    if i == es.len() - 1 {
        assert(es.remove(i) =~= es.drop_last());
        lemma_entries_map_absent(es.drop_last(), es[i].0@);
        assert(entries_map(es.drop_last()) =~= entries_map(es.drop_last()).insert(
            es.last().0@,
            es.last().1@,
        ).remove(es[i].0@));
    } else {
        assert(es.remove(i).drop_last() =~= es.drop_last().remove(i));
        assert(es.remove(i).last() == es.last());
        assert(es.drop_last()[i] == es[i]);
        lemma_entries_map_remove(es.drop_last(), i);
        assert(entries_map(es.drop_last()).remove(es[i].0@).insert(es.last().0@, es.last().1@)
            =~= entries_map(es.drop_last()).insert(es.last().0@, es.last().1@).remove(es[i].0@));
    }
}

/// The in-memory key/value store: insertion-ordered pairs with unique keys.
pub struct Db {
    entries: Vec<(Vec<u8>, Vec<u8>)>,
}

impl View for Db {
    type V = Map<Seq<u8>, Seq<u8>>;

    closed spec fn view(&self) -> Map<Seq<u8>, Seq<u8>> {
        entries_map(self.entries@)
    }
}

impl Db {
    /// The keys are pairwise distinct.
    pub closed spec fn wf(&self) -> bool {
        distinct_keys(self.entries@)
    }

    /// An empty store.
    pub fn new() -> (r: Db)
        ensures
            r.wf(),
            r@ == Map::<Seq<u8>, Seq<u8>>::empty(),
    {
        Db { entries: Vec::new() }
    }

    /// The position of `key` among the entries, if it is stored.
    fn find(&self, key: &[u8]) -> (r: Option<usize>)
        ensures
            r is Some ==> {
                &&& r->0 < self.entries@.len()
                &&& self.entries@[r->0 as int].0@ == key@
            },
            r is None ==> forall|i: int|
                0 <= i < self.entries@.len() ==> self.entries@[i].0@ != key@,
    {
        let mut i: usize = 0;
        while i < self.entries.len()
            invariant
                0 <= i <= self.entries@.len(),
                forall|j: int| 0 <= j < i ==> self.entries@[j].0@ != key@,
            decreases self.entries@.len() - i,
        {
            if bytes_eq(self.entries[i].0.as_slice(), key) {
                return Some(i);
            }
            i += 1;
        }
        None
    }

    /// The value stored under `key`, if any.
    pub fn get(&self, key: &[u8]) -> (r: Option<Vec<u8>>)
        requires
            self.wf(),
        ensures
            self@.contains_key(key@) ==> r is Some && (r->0)@ == self@[key@],
            !self@.contains_key(key@) ==> r is None,
    {
        match self.find(key) {
            Some(i) => {
                proof {
                    lemma_entries_map_index(self.entries@, i as int);
                }
                Some(self.entries[i].1.clone())
            },
            None => {
                proof {
                    lemma_entries_map_absent(self.entries@, key@);
                }
                None
            },
        }
    }

    /// Stores `value` under `key`, replacing any earlier value.
    pub fn insert(&mut self, key: Vec<u8>, value: Vec<u8>)
        requires
            old(self).wf(),
        ensures
            final(self).wf(),
            final(self)@ == old(self)@.insert(key@, value@),
    {
        let ghost before = self.entries@;
        match self.find(key.as_slice()) {
            Some(i) => {
                proof {
                    lemma_entries_map_remove(before, i as int);
                }
                self.entries.remove(i);
                let ghost removed = self.entries@;
                proof {
                    assert forall|a: int, b: int|
                        0 <= a < b < removed.len() implies removed[a].0@ != removed[b].0@ by {
                        assert(removed[a] == if a < i { before[a] } else { before[a + 1] });
                        assert(removed[b] == if b < i { before[b] } else { before[b + 1] });
                    }
                    assert forall|a: int| 0 <= a < removed.len() implies removed[a].0@ != key@ by {
                        assert(removed[a] == if a < i { before[a] } else { before[a + 1] });
                    }
                }
                self.entries.push((key, value));
                proof {
                    assert(self.entries@.drop_last() =~= removed);
                    assert(self@ =~= old(self)@.insert(key@, value@));
                    assert(distinct_keys(self.entries@)) by {
                        assert forall|a: int, b: int|
                            0 <= a < b < self.entries@.len() implies self.entries@[a].0@
                            != self.entries@[b].0@ by {
                            if b < self.entries@.len() - 1 {
                                assert(self.entries@[a] == removed[a]);
                                assert(self.entries@[b] == removed[b]);
                            } else {
                                assert(self.entries@[a] == removed[a]);
                            }
                        }
                    }
                }
            },
            None => {
                self.entries.push((key, value));
                proof {
                    lemma_entries_map_absent(before, self.entries@.last().0@);
                    assert(self.entries@.drop_last() =~= before);
                    assert(self@ =~= old(self)@.insert(key@, value@));
                    assert(distinct_keys(self.entries@)) by {
                        assert forall|a: int, b: int|
                            0 <= a < b < self.entries@.len() implies self.entries@[a].0@
                            != self.entries@[b].0@ by {
                            if b < self.entries@.len() - 1 {
                                assert(self.entries@[a] == before[a]);
                                assert(self.entries@[b] == before[b]);
                            } else {
                                assert(self.entries@[a] == before[a]);
                            }
                        }
                    }
                }
            },
        }
    }
}

/// Interprets one request against the store: an insert (first `=` splits key
/// from value; `version` is never stored) answers nothing; a lookup answers
/// `key=value` with the value empty when absent, and the fixed version
/// string for the key `version`.
pub fn do_it(buffer: &[u8], db: &mut Db) -> (r: Option<Vec<u8>>)
    requires
        old(db).wf(),
    ensures
        final(db).wf(),
        forall|i: int|
            is_first_eq(buffer@, i) && buffer@.take(i) == version_key() ==> {
                &&& r is None
                &&& final(db)@ == old(db)@
            },
        forall|i: int|
            is_first_eq(buffer@, i) && buffer@.take(i) != version_key() ==> {
                &&& r is None
                &&& final(db)@ == old(db)@.insert(buffer@.take(i), buffer@.skip(i + 1))
            },
        !has_eq(buffer@) ==> final(db)@ == old(db)@,
        !has_eq(buffer@) && buffer@ == version_key() ==> r is Some && (r->0)@ == version_reply(),
        !has_eq(buffer@) && buffer@ != version_key() && old(db)@.contains_key(buffer@) ==> r
            is Some && (r->0)@ == buffer@ + seq![eq_byte()] + old(db)@[buffer@],
        !has_eq(buffer@) && buffer@ != version_key() && !old(db)@.contains_key(buffer@) ==> r
            is Some && (r->0)@ == buffer@ + seq![eq_byte()],
{
    proof {
        reveal_strlit("version");
    }
    let version = lit("version");

    let mut pos: usize = 0;
    let mut found = false;
    while pos < buffer.len() && !found
        invariant
            0 <= pos <= buffer@.len(),
            forall|j: int| 0 <= j < pos ==> buffer@[j] != eq_byte(),
            found ==> pos < buffer@.len() && buffer@[pos as int] == eq_byte(),
        decreases buffer@.len() - pos + if found {
            0int
        } else {
            1int
        },
    {
        if buffer[pos] == 61 {
            found = true;
        } else {
            pos += 1;
        }
    }

    if found {
        proof {
            assert(is_first_eq(buffer@, pos as int));
            assert forall|i: int| is_first_eq(buffer@, i) implies i == pos as int by {
                if i < pos as int {
                    assert(buffer@[i] != eq_byte());
                } else if i > pos as int {
                    assert(buffer@[pos as int] != eq_byte());
                }
            }
        }
        let key = vstd::slice::slice_subrange(buffer, 0, pos);
        let value = vstd::slice::slice_subrange(buffer, pos + 1, buffer.len());
        proof {
            assert(key@ =~= buffer@.take(pos as int));
            assert(value@ =~= buffer@.skip(pos as int + 1));
        }
        if bytes_eq(key, version.as_slice()) {
            None
        } else {
            db.insert(vstd::slice::slice_to_vec(key), vstd::slice::slice_to_vec(value));
            None
        }
    } else {
        proof {
            assert(!has_eq(buffer@));
        }
        if bytes_eq(buffer, version.as_slice()) {
            proof {
                reveal_strlit("version=1.0.0");
            }
            Some(lit("version=1.0.0"))
        } else {
            let mut reply = vstd::slice::slice_to_vec(buffer);
            reply.push(61);
            match db.get(buffer) {
                Some(v) => {
                    push_all(&mut reply, v.as_slice());
                    proof {
                        assert(reply@ =~= buffer@ + seq![eq_byte()] + old(db)@[buffer@]);
                    }
                    Some(reply)
                },
                None => {
                    proof {
                        assert(reply@ =~= buffer@ + seq![eq_byte()]);
                    }
                    Some(reply)
                },
            }
        }
    }
}

} // verus!
