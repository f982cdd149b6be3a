//! The relay's payment-token rewriter.
//!
//! A line is split into its space-separated tokens; every token of the
//! payment-address shape (starts with `7`, 26 to 35 bytes, all ASCII
//! alphanumeric) is replaced by the fixed replacement string; the tokens are
//! joined back with single spaces. Splitting on the space byte keeps empty
//! tokens, so joining undoes splitting exactly and a line without a matching
//! token comes back unchanged.

use vstd::prelude::*;

use crate::lines::push_all;
use crate::validate::is_alnum_byte;
use crate::validate::alnum_byte;

verus! {

/// The space byte that separates tokens.
pub open spec fn sp() -> u8 {
    32
}

/// The payment-address shape: starts with `'7'` (byte 55), 26 to 35 bytes
/// long, every byte an ASCII letter or digit.
pub open spec fn address_token(t: Seq<u8>) -> bool {
    &&& 26 <= t.len()
    &&& t.len() <= 35
    &&& t[0] == 55
    &&& forall|i: int| 0 <= i < t.len() ==> is_alnum_byte(#[trigger] t[i])
}

/// The space-separated tokens of `s`, with `cur` the token read so far.
/// Empty tokens are kept, so the result always holds at least one token.
pub open spec fn split_acc(s: Seq<u8>, cur: Seq<u8>) -> Seq<Seq<u8>>
    decreases s.len(),
{
    if s.len() == 0 {
        seq![cur]
    } else if s[0] == sp() {
        seq![cur] + split_acc(s.drop_first(), Seq::empty())
    } else {
        split_acc(s.drop_first(), cur.push(s[0]))
    }
}

/// The space-separated tokens of `s`.
pub open spec fn split_tokens(s: Seq<u8>) -> Seq<Seq<u8>> {
    split_acc(s, Seq::empty())
}

/// The tokens joined back with one space between each pair.
pub open spec fn join_tokens(ts: Seq<Seq<u8>>) -> Seq<u8>
    decreases ts.len(),
{
    if ts.len() == 0 {
        Seq::empty()
    } else if ts.len() == 1 {
        ts[0]
    } else {
        ts[0] + seq![sp()] + join_tokens(ts.drop_first())
    }
}

/// One token after rewriting: the replacement if it has the address shape,
/// the token itself otherwise.
pub open spec fn rewrite_token(t: Seq<u8>, repl: Seq<u8>) -> Seq<u8> {
    if address_token(t) {
        repl
    } else {
        t
    }
}

/// The whole line after rewriting: split, rewrite each token, join.
pub open spec fn rewritten(s: Seq<u8>, repl: Seq<u8>) -> Seq<u8> {
    join_tokens(split_tokens(s).map_values(|t: Seq<u8>| rewrite_token(t, repl)))
}

/// The views of a vector of byte vectors.
pub open spec fn deep(ts: Seq<Vec<u8>>) -> Seq<Seq<u8>> {
    ts.map_values(|v: Vec<u8>| v@)
}

/// Executable check for the payment-address shape.
pub fn token_matches(t: &[u8]) -> (r: bool)
    ensures
        r == address_token(t@),
{
    if t.len() < 26 || t.len() > 35 {
        return false;
    }
    if t[0] != 55 {
        return false;
    }
    let mut i: usize = 0;
    while i < t.len()
        invariant
            0 <= i <= t@.len(),
            forall|j: int| 0 <= j < i ==> is_alnum_byte(#[trigger] t@[j]),
        decreases t@.len() - i,
    {
        if !alnum_byte(t[i]) {
            return false;
        }
        i += 1;
    }
    true
}

/// Joining a sequence extended by one token appends that token, after a
/// space when the sequence was not empty.
proof fn lemma_join_push(ts: Seq<Seq<u8>>, t: Seq<u8>)
    ensures
        join_tokens(ts.push(t)) == if ts.len() == 0 {
            t
        } else {
            join_tokens(ts) + seq![sp()] + t
        },
    decreases ts.len(),
{
    if ts.len() == 0 {
        assert(ts.push(t)[0] == t);
    } else {
        assert(ts.push(t).drop_first() =~= ts.drop_first().push(t));
        lemma_join_push(ts.drop_first(), t);
        assert(join_tokens(ts.push(t)) =~= join_tokens(ts) + seq![sp()] + t);
    }
}

/// Joining the tokens of `s`, with `cur` already read, gives `cur` followed
/// by `s`: joining undoes splitting.
proof fn lemma_join_split_acc(s: Seq<u8>, cur: Seq<u8>)
    ensures
        join_tokens(split_acc(s, cur)) == cur + s,
    decreases s.len(),
{
    if s.len() == 0 {
        assert(join_tokens(seq![cur]) == cur);
        assert(cur + s =~= cur);
    } else if s[0] == sp() {
        lemma_join_split_acc(s.drop_first(), Seq::empty());
        let rest = split_acc(s.drop_first(), Seq::empty());
        lemma_split_acc_nonempty(s.drop_first(), Seq::empty());
        assert((seq![cur] + rest).drop_first() =~= rest);
        assert(Seq::<u8>::empty() + s.drop_first() =~= s.drop_first());
        assert(cur + seq![sp()] + s.drop_first() =~= cur + s);
    } else {
        lemma_join_split_acc(s.drop_first(), cur.push(s[0]));
        assert(cur.push(s[0]) + s.drop_first() =~= cur + s);
    }
}

/// Splitting always yields at least one token.
proof fn lemma_split_acc_nonempty(s: Seq<u8>, cur: Seq<u8>)
    ensures
        split_acc(s, cur).len() >= 1,
    decreases s.len(),
{
    if s.len() == 0 {
    } else if s[0] == sp() {
        lemma_split_acc_nonempty(s.drop_first(), Seq::empty());
    } else {
        lemma_split_acc_nonempty(s.drop_first(), cur.push(s[0]));
    }
}

/// A line none of whose tokens has the address shape is rewritten to itself,
/// byte for byte.
pub proof fn lemma_rewrite_identity(s: Seq<u8>, repl: Seq<u8>)
    requires
        forall|k: int|
            0 <= k < split_tokens(s).len() ==> !address_token(#[trigger] split_tokens(s)[k]),
    ensures
        rewritten(s, repl) == s,
{
    let ts = split_tokens(s);
    assert(ts.map_values(|t: Seq<u8>| rewrite_token(t, repl)) =~= ts);
    lemma_join_split_acc(s, Seq::empty());
    assert(Seq::<u8>::empty() + s =~= s);
}

/// Replaces every address-shaped token of `msg` with `boguscoin`, keeping
/// all other tokens and rejoining with single spaces.
pub fn replace_message(msg: &[u8], boguscoin: &[u8]) -> (r: Vec<u8>)
    ensures
        r@ == rewritten(msg@, boguscoin@),
{
    let mut tokens: Vec<Vec<u8>> = Vec::new();
    let mut cur: Vec<u8> = Vec::new();
    let mut i: usize = 0;
    proof {
        assert(msg@.skip(0) =~= msg@);
        assert(deep(tokens@) + split_acc(msg@, Seq::empty()) =~= split_acc(msg@, Seq::empty()));
    }
    while i < msg.len()
        invariant
            0 <= i <= msg@.len(),
            split_tokens(msg@) == deep(tokens@) + split_acc(msg@.skip(i as int), cur@),
        decreases msg@.len() - i,
    {
        proof {
            assert(msg@.skip(i as int).len() > 0);
            assert(msg@.skip(i as int)[0] == msg@[i as int]);
            assert(msg@.skip(i as int).drop_first() =~= msg@.skip(i as int + 1));
        }
        if msg[i] == 32 {
            let ghost old_tokens = tokens@;
            let ghost old_cur = cur@;
            tokens.push(cur);
            cur = Vec::new();
            proof {
                assert(deep(tokens@) =~= deep(old_tokens).push(old_cur));
                assert(split_acc(msg@.skip(i as int), old_cur) == seq![old_cur] + split_acc(
                    msg@.skip(i as int + 1),
                    Seq::empty(),
                ));
                assert(deep(old_tokens) + (seq![old_cur] + split_acc(
                    msg@.skip(i as int + 1),
                    Seq::empty(),
                )) =~= deep(old_tokens).push(old_cur) + split_acc(
                    msg@.skip(i as int + 1),
                    Seq::empty(),
                ));
            }
        } else {
            cur.push(msg[i]);
        }
        i += 1;
    }
    proof {
        assert(msg@.skip(msg@.len() as int).len() == 0);
        assert(split_acc(msg@.skip(msg@.len() as int), cur@) == seq![cur@]);
    }
    let ghost old_tokens = tokens@;
    let ghost old_cur = cur@;
    tokens.push(cur);
    proof {
        assert(deep(tokens@) =~= deep(old_tokens).push(old_cur));
        assert(deep(old_tokens) + seq![old_cur] =~= deep(old_tokens).push(old_cur));
        assert(deep(tokens@) == split_tokens(msg@));
    }

    let ghost rw = |t: Seq<u8>| rewrite_token(t, boguscoin@);
    let mut out: Vec<u8> = Vec::new();
    let mut k: usize = 0;
    while k < tokens.len()
        invariant
            0 <= k <= tokens@.len(),
            deep(tokens@) == split_tokens(msg@),
            rw == (|t: Seq<u8>| rewrite_token(t, boguscoin@)),
            out@ == join_tokens(deep(tokens@).map_values(rw).take(k as int)),
        decreases tokens@.len() - k,
    {
        let ghost mapped = deep(tokens@).map_values(rw);
        proof {
            assert(mapped.take(k as int + 1) =~= mapped.take(k as int).push(mapped[k as int]));
            lemma_join_push(mapped.take(k as int), mapped[k as int]);
            assert(mapped[k as int] == rewrite_token(tokens@[k as int]@, boguscoin@));
        }
        if k > 0 {
            out.push(32);
            proof {
                assert(out@ =~= join_tokens(mapped.take(k as int)) + seq![sp()]);
            }
        }
        let tok = &tokens[k];
        if token_matches(tok.as_slice()) {
            push_all(&mut out, boguscoin);
        } else {
            push_all(&mut out, tok.as_slice());
        }
        proof {
            if k > 0 {
                assert(out@ =~= join_tokens(mapped.take(k as int)) + seq![sp()] + mapped[
                    k as int
                ]);
            } else {
                assert(mapped.take(0).len() == 0);
                assert(out@ =~= mapped[0]);
            }
        }
        k += 1;
    }
    proof {
        assert(deep(tokens@).map_values(rw).take(tokens@.len() as int) =~= deep(
            tokens@,
        ).map_values(rw));
    }
    out
}

/// One relay step: the line (terminator already stripped) is rewritten and
/// exactly one line feed is appended.
pub fn rewrite_line(line: &[u8], boguscoin: &[u8]) -> (r: Vec<u8>)
    ensures
        r@ == rewritten(line@, boguscoin@).push(crate::lines::nl()),
{
    let mut out = replace_message(line, boguscoin);
    out.push(10);
    out
}

} // verus!
