//! Ordering of listings: sessions by their last timestamp and projects by
//! their last modification, newest first.

use vstd::prelude::*;
use vstd::utf8::encode_utf8;
use vstd::seq_lib::{to_multiset_build, to_multiset_insert};
use crate::seqs::opt_text;
use crate::text::{bytes_at_most, bytes_le, lemma_bytes_le_total, lemma_bytes_le_transitive};
use crate::types::{Project, SessionInfo};

verus! {

/// The order of optional timestamps: an absent one is the least, and two
/// present ones compare as strings do, byte by byte.
pub open spec fn stamp_le(a: Option<Seq<char>>, b: Option<Seq<char>>) -> bool {
    match (a, b) {
        (None, _) => true,
        (Some(_), None) => false,
        (Some(x), Some(y)) => bytes_le(encode_utf8(x), encode_utf8(y)),
    }
}

/// Does timestamp `a` sort at or before `b`?
pub fn stamp_at_most(a: &Option<String>, b: &Option<String>) -> (r: bool)
    ensures
        r == stamp_le(opt_text(*a), opt_text(*b)),
{
    match a {
        None => true,
        Some(x) => match b {
            None => false,
            Some(y) => bytes_at_most(x.as_str().as_bytes(), y.as_str().as_bytes()),
        },
    }
}

/// Values that a listing shows in a fixed order.
pub trait Ranked: Sized {
    /// `self` may stand before `other` in a listing.
    spec fn ranks_before(&self, other: &Self) -> bool;

    /// Of two values, one may stand before the other.
    proof fn lemma_total(a: &Self, b: &Self)
        ensures
            a.ranks_before(b) || b.ranks_before(a),
    ;

    proof fn lemma_transitive(a: &Self, b: &Self, c: &Self)
        requires
            a.ranks_before(b),
            b.ranks_before(c),
        ensures
            a.ranks_before(c),
    ;

    fn stands_before(&self, other: &Self) -> (r: bool)
        ensures
            r == self.ranks_before(other),
    ;
}

/// Sessions are listed by their last timestamp, newest first; a session
/// without one comes last.
impl Ranked for SessionInfo {
    open spec fn ranks_before(&self, other: &Self) -> bool {
        stamp_le(opt_text(other.last_timestamp), opt_text(self.last_timestamp))
    }

    proof fn lemma_total(a: &Self, b: &Self) {
        match (a.last_timestamp, b.last_timestamp) {
            (Some(x), Some(y)) => {
                lemma_bytes_le_total(encode_utf8(x@), encode_utf8(y@));
            },
            _ => {},
        }
    }

    proof fn lemma_transitive(a: &Self, b: &Self, c: &Self) {
        match (a.last_timestamp, b.last_timestamp, c.last_timestamp) {
            (Some(x), Some(y), Some(z)) => {
                lemma_bytes_le_transitive(encode_utf8(z@), encode_utf8(y@), encode_utf8(x@));
            },
            _ => {},
        }
    }

    fn stands_before(&self, other: &Self) -> (r: bool) {
        stamp_at_most(&other.last_timestamp, &self.last_timestamp)
    }
}

/// Projects are listed by their last modification, newest first.
impl Ranked for Project {
    open spec fn ranks_before(&self, other: &Self) -> bool {
        other.last_modified <= self.last_modified
    }

    proof fn lemma_total(a: &Self, b: &Self) {
    }

    proof fn lemma_transitive(a: &Self, b: &Self, c: &Self) {
    }

    fn stands_before(&self, other: &Self) -> (r: bool) {
        other.last_modified <= self.last_modified
    }
}

/// Every element may stand before all that follow it.
pub open spec fn is_ranked<T: Ranked>(s: Seq<T>) -> bool {
    forall|i: int, j: int| #![trigger s[i], s[j]] 0 <= i < j < s.len() ==> s[i].ranks_before(&s[j])
}

/// Puts the items in listing order. Items that tie keep the order they came
/// in.
pub fn rank<T: Ranked>(items: Vec<T>) -> (r: Vec<T>)
    ensures
        is_ranked(r@),
        r@.to_multiset() == items@.to_multiset(),
        r@.len() == items@.len(),
{
    let ghost original = items@;
    let mut rest = items;
    let mut out: Vec<T> = Vec::new();
    proof {
        out@.to_multiset_ensures();
        assert(out@.to_multiset().add(rest@.to_multiset()) =~= original.to_multiset());
    }
    loop
        invariant
            is_ranked(out@),
            out@.to_multiset().add(rest@.to_multiset()) == original.to_multiset(),
            out@.len() + rest@.len() == original.len(),
        ensures
            is_ranked(out@),
            out@.to_multiset() == original.to_multiset(),
            out@.len() == original.len(),
        decreases rest@.len(),
    {
        let ghost before = rest@;
        match rest.pop() {
            None => {
                proof {
                    rest@.to_multiset_ensures();
                    assert(rest@.to_multiset() =~= vstd::multiset::Multiset::empty());
                    assert(out@.to_multiset().add(rest@.to_multiset()) =~= out@.to_multiset());
                }
                break ;
            },
            Some(x) => {
                let mut at: usize = 0;
                while at < out.len() && !x.stands_before(&out[at])
                    invariant
                        at <= out.len(),
                        forall|q: int| 0 <= q < at ==> !x.ranks_before(&#[trigger] out@[q]),
                    decreases out.len() - at,
                {
                    at += 1;
                }
                proof {
                    let sorted = out@;
                    let grown = sorted.insert(at as int, x);
                    assert forall|i: int, j: int|
                        #![trigger grown[i], grown[j]]
                        0 <= i < j < grown.len() implies grown[i].ranks_before(&grown[j]) by {
                        if j == at {
                            assert(grown[i] == sorted[i]);
                            T::lemma_total(&x, &sorted[i]);
                        } else if i == at {
                            assert(grown[j] == sorted[j - 1]);
                            if j - 1 > at {
                                T::lemma_transitive(&x, &sorted[at as int], &sorted[j - 1]);
                            }
                        } else {
                            let si = if i < at { i } else { i - 1 };
                            let sj = if j < at { j } else { j - 1 };
                            assert(grown[i] == sorted[si] && grown[j] == sorted[sj]);
                        }
                    }
                    to_multiset_insert(sorted, at as int, x);
                    assert(before =~= rest@.push(x));
                    to_multiset_build(rest@, x);
                    assert(grown.to_multiset().add(rest@.to_multiset()) =~= sorted.to_multiset().add(
                        before.to_multiset(),
                    ));
                }
                out.insert(at, x);
            },
        }
    }
    out
}

} // verus!
