//! Deterministic ranking of the admitted timing records.
//!
//! The sort key is one user-selected field; the sort is stable, so records
//! with equal keys keep the order in which they were joined.  An undefined
//! RTT ranks as the maximum, so unreachable relays sort last.

use vstd::prelude::*;

use vstd::relations::sorted_by;
use vstd::string::StrSliceExecFns;

use crate::pinger::{mean_of, median_of, RelayTimed};
use crate::sorting::{
    lemma_insert_stable_at, lemma_sort_stable_filter, lemma_sort_stable_sorted, sort_stable,
    total_preorder,
};

verus! {

/// Field by which the final report is ordered.
#[derive(Clone, Copy, Debug, PartialEq, Eq, Structural)]
pub enum SortBy {
    Country,
    City,
    MeanRTT,
    MedianRTT,
    Distance,
}

impl Default for SortBy {
    fn default() -> (r: Self)
        ensures
            r == SortBy::MedianRTT,
    {
        SortBy::MedianRTT
    }
}

/// Lexicographic order on character sequences, by code point.
pub open spec fn lex_le(a: Seq<char>, b: Seq<char>) -> bool
    decreases a.len(),
{
    if a.len() == 0 {
        true
    } else if b.len() == 0 {
        false
    } else if a[0] as u32 == b[0] as u32 {
        lex_le(a.drop_first(), b.drop_first())
    } else {
        (a[0] as u32) < (b[0] as u32)
    }
}

pub proof fn lemma_lex_le_total(a: Seq<char>, b: Seq<char>)
    ensures
        lex_le(a, b) || lex_le(b, a),
    decreases a.len(),
{
    if a.len() != 0 && b.len() != 0 && a[0] as u32 == b[0] as u32 {
        lemma_lex_le_total(a.drop_first(), b.drop_first());
    }
}

pub proof fn lemma_lex_le_trans(a: Seq<char>, b: Seq<char>, c: Seq<char>)
    requires
        lex_le(a, b),
        lex_le(b, c),
    ensures
        lex_le(a, c),
    decreases a.len(),
{
    if a.len() != 0 && b.len() != 0 && c.len() != 0 && a[0] as u32 == b[0] as u32 && b[0] as u32
        == c[0] as u32 {
        lemma_lex_le_trans(a.drop_first(), b.drop_first(), c.drop_first());
    }
}

/// Order on possibly-undefined RTTs: an undefined value is the maximum,
/// so relays that never answered sort after every measured one.
pub open spec fn opt_rtt_le(a: Option<u64>, b: Option<u64>) -> bool {
    match b {
        Option::None => true,
        Option::Some(y) => match a {
            Option::None => false,
            Option::Some(x) => x <= y,
        },
    }
}

/// Order on timing records under one sort field.
pub open spec fn key_le(field: SortBy, a: RelayTimed, b: RelayTimed) -> bool {
    match field {
        SortBy::Country => lex_le(a.relay.country@, b.relay.country@),
        SortBy::City => lex_le(a.relay.city@, b.relay.city@),
        SortBy::MeanRTT => opt_rtt_le(mean_of(a.timings@), mean_of(b.timings@)),
        SortBy::MedianRTT => opt_rtt_le(median_of(a.timings@), median_of(b.timings@)),
        SortBy::Distance => a.relay.distance <= b.relay.distance,
    }
}

/// `key_le` as a binary relation, for the sorting machinery.
pub open spec fn key_le_fn(field: SortBy) -> spec_fn(RelayTimed, RelayTimed) -> bool {
    |a: RelayTimed, b: RelayTimed| key_le(field, a, b)
}

/// Every sort field yields a total preorder: records are always
/// comparable, distinct records may share a key.
pub proof fn lemma_key_le_total_preorder(field: SortBy)
    ensures
        total_preorder(key_le_fn(field)),
{
    let leq = key_le_fn(field);
    assert forall|a: RelayTimed, b: RelayTimed| #[trigger] leq(a, b) || #[trigger] leq(b, a) by {
        match field {
            SortBy::Country => lemma_lex_le_total(a.relay.country@, b.relay.country@),
            SortBy::City => lemma_lex_le_total(a.relay.city@, b.relay.city@),
            _ => {},
        }
    }
    assert forall|a: RelayTimed, b: RelayTimed, c: RelayTimed|
        #[trigger] leq(a, b) && #[trigger] leq(b, c) implies leq(a, c) by {
        match field {
            SortBy::Country => lemma_lex_le_trans(
                a.relay.country@,
                b.relay.country@,
                c.relay.country@,
            ),
            SortBy::City => lemma_lex_le_trans(a.relay.city@, b.relay.city@, c.relay.city@),
            _ => {},
        }
    }
}

/// The key class of a record: every record that compares equal to `w`
/// under the field's key.
pub open spec fn same_key(field: SortBy, w: RelayTimed) -> spec_fn(RelayTimed) -> bool {
    |t: RelayTimed| key_le(field, t, w) && key_le(field, w, t)
}

/// Ranking is stable: records sharing a sort key keep their relative
/// order.  Restricting the ranked sequence to any one key class yields
/// exactly the same subsequence as restricting the input.
pub proof fn lemma_rank_stable(field: SortBy, s: Seq<RelayTimed>, w: RelayTimed)
    ensures
        sort_stable(key_le_fn(field), s).filter(same_key(field, w)) == s.filter(
            same_key(field, w),
        ),
{
    let leq = key_le_fn(field);
    let pred = same_key(field, w);
    lemma_key_le_total_preorder(field);
    assert forall|a: RelayTimed, b: RelayTimed| #[trigger] pred(a) && #[trigger] pred(b) implies leq(
        a,
        b,
    ) by {
        assert(leq(a, w) && leq(w, b));
    }
    lemma_sort_stable_filter(leq, pred, s);
}

/// When two character sequences agree on a prefix, their order is decided
/// past it.
proof fn lemma_lex_le_skip(a: Seq<char>, b: Seq<char>, i: int)
    requires
        0 <= i <= a.len(),
        i <= b.len(),
        forall|k: int| 0 <= k < i ==> a[k] as u32 == b[k] as u32,
    ensures
        lex_le(a, b) == lex_le(a.skip(i), b.skip(i)),
    decreases i,
{
    if i > 0 {
        assert(a.len() > 0 && b.len() > 0);
        assert(a[0] as u32 == b[0] as u32);
        assert(a.drop_first() == a.skip(1));
        assert(b.drop_first() == b.skip(1));
        lemma_lex_le_skip(a.skip(1), b.skip(1), i - 1);
        assert(a.skip(1).skip(i - 1) =~= a.skip(i));
        assert(b.skip(1).skip(i - 1) =~= b.skip(i));
    } else {
        assert(a.skip(0) =~= a);
        assert(b.skip(0) =~= b);
    }
}

/// Compares two strings lexicographically by code point.
fn str_le(a: &str, b: &str) -> (r: bool)
    ensures
        r == lex_le(a@, b@),
{
    let na = a.unicode_len();
    let nb = b.unicode_len();
    let mut i: usize = 0;
    loop
        invariant
            i <= na,
            i <= nb,
            na == a@.len(),
            nb == b@.len(),
            forall|k: int| 0 <= k < i ==> a@[k] as u32 == b@[k] as u32,
        decreases na - i,
    {
        proof {
            lemma_lex_le_skip(a@, b@, i as int);
        }
        if i >= na {
            // `a` is exhausted: it is a prefix of `b`.
            return true;
        }
        if i >= nb {
            // `b` is a proper prefix of `a`.
            assert(a@.skip(i as int).len() > 0 && b@.skip(i as int).len() == 0);
            return false;
        }
        let ca = a.get_char(i);
        let cb = b.get_char(i);
        if (ca as u32) != (cb as u32) {
            proof {
                assert(a@.skip(i as int)[0] == a@[i as int]);
                assert(b@.skip(i as int)[0] == b@[i as int]);
            }
            return (ca as u32) < (cb as u32);
        }
        i = i + 1;
    }
}

/// Compares two possibly-undefined RTTs, an undefined one last.
fn opt_rtt_le_exec(a: Option<u64>, b: Option<u64>) -> (r: bool)
    ensures
        r == opt_rtt_le(a, b),
{
    match b {
        Option::None => true,
        Option::Some(y) => match a {
            Option::None => false,
            Option::Some(x) => x <= y,
        },
    }
}

/// Compares two timing records under the selected field.
fn key_le_exec(field: SortBy, a: &RelayTimed, b: &RelayTimed) -> (r: bool)
    ensures
        r == key_le(field, *a, *b),
{
    match field {
        SortBy::Country => str_le(a.relay.country.as_str(), b.relay.country.as_str()),
        SortBy::City => str_le(a.relay.city.as_str(), b.relay.city.as_str()),
        SortBy::MeanRTT => opt_rtt_le_exec(a.rtt_mean(), b.rtt_mean()),
        SortBy::MedianRTT => opt_rtt_le_exec(a.rtt_median(), b.rtt_median()),
        SortBy::Distance => a.relay.distance <= b.relay.distance,
    }
}

/// Orders the admitted timing records for the final report.
#[derive(Debug)]
pub struct Reporter {
    pub sort_by: SortBy,
    pub timings: Vec<RelayTimed>,
}

impl Reporter {
    pub fn new(timings: Vec<RelayTimed>, sort_by: SortBy) -> (r: Self)
        ensures
            r.timings@ == timings@,
            r.sort_by == sort_by,
    {
        Self { sort_by, timings }
    }

    /// Sorts the relay timings by the selected field.  The sort is stable:
    /// the result is exactly the stable sort of the input, and it is
    /// ordered under the field's key.
    pub fn sort(&mut self)
        ensures
            final(self).sort_by == old(self).sort_by,
            final(self).timings@ == sort_stable(key_le_fn(old(self).sort_by), old(self).timings@),
            sorted_by(final(self).timings@, key_le_fn(old(self).sort_by)),
    {
        let ghost orig = self.timings@;
        let ghost field = self.sort_by;
        let ghost leq = key_le_fn(field);
        proof {
            lemma_key_le_total_preorder(field);
        }
        let mut i: usize = 0;
        while i < self.timings.len()
            invariant
                i <= self.timings@.len(),
                self.timings@.len() == orig.len(),
                self.sort_by == field,
                leq == key_le_fn(field),
                total_preorder(leq),
                self.timings@.subrange(i as int, orig.len() as int) == orig.subrange(
                    i as int,
                    orig.len() as int,
                ),
                self.timings@.subrange(0, i as int) == sort_stable(leq, orig.subrange(0, i as int)),
            decreases self.timings@.len() - i,
        {
            let ghost prefix = self.timings@.subrange(0, i as int);
            proof {
                lemma_sort_stable_sorted(leq, orig.subrange(0, i as int));
            }
            let ghost x = self.timings@[i as int];
            proof {
                assert(self.timings@[i as int] == self.timings@.subrange(
                    i as int,
                    orig.len() as int,
                )[0]);
                assert(x == orig[i as int]);
            }
            let mut j: usize = i;
            while j > 0 && !key_le_exec(self.sort_by, &self.timings[j - 1], &self.timings[i])
                invariant
                    j <= i,
                    i < self.timings@.len(),
                    self.sort_by == field,
                    leq == key_le_fn(field),
                    x == self.timings@[i as int],
                    forall|k: int| j <= k < i ==> !leq(#[trigger] self.timings@[k], x),
                decreases j,
            {
                j = j - 1;
            }
            proof {
                assert(sorted_by(prefix, leq));
                assert forall|k: int| 0 <= k < j implies leq(#[trigger] prefix[k], x) by {
                    assert(leq(self.timings@[j - 1], x));
                    if k < j - 1 {
                        assert(leq(prefix[k], prefix[j - 1]));
                    }
                }
                assert(j < i ==> !leq(prefix[j as int], x));
                lemma_insert_stable_at(leq, prefix, x, j as int);
            }
            let ghost before = self.timings@;
            let y = self.timings.remove(i);
            let ghost mid = self.timings@;
            self.timings.insert(j, y);
            proof {
                assert(mid == before.remove(i as int));
                assert(self.timings@ == mid.insert(j as int, y));
                assert forall|m: int| 0 <= m < before.len() implies self.timings@[m] == (if m < j {
                    before[m]
                } else if m == j {
                    x
                } else if m <= i {
                    before[m - 1]
                } else {
                    before[m]
                }) by {
                    assert(mid == before.subrange(0, i as int) + before.subrange(
                        i + 1,
                        before.len() as int,
                    ));
                    assert(self.timings@ == mid.subrange(0, j as int).push(y) + mid.subrange(
                        j as int,
                        mid.len() as int,
                    ));
                }
                let next = orig.subrange(0, i + 1);
                assert(next.drop_last() =~= orig.subrange(0, i as int));
                assert(next.last() == orig[i as int]);
                assert(self.timings@.subrange(0, i + 1) =~= prefix.subrange(0, j as int) + seq![x]
                    + prefix.subrange(j as int, i as int));
                assert(self.timings@.subrange(0, i + 1) == sort_stable(leq, next));
                assert forall|m: int| i + 1 <= m < orig.len() implies self.timings@[m] == orig[m] by {
                    assert(before[m] == before.subrange(i as int, orig.len() as int)[m - i]);
                    assert(orig[m] == orig.subrange(i as int, orig.len() as int)[m - i]);
                }
                assert(self.timings@.subrange(i + 1, orig.len() as int) =~= orig.subrange(
                    i + 1,
                    orig.len() as int,
                ));
            }
            i = i + 1;
        }
        proof {
            assert(orig.subrange(0, orig.len() as int) =~= orig);
            assert(self.timings@.subrange(0, orig.len() as int) =~= self.timings@);
            lemma_sort_stable_sorted(leq, orig);
        }
    }
}

} // verus!
