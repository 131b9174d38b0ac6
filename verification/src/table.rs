//! The interval table: a mapping from chromosome name to the ordered
//! sequence of measured intervals on that chromosome.

use vstd::prelude::*;

use crate::model::{all_bounded, sorted_intervals, MethInterval};

verus! {

/// One chromosome's name and its intervals, in input order.
#[derive(Debug)]
pub struct ChromEntry {
    pub chrom: String,
    pub intervals: Vec<MethInterval>,
}

/// The interval table. Entries are kept in first-seen order and chromosome
/// names are unique; lookup returns the first (only) entry with the name.
#[derive(Debug)]
pub struct MethRanges {
    pub entries: Vec<ChromEntry>,
}

/// Adjacent order implies full order: a sequence whose consecutive pairs
/// are ordered by both coordinates satisfies the sort invariant.
proof fn lemma_sorted_chain(s: Seq<MethInterval>, i: int, j: int)
    requires
        forall|k: int|
            0 <= k < s.len() - 1 ==> (#[trigger] s[k]).end <= s[k + 1].end && s[k].start <= s[k
                + 1].start,
        0 <= i <= j < s.len(),
    ensures
        s[i].end <= s[j].end && s[i].start <= s[j].start,
    decreases j - i,
{
    if i < j {
        lemma_sorted_chain(s, i, j - 1);
    }
}

/// The first entry of `es` named `c`, if any.
pub open spec fn spec_find(es: Seq<ChromEntry>, c: Seq<char>) -> Option<Seq<MethInterval>>
    decreases es.len(),
{
    if es.len() == 0 {
        None
    } else if es[0].chrom@ == c {
        Some(es[0].intervals@)
    } else {
        spec_find(es.subrange(1, es.len() as int), c)
    }
}

proof fn lemma_spec_find_skip(es: Seq<ChromEntry>, c: Seq<char>, i: int)
    requires
        0 <= i < es.len(),
        es[i].chrom@ != c,
    ensures
        spec_find(es.skip(i), c) == spec_find(es.skip(i + 1), c),
{
    assert(es.skip(i)[0] == es[i]);
    assert(es.skip(i).subrange(1, es.skip(i).len() as int) =~= es.skip(i + 1));
}

proof fn lemma_spec_find_at(es: Seq<ChromEntry>, c: Seq<char>, i: int)
    requires
        0 <= i <= es.len(),
        forall|j: int| 0 <= j < i ==> (#[trigger] es[j]).chrom@ != c,
    ensures
        spec_find(es, c) == spec_find(es.skip(i), c),
    decreases i,
{
    if i > 0 {
        lemma_spec_find_at(es, c, i - 1);
        lemma_spec_find_skip(es, c, i - 1);
    } else {
        assert(es.skip(0) =~= es);
    }
}

/// A found entry is an element of the sequence.
pub proof fn lemma_spec_find_some(es: Seq<ChromEntry>, c: Seq<char>)
    requires
        spec_find(es, c) is Some,
    ensures
        exists|i: int|
            0 <= i < es.len() && (#[trigger] es[i]).chrom@ == c && es[i].intervals@ == spec_find(
                es,
                c,
            ).unwrap(),
    decreases es.len(),
{
    if es.len() > 0 && es[0].chrom@ != c {
        let tail = es.subrange(1, es.len() as int);
        lemma_spec_find_some(tail, c);
        let i = choose|i: int|
            0 <= i < tail.len() && (#[trigger] tail[i]).chrom@ == c && tail[i].intervals@
                == spec_find(tail, c).unwrap();
        assert(es[i + 1].chrom@ == c && es[i + 1].intervals@ == spec_find(es, c).unwrap());
    }
}

proof fn lemma_spec_find_update_other(es: Seq<ChromEntry>, idx: int, e2: ChromEntry, c: Seq<char>)
    requires
        0 <= idx < es.len(),
        e2.chrom@ == es[idx].chrom@,
        c != es[idx].chrom@,
    ensures
        spec_find(es.update(idx, e2), c) == spec_find(es, c),
    decreases es.len(),
{
    let up = es.update(idx, e2);
    if idx == 0 {
        assert(up.subrange(1, up.len() as int) =~= es.subrange(1, es.len() as int));
    } else {
        if es[0].chrom@ != c {
            assert(up.subrange(1, up.len() as int) =~= es.subrange(1, es.len() as int).update(
                idx - 1,
                e2,
            ));
            lemma_spec_find_update_other(es.subrange(1, es.len() as int), idx - 1, e2, c);
        }
    }
}

proof fn lemma_spec_find_update_first(es: Seq<ChromEntry>, idx: int, e2: ChromEntry)
    requires
        0 <= idx < es.len(),
        e2.chrom@ == es[idx].chrom@,
        forall|j: int| 0 <= j < idx ==> (#[trigger] es[j]).chrom@ != es[idx].chrom@,
    ensures
        spec_find(es.update(idx, e2), es[idx].chrom@) == Some(e2.intervals@),
    decreases es.len(),
{
    let up = es.update(idx, e2);
    if idx > 0 {
        assert(up.subrange(1, up.len() as int) =~= es.subrange(1, es.len() as int).update(
            idx - 1,
            e2,
        ));
        lemma_spec_find_update_first(es.subrange(1, es.len() as int), idx - 1, e2);
    }
}

proof fn lemma_spec_find_push(es: Seq<ChromEntry>, e: ChromEntry, c: Seq<char>)
    ensures
        spec_find(es.push(e), c) == if spec_find(es, c) is Some {
            spec_find(es, c)
        } else if e.chrom@ == c {
            Some(e.intervals@)
        } else {
            None
        },
    decreases es.len(),
{
    let p = es.push(e);
    if es.len() == 0 {
        assert(p.len() == 1);
        assert(p[0] == e);
        assert(spec_find(es, c) is None);
        if e.chrom@ == c {
            assert(spec_find(p, c) == Some(e.intervals@));
        } else {
            assert(p.subrange(1, 1) =~= Seq::<ChromEntry>::empty());
            assert(spec_find(p, c) == spec_find(p.subrange(1, 1), c));
            assert(spec_find(p.subrange(1, 1), c) is None);
        }
    } else {
        assert(p[0] == es[0]);
        let tail = es.subrange(1, es.len() as int);
        assert(p.subrange(1, p.len() as int) =~= tail.push(e));
        lemma_spec_find_push(tail, e, c);
        if es[0].chrom@ != c {
            assert(spec_find(p, c) == spec_find(tail.push(e), c));
            assert(spec_find(es, c) == spec_find(tail, c));
        }
    }
}

impl MethRanges {
    /// Chromosome names are unique.
    pub open spec fn inv(self) -> bool {
        forall|i: int, j: int|
            0 <= i < j < self.entries@.len() ==> (#[trigger] self.entries@[i]).chrom@ != (
            #[trigger] self.entries@[j]).chrom@
    }

    /// Every stored interval satisfies the arithmetic bounds.
    pub open spec fn bounded_ok(self) -> bool {
        forall|i: int|
            0 <= i < self.entries@.len() ==> all_bounded(
                (#[trigger] self.entries@[i]).intervals@,
            )
    }

    /// Every chromosome's sequence satisfies the sort invariant.
    pub open spec fn sorted_ok(self) -> bool {
        forall|i: int|
            0 <= i < self.entries@.len() ==> sorted_intervals(
                (#[trigger] self.entries@[i]).intervals@,
            )
    }

    pub open spec fn has_chrom(self, c: Seq<char>) -> bool {
        spec_find(self.entries@, c) is Some
    }

    /// The interval sequence stored for chromosome `c`, empty if absent.
    pub open spec fn intervals_for(self, c: Seq<char>) -> Seq<MethInterval> {
        match spec_find(self.entries@, c) {
            Some(s) => s,
            None => Seq::empty(),
        }
    }

    pub fn new() -> (r: MethRanges)
        ensures
            r.inv(),
            r.bounded_ok(),
            r.sorted_ok(),
            r.entries@.len() == 0,
            forall|c: Seq<char>| !r.has_chrom(c),
    {
        MethRanges { entries: Vec::new() }
    }

    /// Index of the entry named `chrom`, if one exists.
    fn find_idx(&self, chrom: &String) -> (r: Option<usize>)
        ensures
            match r {
                Some(i) => i < self.entries@.len() && self.entries@[i as int].chrom@ == chrom@
                    && forall|j: int|
                    0 <= j < i ==> (#[trigger] self.entries@[j]).chrom@ != chrom@,
                None => forall|j: int|
                    0 <= j < self.entries@.len() ==> (#[trigger] self.entries@[j]).chrom@
                        != chrom@,
            },
    {
        let n = self.entries.len();
        let mut i: usize = 0;
        while i < n
            invariant
                0 <= i <= n,
                n == self.entries@.len(),
                forall|j: int| 0 <= j < i ==> (#[trigger] self.entries@[j]).chrom@ != chrom@,
            decreases n - i,
        {
            if self.entries[i].chrom == *chrom {
                return Some(i);
            }
            i += 1;
        }
        None
    }

    /// Borrows the interval sequence stored for a chromosome.
    pub fn find(&self, chrom: &String) -> (r: Option<&Vec<MethInterval>>)
        ensures
            match r {
                Some(v) => self.has_chrom(chrom@) && v@ == self.intervals_for(chrom@),
                None => !self.has_chrom(chrom@),
            },
    {
        let idx = self.find_idx(chrom);
        match idx {
            Some(i) => {
                proof {
                    lemma_spec_find_at(self.entries@, chrom@, i as int);
                    assert(self.entries@.skip(i as int)[0] == self.entries@[i as int]);
                }
                Some(&self.entries[i].intervals)
            },
            None => {
                proof {
                    lemma_spec_find_at(self.entries@, chrom@, self.entries@.len() as int);
                    assert(self.entries@.skip(self.entries@.len() as int).len() == 0);
                }
                None
            },
        }
    }

    /// In a table with unique names, looking an entry's own name up yields
    /// that entry's intervals.
    pub proof fn lemma_entry_lookup(self, i: int)
        requires
            self.inv(),
            0 <= i < self.entries@.len(),
        ensures
            spec_find(self.entries@, self.entries@[i].chrom@) == Some(
                self.entries@[i].intervals@,
            ),
    {
        lemma_spec_find_at(self.entries@, self.entries@[i].chrom@, i);
        assert(self.entries@.skip(i)[0] == self.entries@[i]);
    }

    /// Checks the sort invariant of every chromosome's sequence: both
    /// coordinates non-decreasing. A table failing this is a fatal input
    /// error for the callers that require it.
    pub fn check_sorted(&self) -> (r: bool)
        ensures
            r == self.sorted_ok(),
    {
        let n = self.entries.len();
        let mut i: usize = 0;
        while i < n
            invariant
                0 <= i <= n,
                n == self.entries@.len(),
                forall|k: int|
                    0 <= k < i ==> sorted_intervals((#[trigger] self.entries@[k]).intervals@),
            decreases n - i,
        {
            let ivs = &self.entries[i].intervals;
            let m = ivs.len();
            let mut j: usize = 1;
            while j < m
                invariant
                    1 <= j <= m || m == 0,
                    m == ivs@.len(),
                    0 <= i < self.entries@.len(),
                    ivs@ == self.entries@[i as int].intervals@,
                    forall|k: int|
                        0 <= k < j - 1 ==> (#[trigger] ivs@[k]).end <= ivs@[k + 1].end
                            && ivs@[k].start <= ivs@[k + 1].start,
                decreases m - j,
            {
                if ivs[j - 1].end > ivs[j].end || ivs[j - 1].start > ivs[j].start {
                    proof {
                        assert(!sorted_intervals(ivs@));
                        assert(!sorted_intervals(self.entries@[i as int].intervals@));
                        assert(!self.sorted_ok());
                    }
                    return false;
                }
                j += 1;
            }
            proof {
                assert forall|a: int, b: int| 0 <= a <= b < ivs@.len() implies (
                #[trigger] ivs@[a]).end <= (#[trigger] ivs@[b]).end && ivs@[a].start
                    <= ivs@[b].start by {
                    lemma_sorted_chain(ivs@, a, b);
                }
            }
            i += 1;
        }
        true
    }

    /// Appends one interval to the sequence of `chrom`, creating the entry
    /// at the end of the table if the chromosome is new.
    pub fn push_interval(&mut self, chrom: String, iv: MethInterval)
        requires
            old(self).inv(),
        ensures
            final(self).inv(),
            final(self).intervals_for(chrom@) == old(self).intervals_for(chrom@).push(iv),
            final(self).has_chrom(chrom@),
            forall|c: Seq<char>|
                c != chrom@ ==> spec_find(final(self).entries@, c) == spec_find(
                    old(self).entries@,
                    c,
                ),
            old(self).bounded_ok() && iv.bounded() ==> final(self).bounded_ok(),
    {
        let idx = self.find_idx(&chrom);
        match idx {
            Some(i) => {
                proof {
                    lemma_spec_find_at(self.entries@, chrom@, i as int);
                    assert(self.entries@.skip(i as int)[0] == self.entries@[i as int]);
                }
                let mut entry = self.entries.remove(i);
                entry.intervals.push(iv);
                let ghost old_entries = old(self).entries@;
                let ghost e2 = entry;
                self.entries.insert(i, entry);
                proof {
                    assert(self.entries@ =~= old_entries.update(i as int, e2));
                    lemma_spec_find_update_first(old_entries, i as int, e2);
                    assert forall|c: Seq<char>| c != chrom@ implies spec_find(
                        self.entries@,
                        c,
                    ) == spec_find(old_entries, c) by {
                        lemma_spec_find_update_other(old_entries, i as int, e2, c);
                    }
                    assert(e2.intervals@ =~= old(self).intervals_for(chrom@).push(iv));
                }
            },
            None => {
                proof {
                    lemma_spec_find_at(self.entries@, chrom@, self.entries@.len() as int);
                    assert(self.entries@.skip(self.entries@.len() as int).len() == 0);
                }
                let mut ivs: Vec<MethInterval> = Vec::new();
                ivs.push(iv);
                let entry = ChromEntry { chrom, intervals: ivs };
                let ghost old_entries = old(self).entries@;
                let ghost e2 = entry;
                self.entries.push(entry);
                proof {
                    assert(self.entries@ =~= old_entries.push(e2));
                    assert forall|c: Seq<char>| true implies spec_find(self.entries@, c)
                        == if spec_find(old_entries, c) is Some {
                        spec_find(old_entries, c)
                    } else if e2.chrom@ == c {
                        Some(e2.intervals@)
                    } else {
                        None
                    } by {
                        lemma_spec_find_push(old_entries, e2, c);
                    }
                    assert(e2.intervals@ =~= old(self).intervals_for(e2.chrom@).push(iv));
                }
            },
        }
    }
}

} // verus!
