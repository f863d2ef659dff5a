//! The in-memory pageview counter: a mapping from post slug to hit
//! count. Increments on slugs that name no loaded post are discarded;
//! a snapshot is a point-in-time copy; restore loads persisted rows
//! back in. Callers share one counter behind a lock and call these
//! operations inside their critical sections.

use vstd::prelude::*;

use crate::text::str_eq;

verus! {

/// One slug/count pair, as the counter and the persistent store
/// exchange them.
#[derive(Debug)]
pub struct HitRecord {
    pub slug: String,
    pub hits: i64,
}

impl Clone for HitRecord {
    fn clone(&self) -> (r: HitRecord)
        ensures
            r == *self,
    {
        HitRecord { slug: self.slug.clone(), hits: self.hits }
    }
}

/// The mapping that a sequence of records holds, later rows
/// overwriting earlier ones with the same slug.
pub open spec fn records_map(s: Seq<HitRecord>) -> Map<Seq<char>, int>
    decreases s.len(),
{
    if s.len() == 0 {
        Map::empty()
    } else {
        records_map(s.drop_last()).insert(s.last().slug@, s.last().hits as int)
    }
}

/// No two records name the same slug.
pub open spec fn records_unique(s: Seq<HitRecord>) -> bool {
    forall|i: int, j: int| 0 <= i < j < s.len() ==> s[i].slug@ != s[j].slug@
}

/// The count a mapping holds for a slug, zero when absent.
pub open spec fn count_of(m: Map<Seq<char>, int>, slug: Seq<char>) -> int {
    if m.dom().contains(slug) {
        m[slug]
    } else {
        0
    }
}

/// What one increment does to the mapping: the slug's count, one
/// higher, saturating at the largest representable count.
pub open spec fn bump(m: Map<Seq<char>, int>, slug: Seq<char>) -> Map<Seq<char>, int> {
    m.insert(
        slug,
        if count_of(m, slug) < i64::MAX {
            count_of(m, slug) + 1
        } else {
            count_of(m, slug)
        },
    )
}

pub proof fn lemma_records_map_at(s: Seq<HitRecord>, i: int)
    requires
        records_unique(s),
        0 <= i < s.len(),
    ensures
        records_map(s).dom().contains(s[i].slug@),
        records_map(s)[s[i].slug@] == s[i].hits as int,
    decreases s.len(),
{
    if i < s.len() - 1 {
        lemma_records_map_at(s.drop_last(), i);
    }
}

pub proof fn lemma_records_map_absent(s: Seq<HitRecord>, slug: Seq<char>)
    requires
        forall|j: int| 0 <= j < s.len() ==> s[j].slug@ != slug,
    ensures
        !records_map(s).dom().contains(slug),
    decreases s.len(),
{
    if s.len() > 0 {
        lemma_records_map_absent(s.drop_last(), slug);
    }
}

proof fn lemma_records_map_update(s: Seq<HitRecord>, i: int, r: HitRecord)
    requires
        records_unique(s),
        0 <= i < s.len(),
        r.slug@ == s[i].slug@,
    ensures
        records_map(s.update(i, r)) == records_map(s).insert(r.slug@, r.hits as int),
    decreases s.len(),
{
    let t = s.update(i, r);
    if i == s.len() - 1 {
        assert(t.drop_last() =~= s.drop_last());
        assert(records_map(t) =~= records_map(s).insert(r.slug@, r.hits as int));
    } else {
        assert(t.drop_last() =~= s.drop_last().update(i, r));
        lemma_records_map_update(s.drop_last(), i, r);
        assert(t.last() == s.last());
        assert(s.last().slug@ != r.slug@);
        assert(records_map(t) =~= records_map(s).insert(r.slug@, r.hits as int));
    }
}

/// The counter: the slugs of the loaded posts, and the hit records
/// collected so far.
pub struct ViewCounter {
    known: Vec<String>,
    entries: Vec<HitRecord>,
}

impl ViewCounter {
    /// The slugs increments are accepted for.
    pub closed spec fn known_seq(self) -> Seq<Seq<char>> {
        self.known@.map_values(|s: String| s@)
    }

    pub open spec fn is_known(self, slug: Seq<char>) -> bool {
        exists|i: int| 0 <= i < self.known_seq().len() && self.known_seq()[i] == slug
    }

    /// The mapping from slug to count that the counter holds.
    pub closed spec fn counts(self) -> Map<Seq<char>, int> {
        records_map(self.entries@)
    }

    pub closed spec fn wf(self) -> bool {
        records_unique(self.entries@)
    }

    /// A counter that accepts the given slugs and holds no counts.
    pub fn new(known: Vec<String>) -> (r: ViewCounter)
        ensures
            r.wf(),
            r.counts() == Map::<Seq<char>, int>::empty(),
            r.known_seq() == known@.map_values(|s: String| s@),
    {
        ViewCounter { known, entries: Vec::new() }
    }

    /// Record one pageview. A slug that names no loaded post changes
    /// nothing — it is discarded, never stored. A known slug's count
    /// rises by one (saturating), entering at one if absent.
    pub fn increment(&mut self, slug: &str)
        requires
            old(self).wf(),
        ensures
            final(self).wf(),
            final(self).known_seq() == old(self).known_seq(),
            old(self).is_known(slug@) ==> final(self).counts() == bump(old(self).counts(), slug@),
            !old(self).is_known(slug@) ==> final(self).counts() == old(self).counts(),
    {
        let nk = self.known.len();
        let mut found = false;
        let mut k: usize = 0;
        while k < nk && !found
            invariant
                k <= nk == self.known@.len(),
                self.known@ == old(self).known@,
                self.entries@ == old(self).entries@,
                !found ==> forall|j: int| 0 <= j < k ==> self.known@[j]@ != slug@,
                found ==> self.is_known(slug@),
        decreases nk - k + (if found { 0int } else { 1int }),
    {
            if str_eq(self.known[k].as_str(), slug) {
                found = true;
                proof {
                    assert(self.known_seq()[k as int] == slug@);
                }
            } else {
                k += 1;
            }
        }
        if !found {
            proof {
                assert(!self.is_known(slug@));
                assert(self.known_seq() == old(self).known_seq());
            }
            return ;
        }
        proof {
            assert(self.known_seq() == old(self).known_seq());
            assert(old(self).is_known(slug@));
        }
        let ghost s0 = self.entries@;
        let n = self.entries.len();
        let mut i: usize = 0;
        while i < n
            invariant
                i <= n == self.entries@.len(),
                self.known@ == old(self).known@,
                s0 == old(self).entries@,
                self.entries@ == s0,
                records_unique(s0),
                old(self).is_known(slug@),
                forall|j: int| 0 <= j < i ==> s0[j].slug@ != slug@,
            decreases n - i,
        {
            if str_eq(self.entries[i].slug.as_str(), slug) {
                let h = self.entries[i].hits;
                let nh: i64 = if h < i64::MAX {
                    h + 1
                } else {
                    h
                };
                let rec = self.entries.remove(i);
                let rec2 = HitRecord { slug: rec.slug, hits: nh };
                proof {
                    assert(rec2.slug@ == s0[i as int].slug@);
                }
                self.entries.insert(i, rec2);
                proof {
                    assert(self.entries@ =~= s0.update(i as int, rec2));
                    lemma_records_map_at(s0, i as int);
                    lemma_records_map_update(s0, i as int, rec2);
                    assert(records_unique(self.entries@));
                }
                return ;
            }
            i += 1;
        }
        // slug is known but has no entry yet: it enters at one.
        proof {
            lemma_records_map_absent(s0, slug@);
        }
        let mut srec = String::new();
        srec.append(slug);
        let rec = HitRecord { slug: srec, hits: 1 };
        self.entries.push(rec);
        proof {
            assert(self.entries@.drop_last() =~= s0);
            assert(records_unique(self.entries@));
        }
    }

    /// A point-in-time copy of the counts, not a live view.
    pub fn snapshot(&self) -> (r: Vec<HitRecord>)
        requires
            self.wf(),
        ensures
            records_unique(r@),
            records_map(r@) == self.counts(),
    {
        let n = self.entries.len();
        let mut r: Vec<HitRecord> = Vec::new();
        let mut i: usize = 0;
        while i < n
            invariant
                i <= n == self.entries@.len(),
                r@ == self.entries@.take(i as int),
            decreases n - i,
        {
            r.push(self.entries[i].clone());
            proof {
                assert(r@ =~= self.entries@.take(i + 1));
            }
            i += 1;
        }
        proof {
            assert(r@ =~= self.entries@);
        }
        r
    }

    /// Load persisted rows into the counter, in order, later rows
    /// overwriting earlier ones with the same slug. The set of known
    /// slugs is unchanged.
    pub fn restore(&mut self, rows: &Vec<HitRecord>)
        requires
            old(self).wf(),
        ensures
            final(self).wf(),
            final(self).known_seq() == old(self).known_seq(),
            final(self).counts() == restore_map(old(self).counts(), rows@),
    {
        let n = rows.len();
        let mut i: usize = 0;
        while i < n
            invariant
                i <= n == rows@.len(),
                self.wf(),
                self.known_seq() == old(self).known_seq(),
                self.counts() == restore_map(old(self).counts(), rows@.take(i as int)),
            decreases n - i,
        {
            let row = rows[i].clone();
            proof {
                assert(rows@.take(i + 1).drop_last() =~= rows@.take(i as int));
                assert(rows@.take(i + 1).last() == rows@[i as int]);
            }
            self.upsert_entry(row);
            i += 1;
        }
        proof {
            assert(rows@.take(n as int) =~= rows@);
        }
    }

    /// Set the count for one slug outright.
    fn upsert_entry(&mut self, row: HitRecord)
        requires
            old(self).wf(),
        ensures
            final(self).wf(),
            final(self).known_seq() == old(self).known_seq(),
            final(self).counts() == old(self).counts().insert(row.slug@, row.hits as int),
    {
        let ghost s0 = self.entries@;
        let n = self.entries.len();
        let mut i: usize = 0;
        while i < n
            invariant
                i <= n == self.entries@.len(),
                self.known@ == old(self).known@,
                s0 == old(self).entries@,
                self.entries@ == s0,
                records_unique(s0),
                forall|j: int| 0 <= j < i ==> s0[j].slug@ != row.slug@,
            decreases n - i,
        {
            if str_eq(self.entries[i].slug.as_str(), row.slug.as_str()) {
                let old_rec = self.entries.remove(i);
                self.entries.insert(i, row);
                proof {
                    assert(self.entries@ =~= s0.update(i as int, self.entries@[i as int]));
                    lemma_records_map_update(s0, i as int, self.entries@[i as int]);
                    assert(records_unique(self.entries@));
                }
                return ;
            }
            i += 1;
        }
        proof {
            lemma_records_map_absent(s0, row.slug@);
        }
        self.entries.push(row);
        proof {
            assert(self.entries@.drop_last() =~= s0);
            assert(records_unique(self.entries@));
        }
    }
}

/// Persisted rows applied to a mapping, in order, later rows
/// overwriting earlier ones.
pub open spec fn restore_map(m: Map<Seq<char>, int>, rows: Seq<HitRecord>) -> Map<Seq<char>, int>
    decreases rows.len(),
{
    if rows.len() == 0 {
        m
    } else {
        restore_map(m, rows.drop_last()).insert(rows.last().slug@, rows.last().hits as int)
    }
}

/// Restoring a scan of the store into a fresh counter reproduces the
/// stored mapping exactly: the next snapshot shows precisely the
/// persisted rows.
pub proof fn lemma_restore_reproduces(rows: Seq<HitRecord>)
    ensures
        restore_map(Map::<Seq<char>, int>::empty(), rows) == records_map(rows),
    decreases rows.len(),
{
    if rows.len() > 0 {
        lemma_restore_reproduces(rows.drop_last());
    }
}

// ---------------------------------------------------------------------
// Counting laws.
// ---------------------------------------------------------------------
/// `n` increments of one slug, applied to a mapping.
pub open spec fn bump_n(m: Map<Seq<char>, int>, slug: Seq<char>, n: nat) -> Map<Seq<char>, int>
    decreases n,
{
    if n == 0 {
        m
    } else {
        bump(bump_n(m, slug, (n - 1) as nat), slug)
    }
}

/// However many increments of a known slug complete, a snapshot taken
/// after them all shows the slug's count higher by exactly their
/// number, as long as the count stays representable; no other slug's
/// count moves. That the increments compose in sequence is the
/// caller's side: it holds one lock around the counter, so each
/// critical section sees the state the previous one left.
pub proof fn lemma_increment_total(m: Map<Seq<char>, int>, slug: Seq<char>, n: nat)
    requires
        count_of(m, slug) + n <= i64::MAX,
        count_of(m, slug) >= 0,
    ensures
        count_of(bump_n(m, slug, n), slug) == count_of(m, slug) + n,
        forall|other: Seq<char>| other != slug ==> count_of(bump_n(m, slug, n), other) == count_of(
            m,
            other,
        ),
    decreases n,
{
    if n > 0 {
        lemma_increment_total(m, slug, (n - 1) as nat);
    }
}

} // verus!
