//! The persisted result document.
//!
//! Outcomes are merged into one document keyed by operator, then by
//! network; merging overwrites the previous result for the same operator
//! and network.  The document's meaning is the nested map `doc_view`; the
//! surrounding application serializes the document and writes it with an
//! atomic replace, and is expected to serialize concurrent merges through a
//! single writer.

use vstd::prelude::*;

use crate::outcome::TestResult;

verus! {

/// One network's stored result under an operator.
#[derive(Clone, Debug)]
pub struct NetworkRecord {
    pub network: String,
    pub result: TestResult,
}

/// All stored results of one operator.
#[derive(Clone, Debug)]
pub struct OperatorRecords {
    pub operator: String,
    pub networks: Vec<NetworkRecord>,
}

/// The whole result document.
#[derive(Clone, Debug)]
pub struct ResultDocument {
    pub entries: Vec<OperatorRecords>,
}

/// The map a list of network records stands for; a later record for the
/// same network wins.
pub open spec fn networks_view(s: Seq<NetworkRecord>) -> Map<Seq<char>, TestResult>
    decreases s.len(),
{
    if s.len() == 0 {
        Map::empty()
    } else {
        networks_view(s.drop_last()).insert(s.last().network@, s.last().result)
    }
}

/// The nested map a list of operator records stands for.
pub open spec fn doc_view(s: Seq<OperatorRecords>) -> Map<Seq<char>, Map<Seq<char>, TestResult>>
    decreases s.len(),
{
    if s.len() == 0 {
        Map::empty()
    } else {
        doc_view(s.drop_last()).insert(s.last().operator@, networks_view(s.last().networks@))
    }
}

/// Network keys are unique within an operator's records.
pub open spec fn networks_wf(s: Seq<NetworkRecord>) -> bool {
    forall|i: int, j: int| 0 <= i < j < s.len() ==> s[i].network@ != s[j].network@
}

impl ResultDocument {
    /// The nested map this document stands for.
    pub open spec fn view_spec(&self) -> Map<Seq<char>, Map<Seq<char>, TestResult>> {
        doc_view(self.entries@)
    }

    /// Operator keys are unique, and each operator's network keys are
    /// unique, so every record is visible in the document's map.
    pub open spec fn wf(&self) -> bool {
        &&& forall|i: int, j: int|
            0 <= i < j < self.entries@.len() ==> self.entries@[i].operator@
                != self.entries@[j].operator@
        &&& forall|i: int|
            0 <= i < self.entries@.len() ==> networks_wf(#[trigger] self.entries@[i].networks@)
    }

    /// An empty document, as when no result file exists yet.
    pub fn new() -> (doc: ResultDocument)
        ensures
            doc.wf(),
            doc.view_spec() == Map::<Seq<char>, Map<Seq<char>, TestResult>>::empty(),
    {
        ResultDocument { entries: Vec::new() }
    }
}

/// The document map after merging one outcome: the outcome is stored under
/// its operator and network, overwriting a previous result there and
/// leaving everything else unchanged.
pub open spec fn merged_view(
    m: Map<Seq<char>, Map<Seq<char>, TestResult>>,
    r: TestResult,
) -> Map<Seq<char>, Map<Seq<char>, TestResult>> {
    let inner = if m.contains_key(r.id@) {
        m[r.id@]
    } else {
        Map::<Seq<char>, TestResult>::empty()
    };
    m.insert(r.id@, inner.insert(r.network@, r))
}

/// A key no record carries is absent from the map.
proof fn lemma_networks_absent(s: Seq<NetworkRecord>, k: Seq<char>)
    requires
        forall|i: int| 0 <= i < s.len() ==> (#[trigger] s[i].network@) != k,
    ensures
        !networks_view(s).contains_key(k),
    decreases s.len(),
{
    if s.len() > 0 {
        lemma_networks_absent(s.drop_last(), k);
    }
}

/// Overwriting the record at `i` (same network key) updates the map at
/// that key alone.
proof fn lemma_networks_update(s: Seq<NetworkRecord>, i: int, e: NetworkRecord)
    requires
        networks_wf(s),
        0 <= i < s.len(),
        e.network@ == s[i].network@,
    ensures
        networks_view(s.update(i, e)) =~= networks_view(s).insert(e.network@, e.result),
    decreases s.len(),
{
    if i == s.len() - 1 {
        assert(s.update(i, e).drop_last() =~= s.drop_last());
        assert(s.update(i, e).last() == e);
    } else {
        assert(networks_wf(s.drop_last()));
        lemma_networks_update(s.drop_last(), i, e);
        assert(s.update(i, e).drop_last() =~= s.drop_last().update(i, e));
        assert(s.update(i, e).last() == s.last());
        assert(s.last().network@ != e.network@);
    }
}

/// Appending a record with a fresh network key inserts it into the map.
proof fn lemma_networks_push(s: Seq<NetworkRecord>, e: NetworkRecord)
    ensures
        networks_view(s.push(e)) == networks_view(s).insert(e.network@, e.result),
{
    assert(s.push(e).drop_last() =~= s);
}

/// A document with unique operator keys maps each entry's operator to its
/// networks' map.
proof fn lemma_doc_lookup(s: Seq<OperatorRecords>, i: int)
    requires
        forall|a: int, b: int| 0 <= a < b < s.len() ==> s[a].operator@ != s[b].operator@,
        0 <= i < s.len(),
    ensures
        doc_view(s).contains_key(s[i].operator@),
        doc_view(s)[s[i].operator@] == networks_view(s[i].networks@),
    decreases s.len(),
{
    if i < s.len() - 1 {
        lemma_doc_lookup(s.drop_last(), i);
    }
}

/// A key no entry carries is absent from the document map.
proof fn lemma_doc_absent(s: Seq<OperatorRecords>, k: Seq<char>)
    requires
        forall|i: int| 0 <= i < s.len() ==> (#[trigger] s[i].operator@) != k,
    ensures
        !doc_view(s).contains_key(k),
    decreases s.len(),
{
    if s.len() > 0 {
        lemma_doc_absent(s.drop_last(), k);
    }
}

/// Overwriting the entry at `i` (same operator key) updates the document
/// map at that key alone.
proof fn lemma_doc_update(s: Seq<OperatorRecords>, i: int, e: OperatorRecords)
    requires
        forall|a: int, b: int| 0 <= a < b < s.len() ==> s[a].operator@ != s[b].operator@,
        0 <= i < s.len(),
        e.operator@ == s[i].operator@,
    ensures
        doc_view(s.update(i, e)) =~= doc_view(s).insert(e.operator@, networks_view(e.networks@)),
    decreases s.len(),
{
    if i == s.len() - 1 {
        assert(s.update(i, e).drop_last() =~= s.drop_last());
        assert(s.update(i, e).last() == e);
    } else {
        lemma_doc_update(s.drop_last(), i, e);
        assert(s.update(i, e).drop_last() =~= s.drop_last().update(i, e));
        assert(s.update(i, e).last() == s.last());
        assert(s.last().operator@ != e.operator@);
    }
}

/// Appending an entry with a fresh operator key inserts it into the
/// document map.
proof fn lemma_doc_push(s: Seq<OperatorRecords>, e: OperatorRecords)
    ensures
        doc_view(s.push(e)) == doc_view(s).insert(e.operator@, networks_view(e.networks@)),
{
    assert(s.push(e).drop_last() =~= s);
}

impl ResultDocument {
    /// Merges one outcome: ensures an entry for the outcome's operator
    /// exists and sets (or overwrites) that operator's key for the
    /// outcome's network, as `merged_view` describes.
    pub fn merge(&mut self, outcome: &TestResult)
        requires
            old(self).wf(),
        ensures
            final(self).wf(),
            final(self).view_spec() == merged_view(old(self).view_spec(), *outcome),
    {
        let ghost self0 = *self;
        let n = self.entries.len();
        let mut i: usize = 0;
        while i < n
            invariant
                0 <= i <= n,
                n == self.entries@.len(),
                *self == self0,
                self0.wf(),
                self0 == *old(self),
                forall|j: int| 0 <= j < i ==> (#[trigger] self.entries@[j].operator@) != outcome.id@,
            decreases n - i,
        {
            if self.entries[i].operator == outcome.id {
                // The operator exists: set or overwrite its network key.
                let m = self.entries[i].networks.len();
                let mut j: usize = 0;
                while j < m
                    invariant
                        0 <= j <= m,
                        0 <= i < self.entries@.len(),
                        m == self.entries@[i as int].networks@.len(),
                        *self == self0,
                        self0.wf(),
                        self0 == *old(self),
                        self.entries@[i as int].operator@ == outcome.id@,
                        forall|t: int|
                            0 <= t < j ==> (#[trigger] self.entries@[i as int].networks@[t].network@)
                                != outcome.network@,
                    decreases m - j,
                {
                    if self.entries[i].networks[j].network == outcome.network {
                        let rec = NetworkRecord {
                            network: outcome.network.clone(),
                            result: outcome.clone_record(),
                        };
                        proof {
                            lemma_doc_lookup(self.entries@, i as int);
                            lemma_networks_update(
                                self.entries@[i as int].networks@,
                                j as int,
                                rec,
                            );
                        }
                        let ghost entries0 = self.entries@;
                        self.entries[i].networks[j] = rec;
                        proof {
                            let e2 = self.entries@[i as int];
                            assert(e2.networks@ =~= entries0[i as int].networks@.update(
                                j as int,
                                rec,
                            ));
                            assert(self.entries@ =~= entries0.update(i as int, e2));
                            lemma_doc_update(entries0, i as int, e2);
                            assert(forall|t: int|
                                0 <= t < e2.networks@.len() && t != j ==> e2.networks@[t]
                                    == entries0[i as int].networks@[t]);
                            assert(networks_wf(e2.networks@));
                            assert(forall|t: int|
                                0 <= t < self.entries@.len() && t != i ==> self.entries@[t]
                                    == entries0[t]);
                            assert(e2.operator@ == entries0[i as int].operator@);
                            assert forall|a: int, b: int|
                                0 <= a < b < self.entries@.len() implies self.entries@[a].operator@
                                != self.entries@[b].operator@ by {
                                assert(self.entries@[a].operator@ == entries0[a].operator@);
                                assert(self.entries@[b].operator@ == entries0[b].operator@);
                                assert(entries0[a].operator@ != entries0[b].operator@);
                            }
                            assert forall|t: int|
                                0 <= t < self.entries@.len() implies networks_wf(
                                #[trigger] self.entries@[t].networks@,
                            ) by {
                                if t != i {
                                    assert(self.entries@[t] == entries0[t]);
                                    assert(networks_wf(entries0[t].networks@));
                                }
                            }
                            assert(self.wf());
                            assert(self.view_spec() =~= merged_view(
                                self0.view_spec(),
                                *outcome,
                            ));
                        }
                        return ;
                    }
                    j += 1;
                }
                // The operator exists but the network is new: append it.
                let rec = NetworkRecord {
                    network: outcome.network.clone(),
                    result: outcome.clone_record(),
                };
                proof {
                    lemma_doc_lookup(self.entries@, i as int);
                    lemma_networks_absent(self.entries@[i as int].networks@, outcome.network@);
                    lemma_networks_push(self.entries@[i as int].networks@, rec);
                }
                let ghost entries0 = self.entries@;
                self.entries[i].networks.push(rec);
                proof {
                    let e2 = self.entries@[i as int];
                    assert(e2.networks@ =~= entries0[i as int].networks@.push(rec));
                    assert(self.entries@ =~= entries0.update(i as int, e2));
                    lemma_doc_update(entries0, i as int, e2);
                    assert(forall|t: int|
                        0 <= t < e2.networks@.len() - 1 ==> e2.networks@[t] == entries0[i
                            as int].networks@[t]);
                    assert(networks_wf(e2.networks@));
                    assert(forall|t: int|
                        0 <= t < self.entries@.len() && t != i ==> self.entries@[t]
                            == entries0[t]);
                    assert(e2.operator@ == entries0[i as int].operator@);
                    assert forall|a: int, b: int|
                        0 <= a < b < self.entries@.len() implies self.entries@[a].operator@
                        != self.entries@[b].operator@ by {
                        assert(self.entries@[a].operator@ == entries0[a].operator@);
                        assert(self.entries@[b].operator@ == entries0[b].operator@);
                        assert(entries0[a].operator@ != entries0[b].operator@);
                    }
                    assert forall|t: int|
                        0 <= t < self.entries@.len() implies networks_wf(
                        #[trigger] self.entries@[t].networks@,
                    ) by {
                        if t != i {
                            assert(self.entries@[t] == entries0[t]);
                            assert(networks_wf(entries0[t].networks@));
                        }
                    }
                    assert(self.wf());
                    assert(self.view_spec() =~= merged_view(self0.view_spec(), *outcome));
                }
                return ;
            }
            i += 1;
        }
        // The operator is new: append an entry with this one network.
        let rec = NetworkRecord {
            network: outcome.network.clone(),
            result: outcome.clone_record(),
        };
        let mut networks: Vec<NetworkRecord> = Vec::new();
        networks.push(rec);
        let entry = OperatorRecords { operator: outcome.id.clone(), networks };
        proof {
            lemma_doc_absent(self.entries@, outcome.id@);
            lemma_doc_push(self.entries@, entry);
            assert(entry.networks@.drop_last() =~= Seq::<NetworkRecord>::empty());
            assert(networks_view(Seq::<NetworkRecord>::empty()) =~= Map::<
                Seq<char>,
                TestResult,
            >::empty());
            assert(networks_view(entry.networks@) =~= Map::<Seq<char>, TestResult>::empty().insert(
                outcome.network@,
                *outcome,
            ));
        }
        let ghost entries0 = self.entries@;
        self.entries.push(entry);
        proof {
            assert(forall|t: int|
                0 <= t < entries0.len() ==> self.entries@[t] == entries0[t]);
            assert(networks_wf(entry.networks@));
            assert(entry.operator@ == outcome.id@);
            assert forall|a: int, b: int|
                0 <= a < b < self.entries@.len() implies self.entries@[a].operator@
                != self.entries@[b].operator@ by {
                if b < entries0.len() {
                    assert(entries0[a].operator@ != entries0[b].operator@);
                } else {
                    assert(self.entries@[a] == entries0[a]);
                    assert(entries0[a].operator@ != outcome.id@);
                }
            }
            assert forall|t: int|
                0 <= t < self.entries@.len() implies networks_wf(
                #[trigger] self.entries@[t].networks@,
            ) by {
                if t < entries0.len() {
                    assert(self.entries@[t] == entries0[t]);
                    assert(networks_wf(entries0[t].networks@));
                }
            }
            assert(self.wf());
            assert(self.view_spec() =~= merged_view(old(self).view_spec(), *outcome));
        }
    }
}

/// Law: merging the same outcome twice leaves the document map exactly as
/// after the first merge; the second merge overwrites, it never duplicates.
pub proof fn lemma_merge_idempotent(m: Map<Seq<char>, Map<Seq<char>, TestResult>>, r: TestResult)
    ensures
        merged_view(merged_view(m, r), r) == merged_view(m, r),
{
    let m1 = merged_view(m, r);
    assert(m1.contains_key(r.id@));
    assert(m1[r.id@].insert(r.network@, r) =~= m1[r.id@]);
    assert(merged_view(m1, r) =~= m1);
}

} // verus!
