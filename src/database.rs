use vstd::prelude::*;

use crate::ranking::{is_ranking, rank_by_score};

verus! {

/// An embedding vector: each component is the IEEE-754 binary64 bit pattern
/// of one coordinate. The store never computes with the coordinates; it only
/// keeps them and compares dimensions.
pub type Embedding = Vec<u64>;

/// What the store keeps for one piece of content.
pub struct EmbeddedDocument {
    pub source: String,
    pub embedding: Embedding,
}

/// One stored record seen mathematically: content, source, embedding.
pub type RecordView = (Seq<char>, Seq<char>, Seq<u64>);

/// A record that matched a query, with its score. A score is a fixed-point
/// number: the caller picks the unit and uses it for every record of a query.
pub struct SimilarDocument {
    pub source: String,
    pub content: String,
    pub score: i64,
}

/// Why a record or a snapshot was refused.
#[derive(Clone, Copy, Debug, PartialEq, Eq, Structural)]
pub enum StoreError {
    /// Two snapshot entries hold the same content.
    DuplicateContent,
    /// An embedding's length differs from the store's dimension.
    DimensionMismatch,
}

impl EmbeddedDocument {
    /// A copy of this document.
    pub fn duplicate(&self) -> (r: EmbeddedDocument)
        ensures
            r.source@ == self.source@,
            r.embedding@ == self.embedding@,
    {
        EmbeddedDocument { source: self.source.clone(), embedding: self.embedding.clone() }
    }
}

/// The record view of a (content, document) pair.
pub open spec fn entry_view(e: (String, EmbeddedDocument)) -> RecordView {
    (e.0@, e.1.source@, e.1.embedding@)
}

pub open spec fn entries_view(es: Seq<(String, EmbeddedDocument)>) -> Seq<RecordView> {
    es.map_values(|e: (String, EmbeddedDocument)| entry_view(e))
}

/// No two records share content.
pub open spec fn contents_distinct(r: Seq<RecordView>) -> bool {
    forall|i: int, j: int| 0 <= i < j < r.len() ==> r[i].0 != r[j].0
}

/// All embeddings have one length.
pub open spec fn same_dimension(r: Seq<RecordView>) -> bool {
    forall|i: int, j: int| 0 <= i < r.len() && 0 <= j < r.len() ==> r[i].2.len() == r[j].2.len()
}

/// No two records share content, and all embeddings have one length.
pub open spec fn records_wf(r: Seq<RecordView>) -> bool {
    contents_distinct(r) && same_dimension(r)
}

/// Some record holds this content.
pub open spec fn has_content(r: Seq<RecordView>, content: Seq<char>) -> bool {
    exists|i: int| 0 <= i < r.len() && r[i].0 == content
}

/// An embedding of this length may join the records.
pub open spec fn fits_dimension(r: Seq<RecordView>, len: nat) -> bool {
    r.len() == 0 || r[0].2.len() == len
}

/// The records after adding `content`: unchanged where it is already there,
/// else one more record at the end.
pub open spec fn added(r: Seq<RecordView>, content: Seq<char>, source: Seq<char>, emb: Seq<u64>) -> Seq<
    RecordView,
> {
    if has_content(r, content) {
        r
    } else {
        r.push((content, source, emb))
    }
}

/// The texts of a list of strings.
pub open spec fn texts_view(v: Seq<String>) -> Seq<Seq<char>> {
    v.map_values(|s: String| s@)
}

/// Whether some string of `v` equals `s`.
fn list_contains(v: &Vec<String>, s: &String) -> (r: bool)
    ensures
        r == texts_view(v@).contains(s@),
{
    let mut i: usize = 0;
    while i < v.len()
        invariant
            0 <= i <= v@.len(),
            forall|k: int| 0 <= k < i ==> v@[k]@ != s@,
        decreases v@.len() - i,
    {
        if v[i] == *s {
            assert(texts_view(v@)[i as int] == s@);
            return true;
        }
        i = i + 1;
    }
    false
}

/// The records seen as a map from content to source and embedding.
pub open spec fn content_map(r: Seq<RecordView>) -> Map<Seq<char>, (Seq<char>, Seq<u64>)> {
    Map::new(
        |c: Seq<char>| has_content(r, c),
        |c: Seq<char>| {
            let i = choose|i: int| 0 <= i < r.len() && r[i].0 == c;
            (r[i].1, r[i].2)
        },
    )
}

/// The candidate that record `rec` gives with `score`.
pub open spec fn candidate_view(rec: RecordView, score: i64) -> (Seq<char>, Seq<char>, i64) {
    (rec.0, rec.1, score)
}

impl SimilarDocument {
    pub open spec fn view(&self) -> (Seq<char>, Seq<char>, i64) {
        (self.content@, self.source@, self.score)
    }
}

/// A deduplicated collection of embedded content, in insertion order.
pub struct Database {
    entries: Vec<(String, EmbeddedDocument)>,
}

impl Database {
    /// The records, oldest first.
    pub closed spec fn view(&self) -> Seq<RecordView> {
        entries_view(self.entries@)
    }

    pub open spec fn wf(&self) -> bool {
        records_wf(self@)
    }

    /// An empty store.
    pub fn new() -> (r: Database)
        ensures
            r@ == Seq::<RecordView>::empty(),
            r.wf(),
    {
        let r = Database { entries: Vec::new() };
        assert(r@ =~= Seq::<RecordView>::empty());
        r
    }

    /// The number of records.
    pub fn len(&self) -> (r: usize)
        ensures
            r == self@.len(),
    {
        self.entries.len()
    }

    /// The records, oldest first, as (content, document) pairs.
    pub fn entries(&self) -> (r: &Vec<(String, EmbeddedDocument)>)
        ensures
            entries_view(r@) == self@,
    {
        &self.entries
    }

    /// Whether some record holds exactly this content.
    pub fn contains(&self, content: &String) -> (r: bool)
        ensures
            r == has_content(self@, content@),
    {
        let mut i: usize = 0;
        while i < self.entries.len()
            invariant
                0 <= i <= self.entries@.len(),
                forall|k: int| 0 <= k < i ==> self@[k].0 != content@,
            decreases self.entries@.len() - i,
        {
            if self.entries[i].0 == *content {
                assert(self@[i as int].0 == content@);
                return true;
            }
            i = i + 1;
        }
        false
    }

    /// Adds a record for `content` unless one is already there; an existing
    /// record, with its source, is kept as it is. Returns whether a record
    /// was added. An embedding whose length differs from those already
    /// stored is refused.
    pub fn add_document(&mut self, content: String, source: String, embedding: Embedding) -> (r:
        Result<bool, StoreError>)
        requires
            old(self).wf(),
        ensures
            final(self).wf(),
            has_content(old(self)@, content@) ==> r == Ok::<bool, StoreError>(false)
                && final(self)@ == old(self)@,
            !has_content(old(self)@, content@) && fits_dimension(old(self)@, embedding@.len())
                ==> r == Ok::<bool, StoreError>(true) && final(self)@ == added(
                old(self)@,
                content@,
                source@,
                embedding@,
            ),
            !has_content(old(self)@, content@) && !fits_dimension(old(self)@, embedding@.len())
                ==> r == Err::<bool, StoreError>(StoreError::DimensionMismatch) && final(self)@
                == old(self)@,
    {
        if self.contains(&content) {
            return Ok(false);
        }
        if self.entries.len() > 0 && self.entries[0].1.embedding.len() != embedding.len() {
            return Err(StoreError::DimensionMismatch);
        }
        let ghost before = self.entries@;
        let ghost e = (content, EmbeddedDocument { source, embedding });
        self.entries.push((content, EmbeddedDocument { source, embedding }));
        assert(self.entries@ == before.push(e));
        assert(self@ =~= entries_view(before).push(entry_view(e)));
        proof {
            let o = entries_view(before);
            let nv = self@;
            assert(forall|k: int| 0 <= k < o.len() ==> o[k].0 != content@);
            assert forall|a: int, b: int| 0 <= a < b < nv.len() implies nv[a].0 != nv[b].0 by {
                if b == o.len() {
                    assert(nv[a] == o[a]);
                }
            }
            assert forall|a: int, b: int| 0 <= a < nv.len() && 0 <= b < nv.len() implies nv[a].2.len()
                == nv[b].2.len() by {
                if o.len() > 0 {
                    assert(o[0].2.len() == embedding@.len());
                }
            }
        }
        Ok(true)
    }

    /// The contents among `chunks` that still need an embedding: those the
    /// store lacks, each listed once. Embedding exactly these asks for each
    /// distinct new content once.
    pub fn missing_contents(&self, chunks: &Vec<String>) -> (r: Vec<String>)
        ensures
            texts_view(r@).no_duplicates(),
            forall|k: int|
                0 <= k < r@.len() ==> !has_content(self@, #[trigger] r@[k]@) && texts_view(
                    chunks@,
                ).contains(r@[k]@),
            forall|i: int|
                0 <= i < chunks@.len() && !has_content(self@, #[trigger] chunks@[i]@) ==> texts_view(
                    r@,
                ).contains(chunks@[i]@),
    {
        let mut out: Vec<String> = Vec::new();
        let mut i: usize = 0;
        while i < chunks.len()
            invariant
                0 <= i <= chunks@.len(),
                texts_view(out@).no_duplicates(),
                forall|k: int|
                    0 <= k < out@.len() ==> !has_content(self@, #[trigger] out@[k]@) && texts_view(
                        chunks@,
                    ).contains(out@[k]@),
                forall|j: int|
                    0 <= j < i && !has_content(self@, #[trigger] chunks@[j]@) ==> texts_view(
                        out@,
                    ).contains(chunks@[j]@),
            decreases chunks@.len() - i,
        {
            let c = &chunks[i];
            assert(texts_view(chunks@)[i as int] == c@);
            if !self.contains(c) && !list_contains(&out, c) {
                let ghost before = out@;
                out.push(c.clone());
                assert(texts_view(out@) =~= texts_view(before).push(c@));
                assert(texts_view(out@)[before.len() as int] == c@);
                assert forall|j: int|
                    0 <= j < i && !has_content(self@, #[trigger] chunks@[j]@) implies texts_view(
                    out@,
                ).contains(chunks@[j]@) by {
                    let k = choose|k: int|
                        0 <= k < before.len() && texts_view(before)[k] == chunks@[j]@;
                    assert(texts_view(out@)[k] == chunks@[j]@);
                }
            }
            i = i + 1;
        }
        out
    }

    /// Replaces every record with the entries of a snapshot. A snapshot with
    /// repeated content or embeddings of different lengths is refused, and
    /// the store is then left as it was.
    pub fn load(&mut self, entries: Vec<(String, EmbeddedDocument)>) -> (r: Result<(), StoreError>)
        requires
            old(self).wf(),
        ensures
            r is Ok <==> records_wf(entries_view(entries@)),
            r is Ok ==> final(self)@ == entries_view(entries@),
            r is Err ==> final(self)@ == old(self)@,
            final(self).wf(),
            r == Err::<(), StoreError>(StoreError::DuplicateContent) <==> !contents_distinct(
                entries_view(entries@),
            ),
            r == Err::<(), StoreError>(StoreError::DimensionMismatch) <==> contents_distinct(
                entries_view(entries@),
            ) && !same_dimension(entries_view(entries@)),
    {
        let ghost ev = entries_view(entries@);
        let n = entries.len();
        let mut i: usize = 0;
        while i < n
            invariant
                n == entries@.len(),
                ev == entries_view(entries@),
                self.wf(),
                0 <= i <= n,
                forall|a: int, b: int| 0 <= a < b < n && a < i ==> ev[a].0 != ev[b].0,
            decreases n - i,
        {
            let mut j: usize = i + 1;
            while j < n
                invariant
                    n == entries@.len(),
                    ev == entries_view(entries@),
                    self.wf(),
                self.wf(),
                    0 <= i < n,
                    i < j <= n,
                    forall|a: int, b: int| 0 <= a < b < n && a < i ==> ev[a].0 != ev[b].0,
                    forall|b: int| i < b < j ==> ev[i as int].0 != ev[b].0,
                decreases n - j,
            {
                if entries[i].0 == entries[j].0 {
                    assert(ev[i as int].0 == ev[j as int].0);
                    return Err(StoreError::DuplicateContent);
                }
                j = j + 1;
            }
            i = i + 1;
        }
        assert(contents_distinct(ev));
        let mut k: usize = 0;
        while k < n
            invariant
                n == entries@.len(),
                ev == entries_view(entries@),
                self.wf(),
                0 <= k <= n,
                contents_distinct(ev),
                forall|a: int| 0 <= a < k ==> (#[trigger] ev[a]).2.len() == ev[0].2.len(),
            decreases n - k,
        {
            if entries[k].1.embedding.len() != entries[0].1.embedding.len() {
                assert(ev[k as int].2.len() != ev[0].2.len());
                return Err(StoreError::DimensionMismatch);
            }
            k = k + 1;
        }
        self.entries = entries;
        Ok(())
    }

    /// The whole store as snapshot entries, oldest first.
    pub fn snapshot(&self) -> (r: Vec<(String, EmbeddedDocument)>)
        ensures
            entries_view(r@) == self@,
    {
        let mut out: Vec<(String, EmbeddedDocument)> = Vec::new();
        let mut i: usize = 0;
        while i < self.entries.len()
            invariant
                0 <= i <= self.entries@.len(),
                entries_view(out@) =~= self@.subrange(0, i as int),
            decreases self.entries@.len() - i,
        {
            let e = &self.entries[i];
            let ghost before = out@;
            out.push((e.0.clone(), e.1.duplicate()));
            assert(entries_view(out@) =~= entries_view(before).push(self@[i as int]));
            assert(self@.subrange(0, i + 1) =~= self@.subrange(0, i as int).push(self@[i as int]));
            i = i + 1;
        }
        assert(self@.subrange(0, self@.len() as int) =~= self@);
        out
    }

    /// The records whose score reaches the mean score, best first; equal
    /// scores keep insertion order. `scores[i]` is the score of the `i`-th
    /// record. An empty store gives no candidates.
    pub fn similarity_search(&self, scores: &Vec<i64>) -> (r: Vec<SimilarDocument>)
        requires
            scores@.len() == self@.len(),
        ensures
            exists|order: Seq<usize>|
                is_ranking(scores@, order) && r@.len() == order.len() && forall|k: int|
                    0 <= k < order.len() ==> (#[trigger] r@[k]).view() == candidate_view(
                        self@[order[k] as int],
                        scores@[order[k] as int],
                    ),
    {
        let order = rank_by_score(scores);
        let mut out: Vec<SimilarDocument> = Vec::new();
        let mut k: usize = 0;
        while k < order.len()
            invariant
                scores@.len() == self@.len(),
                is_ranking(scores@, order@),
                0 <= k <= order@.len(),
                out@.len() == k,
                forall|q: int|
                    0 <= q < k ==> (#[trigger] out@[q]).view() == candidate_view(
                        self@[order@[q] as int],
                        scores@[order@[q] as int],
                    ),
            decreases order@.len() - k,
        {
            let i = order[k];
            let e = &self.entries[i];
            out.push(
                SimilarDocument { source: e.1.source.clone(), content: e.0.clone(), score: scores[i] },
            );
            k = k + 1;
        }
        out
    }
}

/// Adding content that the store already holds changes nothing, so a second
/// `add_document` of the same content leaves exactly the records of the first,
/// whatever source or embedding it brings.
pub proof fn lemma_add_idempotent(
    r: Seq<RecordView>,
    content: Seq<char>,
    source1: Seq<char>,
    emb1: Seq<u64>,
    source2: Seq<char>,
    emb2: Seq<u64>,
)
    ensures
        added(added(r, content, source1, emb1), content, source2, emb2) == added(
            r,
            content,
            source1,
            emb1,
        ),
        has_content(added(r, content, source1, emb1), content),
{
    let a = added(r, content, source1, emb1);
    if !has_content(r, content) {
        assert(a[r.len() as int].0 == content);
    }
}

/// Loading what `snapshot` gave back succeeds and restores the same records,
/// hence the same content-to-record map.
pub proof fn lemma_snapshot_round_trip(db: Seq<RecordView>, snap: Seq<(String, EmbeddedDocument)>)
    requires
        records_wf(db),
        entries_view(snap) == db,
    ensures
        records_wf(entries_view(snap)),
        entries_view(snap).to_set() == db.to_set(),
        content_map(entries_view(snap)) == content_map(db),
{
}

/// A snapshot read back in any order, as a map of content gives it, loads
/// into the same records: the loaded store is well formed, holds the same
/// records as a set, and maps each content to the same source and embedding.
pub proof fn lemma_reordered_snapshot(db: Seq<RecordView>, loaded: Seq<RecordView>)
    requires
        records_wf(db),
        loaded.to_multiset() == db.to_multiset(),
    ensures
        records_wf(loaded),
        loaded.to_set() == db.to_set(),
        content_map(loaded) == content_map(db),
{
    broadcast use vstd::seq_lib::group_to_multiset_ensures;

    assert(db.no_duplicates()) by {
        assert forall|i: int, j: int| 0 <= i < db.len() && 0 <= j < db.len() && i != j implies db[i]
            != db[j] by {
            if i < j {
                assert(db[i].0 != db[j].0);
            } else {
                assert(db[j].0 != db[i].0);
            }
        }
    }
    db.lemma_multiset_has_no_duplicates();
    loaded.lemma_multiset_has_no_duplicates_conv();
    assert forall|x: RecordView| loaded.contains(x) <==> db.contains(x) by {
        assert(loaded.contains(x) <==> loaded.to_multiset().count(x) > 0);
        assert(db.contains(x) <==> db.to_multiset().count(x) > 0);
    }
    assert forall|i: int| 0 <= i < loaded.len() implies exists|a: int|
        0 <= a < db.len() && db[a] == #[trigger] loaded[i] by {
        assert(loaded.contains(loaded[i]));
    }
    assert forall|i: int, j: int| 0 <= i < j < loaded.len() implies loaded[i].0 != loaded[j].0 by {
        let a = choose|a: int| 0 <= a < db.len() && db[a] == loaded[i];
        let b = choose|b: int| 0 <= b < db.len() && db[b] == loaded[j];
        assert(loaded[i] != loaded[j]);
        if a < b {
            assert(db[a].0 != db[b].0);
        } else {
            assert(db[b].0 != db[a].0);
        }
    }
    assert forall|i: int, j: int| 0 <= i < loaded.len() && 0 <= j < loaded.len() implies loaded[i].2.len()
        == loaded[j].2.len() by {
        let a = choose|a: int| 0 <= a < db.len() && db[a] == loaded[i];
        let b = choose|b: int| 0 <= b < db.len() && db[b] == loaded[j];
        assert(db[a].2.len() == db[b].2.len());
    }
    assert(loaded.to_set() =~= db.to_set());
    assert forall|c: Seq<char>| has_content(loaded, c) <==> has_content(db, c) by {
        if has_content(loaded, c) {
            let i = choose|i: int| 0 <= i < loaded.len() && loaded[i].0 == c;
            let a = choose|a: int| 0 <= a < db.len() && db[a] == loaded[i];
            assert(db[a].0 == c);
        }
        if has_content(db, c) {
            let a = choose|a: int| 0 <= a < db.len() && db[a].0 == c;
            assert(db.contains(db[a]));
            assert(loaded.contains(db[a]));
            let i = choose|i: int| 0 <= i < loaded.len() && loaded[i] == db[a];
            assert(loaded[i].0 == c);
        }
    }
    assert forall|c: Seq<char>| has_content(db, c) implies #[trigger] content_map(loaded)[c]
        == content_map(db)[c] by {
        let i = choose|i: int| 0 <= i < loaded.len() && loaded[i].0 == c;
        let b = choose|b: int| 0 <= b < db.len() && db[b].0 == c;
        let a = choose|a: int| 0 <= a < db.len() && db[a] == loaded[i];
        if a != b {
            if a < b {
                assert(db[a].0 != db[b].0);
            } else {
                assert(db[b].0 != db[a].0);
            }
        }
    }
    assert(content_map(loaded) =~= content_map(db));
}

} // verus!
