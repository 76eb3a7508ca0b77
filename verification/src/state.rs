//! The persistent entities, watermarks and records, and a ledger that holds
//! them in memory under the store's two uniqueness rules.

use vstd::prelude::*;
use crate::text::same_text;

verus! {

/// The watermark of one file: its fingerprint at the last ingest and where
/// that pass ended.
#[derive(Debug)]
pub struct FileState {
    pub path: String,
    pub mtime: i64,
    pub size: i64,
    pub hash: String,
    pub lines_read: i64,
    pub bytes_read: i64,
    pub last_line: Option<String>,
    pub last_line_hash: Option<String>,
    pub last_line_index: Option<i64>,
    pub updated_at: i64,
}

/// A domain record: one row of one file.
#[derive(Debug)]
pub struct Record {
    pub sn: String,
    pub datetime: String,
    pub result: String,
    pub source_path: String,
    pub row_index: i64,
    pub line_hash: String,
}

/// What became of a record handed to the store.
#[derive(Debug, Clone, Copy, PartialEq, Eq, Structural)]
pub enum InsertOutcome {
    /// The record is new and was stored.
    Inserted,
    /// A stored record holds the same slot or the same event; nothing changed.
    DuplicateIgnored,
}

pub struct FileStateView {
    pub path: Seq<char>,
    pub mtime: int,
    pub size: int,
    pub hash: Seq<char>,
    pub lines_read: int,
    pub bytes_read: int,
    pub last_line: Option<Seq<char>>,
    pub last_line_hash: Option<Seq<char>>,
    pub last_line_index: Option<int>,
    pub updated_at: int,
}

pub struct RecordView {
    pub sn: Seq<char>,
    pub datetime: Seq<char>,
    pub result: Seq<char>,
    pub source_path: Seq<char>,
    pub row_index: int,
    pub line_hash: Seq<char>,
}

impl View for FileState {
    type V = FileStateView;

    open spec fn view(&self) -> FileStateView {
        FileStateView {
            path: self.path@,
            mtime: self.mtime as int,
            size: self.size as int,
            hash: self.hash@,
            lines_read: self.lines_read as int,
            bytes_read: self.bytes_read as int,
            last_line: self.last_line.deep_view(),
            last_line_hash: self.last_line_hash.deep_view(),
            last_line_index: match self.last_line_index {
                Some(i) => Some(i as int),
                None => None,
            },
            updated_at: self.updated_at as int,
        }
    }
}

impl View for Record {
    type V = RecordView;

    open spec fn view(&self) -> RecordView {
        RecordView {
            sn: self.sn@,
            datetime: self.datetime@,
            result: self.result@,
            source_path: self.source_path@,
            row_index: self.row_index as int,
            line_hash: self.line_hash@,
        }
    }
}

/// A copy of an optional text.
pub fn copy_text(text: &Option<String>) -> (r: Option<String>)
    ensures
        r.deep_view() == text.deep_view(),
{
    match text {
        Some(t) => Some(t.clone()),
        None => None,
    }
}

impl Clone for FileState {
    fn clone(&self) -> (r: Self)
        ensures
            r@ == self@,
    {
        FileState {
            path: self.path.clone(),
            mtime: self.mtime,
            size: self.size,
            hash: self.hash.clone(),
            lines_read: self.lines_read,
            bytes_read: self.bytes_read,
            last_line: copy_text(&self.last_line),
            last_line_hash: copy_text(&self.last_line_hash),
            last_line_index: self.last_line_index,
            updated_at: self.updated_at,
        }
    }
}

impl Clone for Record {
    fn clone(&self) -> (r: Self)
        ensures
            r@ == self@,
    {
        Record {
            sn: self.sn.clone(),
            datetime: self.datetime.clone(),
            result: self.result.clone(),
            source_path: self.source_path.clone(),
            row_index: self.row_index,
            line_hash: self.line_hash.clone(),
        }
    }
}

/// Whether two records fill the same slot: the same row of the same file.
pub open spec fn same_slot(a: RecordView, b: RecordView) -> bool {
    a.source_path == b.source_path && a.row_index == b.row_index
}

/// Whether two records tell the same event of the same file, wherever it
/// stood.
pub open spec fn same_event(a: RecordView, b: RecordView) -> bool {
    a.sn == b.sn && a.datetime == b.datetime && a.result == b.result && a.source_path
        == b.source_path
}

/// Whether the store takes two records for one: they share a slot or an
/// event.
pub open spec fn clashes(a: RecordView, b: RecordView) -> bool {
    same_slot(a, b) || same_event(a, b)
}

/// Whether some record among `records` clashes with `r`.
pub open spec fn holds_clash(records: Seq<RecordView>, r: RecordView) -> bool {
    exists|i: int| 0 <= i < records.len() && clashes(#[trigger] records[i], r)
}

/// Whether no two records among `records` clash.
pub open spec fn all_distinct(records: Seq<RecordView>) -> bool {
    forall|i: int, j: int|
        0 <= i < j < records.len() ==> !clashes(#[trigger] records[i], #[trigger] records[j])
}

/// The records held after `r` has been handed to a store that holds `held`:
/// it is stored behind them unless it clashes with one of them.
pub open spec fn store_one(held: Seq<RecordView>, r: RecordView) -> Seq<RecordView> {
    if holds_clash(held, r) {
        held
    } else {
        held.push(r)
    }
}

/// The records held after `new` have been handed to a store that holds
/// `held`, one after the other.
pub open spec fn store_all(held: Seq<RecordView>, new: Seq<RecordView>) -> Seq<RecordView>
    decreases new.len(),
{
    if new.len() == 0 {
        held
    } else {
        store_one(store_all(held, new.drop_last()), new.last())
    }
}

/// Number of records among `records` in the slot of `r`.
pub open spec fn count_slot(records: Seq<RecordView>, r: RecordView) -> nat
    decreases records.len(),
{
    if records.len() == 0 {
        0
    } else {
        count_slot(records.drop_last(), r) + if same_slot(records.last(), r) {
            1nat
        } else {
            0nat
        }
    }
}

/// Number of records among `records` that tell the event of `r`.
pub open spec fn count_event(records: Seq<RecordView>, r: RecordView) -> nat
    decreases records.len(),
{
    if records.len() == 0 {
        0
    } else {
        count_event(records.drop_last(), r) + if same_event(records.last(), r) {
            1nat
        } else {
            0nat
        }
    }
}

/// The watermark among `states` kept for `path`: the first with that path.
pub open spec fn watermark_of(states: Seq<FileStateView>, path: Seq<char>) -> Option<FileStateView>
    decreases states.len(),
{
    if states.len() == 0 {
        None
    } else if states.first().path == path {
        Some(states.first())
    } else {
        watermark_of(states.drop_first(), path)
    }
}

/// Whether no two watermarks among `states` are kept for one path.
pub open spec fn paths_distinct(states: Seq<FileStateView>) -> bool {
    forall|i: int, j: int|
        0 <= i < j < states.len() ==> (#[trigger] states[i]).path != (#[trigger] states[j]).path
}

/// Watermarks and records held in memory, under the rules of the store: one
/// watermark for a path, and no two records that share a slot or an event.
pub struct Ledger {
    states: Vec<FileState>,
    records: Vec<Record>,
}

impl Ledger {
    /// Whether the ledger keeps its rules: one watermark for a path, and no
    /// two records that clash.
    pub closed spec fn wf(&self) -> bool {
        &&& paths_distinct(self.states())
        &&& all_distinct(self.records())
    }

    /// The watermarks held.
    pub closed spec fn states(&self) -> Seq<FileStateView> {
        Seq::new(self.states@.len(), |i: int| self.states@[i]@)
    }

    /// The records held, in the order in which they were stored.
    pub closed spec fn records(&self) -> Seq<RecordView> {
        Seq::new(self.records@.len(), |i: int| self.records@[i]@)
    }

    /// The watermark held for `path`.
    pub open spec fn watermark(&self, path: Seq<char>) -> Option<FileStateView> {
        watermark_of(self.states(), path)
    }

    /// An empty ledger.
    pub fn new() -> (ledger: Self)
        ensures
            ledger.wf(),
            ledger.states() == Seq::<FileStateView>::empty(),
            ledger.records() == Seq::<RecordView>::empty(),
    {
        let ledger = Ledger { states: Vec::new(), records: Vec::new() };
        assert(ledger.states() =~= Seq::<FileStateView>::empty());
        assert(ledger.records() =~= Seq::<RecordView>::empty());
        ledger
    }

    /// Number of records held.
    pub fn record_count(&self) -> (n: usize)
        ensures
            n == self.records().len(),
    {
        self.records.len()
    }

    /// A copy of the record stored as the `i`-th.
    pub fn record(&self, i: usize) -> (r: Record)
        requires
            i < self.records().len(),
        ensures
            r@ == self.records()[i as int],
    {
        self.records[i].clone()
    }

    /// Position of the watermark for `path` among those held.
    fn find_state(&self, path: &str) -> (r: Option<usize>)
        ensures
            match r {
                Some(i) => i < self.states().len() && self.states()[i as int].path == path@
                    && self.watermark(path@) == Some(self.states()[i as int]),
                None => self.watermark(path@) is None && forall|j: int|
                    0 <= j < self.states().len() ==> (#[trigger] self.states()[j]).path != path@,
            },
    {
        let ghost all = self.states();
        let mut i: usize = 0;
        assert(all.skip(0) == all);
        while i < self.states.len()
            invariant
                i <= self.states@.len(),
                all == self.states(),
                watermark_of(all, path@) == watermark_of(all.skip(i as int), path@),
                forall|j: int| 0 <= j < i ==> (#[trigger] all[j]).path != path@,
            decreases self.states@.len() - i,
        {
            assert(all.skip(i as int).first() == all[i as int]);
            assert(all.skip(i as int).drop_first() == all.skip(i + 1));
            if same_text(self.states[i].path.as_str(), path) {
                return Some(i);
            }
            i += 1;
        }
        assert(all.skip(i as int).len() == 0);
        None
    }

    /// The watermark kept for `path`, if one is.
    pub fn load_file_state(&self, path: &str) -> (r: Option<FileState>)
        ensures
            match r {
                Some(s) => self.watermark(path@) == Some(s@),
                None => self.watermark(path@) is None,
            },
    {
        match self.find_state(path) {
            Some(i) => Some(self.states[i].clone()),
            None => None,
        }
    }
}

/// What `watermark_of` finds is among the watermarks and has the path asked
/// for; where it finds nothing, no watermark has that path.
pub proof fn lemma_watermark_found(states: Seq<FileStateView>, path: Seq<char>)
    ensures
        match watermark_of(states, path) {
            Some(w) => w.path == path && exists|j: int|
                0 <= j < states.len() && #[trigger] states[j] == w,
            None => forall|j: int| 0 <= j < states.len() ==> (#[trigger] states[j]).path != path,
        },
    decreases states.len(),
{
    if states.len() > 0 {
        if states.first().path == path {
            assert(states[0] == states.first());
        } else {
            let rest = states.drop_first();
            lemma_watermark_found(rest, path);
            match watermark_of(rest, path) {
                Some(w) => {
                    let j = choose|j: int| 0 <= j < rest.len() && #[trigger] rest[j] == w;
                    assert(states[j + 1] == w);
                },
                None => {
                    assert forall|j: int| 0 <= j < states.len() implies (#[trigger] states[j]).path
                        != path by {
                        if j > 0 {
                            assert(rest[j - 1] == states[j]);
                        }
                    }
                },
            }
        }
    }
}

/// Among watermarks with distinct paths, each is the one found for its path.
pub proof fn lemma_watermark_at(states: Seq<FileStateView>, i: int)
    requires
        paths_distinct(states),
        0 <= i < states.len(),
    ensures
        watermark_of(states, states[i].path) == Some(states[i]),
{
    lemma_watermark_found(states, states[i].path);
    match watermark_of(states, states[i].path) {
        Some(w) => {
            let j = choose|j: int| 0 <= j < states.len() && #[trigger] states[j] == w;
            if j != i {
                assert(states[j].path == states[i].path);
                assert(false);
            }
        },
        None => {
            assert(states[i].path != states[i].path);
        },
    }
}

impl Ledger {
    /// Stores `s` as the watermark of its path, in place of the one kept for
    /// that path if there is one. Other watermarks and the records stay.
    pub fn upsert_file_state(&mut self, s: &FileState)
        requires
            old(self).wf(),
        ensures
            final(self).wf(),
            final(self).records() == old(self).records(),
            final(self).watermark(s@.path) == Some(s@),
            forall|p: Seq<char>|
                p != s@.path ==> #[trigger] final(self).watermark(p) == old(self).watermark(p),
    {
        let ghost before = self.states();
        let found = self.find_state(s.path.as_str());
        let ghost at: int = match found {
            Some(i) => i as int,
            None => before.len() as int,
        };
        match found {
            Some(i) => {
                self.states.set(i, s.clone());
            },
            None => {
                self.states.push(s.clone());
            },
        }
        proof {
            let after = self.states();
            assert(after.len() == if found is Some { before.len() } else { before.len() + 1 });
            assert(after[at] == s@);
            assert forall|j: int| 0 <= j < after.len() && j != at implies #[trigger] after[j]
                == before[j] by {}
            assert(paths_distinct(after)) by {
                assert forall|i: int, j: int| 0 <= i < j < after.len() implies (
                #[trigger] after[i]).path != (#[trigger] after[j]).path by {
                    if i != at && j != at {
                        assert(before[i].path != before[j].path);
                    } else if i == at {
                        assert(before[j].path != s@.path);
                    } else {
                        assert(before[i].path != s@.path);
                    }
                }
            }
            lemma_watermark_at(after, at);
            assert forall|p: Seq<char>| p != s@.path implies #[trigger] watermark_of(after, p)
                == watermark_of(before, p) by {
                lemma_watermark_found(before, p);
                match watermark_of(before, p) {
                    Some(w) => {
                        let j = choose|j: int| 0 <= j < before.len() && #[trigger] before[j] == w;
                        assert(j != at);
                        assert(after[j] == before[j]);
                        lemma_watermark_at(after, j);
                    },
                    None => {
                        lemma_watermark_found(after, p);
                        if watermark_of(after, p) is Some {
                            let w = watermark_of(after, p)->0;
                            let j = choose|j: int| 0 <= j < after.len() && #[trigger] after[j] == w;
                            if j != at {
                                assert(before[j].path != p);
                            }
                            assert(false);
                        }
                    },
                }
            }
            assert(self.records() =~= old(self).records());
        }
    }

    /// Whether a record held clashes with `r`.
    fn has_clash(&self, r: &Record) -> (b: bool)
        ensures
            b == holds_clash(self.records(), r@),
    {
        let ghost all = self.records();
        let mut i: usize = 0;
        while i < self.records.len()
            invariant
                i <= self.records@.len(),
                all == self.records(),
                forall|j: int| 0 <= j < i ==> !clashes(#[trigger] all[j], r@),
            decreases self.records@.len() - i,
        {
            let have = &self.records[i];
            assert(have@ == all[i as int]);
            let same_path = same_text(have.source_path.as_str(), r.source_path.as_str());
            let slot = same_path && have.row_index == r.row_index;
            let event = same_path && same_text(have.sn.as_str(), r.sn.as_str()) && same_text(
                have.datetime.as_str(),
                r.datetime.as_str(),
            ) && same_text(have.result.as_str(), r.result.as_str());
            if slot || event {
                return true;
            }
            i += 1;
        }
        false
    }

    /// Stores `r` unless a record held fills the same slot or tells the same
    /// event: then nothing changes.
    pub fn insert_record(&mut self, r: &Record) -> (out: InsertOutcome)
        requires
            old(self).wf(),
        ensures
            final(self).wf(),
            final(self).states() == old(self).states(),
            final(self).records() == store_one(old(self).records(), r@),
            out == if holds_clash(old(self).records(), r@) {
                InsertOutcome::DuplicateIgnored
            } else {
                InsertOutcome::Inserted
            },
    {
        if self.has_clash(r) {
            return InsertOutcome::DuplicateIgnored;
        }
        let ghost before = self.records();
        self.records.push(r.clone());
        proof {
            let after = self.records();
            assert(after =~= before.push(r@));
            assert forall|i: int, j: int| 0 <= i < j < after.len() implies !clashes(
                #[trigger] after[i],
                #[trigger] after[j],
            ) by {
                if j < before.len() {
                    assert(!clashes(before[i], before[j]));
                } else {
                    assert(!clashes(before[i], r@));
                }
            }
            assert(self.states() =~= old(self).states());
        }
        InsertOutcome::Inserted
    }
}

} // verus!
