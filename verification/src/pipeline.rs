//! The indexing run: which files are taken, what is recorded of them, and
//! how they are gathered into the batches that are embedded and uploaded.

use crate::calendar::{epoch_seconds, CivilDateTime};
use crate::exif::{exif_summary, extract_exif, map_view, ExifMap, ExifRead, MetaView};
use crate::filename_time::{extract_timestamp_from_filename, filename_time};
use crate::path_meta::{PathFields, PathMetdata};
use crate::remote_index::{CallError, RemoteIndexSnapshot};
use crate::text::{lowercase, to_lowercase};
use vstd::hash_set::StringHashSet;
use vstd::prelude::*;

verus! {

/// What is uploaded of a file beside its vector.
#[derive(Debug, PartialEq, Eq)]
pub struct IndexedMetadataRecord {
    /// The path of the file from the indexed directory on.
    pub path: String,
    pub exif: Option<ExifMap>,
    /// When the picture was taken, in seconds since 1970-01-01T00:00:00 UTC.
    pub timestamp: Option<i64>,
}

/// A file that waits for its batch: its path as it is opened, and its record.
#[derive(Debug, PartialEq, Eq)]
pub struct BatchItem {
    pub path: String,
    pub record: IndexedMetadataRecord,
}

/// Whether a file is taken into the index, and why not.
#[derive(Clone, Copy, Debug, PartialEq, Eq, Structural)]
pub enum Eligibility {
    Eligible,
    /// The path has no file name.
    NoName,
    /// The file name has no extension.
    NoExtension,
    /// The file does not lie below the indexed directory.
    Outside,
    /// The snapshot of the index holds the file.
    AlreadyIndexed,
    /// The extension is not among those that are indexed.
    ExtensionNotAllowed,
}

/// What a run has done so far. The counts stop at the largest number.
#[derive(Clone, Copy, Debug, PartialEq, Eq, Structural)]
pub struct RunSummary {
    /// Files that were offered.
    pub files_visited: u64,
    /// Files that were put into a batch.
    pub files_indexed: u64,
    /// Batches that were handed out.
    pub batches_attempted: u64,
    /// Batches that were reported as failed.
    pub batches_failed: u64,
}

/// What came of offering a file.
#[derive(Debug, PartialEq, Eq)]
pub enum Admission {
    /// The file is not taken.
    Skipped(Eligibility),
    /// The file waits in the batch.
    Added,
    /// The file completed this batch, which is to be processed now.
    Flush(Vec<BatchItem>),
}

/// What the embedding of a batch gave.
#[derive(Clone, Debug, PartialEq, Eq)]
pub enum EmbeddingOutcome {
    /// The computation failed as a whole.
    Failed,
    /// For each file of the batch, in order, whether a vector was computed.
    Computed(Vec<bool>),
}

/// An indexing run between two files.
pub struct IndexingPipeline {
    extensions: StringHashSet,
    snapshot: RemoteIndexSnapshot,
    batch_size: usize,
    pending: Vec<BatchItem>,
    summary: RunSummary,
}

/// What an `IndexedMetadataRecord` stands for.
pub ghost struct RecordView {
    pub path: Seq<char>,
    pub exif: Option<Seq<(Seq<char>, MetaView)>>,
    pub timestamp: Option<int>,
}

/// What an `IndexingPipeline` stands for.
pub ghost struct PipelineView {
    /// The extensions that are indexed, in lower case.
    pub extensions: Set<Seq<char>>,
    pub snapshot: Set<Seq<char>>,
    pub batch_size: nat,
    /// The files that wait for their batch, oldest first.
    pub pending: Seq<(Seq<char>, RecordView)>,
    pub summary: RunSummary,
}

impl View for IndexedMetadataRecord {
    type V = RecordView;

    open spec fn view(&self) -> RecordView {
        RecordView {
            path: self.path@,
            exif: map_view(self.exif),
            timestamp: match self.timestamp {
                Some(t) => Some(t as int),
                None => None,
            },
        }
    }
}

impl View for BatchItem {
    type V = (Seq<char>, RecordView);

    open spec fn view(&self) -> (Seq<char>, RecordView) {
        (self.path@, self.record@)
    }
}

/// What a batch stands for.
pub open spec fn batch_view(items: Seq<BatchItem>) -> Seq<(Seq<char>, RecordView)> {
    Seq::new(items.len(), |i: int| items[i]@)
}

/// What a list of records stands for.
pub open spec fn records_view(records: Seq<IndexedMetadataRecord>) -> Seq<RecordView> {
    Seq::new(records.len(), |i: int| records[i]@)
}

/// The extensions that are indexed: those given, in lower case.
pub open spec fn extension_set(given: Seq<String>) -> Set<Seq<char>>
    decreases given.len(),
{
    if given.len() == 0 {
        Set::empty()
    } else {
        extension_set(given.drop_last()).insert(lowercase(given.last()@))
    }
}

/// Whether a file is taken, and the first reason why not: no name, no
/// extension, not below the indexed directory, held by the snapshot, an
/// extension that is not indexed.
pub open spec fn eligibility(
    extensions: Set<Seq<char>>,
    snapshot: Set<Seq<char>>,
    meta: PathFields,
) -> Eligibility {
    if meta.name is None {
        Eligibility::NoName
    } else if meta.extension is None {
        Eligibility::NoExtension
    } else if meta.rel_path.len() == 0 {
        Eligibility::Outside
    } else if snapshot.contains(meta.rel_path) {
        Eligibility::AlreadyIndexed
    } else if !extensions.contains(meta.extension->0) {
        Eligibility::ExtensionNotAllowed
    } else {
        Eligibility::Eligible
    }
}

/// The record of a file: its relative path, the mapping of its EXIF entries,
/// and its capture time, taken from the EXIF entries and, where they give
/// none, from the file name; read as UTC.
pub open spec fn record_of(meta: PathFields, read: ExifRead) -> RecordView {
    let summary = exif_summary(read);
    let time = match summary.1 {
        Some(t) => Some(t),
        None => match meta.name {
            Some(name) => filename_time(name),
            None => None,
        },
    };
    RecordView {
        path: meta.rel_path,
        exif: summary.0,
        timestamp: match time {
            Some(t) => Some(epoch_seconds(t)),
            None => None,
        },
    }
}

/// The number of files at which a batch is complete: the batch size, but at
/// least one.
pub open spec fn batch_limit(batch_size: nat) -> nat {
    if batch_size == 0 {
        1
    } else {
        batch_size
    }
}

/// One more, up to the largest number.
pub open spec fn counted(n: u64) -> u64 {
    if n == u64::MAX {
        n
    } else {
        (n + 1) as u64
    }
}

/// No file of the batch is held by the snapshot.
pub open spec fn all_new(snapshot: Set<Seq<char>>, batch: Seq<(Seq<char>, RecordView)>) -> bool {
    forall|i: int| 0 <= i < batch.len() ==> !snapshot.contains((#[trigger] batch[i]).1.path)
}

/// The records of the files of a batch for which a vector was computed, in
/// the order of the batch.
pub open spec fn survivors(batch: Seq<(Seq<char>, RecordView)>, computed: Seq<bool>) -> Seq<
    RecordView,
>
    decreases batch.len(),
{
    if batch.len() == 0 || computed.len() == 0 {
        Seq::empty()
    } else {
        let before = survivors(batch.drop_last(), computed.drop_last());
        if computed.last() {
            before.push(batch.last().1)
        } else {
            before
        }
    }
}

/// What is uploaded for a batch: the records of the files with a vector.
/// Nothing is uploaded where the computation failed as a whole, where it
/// does not answer for every file of the batch, or where no file has a
/// vector.
pub open spec fn upload_of(batch: Seq<(Seq<char>, RecordView)>, outcome: EmbeddingOutcome)
    -> Option<Seq<RecordView>> {
    match outcome {
        EmbeddingOutcome::Failed => None,
        EmbeddingOutcome::Computed(computed) => if computed@.len() != batch.len() || survivors(
            batch,
            computed@,
        ).len() == 0 {
            None
        } else {
            Some(survivors(batch, computed@))
        },
    }
}

/// The run after a file was offered to it, and the batch that the file
/// completed, if it completed one. The file is counted as visited. A file that
/// is not eligible changes nothing else. An eligible file is counted as
/// indexed and its record joins the files that wait; where they are a full
/// batch then, they are handed out, counted as one batch attempted, and no
/// file waits.
pub open spec fn offered(pre: PipelineView, meta: PathFields, read: ExifRead) -> (
    PipelineView,
    Option<Seq<(Seq<char>, RecordView)>>,
) {
    let visited = RunSummary {
        files_visited: counted(pre.summary.files_visited),
        ..pre.summary
    };
    if eligibility(pre.extensions, pre.snapshot, meta) != Eligibility::Eligible {
        (PipelineView { summary: visited, ..pre }, None)
    } else {
        let waiting = pre.pending.push((meta.path, record_of(meta, read)));
        let indexed = RunSummary { files_indexed: counted(visited.files_indexed), ..visited };
        if waiting.len() >= pre.batch_size {
            (
                PipelineView {
                    pending: Seq::empty(),
                    summary: RunSummary {
                        batches_attempted: counted(indexed.batches_attempted),
                        ..indexed
                    },
                    ..pre
                },
                Some(waiting),
            )
        } else {
            (PipelineView { pending: waiting, summary: indexed, ..pre }, None)
        }
    }
}

/// The run after the files were offered to it in order, and the batches that
/// were handed out on the way.
pub open spec fn walked(pre: PipelineView, files: Seq<(PathFields, ExifRead)>) -> (
    PipelineView,
    Seq<Seq<(Seq<char>, RecordView)>>,
)
    decreases files.len(),
{
    if files.len() == 0 {
        (pre, Seq::empty())
    } else {
        let before = walked(pre, files.drop_last());
        let step = offered(before.0, files.last().0, files.last().1);
        (
            step.0,
            match step.1 {
                Some(batch) => before.1.push(batch),
                None => before.1,
            },
        )
    }
}

/// The eligible files among those offered, each with its record, in order.
pub open spec fn taken(
    extensions: Set<Seq<char>>,
    snapshot: Set<Seq<char>>,
    files: Seq<(PathFields, ExifRead)>,
) -> Seq<(Seq<char>, RecordView)>
    decreases files.len(),
{
    if files.len() == 0 {
        Seq::empty()
    } else {
        let before = taken(extensions, snapshot, files.drop_last());
        let file = files.last();
        if eligibility(extensions, snapshot, file.0) == Eligibility::Eligible {
            before.push((file.0.path, record_of(file.0, file.1)))
        } else {
            before
        }
    }
}

/// The files of the batches, one batch behind the other.
pub open spec fn concatenated(batches: Seq<Seq<(Seq<char>, RecordView)>>) -> Seq<
    (Seq<char>, RecordView),
>
    decreases batches.len(),
{
    if batches.len() == 0 {
        Seq::empty()
    } else {
        concatenated(batches.drop_last()) + batches.last()
    }
}

/// Builds the record of a file from its path and from what was read of its
/// EXIF data.
pub fn build_record(meta: &PathMetdata, read: &ExifRead) -> (record: IndexedMetadataRecord)
    ensures
        record@ == record_of(meta@, *read),
{
    let (exif, exif_time) = extract_exif(read);
    let time: Option<CivilDateTime> = match exif_time {
        Some(t) => Some(t),
        None => match &meta.name {
            Some(name) => extract_timestamp_from_filename(name),
            None => None,
        },
    };
    let timestamp: Option<i64> = match time {
        Some(t) => Some(t.epoch_seconds()),
        None => None,
    };
    IndexedMetadataRecord { path: meta.rel_path.clone(), exif, timestamp }
}

/// Picks the records that are uploaded for a batch, once its vectors are
/// computed. They are to be paired with the vectors in this order.
pub fn process_batch(items: Vec<BatchItem>, outcome: &EmbeddingOutcome) -> (upload: Option<
    Vec<IndexedMetadataRecord>,
>)
    ensures
        match upload {
            Some(records) => upload_of(batch_view(items@), *outcome) == Some(
                records_view(records@),
            ),
            None => upload_of(batch_view(items@), *outcome) is None,
        },
{
    match outcome {
        EmbeddingOutcome::Failed => None,
        EmbeddingOutcome::Computed(computed) => {
            if computed.len() != items.len() {
                return None;
            }
            let ghost batch = batch_view(items@);
            let mut records: Vec<IndexedMetadataRecord> = Vec::new();
            let mut k: usize = 0;
            assert(batch.take(0) =~= Seq::empty());
            assert(records_view(records@) =~= Seq::empty());
            for item in it: items
                invariant
                    k == it.index(),
                    it.seq().len() == computed.len(),
                    batch == batch_view(it.seq()),
                    records_view(records@) == survivors(
                        batch.take(k as int),
                        computed@.take(k as int),
                    ),
            {
                assert(batch.take(k + 1).drop_last() =~= batch.take(k as int));
                assert(computed@.take(k + 1).drop_last() =~= computed@.take(k as int));
                assert(batch.take(k + 1).last() == item@);
                let ghost before = records_view(records@);
                if computed[k] {
                    records.push(item.record);
                    assert(records_view(records@) =~= before.push(item@.1));
                }
                k += 1;
            }
            assert(batch.take(k as int) =~= batch);
            assert(computed@.take(k as int) =~= computed@);
            if records.len() == 0 {
                None
            } else {
                Some(records)
            }
        },
    }
}

impl View for IndexingPipeline {
    type V = PipelineView;

    closed spec fn view(&self) -> PipelineView {
        PipelineView {
            extensions: self.extensions@,
            snapshot: self.snapshot@,
            batch_size: self.batch_size as nat,
            pending: batch_view(self.pending@),
            summary: self.summary,
        }
    }
}

impl PipelineView {
    /// The files that wait are fewer than a batch, and none of them is held
    /// by the snapshot.
    pub open spec fn valid(self) -> bool {
        &&& self.pending.len() < batch_limit(self.batch_size)
        &&& all_new(self.snapshot, self.pending)
    }
}

impl IndexingPipeline {
    #[verifier::type_invariant]
    spec fn well_formed(self) -> bool {
        self@.valid()
    }

    /// A run that indexes the files with one of the given extensions, in
    /// whatever case, that `snapshot` does not hold, in batches of
    /// `batch_size` files. No file waits, and every count is 0.
    pub fn new(file_extensions: &Vec<String>, snapshot: RemoteIndexSnapshot, batch_size: usize) -> (run:
        IndexingPipeline)
        ensures
            run@ == (PipelineView {
                extensions: extension_set(file_extensions@),
                snapshot: snapshot@,
                batch_size: batch_size as nat,
                pending: Seq::empty(),
                summary: RunSummary {
                    files_visited: 0,
                    files_indexed: 0,
                    batches_attempted: 0,
                    batches_failed: 0,
                },
            }),
    {
        let mut extensions: StringHashSet = StringHashSet::new();
        let mut i: usize = 0;
        assert(file_extensions@.take(0) =~= Seq::<String>::empty());
        while i < file_extensions.len()
            invariant
                i <= file_extensions.len(),
                extensions@ == extension_set(file_extensions@.take(i as int)),
            decreases file_extensions.len() - i,
        {
            assert(file_extensions@.take(i + 1).drop_last() =~= file_extensions@.take(i as int));
            assert(file_extensions@.take(i + 1).last() == file_extensions@[i as int]);
            extensions.insert(to_lowercase(file_extensions[i].as_str()));
            i += 1;
        }
        assert(file_extensions@.take(i as int) =~= file_extensions@);
        let pending: Vec<BatchItem> = Vec::new();
        assert(batch_view(pending@) =~= Seq::empty());
        IndexingPipeline {
            extensions,
            snapshot,
            batch_size,
            pending,
            summary: RunSummary {
                files_visited: 0,
                files_indexed: 0,
                batches_attempted: 0,
                batches_failed: 0,
            },
        }
    }

    /// Whether the file with this path would be taken.
    pub fn screen(&self, meta: &PathMetdata) -> (verdict: Eligibility)
        ensures
            verdict == eligibility(self@.extensions, self@.snapshot, meta@),
            self@.valid(),
    {
        proof {
            use_type_invariant(self);
        }
        if meta.name.is_none() {
            return Eligibility::NoName;
        }
        match &meta.extension {
            None => Eligibility::NoExtension,
            Some(extension) => {
                if meta.rel_path.as_str().is_empty() {
                    Eligibility::Outside
                } else if self.snapshot.contains(meta.rel_path.as_str()) {
                    Eligibility::AlreadyIndexed
                } else if !self.extensions.contains(extension.as_str()) {
                    Eligibility::ExtensionNotAllowed
                } else {
                    Eligibility::Eligible
                }
            },
        }
    }

    /// Offers a file to the run, with what was read of its EXIF data. The
    /// file is counted as visited. A file that is not eligible is skipped:
    /// nothing else changes. An eligible file is counted as indexed and its
    /// record joins the files that wait; where that completes a batch, the
    /// batch is handed out and counted as attempted, and no file waits.
    pub fn offer(&mut self, meta: &PathMetdata, read: &ExifRead) -> (outcome: Admission)
        ensures
            old(self)@.valid(),
            final(self)@.valid(),
            final(self)@ == offered(old(self)@, meta@, *read).0,
            match outcome {
                Admission::Skipped(verdict) => {
                    &&& verdict != Eligibility::Eligible
                    &&& verdict == eligibility(old(self)@.extensions, old(self)@.snapshot, meta@)
                },
                Admission::Added => {
                    &&& eligibility(old(self)@.extensions, old(self)@.snapshot, meta@)
                        == Eligibility::Eligible
                    &&& offered(old(self)@, meta@, *read).1 is None
                },
                Admission::Flush(batch) => {
                    &&& offered(old(self)@, meta@, *read).1 == Some(batch_view(batch@))
                    &&& batch@.len() == batch_limit(old(self)@.batch_size)
                    &&& all_new(old(self)@.snapshot, batch_view(batch@))
                },
            },
    {
        proof {
            use_type_invariant(&*self);
        }
        let verdict: Eligibility = self.screen(meta);
        let visited: u64 = self.summary.files_visited.saturating_add(1);
        if verdict != Eligibility::Eligible {
            self.summary.files_visited = visited;
            return Admission::Skipped(verdict);
        }
        let item = BatchItem { path: meta.path.clone(), record: build_record(meta, read) };
        let indexed: u64 = self.summary.files_indexed.saturating_add(1);
        let ghost waiting = batch_view(self.pending@);
        let ghost added = waiting.push(item@);
        assert(all_new(self@.snapshot, added)) by {
            assert forall|i: int| 0 <= i < added.len() implies !self@.snapshot.contains(
                (#[trigger] added[i]).1.path,
            ) by {
                if i < waiting.len() {
                    assert(added[i] == waiting[i]);
                }
            }
        }
        let mut batch: Vec<BatchItem> = Vec::new();
        assert(batch_view(batch@) =~= Seq::empty());
        std::mem::swap(&mut batch, &mut self.pending);
        batch.push(item);
        assert(batch_view(batch@) =~= added);
        assert(batch_view(self.pending@) =~= Seq::empty());
        self.summary.files_visited = visited;
        self.summary.files_indexed = indexed;
        if batch.len() >= self.batch_size {
            let attempted: u64 = self.summary.batches_attempted.saturating_add(1);
            self.summary.batches_attempted = attempted;
            Admission::Flush(batch)
        } else {
            self.pending = batch;
            Admission::Added
        }
    }

    /// Ends the walk: the files that still wait, if there are any, are handed
    /// out as the last batch, which is counted as attempted.
    pub fn finish(&mut self) -> (last: Option<Vec<BatchItem>>)
        ensures
            old(self)@.valid(),
            final(self)@ == (PipelineView {
                pending: Seq::empty(),
                summary: RunSummary {
                    batches_attempted: if old(self)@.pending.len() > 0 {
                        counted(old(self)@.summary.batches_attempted)
                    } else {
                        old(self)@.summary.batches_attempted
                    },
                    ..old(self)@.summary
                },
                ..old(self)@
            }),
            match last {
                Some(batch) => old(self)@.pending.len() > 0 && batch_view(batch@)
                    == old(self)@.pending && all_new(old(self)@.snapshot, batch_view(batch@)),
                None => old(self)@.pending.len() == 0,
            },
    {
        proof {
            use_type_invariant(&*self);
        }
        if self.pending.len() == 0 {
            assert(batch_view(self.pending@) =~= Seq::empty());
            return None;
        }
        let mut batch: Vec<BatchItem> = Vec::new();
        let attempted: u64 = self.summary.batches_attempted.saturating_add(1);
        assert(batch_view(batch@) =~= Seq::empty());
        std::mem::swap(&mut batch, &mut self.pending);
        assert(batch_view(self.pending@) =~= Seq::empty());
        self.summary.batches_attempted = attempted;
        Some(batch)
    }

    /// Settles a batch that was handed out, by what came of its upload:
    /// `None` where nothing was uploaded because `process_batch` gave
    /// nothing. The batch has failed unless its upload succeeded; a failed
    /// batch is counted, and the run goes on either way.
    pub fn settle_batch(&mut self, upload: &Option<Result<(), CallError>>) -> (failed: bool)
        ensures
            failed == !(upload matches Some(Ok(_))),
            final(self)@ == (PipelineView {
                summary: RunSummary {
                    batches_failed: if failed {
                        counted(old(self)@.summary.batches_failed)
                    } else {
                        old(self)@.summary.batches_failed
                    },
                    ..old(self)@.summary
                },
                ..old(self)@
            }),
    {
        proof {
            use_type_invariant(&*self);
        }
        let failed: bool = match upload {
            Some(Ok(_)) => false,
            _ => true,
        };
        if failed {
            let count: u64 = self.summary.batches_failed.saturating_add(1);
            self.summary.batches_failed = count;
        }
        failed
    }

    /// The counts of the run so far.
    pub fn summary(&self) -> (summary: RunSummary)
        ensures
            summary == self@.summary,
    {
        self.summary
    }

    /// The number of files that wait for their batch.
    pub fn pending_len(&self) -> (count: usize)
        ensures
            count == self@.pending.len(),
            self@.valid(),
    {
        proof {
            use_type_invariant(self);
        }
        self.pending.len()
    }
}

/// A file that the snapshot holds is not eligible, whatever else is true of
/// it.
pub proof fn law_indexed_files_are_skipped(
    extensions: Set<Seq<char>>,
    snapshot: Set<Seq<char>>,
    meta: PathFields,
)
    requires
        snapshot.contains(meta.rel_path),
    ensures
        eligibility(extensions, snapshot, meta) != Eligibility::Eligible,
{
}

/// Offering a file keeps the run valid; a batch that is handed out is full
/// and holds no file of the snapshot.
pub proof fn lemma_offered(pre: PipelineView, meta: PathFields, read: ExifRead)
    requires
        pre.valid(),
    ensures
        offered(pre, meta, read).0.valid(),
        offered(pre, meta, read).0.extensions == pre.extensions,
        offered(pre, meta, read).0.snapshot == pre.snapshot,
        offered(pre, meta, read).0.batch_size == pre.batch_size,
        offered(pre, meta, read).1 matches Some(batch) ==> batch.len() == batch_limit(
            pre.batch_size,
        ) && all_new(pre.snapshot, batch),
{
    if eligibility(pre.extensions, pre.snapshot, meta) == Eligibility::Eligible {
        let waiting = pre.pending.push((meta.path, record_of(meta, read)));
        assert forall|i: int| 0 <= i < waiting.len() implies !pre.snapshot.contains(
            (#[trigger] waiting[i]).1.path,
        ) by {
            if i < pre.pending.len() {
                assert(waiting[i] == pre.pending[i]);
            }
        }
    }
}

/// Over a whole walk, no file that the snapshot holds gets into a batch or
/// among the files that wait, and every batch that is handed out on the way
/// is full: it has as many files as the batch size says (one, for a batch
/// size of 0).
pub proof fn law_batches_are_full_and_new(pre: PipelineView, files: Seq<(PathFields, ExifRead)>)
    requires
        pre.valid(),
    ensures
        walked(pre, files).0.valid(),
        walked(pre, files).0.extensions == pre.extensions,
        walked(pre, files).0.snapshot == pre.snapshot,
        walked(pre, files).0.batch_size == pre.batch_size,
        forall|k: int|
            0 <= k < walked(pre, files).1.len() ==> (#[trigger] walked(pre, files).1[k]).len()
                == batch_limit(pre.batch_size) && all_new(pre.snapshot, walked(pre, files).1[k]),
    decreases files.len(),
{
    if files.len() > 0 {
        let before = walked(pre, files.drop_last());
        law_batches_are_full_and_new(pre, files.drop_last());
        lemma_offered(before.0, files.last().0, files.last().1);
    }
}

/// Over a whole walk, the batches that are handed out and the files that
/// still wait are, one behind the other, the files that waited before and the
/// eligible files among those offered, in the order in which they came.
pub proof fn law_batches_keep_the_order(pre: PipelineView, files: Seq<(PathFields, ExifRead)>)
    requires
        pre.valid(),
    ensures
        concatenated(walked(pre, files).1) + walked(pre, files).0.pending == pre.pending + taken(
            pre.extensions,
            pre.snapshot,
            files,
        ),
    decreases files.len(),
{
    if files.len() == 0 {
        assert(concatenated(walked(pre, files).1) + pre.pending =~= pre.pending + taken(
            pre.extensions,
            pre.snapshot,
            files,
        ));
    } else {
        let before = walked(pre, files.drop_last());
        let file = files.last();
        law_batches_keep_the_order(pre, files.drop_last());
        law_batches_are_full_and_new(pre, files.drop_last());
        let step = offered(before.0, file.0, file.1);
        let earlier = taken(pre.extensions, pre.snapshot, files.drop_last());
        if eligibility(pre.extensions, pre.snapshot, file.0) == Eligibility::Eligible {
            let item = (file.0.path, record_of(file.0, file.1));
            match step.1 {
                Some(batch) => {
                    assert(walked(pre, files).1.drop_last() =~= before.1);
                    assert(concatenated(walked(pre, files).1) + step.0.pending =~= (concatenated(
                        before.1,
                    ) + before.0.pending).push(item));
                },
                None => {
                    assert(concatenated(before.1) + step.0.pending =~= (concatenated(before.1)
                        + before.0.pending).push(item));
                },
            }
            assert((pre.pending + earlier).push(item) =~= pre.pending + earlier.push(item));
        }
    }
}

} // verus!
