//! The analysis of a batch: every file found under the given roots becomes one
//! record, and once all records exist the duplicates among them are flagged.
//!
//! Walking directories and reading files is left to the caller, who reports
//! what was found. A batch is idle until it begins, scans while files are
//! added, and is done when it is finished: `Scan` is a batch that is scanning,
//! and finishing consumes it, so no state comes twice.

use crate::date::written_for_names;
use crate::exif::reader::{dates_read, metadata_of, read_exif_data};
use crate::hash::detect::{
    digests, lemma_shared_digest_flags_both, mark_duplicates, shares_digest,
};
use crate::renamer::generator::{
    date_key, generate_filename, lemma_suffix_injective, name_spec, suffix_spec, NameCounter,
};
use crate::text::{
    chars_of, extend_chars, opt_view, starts_with_spec, string_of, underscored, underscored_spec,
};
use crate::types::{record_views, string_views, ExifData, FileAnalysis, RecordView, TagField};
use std::path::PathBuf;
use vstd::prelude::*;

verus! {

/// A regular file that the walk came upon, with what was read from it.
#[derive(Clone, Debug)]
pub struct FoundFile {
    /// The full path of the file.
    pub path: PathBuf,
    /// The name of the file.
    pub original_name: String,
    /// The name of the directory that holds the file, where it has one.
    pub parent_name: Option<String>,
    /// The tags of its container; none where it could not be read.
    pub tags: Vec<TagField>,
    /// The fingerprint of its content; none where it could not be opened.
    pub file_hash: Option<String>,
}

/// One step of the walk below a root.
#[derive(Clone, Debug)]
pub enum WalkEvent {
    /// A regular file.
    File(FoundFile),
    /// An entry that could not be read, with the reason.
    Failure(String),
}

/// A root and what the walk below it came upon, in order.
#[derive(Clone, Debug)]
pub struct RootScan {
    /// The root as it is shown in messages.
    pub path: String,
    /// Whether the root is a directory.
    pub is_dir: bool,
    /// The steps of the walk; not looked at where the root is no directory.
    pub events: Vec<WalkEvent>,
}

/// The result of a batch: the records and the warnings that came up.
#[derive(Clone, Debug)]
pub struct AnalysisOutput {
    pub records: Vec<FileAnalysis>,
    pub warnings: Vec<String>,
}

/// The mathematical content of a batch, while scanning and when done.
#[verifier::ext_equal]
pub struct BatchView {
    pub records: Seq<RecordView>,
    pub warnings: Seq<Seq<char>>,
}

impl View for AnalysisOutput {
    type V = BatchView;

    open spec fn view(&self) -> BatchView {
        BatchView { records: record_views(self.records@), warnings: string_views(self.warnings@) }
    }
}

/// The name of the folder of a file: the name of its parent directory with
/// underscores for spaces, or `racine` where it has none.
pub open spec fn folder_spec(parent_name: Option<Seq<char>>) -> Seq<char> {
    match parent_name {
        Some(name) => underscored_spec(name),
        None => "racine"@,
    }
}

/// The number of records of `records` whose date key is `key`.
pub open spec fn uses_in(records: Seq<RecordView>, key: Seq<char>) -> nat
    decreases records.len(),
{
    if records.len() == 0 {
        0
    } else {
        uses_in(records.drop_last(), key) + if date_key(records.last().exif.date_taken) == key {
            1nat
        } else {
            0nat
        }
    }
}

/// The record of a found file in a batch that holds `earlier` already: the
/// metadata of its tags, its fingerprint, and the name proposed for it, whose
/// suffix counts the earlier records with the same date key.
pub open spec fn record_for(found: FoundFile, earlier: Seq<RecordView>) -> RecordView {
    let exif = metadata_of(found.tags@);
    let folder = folder_spec(opt_view(found.parent_name));
    RecordView {
        full_original_path: found.path,
        original_name: found.original_name@,
        folder_name: folder,
        exif: exif,
        new_name: Some(
            name_spec(
                date_key(exif.date_taken),
                suffix_spec(uses_in(earlier, date_key(exif.date_taken))),
                folder,
                found.original_name@,
            ),
        ),
        file_hash: opt_view(found.file_hash),
        is_duplicate: false,
    }
}

/// The warning for a root that is no directory.
pub open spec fn skip_warning(root: Seq<char>) -> Seq<char> {
    "Chemin fourni n'est pas un répertoire valide et sera ignoré : "@ + root
}

/// The warning for an entry below `root` that could not be read.
pub open spec fn failure_warning(root: Seq<char>, reason: Seq<char>) -> Seq<char> {
    "Erreur lecture entrée dans "@ + root + ": "@ + reason
}

/// The batch after one more step of the walk below `root`.
pub open spec fn after_event(batch: BatchView, root: Seq<char>, event: WalkEvent) -> BatchView {
    match event {
        WalkEvent::File(found) => BatchView {
            records: batch.records.push(record_for(found, batch.records)),
            ..batch
        },
        WalkEvent::Failure(reason) => BatchView {
            warnings: batch.warnings.push(failure_warning(root, reason@)),
            ..batch
        },
    }
}

/// The batch after the steps `events` of the walk below `root`.
pub open spec fn after_events(
    batch: BatchView,
    root: Seq<char>,
    events: Seq<WalkEvent>,
) -> BatchView
    decreases events.len(),
{
    if events.len() == 0 {
        batch
    } else {
        after_event(after_events(batch, root, events.drop_last()), root, events.last())
    }
}

/// The batch after one more root: its walk where it is a directory, a warning
/// where it is not.
pub open spec fn after_root(batch: BatchView, root: RootScan) -> BatchView {
    if root.is_dir {
        after_events(batch, root.path@, root.events@)
    } else {
        BatchView { warnings: batch.warnings.push(skip_warning(root.path@)), ..batch }
    }
}

/// The batch after the roots `roots`.
pub open spec fn after_roots(batch: BatchView, roots: Seq<RootScan>) -> BatchView
    decreases roots.len(),
{
    if roots.len() == 0 {
        batch
    } else {
        after_root(after_roots(batch, roots.drop_last()), roots.last())
    }
}

/// The digests of a list of records.
pub open spec fn digests_of(records: Seq<RecordView>) -> Seq<Option<Seq<char>>> {
    records.map_values(|r: RecordView| r.file_hash)
}

/// The records with their duplicate flags set: a record is flagged exactly
/// when another record of the list has the same digest.
pub open spec fn flagged(records: Seq<RecordView>) -> Seq<RecordView> {
    Seq::new(
        records.len(),
        |i: int| RecordView { is_duplicate: shares_digest(digests_of(records), i), ..records[i] },
    )
}

/// A batch without records and warnings.
pub open spec fn empty_batch() -> BatchView {
    BatchView { records: Seq::empty(), warnings: Seq::empty() }
}

/// Whether one of the roots is a directory.
pub open spec fn any_directory(roots: Seq<bool>) -> bool {
    exists|i: int| 0 <= i < roots.len() && roots[i]
}

/// The error of a batch none of whose roots is a directory.
pub open spec fn no_root_error() -> Seq<char> {
    "Aucun chemin de dossier valide fourni."@
}

/// Whether the capture date of every record, where it is of the years 0 to
/// 9999, has the form `YYYY-MM-DD_HHMMSS` in names.
pub open spec fn dates_written(records: Seq<RecordView>) -> bool {
    forall|i: int| 0 <= i < records.len() ==> written_for_names(#[trigger] records[i].exif.date_taken)
}

/// A batch that is scanning.
pub struct Scan {
    records: Vec<FileAnalysis>,
    warnings: Vec<String>,
    counter: NameCounter,
}

impl View for Scan {
    type V = BatchView;

    closed spec fn view(&self) -> BatchView {
        BatchView { records: record_views(self.records@), warnings: string_views(self.warnings@) }
    }
}

impl Scan {
    /// The counter of the batch agrees with its records. Every scan that this
    /// module hands out is well formed.
    pub closed spec fn wf(&self) -> bool {
        &&& self.counter.wf()
        &&& forall|key: Seq<char>|
            self.counter.uses_of(key) == #[trigger] uses_in(record_views(self.records@), key)
        &&& dates_written(record_views(self.records@))
    }

    /// Begins a batch. A batch without roots begins and will be empty; one
    /// with roots begins where at least one of them is a directory, and fails
    /// otherwise.
    pub fn begin(roots_are_dirs: &Vec<bool>) -> (r: Result<Scan, String>)
        ensures
            r is Ok <==> (roots_are_dirs@.len() == 0 || any_directory(roots_are_dirs@)),
            r matches Ok(scan) ==> scan.wf() && scan@ == empty_batch(),
            r matches Err(message) ==> message@ == no_root_error(),
    {
        let mut found: bool = roots_are_dirs.len() == 0;
        let mut i: usize = 0;
        while i < roots_are_dirs.len()
            invariant
                i <= roots_are_dirs@.len(),
                found <==> (roots_are_dirs@.len() == 0 || exists|j: int|
                    0 <= j < i && roots_are_dirs@[j]),
            decreases roots_are_dirs@.len() - i,
        {
            if roots_are_dirs[i] {
                found = true;
            }
            i += 1;
        }
        if !found {
            return Err("Aucun chemin de dossier valide fourni.".to_string());
        }
        let scan = Scan { records: Vec::new(), warnings: Vec::new(), counter: NameCounter::new() };
        assert(scan@ =~= empty_batch());
        assert forall|key: Seq<char>|
            scan.counter.uses_of(key) == #[trigger] uses_in(record_views(scan.records@), key) by {
            assert(record_views(scan.records@) =~= Seq::<RecordView>::empty());
        }
        Ok(scan)
    }

    /// Notes that a root is no directory and is left out.
    pub fn skip_root(&mut self, root: &str)
        requires
            old(self).wf(),
        ensures
            final(self).wf(),
            final(self)@ == (BatchView {
                warnings: old(self)@.warnings.push(skip_warning(root@)),
                ..old(self)@
            }),
    {
        let mut text = chars_of("Chemin fourni n'est pas un répertoire valide et sera ignoré : ");
        extend_chars(&mut text, &chars_of(root));
        let ghost before = string_views(self.warnings@);
        self.warnings.push(string_of(&text));
        assert(string_views(self.warnings@) =~= before.push(skip_warning(root@)));
    }

    /// Notes that an entry below `root` could not be read.
    pub fn add_failure(&mut self, root: &str, reason: &str)
        requires
            old(self).wf(),
        ensures
            final(self).wf(),
            final(self)@ == (BatchView {
                warnings: old(self)@.warnings.push(failure_warning(root@, reason@)),
                ..old(self)@
            }),
    {
        let mut text = chars_of("Erreur lecture entrée dans ");
        extend_chars(&mut text, &chars_of(root));
        extend_chars(&mut text, &chars_of(": "));
        extend_chars(&mut text, &chars_of(reason));
        let ghost before = string_views(self.warnings@);
        self.warnings.push(string_of(&text));
        assert(string_views(self.warnings@) =~= before.push(failure_warning(root@, reason@)));
    }

    /// Adds the record of a found file: metadata, fingerprint and proposed name.
    pub fn add_file(&mut self, found: &FoundFile)
        requires
            old(self).wf(),
        ensures
            final(self).wf(),
            final(self)@ == (BatchView {
                records: old(self)@.records.push(record_for(*found, old(self)@.records)),
                ..old(self)@
            }),
            dates_read(found.tags@),
    {
        let ghost earlier = record_views(self.records@);
        let ghost target = record_for(*found, earlier);
        let folder: String = match &found.parent_name {
            Some(name) => string_of(&underscored(&chars_of(name.as_str()))),
            None => "racine".to_string(),
        };
        let exif = read_exif_data(&found.tags);
        let ghost key = date_key(exif.date_taken);
        let file_hash: Option<String> = match &found.file_hash {
            Some(digest) => Some(digest.clone()),
            None => None,
        };
        let record = FileAnalysis {
            full_original_path: found.path.clone(),
            original_name: found.original_name.clone(),
            folder_name: folder,
            exif,
            new_name: None,
            file_hash,
            is_duplicate: false,
        };
        self.records.push(record);
        let n: usize = self.records.len();
        proof {
            assert(self.counter.uses_of(key) == uses_in(earlier, key));
        }
        let name = generate_filename(&self.records[n - 1], &mut self.counter);
        self.records[n - 1].new_name = Some(name);
        proof {
            let now = record_views(self.records@);
            assert(now =~= earlier.push(target));
            assert forall|other: Seq<char>|
                self.counter.uses_of(other) == #[trigger] uses_in(now, other) by {
                assert(now.drop_last() =~= earlier);
                assert(self.counter.uses_of(other) == if other == key {
                    uses_in(earlier, key) + 1
                } else {
                    uses_in(earlier, other)
                }) by {
                    if other != key {
                        assert(old(self).counter.uses_of(other) == uses_in(earlier, other));
                    }
                }
            }
        }
    }

    /// Finishes the batch: flags the duplicates among all its records and
    /// hands out records and warnings.
    pub fn finish(self) -> (r: AnalysisOutput)
        ensures
            r@ == (BatchView { records: flagged(self@.records), ..self@ }),
            self.wf() ==> dates_written(r@.records),
    {
        let mut records = self.records;
        let ghost before = records@;
        mark_duplicates(&mut records);
        proof {
            assert(digests(before) =~= digests_of(record_views(before)));
            assert(record_views(records@) =~= flagged(record_views(before)));
            if self.wf() {
                assert forall|i: int| 0 <= i < records@.len() implies written_for_names(
                    #[trigger] record_views(records@)[i].exif.date_taken,
                ) by {
                    assert(record_views(records@)[i].exif == record_views(before)[i].exif);
                }
            }
        }
        AnalysisOutput { records, warnings: self.warnings }
    }
}


/// How deep the walk below a root goes: to the direct children alone, or,
/// where the batch is recursive, without limit.
pub fn depth_limit(recursive: bool) -> (r: Option<usize>)
    ensures
        r == if recursive {
            None::<usize>
        } else {
            Some(1usize)
        },
{
    if recursive {
        None
    } else {
        Some(1)
    }
}

/// Whether the date tags of every file among `events` are read as the
/// instants they write.
pub open spec fn file_tags_read(events: Seq<WalkEvent>) -> bool {
    forall|e: int|
        0 <= e < events.len() ==> ((#[trigger] events[e]) matches WalkEvent::File(found)
            ==> dates_read(found.tags@))
}

/// Whether the date tags of every file below a root that is a directory are
/// read as the instants they write: a date of the years 0 to 9999 with a time
/// of whole seconds, in any of the styles.
pub open spec fn tags_read(roots: Seq<RootScan>) -> bool {
    forall|k: int|
        0 <= k < roots.len() && (#[trigger] roots[k]).is_dir ==> file_tags_read(roots[k].events@)
}

/// Which of the roots are directories.
pub open spec fn directory_flags(roots: Seq<RootScan>) -> Seq<bool> {
    roots.map_values(|root: RootScan| root.is_dir)
}

/// Analyses a batch from what the walks below its roots came upon.
///
/// Without roots the batch is empty. With roots none of which is a directory
/// it fails. Otherwise every root that is no directory gives a warning, every
/// file below the others gives a record, every entry that could not be read
/// gives a warning, and the duplicates are flagged once all records exist.
pub fn analyze_multiple_directories(roots: &Vec<RootScan>) -> (r: Result<AnalysisOutput, String>)
    ensures
        r is Ok <==> (roots@.len() == 0 || any_directory(directory_flags(roots@))),
        r matches Ok(output) ==> output@ == (BatchView {
            records: flagged(after_roots(empty_batch(), roots@).records),
            ..after_roots(empty_batch(), roots@)
        }),
        r matches Ok(output) ==> dates_written(output@.records),
        r matches Ok(output) ==> tags_read(roots@),
        r matches Err(message) ==> message@ == no_root_error(),
{
    let mut flags: Vec<bool> = Vec::new();
    let mut i: usize = 0;
    while i < roots.len()
        invariant
            i <= roots@.len(),
            flags@.len() == i,
            forall|j: int| 0 <= j < i ==> flags@[j] == roots@[j].is_dir,
        decreases roots@.len() - i,
    {
        flags.push(roots[i].is_dir);
        i += 1;
    }
    assert(flags@ =~= directory_flags(roots@));
    let mut scan = match Scan::begin(&flags) {
        Ok(scan) => scan,
        Err(message) => {
            return Err(message);
        },
    };
    let mut k: usize = 0;
    assert(roots@.take(0) =~= Seq::<RootScan>::empty());
    while k < roots.len()
        invariant
            k <= roots@.len(),
            scan.wf(),
            scan@ == after_roots(empty_batch(), roots@.take(k as int)),
            tags_read(roots@.take(k as int)),
        decreases roots@.len() - k,
    {
        let root = &roots[k];
        let ghost start = scan@;
        proof {
            let t = roots@.take(k + 1);
            assert(t.drop_last() =~= roots@.take(k as int));
            assert(t.last() == *root);
        }
        if !root.is_dir {
            scan.skip_root(root.path.as_str());
        } else {
            let mut e: usize = 0;
            assert(root.events@.take(0) =~= Seq::<WalkEvent>::empty());
            while e < root.events.len()
                invariant
                    e <= root.events@.len(),
                    scan.wf(),
                    scan@ == after_events(start, root.path@, root.events@.take(e as int)),
                    file_tags_read(root.events@.take(e as int)),
                decreases root.events@.len() - e,
            {
                proof {
                    let t = root.events@.take(e + 1);
                    assert(t.drop_last() =~= root.events@.take(e as int));
                    assert(t.last() == root.events@[e as int]);
                }
                match &root.events[e] {
                    WalkEvent::File(found) => {
                        scan.add_file(found);
                    },
                    WalkEvent::Failure(reason) => {
                        scan.add_failure(root.path.as_str(), reason.as_str());
                    },
                }
                proof {
                    let seen = root.events@.take(e as int);
                    let next = root.events@.take(e + 1);
                    assert forall|j: int| 0 <= j < next.len() implies ((
                    #[trigger] next[j]) matches WalkEvent::File(found) ==> dates_read(
                        found.tags@,
                    )) by {
                        if j < e {
                            assert(next[j] == seen[j]);
                        }
                    }
                }
                e += 1;
            }
            assert(root.events@.take(root.events@.len() as int) =~= root.events@);
        }
        proof {
            let seen = roots@.take(k as int);
            let next = roots@.take(k + 1);
            assert forall|j: int| 0 <= j < next.len() && (#[trigger] next[j]).is_dir implies
                file_tags_read(next[j].events@) by {
                if j < k {
                    assert(next[j] == seen[j]);
                }
            }
        }
        k += 1;
    }
    assert(roots@.take(roots@.len() as int) =~= roots@);
    Ok(scan.finish())
}


/// The suffix of record `i`: it counts the records before it that have the
/// same date key.
pub open spec fn suffix_in_batch(records: Seq<RecordView>, i: int) -> Seq<char> {
    suffix_spec(uses_in(records.take(i), date_key(records[i].exif.date_taken)))
}

/// Whether record `i` has the name that is its due after the records before it.
pub open spec fn named_in_turn(records: Seq<RecordView>, i: int) -> bool {
    records[i].new_name == Some(
        name_spec(
            date_key(records[i].exif.date_taken),
            suffix_in_batch(records, i),
            records[i].folder_name,
            records[i].original_name,
        ),
    )
}

/// Whether every record has the name that is its due.
pub open spec fn all_named_in_turn(records: Seq<RecordView>) -> bool {
    forall|i: int| 0 <= i < records.len() ==> named_in_turn(records, i)
}

/// One more step of a walk leaves every record with the name that is its due.
proof fn lemma_event_keeps_names(batch: BatchView, root: Seq<char>, event: WalkEvent)
    requires
        all_named_in_turn(batch.records),
    ensures
        all_named_in_turn(after_event(batch, root, event).records),
{
    let before = batch.records;
    let after = after_event(batch, root, event).records;
    assert forall|i: int| 0 <= i < after.len() implies named_in_turn(after, i) by {
        if i < before.len() {
            assert(named_in_turn(before, i));
            assert(after[i] == before[i]);
            assert(after.take(i) =~= before.take(i));
        } else {
            assert(after.take(i) =~= before);
        }
    }
}

/// The steps of a walk leave every record with the name that is its due.
proof fn lemma_events_keep_names(batch: BatchView, root: Seq<char>, events: Seq<WalkEvent>)
    requires
        all_named_in_turn(batch.records),
    ensures
        all_named_in_turn(after_events(batch, root, events).records),
    decreases events.len(),
{
    if events.len() > 0 {
        lemma_events_keep_names(batch, root, events.drop_last());
        lemma_event_keeps_names(
            after_events(batch, root, events.drop_last()),
            root,
            events.last(),
        );
    }
}

/// The roots of a batch leave every record with the name that is its due.
proof fn lemma_roots_keep_names(batch: BatchView, roots: Seq<RootScan>)
    requires
        all_named_in_turn(batch.records),
    ensures
        all_named_in_turn(after_roots(batch, roots).records),
    decreases roots.len(),
{
    if roots.len() > 0 {
        lemma_roots_keep_names(batch, roots.drop_last());
        let so_far = after_roots(batch, roots.drop_last());
        if roots.last().is_dir {
            lemma_events_keep_names(so_far, roots.last().path@, roots.last().events@);
        }
    }
}

/// The uses of a key among the first records do not get fewer as more
/// records are counted.
proof fn lemma_uses_grow(records: Seq<RecordView>, key: Seq<char>, i: int, j: int)
    requires
        0 <= i <= j <= records.len(),
    ensures
        uses_in(records.take(i), key) <= uses_in(records.take(j), key),
    decreases j - i,
{
    if i < j {
        lemma_uses_grow(records, key, i, j - 1);
        assert(records.take(j).drop_last() =~= records.take(j - 1));
    }
}

/// In the result of a batch every record has the name that is its due after
/// the records before it.
pub proof fn lemma_batch_names(roots: Seq<RootScan>)
    ensures
        all_named_in_turn(flagged(after_roots(empty_batch(), roots).records)),
{
    let scanned = after_roots(empty_batch(), roots).records;
    let records = flagged(scanned);
    lemma_roots_keep_names(empty_batch(), roots);
    assert forall|k: int| 0 <= k < records.len() implies named_in_turn(records, k) by {
        assert(named_in_turn(scanned, k));
        lemma_uses_of_flagged(scanned, date_key(scanned[k].exif.date_taken), k);
    }
}

/// Two records of a list that have the same date key have different suffixes.
pub proof fn lemma_suffixes_differ(records: Seq<RecordView>, i: int, j: int)
    requires
        0 <= i < j < records.len(),
        date_key(records[i].exif.date_taken) == date_key(records[j].exif.date_taken),
    ensures
        suffix_in_batch(records, i) != suffix_in_batch(records, j),
{
    let key = date_key(records[i].exif.date_taken);
    lemma_uses_grow(records, key, i + 1, j);
    assert(records.take(i + 1).drop_last() =~= records.take(i));
    assert(records.take(i + 1).last() == records[i]);
    lemma_suffix_injective(uses_in(records.take(i), key), uses_in(records.take(j), key));
}

/// Flagging duplicates does not change the uses of a key.
proof fn lemma_uses_of_flagged(records: Seq<RecordView>, key: Seq<char>, k: int)
    requires
        0 <= k <= records.len(),
    ensures
        uses_in(flagged(records).take(k), key) == uses_in(records.take(k), key),
    decreases k,
{
    if k > 0 {
        lemma_uses_of_flagged(records, key, k - 1);
        assert(flagged(records).take(k).drop_last() =~= flagged(records).take(k - 1));
        assert(records.take(k).drop_last() =~= records.take(k - 1));
        assert(flagged(records).take(k).last().exif == records.take(k).last().exif);
    }
}


/// The files among the steps of a walk, in order.
pub open spec fn files_among(events: Seq<WalkEvent>) -> Seq<FoundFile>
    decreases events.len(),
{
    if events.len() == 0 {
        Seq::<FoundFile>::empty()
    } else {
        match events.last() {
            WalkEvent::File(found) => files_among(events.drop_last()).push(found),
            WalkEvent::Failure(_) => files_among(events.drop_last()),
        }
    }
}

/// The files that the walks below the roots came upon, in order; the steps
/// of a root that is no directory do not count.
pub open spec fn found_files(roots: Seq<RootScan>) -> Seq<FoundFile>
    decreases roots.len(),
{
    if roots.len() == 0 {
        Seq::<FoundFile>::empty()
    } else if roots.last().is_dir {
        found_files(roots.drop_last()) + files_among(roots.last().events@)
    } else {
        found_files(roots.drop_last())
    }
}

/// Whether `records` are the records of `files`, one for each file in order,
/// each made after the records before it.
pub open spec fn recorded_in_turn(records: Seq<RecordView>, files: Seq<FoundFile>) -> bool {
    &&& records.len() == files.len()
    &&& forall|i: int|
        0 <= i < records.len() ==> #[trigger] records[i] == record_for(files[i], records.take(i))
}

/// The steps of a walk add the records of their files, in order.
proof fn lemma_events_record_files(
    batch: BatchView,
    root: Seq<char>,
    events: Seq<WalkEvent>,
    files: Seq<FoundFile>,
)
    requires
        recorded_in_turn(batch.records, files),
    ensures
        recorded_in_turn(after_events(batch, root, events).records, files + files_among(events)),
    decreases events.len(),
{
    if events.len() == 0 {
        assert(files + files_among(events) =~= files);
    } else {
        lemma_events_record_files(batch, root, events.drop_last(), files);
        let before = after_events(batch, root, events.drop_last()).records;
        let after = after_events(batch, root, events).records;
        let so_far = files + files_among(events.drop_last());
        let all = files + files_among(events);
        match events.last() {
            WalkEvent::File(found) => {
                assert(all =~= so_far.push(found));
                assert forall|i: int| 0 <= i < after.len() implies #[trigger] after[i]
                    == record_for(all[i], after.take(i)) by {
                    if i < before.len() {
                        assert(after[i] == before[i]);
                        assert(after.take(i) =~= before.take(i));
                    } else {
                        assert(after.take(i) =~= before);
                    }
                }
            },
            WalkEvent::Failure(_) => {
                assert(all =~= so_far);
            },
        }
    }
}

/// The records of a batch are the records of its files, in order.
proof fn lemma_roots_record_files(roots: Seq<RootScan>)
    ensures
        recorded_in_turn(after_roots(empty_batch(), roots).records, found_files(roots)),
    decreases roots.len(),
{
    if roots.len() > 0 {
        lemma_roots_record_files(roots.drop_last());
        if roots.last().is_dir {
            lemma_events_record_files(
                after_roots(empty_batch(), roots.drop_last()),
                roots.last().path@,
                roots.last().events@,
                found_files(roots.drop_last()),
            );
        }
    }
}

/// The records of a batch are the records of the files that were found, one
/// for each file in order. Each has the metadata of its file's tags, the
/// digest that was computed for the file, the name that is its due after the
/// records before it, and the flag that says whether another record of the
/// batch has the same digest.
pub proof fn lemma_batch_records(roots: Seq<RootScan>, i: int)
    requires
        0 <= i < found_files(roots).len(),
    ensures
        flagged(after_roots(empty_batch(), roots).records).len() == found_files(roots).len(),
        flagged(after_roots(empty_batch(), roots).records)[i] == (RecordView {
            is_duplicate: shares_digest(
                digests_of(after_roots(empty_batch(), roots).records),
                i,
            ),
            ..record_for(
                found_files(roots)[i],
                after_roots(empty_batch(), roots).records.take(i),
            )
        }),
        digests_of(after_roots(empty_batch(), roots).records)[i] == opt_view(
            found_files(roots)[i].file_hash,
        ),
{
    lemma_roots_record_files(roots);
    let records = after_roots(empty_batch(), roots).records;
    assert(records[i] == record_for(found_files(roots)[i], records.take(i)));
}

/// The record of a file whose container gave no tags: its metadata is empty,
/// it keeps the digest that was computed for it, and its name begins with
/// `unknown`.
pub proof fn lemma_record_without_tags(found: FoundFile, earlier: Seq<RecordView>)
    requires
        found.tags@.len() == 0,
    ensures
        record_for(found, earlier).exif == ExifData::empty_view(),
        record_for(found, earlier).file_hash == opt_view(found.file_hash),
        record_for(found, earlier).new_name matches Some(name) && starts_with_spec(
            name,
            "unknown"@,
        ),
{
    let record = record_for(found, earlier);
    let key = "unknown"@;
    let name = name_spec(
        key,
        suffix_spec(uses_in(earlier, key)),
        record.folder_name,
        found.original_name@,
    );
    assert(record.new_name == Some(name));
    assert(name.subrange(0, key.len() as int) =~= key);
}

/// Two records of a batch with the same digest are both flagged as
/// duplicates, and flagging leaves their digests as they are.
pub proof fn lemma_same_content_flags_both(records: Seq<RecordView>, i: int, j: int)
    requires
        0 <= i < records.len(),
        0 <= j < records.len(),
        i != j,
        records[i].file_hash is Some,
        records[i].file_hash == records[j].file_hash,
    ensures
        flagged(records)[i].is_duplicate,
        flagged(records)[j].is_duplicate,
        flagged(records)[i].file_hash == flagged(records)[j].file_hash,
        flagged(records)[i].file_hash == records[i].file_hash,
{
    lemma_shared_digest_flags_both(digests_of(records), i, j);
}

} // verus!
