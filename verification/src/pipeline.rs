//! The decisions of a consolidation run: which files to parse again, when
//! every file has been accounted for, and what is shown for a parsed file.
use vstd::prelude::*;

verus! {

/// A file must be parsed unless the cache holds it with the same
/// modification time; a file the user gave a mapping for is parsed even
/// then.
pub open spec fn must_parse(cached_last_modified: Option<i64>, last_modified: u64, has_override: bool) -> bool {
    match cached_last_modified {
        Some(t) => if t == last_modified as i64 {
            has_override
        } else {
            true
        },
        None => true,
    }
}

/// Decides whether a discovered file must be parsed, given the
/// modification time the cache holds for it (if any), its modification
/// time now, and whether the user gave a mapping for it.
pub fn needs_parsing(cached_last_modified: Option<i64>, last_modified: u64, has_override: bool) -> (r:
    bool)
    ensures
        r == must_parse(cached_last_modified, last_modified, has_override),
{
    match cached_last_modified {
        Some(t) => if t == last_modified as i64 {
            has_override
        } else {
            true
        },
        None => true,
    }
}

/// How a file ended in a run.
#[derive(PartialEq, Eq, Structural, Clone, Copy, Debug)]
pub enum FileOutcome {
    /// Its records were taken from the cache.
    Cached,
    /// It was parsed.
    Parsed,
    /// Its parsing failed.
    Failed,
}

/// The count of files accounted for in a run. Every file counts once it
/// has ended, whether taken from the cache, parsed, or failed, so a run
/// completes even when some files cannot be parsed; failures are counted
/// apart as well.
pub struct RunProgress {
    total: usize,
    processed: usize,
    failed: usize,
}

/// A run's progress: the files to account for, those accounted for, and
/// the failures among them.
pub struct ProgressView {
    pub total: nat,
    pub processed: nat,
    pub failed: nat,
}

impl View for RunProgress {
    type V = ProgressView;

    closed spec fn view(&self) -> ProgressView {
        ProgressView {
            total: self.total as nat,
            processed: self.processed as nat,
            failed: self.failed as nat,
        }
    }
}

impl RunProgress {
    #[verifier::type_invariant]
    spec fn failures_are_counted(self) -> bool {
        self.failed <= self.processed
    }

    pub fn new(total: usize) -> (p: RunProgress)
        ensures
            p@ == (ProgressView { total: total as nat, processed: 0, failed: 0 }),
    {
        RunProgress { total, processed: 0, failed: 0 }
    }

    pub fn total(&self) -> (r: usize)
        ensures
            r == self@.total,
    {
        self.total
    }

    pub fn processed(&self) -> (r: usize)
        ensures
            r == self@.processed,
    {
        self.processed
    }

    pub fn failed(&self) -> (r: usize)
        ensures
            r == self@.failed,
            r <= self@.processed,
    {
        proof {
            use_type_invariant(self);
        }
        self.failed
    }

    /// A run over no files ends at once, without writing a result.
    pub fn is_empty_run(&self) -> (r: bool)
        ensures
            r == (self@.total == 0),
    {
        self.total == 0
    }

    /// Records how a file ended and returns the count of files accounted
    /// for.
    pub fn record(&mut self, outcome: FileOutcome) -> (count: usize)
        requires
            old(self)@.processed < usize::MAX,
        ensures
            final(self)@.total == old(self)@.total,
            final(self)@.processed == old(self)@.processed + 1,
            final(self)@.failed == if outcome == FileOutcome::Failed {
                old(self)@.failed + 1
            } else {
                old(self)@.failed
            },
            count == final(self)@.processed,
    {
        proof {
            use_type_invariant(&*self);
        }
        let failed = match outcome {
            FileOutcome::Failed => self.failed + 1,
            _ => self.failed,
        };
        *self = RunProgress { total: self.total, processed: self.processed + 1, failed };
        self.processed
    }

    /// Every file is accounted for.
    pub fn is_complete(&self) -> (r: bool)
        ensures
            r == (self@.processed >= self@.total),
    {
        self.processed >= self.total
    }
}

/// The message shown with a parsed file: the reason of its analysis when
/// it yielded no record, and nothing otherwise.
pub open spec fn parsed_message_spec(record_count: nat, reason: Seq<char>) -> Seq<char> {
    if record_count == 0 {
        reason
    } else {
        Seq::empty()
    }
}

/// Chooses the message shown with a parsed file.
pub fn parsed_message(record_count: usize, reason: &str) -> (r: String)
    ensures
        r@ == parsed_message_spec(record_count as nat, reason@),
{
    if record_count == 0 {
        reason.to_owned()
    } else {
        String::new()
    }
}

} // verus!
