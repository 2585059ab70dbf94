//! Per-path outcomes and the aggregate report of a traversal.
//!
//! Every filesystem entry a run visits produces one outcome: the path on
//! success, or a tagged error carrying the path and, for failures in the
//! middle of a rewrite, the count of bytes already written. Outcomes
//! accumulate into one [`FinalEncryptionResult`], successes and failures
//! in two separate lists; errors never abort the traversal.

use vstd::prelude::*;

verus! {

/// A failure in the middle of rewriting one file's contents. The file is
/// left as the failure found it: `bytes_written` bytes of it are already
/// transformed, the rest untouched.
#[derive(Debug)]
pub enum ProcessingError {
    /// A read failed mid-stream.
    ReadError { bytes_written: usize },
    /// A write failed mid-stream.
    WriteError { bytes_written: usize },
}

/// The mathematical value of a [`ProcessingError`].
pub enum ProcessingErrorView {
    Read { bytes_written: int },
    Write { bytes_written: int },
}

impl View for ProcessingError {
    type V = ProcessingErrorView;

    open spec fn view(&self) -> ProcessingErrorView {
        match self {
            ProcessingError::ReadError { bytes_written } => ProcessingErrorView::Read {
                bytes_written: *bytes_written as int,
            },
            ProcessingError::WriteError { bytes_written } => ProcessingErrorView::Write {
                bytes_written: *bytes_written as int,
            },
        }
    }
}

/// Why one path failed. Every variant carries the path it is about;
/// failures during a rewrite also carry how many bytes were written first.
#[derive(Debug)]
pub enum EncryptionError {
    /// The file could not be opened for writing.
    FileWriteError { bytes_written: usize, path: String },
    /// The file could not be opened for reading.
    FileReadError { bytes_written: usize, path: String },
    /// The directory's entries could not be enumerated.
    DirReadError { path: String },
    /// The path is a symbolic link, or no file or directory at all.
    PathError { path: String },
    /// Reading or writing failed in the middle of rewriting the file.
    ProcessingError { source: ProcessingError, path: String },
}

/// The mathematical value of an [`EncryptionError`].
pub enum EncryptionErrorView {
    FileWrite { bytes_written: int, path: Seq<char> },
    FileRead { bytes_written: int, path: Seq<char> },
    DirRead { path: Seq<char> },
    Path { path: Seq<char> },
    Processing { source: ProcessingErrorView, path: Seq<char> },
}

impl View for EncryptionError {
    type V = EncryptionErrorView;

    open spec fn view(&self) -> EncryptionErrorView {
        match self {
            EncryptionError::FileWriteError { bytes_written, path } => EncryptionErrorView::FileWrite {
                bytes_written: *bytes_written as int,
                path: path@,
            },
            EncryptionError::FileReadError { bytes_written, path } => EncryptionErrorView::FileRead {
                bytes_written: *bytes_written as int,
                path: path@,
            },
            EncryptionError::DirReadError { path } => EncryptionErrorView::DirRead { path: path@ },
            EncryptionError::PathError { path } => EncryptionErrorView::Path { path: path@ },
            EncryptionError::ProcessingError { source, path } => EncryptionErrorView::Processing {
                source: source@,
                path: path@,
            },
        }
    }
}

/// The outcome of visiting one path.
#[derive(Debug)]
pub enum EncryptionResult {
    /// The path was processed successfully.
    Processed(String),
    /// The path failed; the error says how.
    Error(EncryptionError),
}

/// The mathematical value of an [`EncryptionResult`].
pub enum EncryptionResultView {
    Processed(Seq<char>),
    Error(EncryptionErrorView),
}

impl View for EncryptionResult {
    type V = EncryptionResultView;

    open spec fn view(&self) -> EncryptionResultView {
        match self {
            EncryptionResult::Processed(path) => EncryptionResultView::Processed(path@),
            EncryptionResult::Error(error) => EncryptionResultView::Error(error@),
        }
    }
}

/// The aggregate report of a whole run: every successfully processed path,
/// and every failure, in the order the traversal produced them.
#[derive(Debug)]
pub struct FinalEncryptionResult {
    pub oks: Vec<String>,
    pub errs: Vec<EncryptionError>,
}

/// The mathematical value of a [`FinalEncryptionResult`].
pub struct ReportView {
    pub oks: Seq<Seq<char>>,
    pub errs: Seq<EncryptionErrorView>,
}

impl View for FinalEncryptionResult {
    type V = ReportView;

    open spec fn view(&self) -> ReportView {
        ReportView {
            oks: Seq::new(self.oks@.len(), |i: int| self.oks@[i]@),
            errs: Seq::new(self.errs@.len(), |i: int| self.errs@[i]@),
        }
    }
}

impl Default for FinalEncryptionResult {
    /// An empty report: no successes, no failures.
    fn default() -> (report: Self)
        ensures
            report@.oks == Seq::<Seq<char>>::empty(),
            report@.errs == Seq::<EncryptionErrorView>::empty(),
    {
        let report = FinalEncryptionResult { oks: Vec::new(), errs: Vec::new() };
        proof {
            assert(report@.oks =~= Seq::<Seq<char>>::empty());
            assert(report@.errs =~= Seq::<EncryptionErrorView>::empty());
        }
        report
    }
}

impl FinalEncryptionResult {
    /// Appends one outcome to the side it belongs to: a success to `oks`,
    /// a failure to `errs`. Emitting the outcome to an observability sink
    /// as it arrives is the embedding application's concern, not this
    /// crate's.
    pub fn push_and_log(&mut self, item: EncryptionResult)
        ensures
            (item matches EncryptionResult::Processed(path) ==> final(self)@.oks == old(self)@.oks.push(
                path@,
            ) && final(self)@.errs == old(self)@.errs),
            (item matches EncryptionResult::Error(error) ==> final(self)@.errs == old(
                self,
            )@.errs.push(error@) && final(self)@.oks == old(self)@.oks),
    {
        match item {
            EncryptionResult::Processed(value) => {
                let ghost path_view = value@;
                self.oks.push(value);
                proof {
                    assert(self@.oks =~= old(self)@.oks.push(path_view));
                    assert(self@.errs =~= old(self)@.errs);
                }
            },
            EncryptionResult::Error(value) => {
                let ghost error_view = value@;
                self.errs.push(value);
                proof {
                    assert(self@.errs =~= old(self)@.errs.push(error_view));
                    assert(self@.oks =~= old(self)@.oks);
                }
            },
        }
    }

    /// Merges another report into this one: both success lists and both
    /// failure lists are concatenated, keeping order and multiplicity.
    pub fn extend(&mut self, result: FinalEncryptionResult)
        ensures
            final(self)@.oks == old(self)@.oks + result@.oks,
            final(self)@.errs == old(self)@.errs + result@.errs,
    {
        let FinalEncryptionResult { mut oks, mut errs } = result;
        self.oks.append(&mut oks);
        self.errs.append(&mut errs);
        proof {
            assert(self@.oks =~= old(self)@.oks + result@.oks);
            assert(self@.errs =~= old(self)@.errs + result@.errs);
        }
    }
}

} // verus!
