//! What a batch is asked to do and what it reports.

use crate::path::{copy_bytes, OsPath, PathView};
use vstd::prelude::*;

verus! {

/// The settings of a batch.
pub struct Config {
    /// The directory with the images.
    pub input: OsPath,
    /// The directory that receives the results.
    pub output: OsPath,
    /// The code of the source language, or `auto`.
    pub source: String,
    /// The code of the target language.
    pub target: String,
    /// How long a result is waited for, in nanoseconds.
    pub timeout_nanos: u128,
    /// The browser runs without a window.
    pub headless: bool,
    /// Results that exist are made again.
    pub overwrite: bool,
    /// The path of the browser to run, where one is given, in the bytes by which the operating
    /// system knows it.
    pub chrome: Option<Vec<u8>>,
    /// Subdirectories are entered, and the output directory repeats their structure.
    pub recursive: bool,
    /// The number of browsers that work at the same time: 1 for one image after the other.
    pub concurrency: usize,
}

/// The value of a byte string that may be missing.
pub open spec fn bytes_option_view(bytes: Option<Vec<u8>>) -> Option<Seq<u8>> {
    match bytes {
        Some(b) => Some(b@),
        None => None,
    }
}

impl Clone for Config {
    fn clone(&self) -> (r: Config)
        ensures
            r.input@ == self.input@,
            r.output@ == self.output@,
            r.source@ == self.source@,
            r.target@ == self.target@,
            r.timeout_nanos == self.timeout_nanos,
            r.headless == self.headless,
            r.overwrite == self.overwrite,
            bytes_option_view(r.chrome) == bytes_option_view(self.chrome),
            r.recursive == self.recursive,
            r.concurrency == self.concurrency,
    {
        Config {
            input: self.input.clone(),
            output: self.output.clone(),
            source: self.source.clone(),
            target: self.target.clone(),
            timeout_nanos: self.timeout_nanos,
            headless: self.headless,
            overwrite: self.overwrite,
            chrome: match &self.chrome {
                Some(p) => Some(copy_bytes(p)),
                None => None,
            },
            recursive: self.recursive,
            concurrency: self.concurrency,
        }
    }
}

/// What a batch reports while it runs.
pub enum Progress {
    /// The number of images.
    Total(usize),
    /// Work on an image begins.
    FileStart { idx: usize, total: usize, name: String },
    /// An image is done, or was skipped since its result exists.
    FileOk { idx: usize, name: String, path: OsPath, bytes: usize, skipped: bool },
    /// An image failed.
    FileErr { idx: usize, name: String, error: String },
    /// A remark.
    Log(String),
    /// The batch is over.
    Done { ok: usize, failed: usize },
    /// The batch could not be carried out.
    Fatal(String),
}

/// The mathematical value of a [`Progress`].
pub enum ProgressView {
    Total(usize),
    FileStart { idx: usize, total: usize, name: Seq<char> },
    FileOk { idx: usize, name: Seq<char>, path: PathView, bytes: usize, skipped: bool },
    FileErr { idx: usize, name: Seq<char>, error: Seq<char> },
    Log(Seq<char>),
    Done { ok: usize, failed: usize },
    Fatal(Seq<char>),
}

impl View for Progress {
    type V = ProgressView;

    open spec fn view(&self) -> ProgressView {
        match *self {
            Progress::Total(n) => ProgressView::Total(n),
            Progress::FileStart { idx, total, name } => ProgressView::FileStart {
                idx,
                total,
                name: name@,
            },
            Progress::FileOk { idx, name, path, bytes, skipped } => ProgressView::FileOk {
                idx,
                name: name@,
                path: path@,
                bytes,
                skipped,
            },
            Progress::FileErr { idx, name, error } => ProgressView::FileErr {
                idx,
                name: name@,
                error: error@,
            },
            Progress::Log(s) => ProgressView::Log(s@),
            Progress::Done { ok, failed } => ProgressView::Done { ok, failed },
            Progress::Fatal(s) => ProgressView::Fatal(s@),
        }
    }
}

/// The values of a sequence of reports.
pub open spec fn reports_view(reports: Seq<Progress>) -> Seq<ProgressView> {
    Seq::new(reports.len(), |i: int| reports[i]@)
}

/// The value of a report that may be missing.
pub open spec fn report_option_view(report: Option<Progress>) -> Option<ProgressView> {
    match report {
        Some(p) => Some(p@),
        None => None,
    }
}

/// The count in a short sequence, element by element.
pub proof fn lemma_count_short(reports: Seq<ProgressView>, pred: spec_fn(ProgressView) -> bool)
    requires
        reports.len() <= 3,
    ensures
        reports.filter(pred).len() == (if reports.len() > 0 && pred(reports[0]) {
            1nat
        } else {
            0nat
        }) + (if reports.len() > 1 && pred(reports[1]) {
            1nat
        } else {
            0nat
        }) + (if reports.len() > 2 && pred(reports[2]) {
            1nat
        } else {
            0nat
        }),
{
    reveal_with_fuel(Seq::filter, 4);
    if reports.len() > 0 {
        let one = reports.drop_last();
        if one.len() > 0 {
            let two = one.drop_last();
            if two.len() > 0 {
                assert(two.drop_last().len() == 0);
            }
        }
    }
}

} // verus!
