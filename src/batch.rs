//! Records of batch processing over a directory of images.
use vstd::prelude::*;
use std::path::PathBuf;

verus! {

/// `std::path::PathBuf`, carried as an opaque value.
#[verifier::external_type_specification]
#[verifier::external_body]
pub struct ExPathBuf(PathBuf);

/// The outcome of processing one file.
#[derive(Debug)]
pub struct ProcessingResult {
    pub input_path: PathBuf,
    pub output_path: PathBuf,
    pub success: bool,
    pub error: Option<String>,
}

/// Progress of a batch: how many of its files are done, and the file just
/// finished (none in the final report).
#[derive(Debug)]
pub struct BatchProgress {
    pub total_files: usize,
    pub processed_files: usize,
    pub current_file: Option<PathBuf>,
}

impl ProcessingResult {
    /// The record of a file: a success when `error` is `None`.
    pub fn new(input_path: PathBuf, output_path: PathBuf, error: Option<String>) -> (r: ProcessingResult)
        ensures
            r.input_path == input_path,
            r.output_path == output_path,
            r.success == (error is None),
            r.error == error,
    {
        let success = error.is_none();
        ProcessingResult { input_path, output_path, success, error }
    }
}

impl BatchProgress {
    /// The report after the `processed_files`-th of `total_files` files.
    pub fn step(total_files: usize, processed_files: usize, current_file: PathBuf) -> (r: BatchProgress)
        ensures
            r.total_files == total_files,
            r.processed_files == processed_files,
            r.current_file == Some(current_file),
    {
        BatchProgress { total_files, processed_files, current_file: Some(current_file) }
    }

    /// The final report: every file done.
    pub fn finished(total_files: usize) -> (r: BatchProgress)
        ensures
            r.total_files == total_files,
            r.processed_files == total_files,
            r.current_file is None,
    {
        BatchProgress { total_files, processed_files: total_files, current_file: None }
    }
}

} // verus!
