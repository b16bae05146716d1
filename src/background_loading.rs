use vstd::prelude::*;

verus! {

/// A file fetched in the background and polled once per frame.
pub trait BackgroundLoadable: Sized {
    /// Starts fetching the file at `file_path`.
    fn load_file(file_path: String) -> Self;

    /// Whether the fetch has finished.
    fn check_file(&self) -> bool;

    /// The fetched bytes; to be called once `check_file` holds.
    fn get_file(&self) -> Vec<u8>;
}

} // verus!
