use vstd::prelude::*;

verus! {

/// The ways a remap run can fail.
#[derive(Debug, PartialEq, Eq)]
pub enum RemapError {
    /// The source path yields no base name.
    InvalidPath,
    /// The import pattern did not compile.
    RegexCompileError,
    /// Creating a directory or writing a file failed; holds the cause.
    IoError(String),
    /// A base name has been renamed `u64::MAX` times already.
    CounterOverflow,
}

} // verus!
