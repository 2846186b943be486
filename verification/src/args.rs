//! The command-line surface, as plain data. Parsing the real command
//! line belongs to the binary around the library.

use vstd::prelude::*;

verus! {

/// What the user asked for: a file to show, and the flags around it.
#[derive(Debug, PartialEq)]
pub struct Args {
    /// Path to the notebook to display.
    pub file: Option<String>,
    /// Run the notebook instead of showing its recorded outputs.
    /// No notebook is ever modified.
    pub run: bool,
    /// Override the detected kernel with another one, given its name.
    pub kernel: Option<String>,
    /// Print a list of installed kernels and exit.
    pub list_kernels: bool,
}

} // verus!
