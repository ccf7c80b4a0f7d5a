//! What a process launch is given, and the checks made before any process
//! is created.

use crate::error::LaunchError;
use vstd::prelude::*;

verus! {

/// The largest accepted number of terminal rows.
pub const MAX_ROWS: u32 = 10000;

/// The largest accepted number of terminal columns.
pub const MAX_COLS: u32 = 10000;

/// The parameters of one launch. They are fixed once a session exists.
#[derive(Debug)]
pub struct LaunchParams {
    pub command: String,
    pub args: Vec<String>,
    pub working_directory: String,
    pub environment: Vec<(String, String)>,
    pub rows: u32,
    pub cols: u32,
}

/// Rows and columns are positive and within the accepted maximum.
pub open spec fn dimensions_valid(rows: u32, cols: u32) -> bool {
    1 <= rows <= MAX_ROWS && 1 <= cols <= MAX_COLS
}

/// The error, if any, with which a launch is refused before a process is
/// created: an empty command first, then bad dimensions.
pub open spec fn launch_refusal(command: Seq<char>, rows: u32, cols: u32) -> Option<LaunchError> {
    if command.len() == 0 {
        Some(LaunchError::CommandNotFound)
    } else if !dimensions_valid(rows, cols) {
        Some(LaunchError::InvalidDimensions)
    } else {
        None
    }
}

/// Accepts exactly the valid terminal dimensions.
pub fn check_dimensions(rows: u32, cols: u32) -> (r: Result<(), LaunchError>)
    ensures
        r == if dimensions_valid(rows, cols) {
            Ok::<(), LaunchError>(())
        } else {
            Err::<(), LaunchError>(LaunchError::InvalidDimensions)
        },
{
    if rows == 0 || rows > MAX_ROWS || cols == 0 || cols > MAX_COLS {
        Err(LaunchError::InvalidDimensions)
    } else {
        Ok(())
    }
}

impl LaunchParams {
    /// The refusal that these parameters meet, if any.
    pub open spec fn refusal(&self) -> Option<LaunchError> {
        launch_refusal(self.command@, self.rows, self.cols)
    }

    /// Checks the parameters before a launch is attempted.
    pub fn validate(&self) -> (r: Result<(), LaunchError>)
        ensures
            r == match self.refusal() {
                Some(e) => Err::<(), LaunchError>(e),
                None => Ok::<(), LaunchError>(()),
            },
    {
        if self.command.as_str().is_empty() {
            Err(LaunchError::CommandNotFound)
        } else {
            check_dimensions(self.rows, self.cols)
        }
    }
}

} // verus!
