//! ANSI escape sequences for the terminal output.
use vstd::prelude::*;

verus! {

/// Bold green: category names and success.
pub const BOLD_GREEN: &'static str = "\x1b[1;32m";

/// Bold blue: section headings.
pub const BOLD_BLUE: &'static str = "\x1b[1;34m";

/// Bold cyan: group headings and wizard questions.
pub const BOLD_CYAN: &'static str = "\x1b[1;36m";

/// Bold yellow: warnings and prompts.
pub const BOLD_YELLOW: &'static str = "\x1b[1;33m";

/// Bold red: errors.
pub const BOLD_RED: &'static str = "\x1b[1;31m";

/// White: the `[apply]` mark.
pub const WHITE: &'static str = "\x1b[37m";

/// Dim text.
pub const DIM: &'static str = "\x1b[2m";

/// Dim gray: secondary details.
pub const DIM_GRAY: &'static str = "\x1b[90m";

/// Back to the default style.
pub const RESET: &'static str = "\x1b[0m";

} // verus!
