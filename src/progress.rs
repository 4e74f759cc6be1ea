//! Setting up the progress display of a run.

use indicatif::ProgressBar;
use vstd::prelude::*;

verus! {

#[verifier::external_type_specification]
#[verifier::external_body]
pub struct ExProgressBar(indicatif::ProgressBar);

pub assume_specification[ indicatif::ProgressBar::set_length ](pb: &indicatif::ProgressBar, len: u64);

pub assume_specification[ indicatif::ProgressBar::set_message ](pb: &indicatif::ProgressBar, msg: &str);

pub assume_specification[ indicatif::ProgressBar::set_draw_delta ](pb: &indicatif::ProgressBar, n: u64);

pub assume_specification[ indicatif::ProgressBar::set_position ](pb: &indicatif::ProgressBar, pos: u64);

/// Resets a progress bar to `length` steps with a message, redrawing it
/// every hundredth of its length.
pub fn progress_init(bar: &ProgressBar, length: u64, msg: &str) {
    bar.set_length(length);
    bar.set_message(msg);
    bar.set_draw_delta(length / 100);
    bar.set_position(0);
}

} // verus!
