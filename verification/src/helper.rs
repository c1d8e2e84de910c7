//! The capture helper's bookkeeping: where frames go, which frames are kept,
//! and what each kept frame is called.

use vstd::prelude::*;
use vstd::string::*;
use std::path::PathBuf;
use crate::log::{path_from_str, path_text};
use crate::text::{zero_fill, zero_padded};

verus! {

/// Frames kept per second.
pub const FPS: u64 = 5;

pub open spec fn spec_out_dir() -> Seq<char> {
    "C:\\ProgramData\\naqix-spike-a\\frames"@
}

/// Where the helper writes its PNGs.
pub fn out_dir() -> (p: PathBuf)
    ensures
        path_text(p) == spec_out_dir(),
{
    path_from_str("C:\\ProgramData\\naqix-spike-a\\frames")
}

/// WGC delivers on change, which on a static lock screen can be almost never
/// and during video can be 60/s, so frames are throttled: once the first is
/// written, a frame arriving sooner than `1000 / FPS` ms after the last kept
/// one is dropped.
pub fn should_skip_frame(elapsed_ms: u128, written: u64) -> (skip: bool)
    ensures
        skip == (elapsed_ms < 1000u64 / FPS && written > 0),
{
    elapsed_ms < (1000 / FPS) as u128 && written > 0
}

/// The file name of the `written`-th frame of a run: the tag, a dash, the
/// index in at least five digits, `.png`.
pub open spec fn spec_frame_file_name(tag: Seq<char>, written: u64) -> Seq<char> {
    tag + seq!['-'] + zero_fill(written as nat, 5) + seq!['.', 'p', 'n', 'g']
}

pub fn frame_file_name(tag: &str, written: u64) -> (name: String)
    ensures
        name@ == spec_frame_file_name(tag@, written),
{
    let mut name = String::from_str(tag);
    name.append("-");
    name.append(zero_padded(written, 5).as_str());
    name.append(".png");
    proof {
        reveal_strlit("-");
        reveal_strlit(".png");
        assert(name@ == spec_frame_file_name(tag@, written));
    }
    name
}

/// Progress is logged every five seconds' worth of frames.
pub fn reports_progress(written: u64) -> (r: bool)
    ensures
        r == (written as int % (FPS * 5) == 0),
{
    written % (FPS * 5) == 0
}

} // verus!
