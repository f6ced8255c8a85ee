//! Where the external tools are.
//!
//! Releases ship them next to the program; without that they are left to the
//! search path of the system.
use vstd::prelude::*;
use crate::args;
use crate::args::joined;

verus! {

/// The file name of a tool.
pub fn exe_name(name: &str, windows: bool) -> (r: String)
    ensures
        r@ == (if windows {
            name@ + ".exe"@
        } else {
            name@
        }),
{
    if windows {
        joined(name, ".exe")
    } else {
        String::from_str(name)
    }
}

/// The path of a tool: the shipped file if there is one, else its bare name.
pub open spec fn located(name: Seq<char>, bundled: Option<Seq<char>>) -> Seq<char> {
    match bundled {
        Some(p) => p,
        None => name,
    }
}

/// Decides between a shipped tool, at `bundled` if there is one, and the search
/// path.
pub fn locate(name: &str, bundled: Option<String>) -> (r: String)
    ensures
        r@ == located(name@, args::opt_view(bundled)),
{
    match bundled {
        Some(p) => p,
        None => String::from_str(name),
    }
}

pub fn ffmpeg(bundled: Option<String>) -> (r: String)
    ensures
        r@ == located("ffmpeg"@, args::opt_view(bundled)),
{
    locate("ffmpeg", bundled)
}

pub fn ffprobe(bundled: Option<String>) -> (r: String)
    ensures
        r@ == located("ffprobe"@, args::opt_view(bundled)),
{
    locate("ffprobe", bundled)
}

pub fn rubberband(bundled: Option<String>) -> (r: String)
    ensures
        r@ == located("rubberband"@, args::opt_view(bundled)),
{
    locate("rubberband", bundled)
}

} // verus!
