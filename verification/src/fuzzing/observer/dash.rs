//! The state-hasher observer: after a test it runs the hasher on the file
//! system under test and reads back the hash it prints.

use vstd::prelude::*;

use crate::command::{line_view, CommandWrapper};
use crate::path::RemotePath;
use crate::text::{parse_u64, parse_unsigned, to_chars, trim, trimmed, ParseIntError};

verus! {

/// The arguments of the hasher: `-t` the mount point, `-o` the output file,
/// then `-e` before each pattern of paths to leave out.
pub open spec fn dash_args(fs_dir: Seq<char>, output: Seq<char>, patterns: Seq<Seq<char>>) -> Seq<Seq<char>>
    decreases patterns.len(),
{
    if patterns.len() == 0 {
        seq!["-t"@, fs_dir, "-o"@, output]
    } else {
        dash_args(fs_dir, output, patterns.drop_last()) + seq!["-e"@, patterns.last()]
    }
}

/// The command line that runs the hasher at `dash_path` on `fs_dir`, writing
/// the file listing to `output_path`, leaving out the paths that `patterns`
/// match.
pub fn dash_command(dash_path: &RemotePath, fs_dir: &RemotePath, output_path: &RemotePath, patterns: &Vec<String>) -> (r:
    CommandWrapper)
    ensures
        line_view(r) == (dash_path@, dash_args(fs_dir@, output_path@, patterns@.map_values(|p: String| p@))),
{
    let ghost pv = patterns@.map_values(|p: String| p@);
    let mut dash = CommandWrapper::new(dash_path.base.as_str());
    dash.arg("-t");
    dash.arg(fs_dir.base.as_str());
    dash.arg("-o");
    dash.arg(output_path.base.as_str());
    assert(line_view(dash).1 =~= dash_args(fs_dir@, output_path@, pv.take(0)));
    let mut i: usize = 0;
    while i < patterns.len()
        invariant
            i <= patterns@.len(),
            pv == patterns@.map_values(|p: String| p@),
            line_view(dash) == (dash_path@, dash_args(fs_dir@, output_path@, pv.take(i as int))),
        decreases patterns@.len() - i,
    {
        dash.arg("-e");
        dash.arg(patterns[i].as_str());
        assert(pv.take(i + 1).drop_last() =~= pv.take(i as int));
        assert(line_view(dash).1 =~= dash_args(fs_dir@, output_path@, pv.take(i + 1)));
        i = i + 1;
    }
    assert(pv.take(i as int) =~= pv);
    dash
}

/// The hash the hasher prints: its output, trimmed, as a decimal number.
pub fn parse_dash_hash(stdout: &str) -> (r: Result<u64, ParseIntError>)
    ensures
        r == (match parse_unsigned(trim(stdout@), 10, u64::MAX as nat) {
            Ok(v) => Ok::<u64, ParseIntError>(v as u64),
            Err(e) => Err(ParseIntError { kind: e }),
        }),
{
    let chars = to_chars(stdout);
    let t = trimmed(chars.as_slice());
    parse_u64(t.as_slice())
}

} // verus!
