//! File-backed queue: the name of the file that holds a stream of tasks, one
//! task to a line.

use vstd::prelude::*;
use vstd::string::*;

verus! {

/// The name of the file that holds the queue of the stream `stream`: the
/// stream's name with the extension `jsonl`.
pub fn queue_file_name(stream: &str) -> (r: String)
    ensures
        r@ == stream@ + ".jsonl"@,
{
    String::from_str(stream).concat(".jsonl")
}

} // verus!
