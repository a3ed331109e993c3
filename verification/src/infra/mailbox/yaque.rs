//! File-backed mailbox: the name of the file that holds a stream of
//! messages, one key and message to a line.

use vstd::prelude::*;
use vstd::string::*;

verus! {

/// The name of the file that holds the mailbox of the stream `stream`: the
/// stream's name, then `_mailbox`, with the extension `jsonl`.
pub fn mailbox_file_name(stream: &str) -> (r: String)
    ensures
        r@ == stream@ + "_mailbox.jsonl"@,
{
    String::from_str(stream).concat("_mailbox.jsonl")
}

} // verus!
