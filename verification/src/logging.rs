//! Log entries: a time stamp, a level and a message on one line.

use vstd::prelude::*;

verus! {

/// The pattern of the time stamp: year, month, day, hour, minute, second.
pub const STAMP_PATTERN: &'static str = "%Y-%m-%d %H:%M:%S";

/// The text of an entry: the stamp in square brackets, the level, a colon, the message.
pub open spec fn entry_text(level: Seq<char>, stamp: Seq<char>, message: Seq<char>) -> Seq<char> {
    "["@ + stamp + "] "@ + level + ": "@ + message
}

/// The entry with this level, stamp and message.
pub fn write_entry(level: &str, stamp: &str, message: &str) -> (r: String)
    ensures
        r@ == entry_text(level@, stamp@, message@),
{
    let mut r = String::from_str("[");
    r.append(stamp);
    r.append("] ");
    r.append(level);
    r.append(": ");
    r.append(message);
    r
}

/// The entry that reports `message` as information at the time `stamp`.
pub fn info(stamp: &str, message: &str) -> (r: String)
    ensures
        r@ == entry_text("INFO"@, stamp@, message@),
{
    write_entry("INFO", stamp, message)
}

/// The entry that reports `message` as an error at the time `stamp`.
pub fn error(stamp: &str, message: &str) -> (r: String)
    ensures
        r@ == entry_text("ERROR"@, stamp@, message@),
{
    write_entry("ERROR", stamp, message)
}

/// One information entry for each line, in the order of the lines, all at the
/// time `stamp`.
pub fn info_lines(stamp: &str, lines: &Vec<String>) -> (r: Vec<String>)
    ensures
        r@.len() == lines@.len(),
        forall|i: int|
            0 <= i < lines@.len() ==> (#[trigger] r@[i])@ == entry_text(
                "INFO"@,
                stamp@,
                lines@[i]@,
            ),
{
    let mut r: Vec<String> = Vec::new();
    let mut i: usize = 0;
    while i < lines.len()
        invariant
            i <= lines@.len(),
            r@.len() == i,
            forall|k: int|
                0 <= k < i ==> (#[trigger] r@[k])@ == entry_text("INFO"@, stamp@, lines@[k]@),
        decreases lines@.len() - i,
    {
        let entry = info(stamp, lines[i].as_str());
        r.push(entry);
        i = i + 1;
    }
    r
}

} // verus!
