use vstd::prelude::*;

verus! {

/// Words per minute for `word_count` words typed in `elapsed_millis`
/// milliseconds, rounded down; `None` when no time has passed.
pub fn words_per_minute(word_count: u32, elapsed_millis: u64) -> (r: Option<u64>)
    ensures
        r == (if elapsed_millis == 0 {
            None
        } else {
            Some(((word_count as int * 60000) / elapsed_millis as int) as u64)
        }),
{
    if elapsed_millis == 0 {
        return None;
    }
    let scaled: u64 = word_count as u64 * 60000;
    Some(scaled / elapsed_millis)
}

} // verus!
