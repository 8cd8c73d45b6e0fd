//! From the text of a file to the text of the shifted file.

use crate::entry::{shifted_entries, SubtitleFile};
use crate::parse::{lemma_parsed_is_shiftable, parse, parsed, ParseError};
use crate::serialize::file_text;
use vstd::prelude::*;
use vstd::string::StringExecFns;

verus! {

/// What is added to the path of a file to name the copy that is kept of it.
pub open spec fn backup_suffix() -> Seq<char> {
    seq!['.', 'o', 'l', 'd']
}

/// The path under which a file is kept as it was: the path of the file with
/// `.old` added.
pub fn backup_path(path: &str) -> (backup: String)
    ensures
        backup@ == path@ + backup_suffix(),
{
    proof {
        reveal_strlit(".old");
        assert(".old"@ =~= backup_suffix());
    }
    let mut backup = String::new();
    backup.append(path);
    backup.append(".old");
    assert(backup@ =~= path@ + backup_suffix());
    backup
}

/// Reads the text of a subtitle file, moves every timestamp by `offset_ns`
/// nanoseconds and lays the file out again.
///
/// The result is the text of the moved entries whenever the text can be
/// read, whatever the offset; otherwise it is the error of the first block
/// that was refused.
pub fn shift_text(source: &str, offset_ns: i64) -> (r: Result<String, ParseError>)
    ensures
        match parsed(source@) {
            Ok(entries) => r matches Ok(text) && text@ == file_text(
                shifted_entries(entries, offset_ns as int),
            ),
            Err(refusal) => r matches Err(error) && error@ == refusal,
        },
{
    match parse(source) {
        Ok(file) => {
            proof {
                lemma_parsed_is_shiftable(source@, offset_ns as int);
            }
            let moved: SubtitleFile = file.shifted(offset_ns).unwrap();
            Ok(moved.serialize())
        },
        Err(error) => Err(error),
    }
}

} // verus!
