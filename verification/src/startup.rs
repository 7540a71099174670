//! What is settled before the first batch.

use vstd::prelude::*;

verus! {

/// The words of the complaint about an output path that is no directory; the
/// path stands before them.
pub open spec fn not_a_folder() -> Seq<char> {
    " is not a valid folder"@
}

/// Decides whether a run may write to `out_path`, given what the file system
/// says of it: the path has to be there and be a directory. Where it is not,
/// the error names the path.
pub fn check_out_dir(out_path: &str, exists: bool, is_dir: bool) -> (checked: Result<(), String>)
    ensures
        checked is Ok <==> exists && is_dir,
        checked matches Err(complaint) ==> complaint@ == out_path@ + not_a_folder(),
{
    if exists && is_dir {
        Ok(())
    } else {
        let mut complaint = String::from_str(out_path);
        complaint.append(" is not a valid folder");
        Err(complaint)
    }
}

} // verus!
