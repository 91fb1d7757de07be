//! Naming of rendered artifacts. Every ingested message owns exactly one PDF
//! in the staging directory, named deterministically by its message id, so a
//! repeated render overwrites instead of accumulating and delivery can find
//! the file again from the record alone.

use vstd::prelude::*;
use vstd::string::StringExecFns;

verus! {

/// The staging path of the artifact for message id `id`.
pub open spec fn spec_pdf_path(id: Seq<char>) -> Seq<char> {
    "temp-mails/mail-"@ + id + ".pdf"@
}

/// The path of the rendered PDF for one message id: inside the staging
/// directory, named by the id alone.
pub fn get_pdf_path_by_id(id: &String) -> (r: String)
    ensures
        r@ == spec_pdf_path(id@),
{
    let mut s = "temp-mails/mail-".to_owned();
    s.append(id.as_str());
    s.append(".pdf");
    proof {
        assert(s@ =~= spec_pdf_path(id@));
    }
    s
}

} // verus!
