//! Where a job server keeps the artifacts of a job.

use crate::text::append_chars;
use crate::text::append_str;
use crate::text::decimal;
use crate::text::decimal_text;
use crate::text::string_of;
use vstd::prelude::*;

verus! {

/// A project's name as the `gitlab` crate writes it into the path of a
/// request: escaped for use as a single component.
pub uninterp spec fn project_reference(project: Seq<char>) -> Seq<char>;

/// `gitlab::api::common::NameOrId`, made from a name and written out by its
/// `Display`, which escapes the name as one path component. What comes out
/// depends on the name alone; nothing more is claimed of it here.
#[verifier::external_body]
pub(crate) fn reference_of(project: &str) -> (reference: String)
    ensures
        reference@ == project_reference(project@),
{
    gitlab::api::common::NameOrId::from(project).to_string()
}

/// The path, below the root of the server's API, of the artifacts of a job.
pub open spec fn job_endpoint_text(project: Seq<char>, job_id: u64) -> Seq<char> {
    "projects/"@ + project_reference(project) + "/jobs/"@ + decimal_text(job_id as nat)
        + "/artifacts"@
}

/// The path, below the root of the server's API, of the artifacts of a job.
pub fn job_endpoint(project: &str, job_id: u64) -> (path: String)
    ensures
        path@ == job_endpoint_text(project@, job_id),
{
    let reference = reference_of(project);
    let mut out: Vec<char> = Vec::new();
    append_str(&mut out, "projects/");
    append_str(&mut out, reference.as_str());
    append_str(&mut out, "/jobs/");
    append_chars(&mut out, decimal(job_id).as_slice());
    append_str(&mut out, "/artifacts");
    assert(out@ =~= job_endpoint_text(project@, job_id));
    string_of(out.as_slice())
}

} // verus!
