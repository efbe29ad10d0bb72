use vstd::prelude::*;

use crate::asset::ArchiveKind;
use crate::asset::ArtifactDescriptor;

verus! {

/// Which stage of materializing an artifact failed.
#[derive(Clone, Copy, PartialEq, Eq, Structural, Debug)]
pub enum FetchErrorKind {
    Network,
    Extraction,
    Permission,
}

/// A failed fetch: the stage that failed, and the underlying cause's text.
/// Whether it is fatal is the caller's configured policy, not decided here.
#[derive(Debug)]
pub struct FetchError {
    pub kind: FetchErrorKind,
    pub detail: String,
}

/// The temporary name a download is written to before being moved into
/// place, derived from the asset filename, so that a half-written artifact
/// is never observed at the destination itself.
pub open spec fn temp_name_spec(filename: Seq<char>) -> Seq<char> {
    filename + ".partial"@
}

/// What ensuring local presence decides to do: nothing when the destination
/// already exists, otherwise one download — written to a temporary name,
/// extracted according to the archive kind, marked executable, and only
/// then moved into place.
pub enum FetchAction {
    UseExisting,
    Download { url: String, temp_name: String, archive_kind: ArchiveKind },
}

/// What `plan_fetch` promises of its plan: an existing destination is left
/// alone; otherwise the download uses the descriptor's URL, a temporary
/// name derived from its filename, and its archive kind.
pub open spec fn plan_matches(a: FetchAction, d: ArtifactDescriptor, destination_exists: bool) -> bool {
    if destination_exists {
        a is UseExisting
    } else {
        match a {
            FetchAction::Download { url, temp_name, archive_kind } => {
                &&& url@ == d.url@
                &&& temp_name@ == temp_name_spec(d.filename@)
                &&& archive_kind == d.archive_kind
            },
            FetchAction::UseExisting => false,
        }
    }
}

/// Decides whether the artifact must be downloaded. The existence probe is
/// made by the caller before any network access; this function performs no
/// I/O itself, which makes the no-redownload guarantee a statement about
/// the plan alone.
pub fn plan_fetch(d: &ArtifactDescriptor, destination_exists: bool) -> (a: FetchAction)
    ensures
        plan_matches(a, *d, destination_exists),
        destination_exists <==> a is UseExisting,
{
    if destination_exists {
        FetchAction::UseExisting
    } else {
        let mut temp_name = d.filename.clone();
        temp_name.append(".partial");
        FetchAction::Download { url: d.url.clone(), temp_name, archive_kind: d.archive_kind }
    }
}

/// Idempotency: once the artifact is present at its destination, the plan
/// holds no download, so a repeated run performs no network access.
pub proof fn lemma_fetch_idempotent(a: FetchAction, d: ArtifactDescriptor)
    requires
        plan_matches(a, d, true),
    ensures
        a is UseExisting,
{
}

} // verus!
