use vstd::prelude::*;

use crate::command;
use crate::command::cred_args_from;
use crate::command::env_lookup_from_rules;
use crate::command::first_missing_from;
use crate::command::is_provided_flag;
use crate::command::lemma_cred_args_provided;
use crate::command::lemma_env_values_provided;
use crate::command::views_of;
use crate::command::BuildError;
use crate::command::CredentialRule;
use crate::command::InvocationDescriptor;
use crate::credentials;
use crate::credentials::entries_lookup_from;
use crate::credentials::lemma_sources_lookup_provided;
use crate::credentials::set_map;
use crate::credentials::sources_map;
use crate::credentials::wf_entries;
use crate::credentials::CredentialSource;
use crate::fetch::FetchError;
use crate::text::provided;

verus! {

/// The outcome the caller reports after carrying out a `FetchAction`.
pub enum FetchOutcome {
    Succeeded,
    Failed(FetchError),
}

/// Why no invocation was produced.
#[derive(Debug)]
pub enum LaunchError {
    FetchFailed(FetchError),
    CredentialMissing(String),
}

/// Finishes a launch request once the fetch step has run. When the fetch
/// failed and the deployment treats that as fatal, the fetch error is
/// returned and command building is never reached. Otherwise the credential
/// sources are resolved in order and the invocation is built; the only
/// remaining failure is the first required credential no source provides.
pub fn complete_launch(
    executable_path: &str,
    base_args: &Vec<String>,
    rules: &Vec<CredentialRule>,
    fail_on_fetch_error: bool,
    fetch_outcome: FetchOutcome,
    sources: &Vec<CredentialSource>,
) -> (r: Result<InvocationDescriptor, LaunchError>)
    requires
        executable_path@.len() > 0,
    ensures
        match r {
            Result::Ok(inv) => {
                &&& !(fetch_outcome is Failed && fail_on_fetch_error)
                &&& first_missing_from(rules@, 0, sources_map(sources@)) is None
                &&& inv.executable_path@ == executable_path@
                &&& views_of(inv.arguments@) == views_of(base_args@) + cred_args_from(
                    rules@,
                    0,
                    sources_map(sources@),
                )
                &&& wf_entries(inv.environment@)
                &&& forall|k: Seq<char>|
                    #[trigger] entries_lookup_from(inv.environment@, 0, k)
                        == env_lookup_from_rules(rules@, 0, sources_map(sources@), k)
            },
            Result::Err(e) => match e {
                LaunchError::FetchFailed(fe) => fail_on_fetch_error && fetch_outcome
                    == FetchOutcome::Failed(fe),
                LaunchError::CredentialMissing(key) => {
                    &&& !(fetch_outcome is Failed && fail_on_fetch_error)
                    &&& first_missing_from(rules@, 0, sources_map(sources@)) == Option::Some(key@)
                },
            },
        },
{
    match fetch_outcome {
        FetchOutcome::Failed(e) => {
            if fail_on_fetch_error {
                return Result::Err(LaunchError::FetchFailed(e));
            }
        },
        FetchOutcome::Succeeded => {},
    }
    let creds = credentials::resolve(sources);
    proof {
        assert(set_map(creds) =~= sources_map(sources@));
    }
    match command::build(executable_path, base_args, &creds, rules) {
        Result::Ok(inv) => Result::Ok(inv),
        Result::Err(BuildError::CredentialMissing(k)) => Result::Err(
            LaunchError::CredentialMissing(k),
        ),
    }
}

/// Blank credential values never reach the environment: whatever the
/// sources hold, every environment value the rules can yield under the
/// resolved mapping is provided (non-blank).
pub proof fn lemma_launch_env_provided(
    rules: Seq<CredentialRule>,
    sources: Seq<CredentialSource>,
    k: Seq<char>,
)
    ensures
        match env_lookup_from_rules(rules, 0, sources_map(sources), k) {
            Option::Some(v) => provided(v),
            Option::None => true,
        },
{
    assert forall|q: Seq<char>| #[trigger] sources_map(sources).contains_key(q) implies provided(
        sources_map(sources)[q],
    ) by {
        lemma_sources_lookup_provided(sources, 0, q);
    };
    lemma_env_values_provided(rules, 0, sources_map(sources), k);
}

/// Blank credential values never reach the argument list: whatever the
/// sources hold, every credential-derived argument under the resolved
/// mapping embeds a provided (non-blank) value.
pub proof fn lemma_launch_args_provided(rules: Seq<CredentialRule>, sources: Seq<CredentialSource>)
    ensures
        forall|j: int|
            0 <= j < cred_args_from(rules, 0, sources_map(sources)).len() ==> is_provided_flag(
                #[trigger] cred_args_from(rules, 0, sources_map(sources))[j],
            ),
{
    assert forall|q: Seq<char>| #[trigger] sources_map(sources).contains_key(q) implies provided(
        sources_map(sources)[q],
    ) by {
        lemma_sources_lookup_provided(sources, 0, q);
    };
    lemma_cred_args_provided(rules, 0, sources_map(sources));
}

} // verus!
