use vstd::prelude::*;

use crate::credentials::entries_lookup_from;
use crate::credentials::lemma_lookup_some_provided;
use crate::credentials::set_map;
use crate::credentials::wf_entries;
use crate::credentials::CredentialSet;
use crate::text::provided;

verus! {

/// How one resolved credential is surfaced to the launched process: as a
/// `--<flag>=<value>` command-line argument, or as an environment variable
/// with a fixed name. A per-deployment choice, never inferred.
pub enum CredentialTarget {
    FlagArg(String),
    EnvVar(String),
}

/// One deployment-defined mapping rule: which credential key to read,
/// whether the launch fails when it is absent, and where its value goes.
pub struct CredentialRule {
    pub key: String,
    pub required: bool,
    pub target: CredentialTarget,
}

/// The sole output handed back to the host: an executable path, an ordered
/// argument list, and an environment mapping with unique keys. Immutable
/// once constructed; the host owns process creation.
#[derive(Debug)]
pub struct InvocationDescriptor {
    pub executable_path: String,
    pub arguments: Vec<String>,
    pub environment: Vec<(String, String)>,
}

/// Why an invocation could not be built.
#[derive(Debug)]
pub enum BuildError {
    CredentialMissing(String),
}

/// The views of a sequence of strings.
pub open spec fn views_of(s: Seq<String>) -> Seq<Seq<char>> {
    s.map_values(|x: String| x@)
}

/// The command-line argument `--<name>=<value>`.
pub open spec fn flag_string(name: Seq<char>, value: Seq<char>) -> Seq<char> {
    "--"@ + name + "="@ + value
}

/// An argument of the shape `--<name>=<value>` whose value is provided.
pub open spec fn is_provided_flag(arg: Seq<char>) -> bool {
    exists|name: Seq<char>, v: Seq<char>| arg == #[trigger] flag_string(name, v) && provided(v)
}

/// The key of the first rule at or after `i` that is required but absent
/// from the credential mapping `m`, if any.
pub open spec fn first_missing_from(
    rules: Seq<CredentialRule>,
    i: int,
    m: Map<Seq<char>, Seq<char>>,
) -> Option<Seq<char>>
    decreases rules.len() - i,
{
    if !(0 <= i < rules.len()) {
        Option::None
    } else if rules[i].required && !m.contains_key(rules[i].key@) {
        Option::Some(rules[i].key@)
    } else {
        first_missing_from(rules, i + 1, m)
    }
}

/// The credential-derived command-line arguments for the rules at or after
/// `i`, in rule order: one `--<flag>=<value>` for each flag-targeted rule
/// whose key the mapping provides.
pub open spec fn cred_args_from(
    rules: Seq<CredentialRule>,
    i: int,
    m: Map<Seq<char>, Seq<char>>,
) -> Seq<Seq<char>>
    decreases rules.len() - i,
{
    if !(0 <= i < rules.len()) {
        Seq::empty()
    } else {
        let rest = cred_args_from(rules, i + 1, m);
        match rules[i].target {
            CredentialTarget::FlagArg(name) => if m.contains_key(rules[i].key@) {
                seq![flag_string(name@, m[rules[i].key@])] + rest
            } else {
                rest
            },
            CredentialTarget::EnvVar(_) => rest,
        }
    }
}

/// The value environment variable `k` receives from the rules at or after
/// `i`: the last environment-targeted rule naming `k` whose key the mapping
/// provides wins (later writes shadow earlier ones).
pub open spec fn env_lookup_from_rules(
    rules: Seq<CredentialRule>,
    i: int,
    m: Map<Seq<char>, Seq<char>>,
    k: Seq<char>,
) -> Option<Seq<char>>
    decreases rules.len() - i,
{
    if !(0 <= i < rules.len()) {
        Option::None
    } else {
        let rest = env_lookup_from_rules(rules, i + 1, m, k);
        match rules[i].target {
            CredentialTarget::EnvVar(name) => if rest is None && name@ == k && m.contains_key(
                rules[i].key@,
            ) {
                Option::Some(m[rules[i].key@])
            } else {
                rest
            },
            CredentialTarget::FlagArg(_) => rest,
        }
    }
}

/// The keys of the rules at or after `i` that are marked required, in rule
/// order — the list a settings schema must declare.
pub open spec fn required_keys_from(rules: Seq<CredentialRule>, i: int) -> Seq<Seq<char>>
    decreases rules.len() - i,
{
    if !(0 <= i < rules.len()) {
        Seq::empty()
    } else {
        let rest = required_keys_from(rules, i + 1);
        if rules[i].required {
            seq![rules[i].key@] + rest
        } else {
            rest
        }
    }
}

/// Builds `--<name>=<value>`.
fn make_flag(name: &str, value: &str) -> (r: String)
    ensures
        r@ == flag_string(name@, value@),
{
    let mut s = "--".to_owned();
    s.append(name);
    s.append("=");
    s.append(value);
    s
}

/// The keys of the required rules, in rule order.
pub fn required_keys(rules: &Vec<CredentialRule>) -> (r: Vec<String>)
    ensures
        views_of(r@) == required_keys_from(rules@, 0),
{
    let n = rules.len();
    let mut out: Vec<String> = Vec::new();
    let mut i: usize = 0;
    while i < n
        invariant
            i <= n,
            n == rules@.len(),
            views_of(out@) + required_keys_from(rules@, i as int) == required_keys_from(rules@, 0),
        decreases n - i,
    {
        let ghost out0 = out@;
        if rules[i].required {
            out.push(rules[i].key.clone());
            proof {
                assert(views_of(out@) =~= views_of(out0) + seq![rules@[i as int].key@]);
            }
        }
        proof {
            assert(views_of(out@) + required_keys_from(rules@, i + 1) =~= views_of(out0)
                + required_keys_from(rules@, i as int));
        }
        i += 1;
    }
    proof {
        assert(views_of(out@) =~= views_of(out@) + required_keys_from(rules@, n as int));
    }
    out
}

/// Assembles the invocation: the fixed deployment arguments first, then the
/// credential-derived arguments in rule order, and the credential-derived
/// environment with unique names (a later rule writing the same name wins).
/// Fails with the first required credential the mapping does not provide,
/// and only then.
pub fn build(
    executable_path: &str,
    base_args: &Vec<String>,
    creds: &CredentialSet,
    rules: &Vec<CredentialRule>,
) -> (r: Result<InvocationDescriptor, BuildError>)
    requires
        executable_path@.len() > 0,
        creds.wf(),
    ensures
        match r {
            Result::Ok(inv) => {
                &&& first_missing_from(rules@, 0, set_map(*creds)) is None
                &&& inv.executable_path@ == executable_path@
                &&& views_of(inv.arguments@) == views_of(base_args@) + cred_args_from(
                    rules@,
                    0,
                    set_map(*creds),
                )
                &&& wf_entries(inv.environment@)
                &&& forall|k: Seq<char>|
                    #[trigger] entries_lookup_from(inv.environment@, 0, k)
                        == env_lookup_from_rules(rules@, 0, set_map(*creds), k)
            },
            Result::Err(e) => match e {
                BuildError::CredentialMissing(key) => first_missing_from(
                    rules@,
                    0,
                    set_map(*creds),
                ) == Option::Some(key@),
            },
        },
{
    let ghost m = set_map(*creds);
    let n = rules.len();

    // Refuse the first required credential that is absent.
    let mut i: usize = 0;
    while i < n
        invariant
            i <= n,
            n == rules@.len(),
            creds.wf(),
            m == set_map(*creds),
            first_missing_from(rules@, 0, m) == first_missing_from(rules@, i as int, m),
        decreases n - i,
    {
        if rules[i].required {
            let found = creds.lookup(rules[i].key.as_str());
            if found.is_none() {
                proof {
                    assert(!m.contains_key(rules@[i as int].key@));
                }
                return Result::Err(BuildError::CredentialMissing(rules[i].key.clone()));
            }
            proof {
                assert(m.contains_key(rules@[i as int].key@));
            }
        }
        i += 1;
    }

    // Fixed arguments first, in their given order.
    let mut args: Vec<String> = Vec::new();
    let bn = base_args.len();
    let mut b: usize = 0;
    while b < bn
        invariant
            b <= bn,
            bn == base_args@.len(),
            args@.len() == b,
            forall|j: int| 0 <= j < b ==> args@[j]@ == base_args@[j]@,
        decreases bn - b,
    {
        args.push(base_args[b].clone());
        b += 1;
    }
    proof {
        assert forall|j: int| 0 <= j < bn implies views_of(args@)[j] == views_of(base_args@)[j] by {
            assert(args@[j]@ == base_args@[j]@);
        };
        assert(views_of(args@) =~= views_of(base_args@));
    }

    // Then the credential-derived arguments, in rule order.
    let mut i2: usize = 0;
    while i2 < n
        invariant
            i2 <= n,
            n == rules@.len(),
            creds.wf(),
            m == set_map(*creds),
            views_of(args@) + cred_args_from(rules@, i2 as int, m) == views_of(base_args@)
                + cred_args_from(rules@, 0, m),
        decreases n - i2,
    {
        let ghost args0 = args@;
        match &rules[i2].target {
            CredentialTarget::FlagArg(name) => {
                let found = creds.lookup(rules[i2].key.as_str());
                match found {
                    Option::Some(v) => {
                        proof {
                            assert(m.contains_key(rules@[i2 as int].key@));
                        }
                        args.push(make_flag(name.as_str(), v.as_str()));
                        proof {
                            assert(views_of(args@) =~= views_of(args0) + seq![
                                flag_string(
                                    rules@[i2 as int].target->FlagArg_0@,
                                    m[rules@[i2 as int].key@],
                                ),
                            ]);
                            assert(views_of(args@) + cred_args_from(rules@, i2 + 1, m)
                                =~= views_of(args0) + cred_args_from(rules@, i2 as int, m));
                        }
                    },
                    Option::None => {
                        proof {
                            assert(!m.contains_key(rules@[i2 as int].key@));
                        }
                    },
                }
            },
            CredentialTarget::EnvVar(_) => {
            },
        }
        i2 += 1;
    }
    proof {
        assert(views_of(args@) =~= views_of(args@) + cred_args_from(rules@, n as int, m));
    }

    // Environment variables, processed from the last rule backwards so that
    // a later rule writing the same name shadows an earlier one.
    let mut env = CredentialSet::new();
    let mut e: usize = n;
    while e > 0
        invariant
            e <= n,
            n == rules@.len(),
            creds.wf(),
            m == set_map(*creds),
            env.wf(),
            forall|k: Seq<char>|
                #[trigger] env.spec_lookup(k) == env_lookup_from_rules(rules@, e as int, m, k),
        decreases e,
    {
        e -= 1;
        let ghost env0 = env;
        match &rules[e].target {
            CredentialTarget::EnvVar(name) => {
                let found = creds.lookup(rules[e].key.as_str());
                match found {
                    Option::Some(v) => {
                        proof {
                            assert(m.contains_key(rules@[e as int].key@));
                            lemma_lookup_some_provided(creds.entries@, 0, rules@[e as int].key@);
                        }
                        env.insert_if_absent(name.clone(), v);
                    },
                    Option::None => {
                        proof {
                            assert(!m.contains_key(rules@[e as int].key@));
                        }
                    },
                }
            },
            CredentialTarget::FlagArg(_) => {
            },
        }
        proof {
            assert forall|k: Seq<char>|
                #[trigger] env.spec_lookup(k) == env_lookup_from_rules(rules@, e as int, m, k) by {
                assert(env0.spec_lookup(k) == env_lookup_from_rules(rules@, e as int + 1, m, k));
            };
        }
    }

    proof {
        assert(first_missing_from(rules@, n as int, m) is None);
        assert forall|k: Seq<char>|
            #[trigger] entries_lookup_from(env.entries@, 0, k) == env_lookup_from_rules(
                rules@,
                0,
                m,
                k,
            ) by {
            assert(env.spec_lookup(k) == env_lookup_from_rules(rules@, 0, m, k));
        };
    }
    Result::Ok(
        InvocationDescriptor {
            executable_path: executable_path.to_owned(),
            arguments: args,
            environment: env.entries,
        },
    )
}

/// Blank values never reach the environment: under a well-formed credential
/// mapping, every environment value the rules can yield is provided.
pub proof fn lemma_env_values_provided(
    rules: Seq<CredentialRule>,
    i: int,
    m: Map<Seq<char>, Seq<char>>,
    k: Seq<char>,
)
    requires
        forall|q: Seq<char>| #[trigger] m.contains_key(q) ==> provided(m[q]),
    ensures
        match env_lookup_from_rules(rules, i, m, k) {
            Option::Some(v) => provided(v),
            Option::None => true,
        },
    decreases rules.len() - i,
{
    if 0 <= i < rules.len() {
        lemma_env_values_provided(rules, i + 1, m, k);
    }
}

/// Blank values never reach the argument list: under a well-formed
/// credential mapping, every credential-derived argument embeds a provided
/// value.
pub proof fn lemma_cred_args_provided(
    rules: Seq<CredentialRule>,
    i: int,
    m: Map<Seq<char>, Seq<char>>,
)
    requires
        forall|q: Seq<char>| #[trigger] m.contains_key(q) ==> provided(m[q]),
    ensures
        forall|j: int|
            0 <= j < cred_args_from(rules, i, m).len() ==> is_provided_flag(
                #[trigger] cred_args_from(rules, i, m)[j],
            ),
    decreases rules.len() - i,
{
    if 0 <= i < rules.len() {
        lemma_cred_args_provided(rules, i + 1, m);
        let rest = cred_args_from(rules, i + 1, m);
        let cur = cred_args_from(rules, i, m);
        match rules[i].target {
            CredentialTarget::FlagArg(name) => {
                if m.contains_key(rules[i].key@) {
                    assert forall|j: int| 0 <= j < cur.len() implies is_provided_flag(
                        #[trigger] cur[j],
                    ) by {
                        if j == 0 {
                            assert(cur[0] == flag_string(name@, m[rules[i].key@]));
                        } else {
                            assert(cur[j] == rest[j - 1]);
                        }
                    };
                }
            },
            CredentialTarget::EnvVar(_) => {
            },
        }
    }
}

} // verus!
