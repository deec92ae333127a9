//! The refusals the runtime gives, and the words it gives them in.

use crate::network_namespace::EgressNamespaceBlocker;
use crate::text;
use vstd::prelude::*;

verus! {

/// An allowlisted script that nothing declared could make importable inside a composed root.
#[derive(Debug, PartialEq, Eq)]
pub struct UnreachableEntrypoint {
    /// The allowlist entry.
    pub binary: String,
    /// Where it resolved to.
    pub resolved_path: String,
    /// The interpreter its first line names.
    pub interpreter: String,
}

/// How an unreachable entrypoint reads.
pub open spec fn entrypoint_text(e: UnreachableEntrypoint) -> Seq<char> {
    "'"@ + e.binary@ + "' ("@ + e.resolved_path@ + ", interpreted by '"@ + e.interpreter@ + "')"@
}

/// How a list of unreachable entrypoints reads.
pub open spec fn entrypoints_text(v: Seq<UnreachableEntrypoint>) -> Seq<char>
    decreases v.len(),
{
    if v.len() == 0 {
        Seq::empty()
    } else if v.len() == 1 {
        entrypoint_text(v[0])
    } else {
        entrypoints_text(v.drop_last()) + ", "@ + entrypoint_text(v.last())
    }
}

fn list_entrypoints(v: &[UnreachableEntrypoint]) -> (r: String)
    ensures
        r@ == entrypoints_text(v@),
{
    let mut out = String::new();
    let mut i: usize = 0;
    proof {
        assert(out@ =~= entrypoints_text(v@.take(0)));
    }
    while i < v.len()
        invariant
            i <= v@.len(),
            out@ == entrypoints_text(v@.take(i as int)),
        decreases v@.len() - i,
    {
        proof {
            assert(v@.take(i + 1).drop_last() =~= v@.take(i as int));
        }
        if i > 0 {
            out.append(", ");
        }
        let front = text::cat4("'", v[i].binary.as_str(), "' (", v[i].resolved_path.as_str());
        let entry = text::cat4(
            front.as_str(),
            ", interpreted by '",
            v[i].interpreter.as_str(),
            "')",
        );
        let ghost before = out@;
        out.append(entry.as_str());
        proof {
            assert(entry@ == entrypoint_text(v@[i as int]));
            if i == 0 {
                assert(out@ =~= entry@);
            }
        }
        i += 1;
    }
    proof {
        assert(v@.take(v@.len() as int) =~= v@);
    }
    out
}

/// How an artifact is named.
pub open spec fn artifact_text(name: Seq<char>, version: Seq<char>) -> Seq<char> {
    "'"@ + name + "@"@ + version + "'"@
}

fn artifact(name: &str, version: &str) -> (r: String)
    ensures
        r@ == artifact_text(name@, version@),
{
    text::cat5("'", name, "@", version, "'")
}

/// Everything the decisions of this crate can refuse with.
#[derive(Debug, PartialEq, Eq)]
pub enum RuntimeError {
    CgroupDelegationUnavailable { reason: String },
    ShellResourceLimitExceeded { binary: String, limit: String, detail: String },
    ToolDataPathRefused { tool: String, path: String, code: String, detail: String },
    InvalidReadOnlyPath { path: String, message: String },
    InvalidFilesystemScope { scope: String, message: String },
    InvalidNetworkAllowEntry { entry: String, message: String },
    InvalidStateStore { store: String, message: String },
    ShellBinaryPackageUnreachable { entries: Vec<UnreachableEntrypoint> },
    InferenceCredentialNotFound { variable: String, credentials_file: Option<String> },
    ProcessDriverInterfaceMissing {
        name: String,
        version: String,
        expected: String,
        found: Vec<String>,
    },
    HttpDriverExportsProcessInterface { name: String, version: String, exported: Vec<String> },
    ProcessDriverRequiredEnvNotAllowed { name: String, version: String, missing: Vec<String> },
    ProcessDriverLoad { name: String, version: String, message: String },
    ProcessDriverCallFailed { name: String, version: String, call: String, message: String },
    EgressNamespaceUnavailable { blocker: EgressNamespaceBlocker, reason: String },
    PortInUse { port: u16 },
    Runtime(String),
}

/// The words of a refusal.
pub open spec fn message_of(e: RuntimeError) -> Seq<char> {
    match e {
        RuntimeError::CgroupDelegationUnavailable { reason } =>
            "cgroup delegation is unavailable: "@ + reason@,
        RuntimeError::ShellResourceLimitExceeded { binary, limit, detail } => "shell command '"@
            + binary@ + "' exceeded the host resource limit '"@ + limit@ + "': "@ + detail@,
        RuntimeError::ToolDataPathRefused { tool, path, code, detail } => "tool '"@ + tool@
            + "' named data_path '"@ + path@ + "', which was refused ("@ + code@ + "): "@
            + detail@,
        RuntimeError::InvalidReadOnlyPath { path, message } => "invalid read-only path '"@ + path@
            + "': "@ + message@,
        RuntimeError::InvalidFilesystemScope { scope, message } => "invalid filesystem scope '"@
            + scope@ + "': "@ + message@,
        RuntimeError::InvalidNetworkAllowEntry { entry, message } =>
            "invalid network allow entry '"@ + entry@ + "': "@ + message@,
        RuntimeError::InvalidStateStore { store, message } => "invalid state store '"@ + store@
            + "': "@ + message@,
        RuntimeError::ShellBinaryPackageUnreachable { entries } =>
            "capabilities.shell.allow names interpreted entrypoints whose packages nothing declared makes reachable in the 'sealed' composed root: "@
            + entrypoints_text(entries@)
            + "; declare capabilities.shell.interpreter_runtime or staged_runtime for the interpreter, naming the directories it imports from (measure them with `strace -f -e trace=openat`)"@,
        RuntimeError::InferenceCredentialNotFound { variable, credentials_file } =>
            "inference.api_key references ${"@ + variable@ + "}, but neither credentials."@
            + variable@ + " in "@ + (match credentials_file {
                Some(path) => path@,
                None => "the global config"@,
            }) + " nor the environment variable "@ + variable@ + " holds a value"@,
        RuntimeError::ProcessDriverInterfaceMissing { name, version, expected, found } =>
            "inference driver "@ + artifact_text(name@, version@) + " does not export "@ + expected@
            + ", which transport: process requires"@ + (if found@.len() == 0 {
                Seq::empty()
            } else {
                "; it exports "@ + text::join(text::texts(found@), ", "@)
                    + ", so rebuild it against "@ + expected@
            }),
        RuntimeError::HttpDriverExportsProcessInterface { name, version, exported } =>
            "inference driver "@ + artifact_text(name@, version@) + " exports "@ + text::join(
                text::texts(exported@),
                ", "@,
            ) + ", which transport: http does not drive; declare transport: process"@,
        RuntimeError::ProcessDriverRequiredEnvNotAllowed { name, version, missing } =>
            "process driver "@ + artifact_text(name@, version@)
            + " requires environment variables that capabilities.env.allow does not declare: "@
            + text::join(text::texts(missing@), ", "@),
        RuntimeError::ProcessDriverLoad { name, version, message } =>
            "failed to load process driver "@ + artifact_text(name@, version@) + ": "@ + message@,
        RuntimeError::ProcessDriverCallFailed { name, version, call, message } =>
            "process driver "@ + artifact_text(name@, version@) + " "@ + call@ + "() "@ + message@,
        RuntimeError::EgressNamespaceUnavailable { blocker, reason } =>
            "this host cannot give the capsule its own network namespace: "@ + reason@,
        RuntimeError::PortInUse { port } => "port "@ + text::decimal(port as nat)
            + " is already in use"@,
        RuntimeError::Runtime(detail) => detail@,
    }
}

impl RuntimeError {
    /// The words of this refusal.
    pub fn message(&self) -> (r: String)
        ensures
            r@ == message_of(*self),
    {
        match self {
            RuntimeError::CgroupDelegationUnavailable { reason } => text::cat2(
                "cgroup delegation is unavailable: ",
                reason.as_str(),
            ),
            RuntimeError::ShellResourceLimitExceeded { binary, limit, detail } => text::cat6(
                "shell command '",
                binary.as_str(),
                "' exceeded the host resource limit '",
                limit.as_str(),
                "': ",
                detail.as_str(),
            ),
            RuntimeError::ToolDataPathRefused { tool, path, code, detail } => {
                let start = text::cat4("tool '", tool.as_str(), "' named data_path '", path.as_str());
                text::cat5(
                    start.as_str(),
                    "', which was refused (",
                    code.as_str(),
                    "): ",
                    detail.as_str(),
                )
            },
            RuntimeError::InvalidReadOnlyPath { path, message } => text::cat4(
                "invalid read-only path '",
                path.as_str(),
                "': ",
                message.as_str(),
            ),
            RuntimeError::InvalidFilesystemScope { scope, message } => text::cat4(
                "invalid filesystem scope '",
                scope.as_str(),
                "': ",
                message.as_str(),
            ),
            RuntimeError::InvalidNetworkAllowEntry { entry, message } => text::cat4(
                "invalid network allow entry '",
                entry.as_str(),
                "': ",
                message.as_str(),
            ),
            RuntimeError::InvalidStateStore { store, message } => text::cat4(
                "invalid state store '",
                store.as_str(),
                "': ",
                message.as_str(),
            ),
            RuntimeError::ShellBinaryPackageUnreachable { entries } => text::cat3(
                "capabilities.shell.allow names interpreted entrypoints whose packages nothing declared makes reachable in the 'sealed' composed root: ",
                list_entrypoints(entries.as_slice()).as_str(),
                "; declare capabilities.shell.interpreter_runtime or staged_runtime for the interpreter, naming the directories it imports from (measure them with `strace -f -e trace=openat`)",
            ),
            RuntimeError::InferenceCredentialNotFound { variable, credentials_file } => {
                let file: &str = match credentials_file {
                    Some(path) => path.as_str(),
                    None => "the global config",
                };
                text::cat9(
                    "inference.api_key references ${",
                    variable.as_str(),
                    "}, but neither credentials.",
                    variable.as_str(),
                    " in ",
                    file,
                    " nor the environment variable ",
                    variable.as_str(),
                    " holds a value",
                )
            },
            RuntimeError::ProcessDriverInterfaceMissing { name, version, expected, found } => {
                let mut out = text::cat5(
                    "inference driver ",
                    artifact(name.as_str(), version.as_str()).as_str(),
                    " does not export ",
                    expected.as_str(),
                    ", which transport: process requires",
                );
                let ghost front = out@;
                if found.len() > 0 {
                    let more = text::cat4(
                        "; it exports ",
                        text::joined(found.as_slice(), ", ").as_str(),
                        ", so rebuild it against ",
                        expected.as_str(),
                    );
                    out.append(more.as_str());
                } else {
                    proof {
                        assert(front + Seq::<char>::empty() =~= front);
                    }
                }
                out
            },
            RuntimeError::HttpDriverExportsProcessInterface { name, version, exported } => text::cat5(
                "inference driver ",
                artifact(name.as_str(), version.as_str()).as_str(),
                " exports ",
                text::joined(exported.as_slice(), ", ").as_str(),
                ", which transport: http does not drive; declare transport: process",
            ),
            RuntimeError::ProcessDriverRequiredEnvNotAllowed { name, version, missing } => text::cat4(
                "process driver ",
                artifact(name.as_str(), version.as_str()).as_str(),
                " requires environment variables that capabilities.env.allow does not declare: ",
                text::joined(missing.as_slice(), ", ").as_str(),
            ),
            RuntimeError::ProcessDriverLoad { name, version, message } => text::cat4(
                "failed to load process driver ",
                artifact(name.as_str(), version.as_str()).as_str(),
                ": ",
                message.as_str(),
            ),
            RuntimeError::ProcessDriverCallFailed { name, version, call, message } => text::cat6(
                "process driver ",
                artifact(name.as_str(), version.as_str()).as_str(),
                " ",
                call.as_str(),
                "() ",
                message.as_str(),
            ),
            RuntimeError::EgressNamespaceUnavailable { blocker: _, reason } => text::cat2(
                "this host cannot give the capsule its own network namespace: ",
                reason.as_str(),
            ),
            RuntimeError::PortInUse { port } => text::cat3(
                "port ",
                text::decimal_of(*port as u64).as_str(),
                " is already in use",
            ),
            RuntimeError::Runtime(detail) => detail.clone(),
        }
    }
}

// ── Laws ─────────────────────────────────────────────────────────────────────

/// Whether `part` stands somewhere in a text.
pub open spec fn names(message: Seq<char>, part: Seq<char>) -> bool {
    exists|i: int|
        0 <= i <= message.len() - part.len() && #[trigger] message.subrange(i, i + part.len())
            == part
}

proof fn lemma_names(message: Seq<char>, part: Seq<char>, at: nat)
    requires
        at + part.len() <= message.len(),
        message.subrange(at as int, at as int + part.len()) =~= part,
    ensures
        names(message, part),
{
}

/// A refusal names everything it carries: whoever reads it learns which thing was refused, and why.
pub proof fn a_refusal_names_what_it_carries(e: RuntimeError)
    ensures
        ({
            let m = message_of(e);
            match e {
                RuntimeError::CgroupDelegationUnavailable { reason } => reason@.is_suffix_of(m),
                RuntimeError::ShellResourceLimitExceeded { binary, limit, detail } => names(
                    m,
                    binary@,
                ) && names(m, limit@) && detail@.is_suffix_of(m),
                RuntimeError::ToolDataPathRefused { tool, path, code, detail } => names(m, tool@)
                    && names(m, path@) && names(m, code@) && detail@.is_suffix_of(m),
                RuntimeError::InvalidReadOnlyPath { path, message } => names(m, path@)
                    && message@.is_suffix_of(m),
                RuntimeError::InvalidFilesystemScope { scope, message } => names(m, scope@)
                    && message@.is_suffix_of(m),
                RuntimeError::InvalidNetworkAllowEntry { entry, message } => names(m, entry@)
                    && message@.is_suffix_of(m),
                RuntimeError::InvalidStateStore { store, message } => names(m, store@)
                    && message@.is_suffix_of(m),
                RuntimeError::InferenceCredentialNotFound { variable, credentials_file } => names(
                    m,
                    variable@,
                ) && (credentials_file is Some ==> names(m, credentials_file->0@)),
                RuntimeError::ProcessDriverInterfaceMissing { name, version, expected, .. } =>
                    names(m, artifact_text(name@, version@)) && names(m, expected@),
                RuntimeError::HttpDriverExportsProcessInterface { name, version, .. } => names(
                    m,
                    artifact_text(name@, version@),
                ),
                RuntimeError::ProcessDriverRequiredEnvNotAllowed { name, version, missing } =>
                    names(m, artifact_text(name@, version@)) && text::join(
                        text::texts(missing@),
                        ", "@,
                    ).is_suffix_of(m),
                RuntimeError::ProcessDriverLoad { name, version, message } => names(
                    m,
                    artifact_text(name@, version@),
                ) && message@.is_suffix_of(m),
                RuntimeError::ProcessDriverCallFailed { name, version, call, message } => names(
                    m,
                    artifact_text(name@, version@),
                ) && names(m, call@) && message@.is_suffix_of(m),
                RuntimeError::EgressNamespaceUnavailable { reason, .. } => reason@.is_suffix_of(m),
                RuntimeError::PortInUse { port } => names(m, text::decimal(port as nat)),
                RuntimeError::Runtime(detail) => m == detail@,
                RuntimeError::ShellBinaryPackageUnreachable { entries } => names(
                    m,
                    entrypoints_text(entries@),
                ),
            }
        }),
{
    let m = message_of(e);
    match e {
        RuntimeError::ShellResourceLimitExceeded { binary, limit, detail } => {
            let a = "shell command '"@.len();
            let b = a + binary@.len() + "' exceeded the host resource limit '"@.len();
            lemma_names(m, binary@, a);
            lemma_names(m, limit@, b);
        },
        RuntimeError::ToolDataPathRefused { tool, path, code, detail } => {
            let a = "tool '"@.len();
            let b = a + tool@.len() + "' named data_path '"@.len();
            let c = b + path@.len() + "', which was refused ("@.len();
            lemma_names(m, tool@, a);
            lemma_names(m, path@, b);
            lemma_names(m, code@, c);
        },
        RuntimeError::InvalidReadOnlyPath { path, message } => {
            lemma_names(m, path@, "invalid read-only path '"@.len());
        },
        RuntimeError::InvalidFilesystemScope { scope, message } => {
            lemma_names(m, scope@, "invalid filesystem scope '"@.len());
        },
        RuntimeError::InvalidNetworkAllowEntry { entry, message } => {
            lemma_names(m, entry@, "invalid network allow entry '"@.len());
        },
        RuntimeError::InvalidStateStore { store, message } => {
            lemma_names(m, store@, "invalid state store '"@.len());
        },
        RuntimeError::InferenceCredentialNotFound { variable, credentials_file } => {
            let a = "inference.api_key references ${"@.len();
            let b = a + variable@.len() + "}, but neither credentials."@.len() + variable@.len()
                + " in "@.len();
            lemma_names(m, variable@, a);
            if credentials_file is Some {
                lemma_names(m, credentials_file->0@, b);
            }
        },
        RuntimeError::ProcessDriverInterfaceMissing { name, version, expected, found } => {
            let a = "inference driver "@.len();
            let who = artifact_text(name@, version@);
            lemma_names(m, who, a);
            lemma_names(m, expected@, a + who.len() + " does not export "@.len());
        },
        RuntimeError::HttpDriverExportsProcessInterface { name, version, exported } => {
            lemma_names(m, artifact_text(name@, version@), "inference driver "@.len());
        },
        RuntimeError::ProcessDriverRequiredEnvNotAllowed { name, version, missing } => {
            lemma_names(m, artifact_text(name@, version@), "process driver "@.len());
        },
        RuntimeError::ProcessDriverLoad { name, version, message } => {
            lemma_names(m, artifact_text(name@, version@), "failed to load process driver "@.len());
        },
        RuntimeError::ProcessDriverCallFailed { name, version, call, message } => {
            let a = "process driver "@.len();
            let who = artifact_text(name@, version@);
            lemma_names(m, who, a);
            lemma_names(m, call@, a + who.len() + " "@.len());
        },
        RuntimeError::PortInUse { port } => {
            lemma_names(m, text::decimal(port as nat), "port "@.len());
        },
        RuntimeError::ShellBinaryPackageUnreachable { entries } => {
            lemma_names(
                m,
                entrypoints_text(entries@),
                "capabilities.shell.allow names interpreted entrypoints whose packages nothing declared makes reachable in the 'sealed' composed root: "@.len(),
            );
        },
        _ => {},
    }
}

/// A list of entrypoints reads entry by entry, each with its path and its interpreter.
pub proof fn a_list_of_entrypoints_adds_up(v: Seq<UnreachableEntrypoint>, e: UnreachableEntrypoint)
    ensures
        entrypoints_text(v.push(e)) == (if v.len() == 0 {
            Seq::empty()
        } else {
            entrypoints_text(v) + ", "@
        }) + ("'"@ + e.binary@ + "' ("@ + e.resolved_path@ + ", interpreted by '"@
            + e.interpreter@ + "')"@),
{
    assert(v.push(e).drop_last() =~= v);
    assert(v.push(e).last() == e);
    assert(Seq::<char>::empty() + entrypoint_text(e) =~= entrypoint_text(e));
}

/// An artifact is named by its name and its version.
pub proof fn an_artifact_is_its_name_and_version(name: Seq<char>, version: Seq<char>)
    ensures
        artifact_text(name, version) == seq!['\''] + name + seq!['@'] + version + seq!['\''],
{
    reveal_strlit("'");
    reveal_strlit("@");
    assert("'"@ =~= seq!['\'']);
    assert("@"@ =~= seq!['@']);
}

} // verus!
