//! Stage-time reachability: does a granted shell binary have any chance of functioning inside a
//! `sealed` composed root, or only of starting?
//!
//! Two gaps are closed. A script's import closure is not derivable, so a launch is refused when
//! nothing was declared that could cover it. A compiler driver's helpers are not in its own
//! closure, so a warning names each that nothing makes executable.

use crate::codec;
use crate::diagnostics;
use crate::errors::{RuntimeError, UnreachableEntrypoint};
use crate::paths;
use crate::text;
use vstd::prelude::*;

verus! {

/// How much of a candidate file is read to decide whether it is a script.
pub const SHEBANG_PROBE_BYTES: usize = 512;

/// How far a capsule is contained.
#[derive(Debug, Clone, Copy, PartialEq, Eq, Structural)]
pub enum ContainmentClass {
    Advisory,
    Scoped,
    Sealed,
}

/// A staged runtime the manifest declares for a binary.
#[derive(Debug, PartialEq, Eq)]
pub struct StagedRuntimeGrant {
    pub binary: String,
    pub source_path: String,
}

/// The directories the manifest declares for an interpreter.
#[derive(Debug, PartialEq, Eq)]
pub struct InterpreterRuntimeGrant {
    pub binary: String,
    pub dirs: Vec<String>,
}

/// An entry of `shell.allow`, with what this host says of it.
#[derive(Debug, PartialEq, Eq)]
pub struct AllowedBinary {
    pub entry: String,
    /// Where the entry resolves to; the bare name when it resolves to nothing.
    pub resolved: String,
    /// The first bytes of the file there, when they could be read.
    pub head: Option<Vec<u8>>,
}

/// What a capsule's shell policy declares.
#[derive(Debug, PartialEq, Eq)]
pub struct ShellPolicy {
    pub allow: Vec<AllowedBinary>,
    pub staged_runtime: Vec<StagedRuntimeGrant>,
    pub interpreter_runtime: Vec<InterpreterRuntimeGrant>,
}

// ── Shebangs ─────────────────────────────────────────────────────────────────

/// The first word behind `env` that is neither one of its flags nor an assignment.
pub open spec fn env_program(tokens: Seq<Seq<char>>) -> Option<Seq<char>>
    decreases tokens.len(),
{
    if tokens.len() == 0 {
        None
    } else if text::begins(tokens[0], '-') || tokens[0].contains('=') {
        env_program(tokens.drop_first())
    } else {
        Some(tokens[0])
    }
}

/// The bare name of the interpreter a shebang line names, one level of `env` resolved.
pub open spec fn interpreter_of_line(line: Seq<char>) -> Option<Seq<char>> {
    let tokens = text::words(line);
    if tokens.len() == 0 {
        None
    } else {
        match paths::file_name(paths::path_of(tokens[0])) {
            None => None,
            Some(target) => if target != "env"@ {
                Some(target)
            } else {
                match env_program(tokens.drop_first()) {
                    Some(program) => paths::file_name(paths::path_of(program)),
                    None => Some(target),
                }
            },
        }
    }
}

/// The bytes up to the first line end, a carriage return counting as one.
pub open spec fn first_line(bytes: Seq<u8>) -> Seq<u8>
    decreases bytes.len(),
{
    if bytes.len() == 0 || bytes[0] == 10 || bytes[0] == 13 {
        Seq::empty()
    } else {
        seq![bytes[0]] + first_line(bytes.drop_first())
    }
}

/// The shebang line of the bytes a file starts with, without its `#!`; nothing when it is no
/// script.
pub open spec fn shebang_line(head: Seq<u8>) -> Option<Seq<u8>> {
    let probe = if head.len() > SHEBANG_PROBE_BYTES {
        head.take(SHEBANG_PROBE_BYTES as int)
    } else {
        head
    };
    if probe.len() >= 2 && probe[0] == 35 && probe[1] == 33 {
        Some(first_line(probe.skip(2)))
    } else {
        None
    }
}

/// The interpreter a script's first bytes name.
pub open spec fn shebang_of(head: Option<Seq<u8>>) -> Option<Seq<char>> {
    match head {
        Some(bytes) => match shebang_line(bytes) {
            Some(line) => interpreter_of_line(codec::lossy_text(line)),
            None => None,
        },
        None => None,
    }
}

/// The bare name of the interpreter a shebang line names.
pub fn interpreter_in_line(line: &str) -> (r: Option<String>)
    ensures
        text::opt_text(r) == interpreter_of_line(line@),
{
    let tokens = text::split_words(line);
    let ghost all = text::words(line@);
    proof {
        assert(all == text::texts(tokens@));
        assert(all.len() == tokens@.len());
    }
    if tokens.len() == 0 {
        return None;
    }
    proof {
        assert(all[0] == tokens@[0]@);
    }
    let target = match paths::file_name_of(tokens[0].as_str()) {
        Some(target) => target,
        None => return None,
    };
    if !text::same(target.as_str(), "env") {
        return Some(target);
    }
    let mut i: usize = 1;
    let ghost rest = all.drop_first();
    proof {
        assert(all.skip(1) =~= rest);
    }
    while i < tokens.len()
        invariant
            1 <= i <= tokens@.len(),
            all == text::texts(tokens@),
            rest == all.drop_first(),
            env_program(all.skip(i as int)) == env_program(rest),
            interpreter_of_line(line@) == (match env_program(rest) {
                Some(program) => paths::file_name(paths::path_of(program)),
                None => Some(target@),
            }),
        decreases tokens@.len() - i,
    {
        proof {
            assert(all.skip(i as int)[0] == tokens@[i as int]@);
            assert(all.skip(i as int).drop_first() =~= all.skip(i + 1));
        }
        let token = tokens[i].as_str();
        if !text::begins_with(token, '-') && !text::contains_char(token, '=') {
            return paths::file_name_of(token);
        }
        i += 1;
    }
    Some(target)
}

/// The shebang line of the bytes a file starts with, without its `#!`.
pub fn shebang_line_of(head: &[u8]) -> (r: Option<Vec<u8>>)
    ensures
        match (r, shebang_line(head@)) {
            (Some(line), Some(wanted)) => line@ == wanted,
            (None, None) => true,
            _ => false,
        },
{
    let bound: usize = if head.len() > SHEBANG_PROBE_BYTES {
        SHEBANG_PROBE_BYTES
    } else {
        head.len()
    };
    let ghost probe = if head@.len() > SHEBANG_PROBE_BYTES {
        head@.take(SHEBANG_PROBE_BYTES as int)
    } else {
        head@
    };
    proof {
        assert(probe.len() == bound);
        assert(forall|j: int| 0 <= j < bound ==> #[trigger] probe[j] == head@[j]);
    }
    if bound < 2 || head[0] != 35 || head[1] != 33 {
        return None;
    }
    let ghost rest = probe.skip(2);
    let mut line: Vec<u8> = Vec::new();
    let mut i: usize = 2;
    proof {
        assert(probe.skip(2) =~= rest);
        assert(line@ + first_line(rest) =~= first_line(rest));
    }
    while i < bound && head[i] != 10 && head[i] != 13
        invariant
            2 <= i <= bound <= head@.len(),
            probe.len() == bound,
            forall|j: int| 0 <= j < bound ==> #[trigger] probe[j] == head@[j],
            rest == probe.skip(2),
            line@ + first_line(probe.skip(i as int)) == first_line(rest),
        decreases bound - i,
    {
        let ghost before = line@;
        let ghost here = probe.skip(i as int);
        line.push(head[i]);
        proof {
            assert(here[0] == head@[i as int]);
            assert(here.drop_first() =~= probe.skip(i + 1));
            assert(before + (seq![here[0]] + first_line(here.drop_first())) =~= line@
                + first_line(probe.skip(i + 1)));
        }
        i += 1;
    }
    proof {
        let here = probe.skip(i as int);
        if i < bound {
            assert(here[0] == head@[i as int]);
        }
        assert(line@ + first_line(here) =~= line@);
    }
    Some(line)
}

/// The interpreter a script's first bytes name; nothing for what is no script or could not be
/// read.
pub fn shebang_interpreter_name(head: &Option<Vec<u8>>) -> (r: Option<String>)
    ensures
        text::opt_text(r) == shebang_of(
            match *head {
                Some(bytes) => Some(bytes@),
                None => None,
            },
        ),
{
    match head {
        Some(bytes) => match shebang_line_of(bytes.as_slice()) {
            Some(line) => interpreter_in_line(codec::decode_lossy(line.as_slice()).as_str()),
            None => None,
        },
        None => None,
    }
}

// ── What the manifest declared ───────────────────────────────────────────────

/// Whether a path is one of the roots or sits beneath one, component by component.
pub open spec fn beneath(path: Seq<char>, roots: Seq<Seq<char>>) -> bool {
    exists|i: int|
        0 <= i < roots.len() && paths::below(
            paths::path_of(path),
            paths::path_of(#[trigger] roots[i]),
        ) is Some
}

/// Whether a path is one of the roots or sits beneath one.
pub fn under_any(path: &str, roots: &[String]) -> (r: bool)
    ensures
        r == beneath(path@, text::texts(roots@)),
{
    let p = paths::parse(path);
    let ghost all = text::texts(roots@);
    let mut i: usize = 0;
    while i < roots.len()
        invariant
            i <= roots@.len(),
            all == text::texts(roots@),
            p@ == paths::path_of(path@),
            forall|j: int|
                0 <= j < i ==> paths::below(
                    paths::path_of(path@),
                    paths::path_of(#[trigger] all[j]),
                ) is None,
        decreases roots@.len() - i,
    {
        proof {
            assert(all[i as int] == roots@[i as int]@);
        }
        if paths::strip(&p, &paths::parse(roots[i].as_str())).is_some() {
            return true;
        }
        i += 1;
    }
    false
}

/// The absolute ones of a list of paths.
pub open spec fn absolute_ones(v: Seq<Seq<char>>) -> Seq<Seq<char>>
    decreases v.len(),
{
    if v.len() == 0 {
        Seq::empty()
    } else if text::begins(v.last(), '/') {
        absolute_ones(v.drop_last()).push(v.last())
    } else {
        absolute_ones(v.drop_last())
    }
}

/// The source paths of staged runtimes.
pub open spec fn sources(v: Seq<StagedRuntimeGrant>) -> Seq<Seq<char>> {
    v.map_values(|g: StagedRuntimeGrant| g.source_path@)
}

/// The directories of interpreter runtimes.
pub open spec fn runtime_dirs(v: Seq<InterpreterRuntimeGrant>) -> Seq<Seq<char>>
    decreases v.len(),
{
    if v.len() == 0 {
        Seq::empty()
    } else {
        runtime_dirs(v.drop_last()) + text::texts(v.last().dirs@)
    }
}

/// Every absolute directory the manifest named.
pub open spec fn declared_dirs(policy: ShellPolicy) -> Seq<Seq<char>> {
    absolute_ones(sources(policy.staged_runtime@) + runtime_dirs(policy.interpreter_runtime@))
}

/// Whether a grant names a binary.
pub open spec fn granted(policy: ShellPolicy, binary: Seq<char>) -> bool {
    (exists|i: int|
        0 <= i < policy.staged_runtime@.len() && (#[trigger] policy.staged_runtime@[i]).binary@
            == binary) || (exists|i: int|
        0 <= i < policy.interpreter_runtime@.len() && (
        #[trigger] policy.interpreter_runtime@[i]).binary@ == binary)
}

fn keep_absolute(v: &[String]) -> (r: Vec<String>)
    ensures
        text::texts(r@) == absolute_ones(text::texts(v@)),
{
    let ghost all = text::texts(v@);
    let mut out: Vec<String> = Vec::new();
    let mut i: usize = 0;
    proof {
        assert(text::texts(out@) =~= absolute_ones(all.take(0)));
    }
    while i < v.len()
        invariant
            i <= v@.len(),
            all == text::texts(v@),
            text::texts(out@) == absolute_ones(all.take(i as int)),
        decreases v@.len() - i,
    {
        proof {
            assert(all.take(i + 1).drop_last() =~= all.take(i as int));
            assert(all.take(i + 1).last() == v@[i as int]@);
        }
        if text::begins_with(v[i].as_str(), '/') {
            let ghost before = out@;
            out.push(v[i].clone());
            proof {
                assert(text::texts(out@) =~= text::texts(before).push(v@[i as int]@));
            }
        }
        i += 1;
    }
    proof {
        assert(all.take(all.len() as int) =~= all);
    }
    out
}

/// Every absolute directory the manifest named: each staged source and each interpreter directory.
pub fn declared_grant_dirs(policy: &ShellPolicy) -> (r: Vec<String>)
    ensures
        text::texts(r@) == declared_dirs(*policy),
{
    let ghost first = sources(policy.staged_runtime@);
    let mut all: Vec<String> = Vec::new();
    let mut i: usize = 0;
    proof {
        assert(text::texts(all@) =~= first.take(0));
    }
    while i < policy.staged_runtime.len()
        invariant
            i <= policy.staged_runtime@.len(),
            first == sources(policy.staged_runtime@),
            text::texts(all@) == first.take(i as int),
        decreases policy.staged_runtime@.len() - i,
    {
        let ghost before = all@;
        all.push(policy.staged_runtime[i].source_path.clone());
        proof {
            assert(text::texts(all@) =~= text::texts(before).push(
                policy.staged_runtime@[i as int].source_path@,
            ));
            assert(first.take(i + 1) =~= first.take(i as int).push(first[i as int]));
        }
        i += 1;
    }
    proof {
        assert(first.take(first.len() as int) =~= first);
        assert(first + runtime_dirs(policy.interpreter_runtime@.take(0)) =~= first);
    }
    let mut j: usize = 0;
    while j < policy.interpreter_runtime.len()
        invariant
            j <= policy.interpreter_runtime@.len(),
            text::texts(all@) == first + runtime_dirs(policy.interpreter_runtime@.take(j as int)),
        decreases policy.interpreter_runtime@.len() - j,
    {
        let mut more = text::clone_texts(policy.interpreter_runtime[j].dirs.as_slice());
        let ghost before = all@;
        let ghost added = more@;
        all.append(&mut more);
        proof {
            let grants = policy.interpreter_runtime@;
            assert(grants.take(j + 1).drop_last() =~= grants.take(j as int));
            assert(text::texts(all@) =~= text::texts(before) + text::texts(added));
            assert(first + runtime_dirs(grants.take(j as int)) + text::texts(added) =~= first + (
            runtime_dirs(grants.take(j as int)) + text::texts(added)));
        }
        j += 1;
    }
    proof {
        assert(policy.interpreter_runtime@.take(policy.interpreter_runtime@.len() as int)
            =~= policy.interpreter_runtime@);
    }
    keep_absolute(all.as_slice())
}

fn is_granted(policy: &ShellPolicy, binary: &str) -> (r: bool)
    ensures
        r == granted(*policy, binary@),
{
    let mut i: usize = 0;
    while i < policy.staged_runtime.len()
        invariant
            i <= policy.staged_runtime@.len(),
            forall|k: int|
                0 <= k < i ==> (#[trigger] policy.staged_runtime@[k]).binary@ != binary@,
        decreases policy.staged_runtime@.len() - i,
    {
        if text::same(policy.staged_runtime[i].binary.as_str(), binary) {
            return true;
        }
        i += 1;
    }
    let mut j: usize = 0;
    while j < policy.interpreter_runtime.len()
        invariant
            j <= policy.interpreter_runtime@.len(),
            forall|k: int|
                0 <= k < policy.staged_runtime@.len() ==> (
                #[trigger] policy.staged_runtime@[k]).binary@ != binary@,
            forall|k: int|
                0 <= k < j ==> (#[trigger] policy.interpreter_runtime@[k]).binary@ != binary@,
        decreases policy.interpreter_runtime@.len() - j,
    {
        if text::same(policy.interpreter_runtime[j].binary.as_str(), binary) {
            return true;
        }
        j += 1;
    }
    false
}

// ── Interpreted entrypoints ──────────────────────────────────────────────────

/// An unreachable entrypoint, for contracts.
#[verifier::ext_equal]
pub struct EntrypointView {
    pub binary: Seq<char>,
    pub resolved_path: Seq<char>,
    pub interpreter: Seq<char>,
}

/// What a list of unreachable entrypoints stands for.
pub open spec fn entrypoint_views(v: Seq<UnreachableEntrypoint>) -> Seq<EntrypointView> {
    v.map_values(
        |e: UnreachableEntrypoint|
            EntrypointView {
                binary: e.binary@,
                resolved_path: e.resolved_path@,
                interpreter: e.interpreter@,
            },
    )
}

/// The bytes a file starts with, for contracts.
pub open spec fn head_bytes(b: AllowedBinary) -> Option<Seq<u8>> {
    match b.head {
        Some(bytes) => Some(bytes@),
        None => None,
    }
}

/// The interpreter of an allowed binary that nothing covers. A script is covered by living in the
/// fixed sealed tree or in a declared one, or by a grant that names it or its interpreter. What is
/// no script, or resolves to nothing, needs no cover.
pub open spec fn uncovered(policy: ShellPolicy, sealed: Seq<Seq<char>>, b: AllowedBinary) -> Option<
    Seq<char>,
> {
    if b.entry@.len() == 0 || !text::begins(b.resolved@, '/') || beneath(b.resolved@, sealed)
        || beneath(b.resolved@, declared_dirs(policy)) {
        None
    } else {
        match shebang_of(head_bytes(b)) {
            Some(interpreter) => if granted(policy, b.entry@) || granted(policy, interpreter) {
                None
            } else {
                Some(interpreter)
            },
            None => None,
        }
    }
}

/// The uncovered scripts among a list of allowed binaries.
pub open spec fn unreachable(
    policy: ShellPolicy,
    sealed: Seq<Seq<char>>,
    allow: Seq<AllowedBinary>,
) -> Seq<EntrypointView>
    decreases allow.len(),
{
    if allow.len() == 0 {
        Seq::empty()
    } else {
        let before = unreachable(policy, sealed, allow.drop_last());
        match uncovered(policy, sealed, allow.last()) {
            Some(interpreter) => before.push(
                EntrypointView {
                    binary: allow.last().entry@,
                    resolved_path: allow.last().resolved@,
                    interpreter,
                },
            ),
            None => before,
        }
    }
}

/// Whether a result refuses exactly when a sealed capsule has an uncovered script, and names every
/// one of them.
pub open spec fn refuses_unreachable(
    policy: ShellPolicy,
    floor: ContainmentClass,
    sealed: Seq<Seq<char>>,
    r: Result<(), RuntimeError>,
) -> bool {
    let found = unreachable(policy, sealed, policy.allow@);
    if floor != ContainmentClass::Sealed || found.len() == 0 {
        r is Ok
    } else {
        match r {
            Err(RuntimeError::ShellBinaryPackageUnreachable { entries }) => entrypoint_views(
                entries@,
            ) == found,
            _ => false,
        }
    }
}

/// Refuses a `sealed` capsule whose shell allowlist names a script that nothing declared could
/// make importable. `sealed_paths` is the tree that is bound whole into every composed root.
pub fn check_interpreted_entrypoints_reachable(
    policy: &ShellPolicy,
    declared_floor: ContainmentClass,
    sealed_paths: &[String],
) -> (r: Result<(), RuntimeError>)
    ensures
        refuses_unreachable(*policy, declared_floor, text::texts(sealed_paths@), r),
        declared_floor != ContainmentClass::Sealed ==> r is Ok,
        r is Err <==> declared_floor is Sealed && exists|i: int|
            0 <= i < policy.allow@.len() && uncovered(
                *policy,
                text::texts(sealed_paths@),
                #[trigger] policy.allow@[i],
            ) is Some,
{
    proof {
        lemma_unreachable(*policy, text::texts(sealed_paths@), policy.allow@);
    }
    if declared_floor != ContainmentClass::Sealed {
        return Ok(());
    }
    let ghost sealed = text::texts(sealed_paths@);
    let declared = declared_grant_dirs(policy);
    let mut entries: Vec<UnreachableEntrypoint> = Vec::new();
    let mut i: usize = 0;
    proof {
        assert(entrypoint_views(entries@) =~= unreachable(*policy, sealed, policy.allow@.take(0)));
        reveal_strlit("");
    }
    while i < policy.allow.len()
        invariant
            i <= policy.allow@.len(),
            sealed == text::texts(sealed_paths@),
            text::texts(declared@) == declared_dirs(*policy),
            ""@.len() == 0,
            entrypoint_views(entries@) == unreachable(
                *policy,
                sealed,
                policy.allow@.take(i as int),
            ),
        decreases policy.allow@.len() - i,
    {
        proof {
            assert(policy.allow@.take(i + 1).drop_last() =~= policy.allow@.take(i as int));
        }
        let b = &policy.allow[i];
        proof {
            if b.entry@.len() == 0 {
                assert(b.entry@ =~= ""@);
            }
        }
        if !text::same(b.entry.as_str(), "") && text::begins_with(b.resolved.as_str(), '/')
            && !under_any(b.resolved.as_str(), sealed_paths) && !under_any(
            b.resolved.as_str(),
            declared.as_slice(),
        ) {
            if let Some(interpreter) = shebang_interpreter_name(&b.head) {
                if !is_granted(policy, b.entry.as_str()) && !is_granted(
                    policy,
                    interpreter.as_str(),
                ) {
                    let ghost before = entries@;
                    let ghost added = EntrypointView {
                        binary: b.entry@,
                        resolved_path: b.resolved@,
                        interpreter: interpreter@,
                    };
                    entries.push(
                        UnreachableEntrypoint {
                            binary: b.entry.clone(),
                            resolved_path: b.resolved.clone(),
                            interpreter,
                        },
                    );
                    proof {
                        assert(entrypoint_views(entries@) =~= entrypoint_views(before).push(added));
                    }
                }
            }
        }
        i += 1;
    }
    proof {
        assert(policy.allow@.take(policy.allow@.len() as int) =~= policy.allow@);
        assert(entrypoint_views(entries@).len() == entries@.len());
    }
    if entries.len() == 0 {
        Ok(())
    } else {
        Err(RuntimeError::ShellBinaryPackageUnreachable { entries })
    }
}

// ── Toolchain helpers ────────────────────────────────────────────────────────

/// The helpers a compiler driver of that name execs, asked of the drivers that can be asked.
pub open spec fn helpers_of(driver: Seq<char>) -> Seq<Seq<char>> {
    if driver == "cc"@ || driver == "gcc"@ {
        seq!["cc1"@, "cc1plus"@, "as"@, "ld"@, "collect2"@]
    } else if driver == "g++"@ || driver == "c++"@ {
        seq!["cc1plus"@, "as"@, "ld"@, "collect2"@]
    } else {
        Seq::empty()
    }
}

/// The helpers to ask about for an allowlist entry; none when it is no known driver.
pub open spec fn helpers_for_entry(entry: Seq<char>) -> Seq<Seq<char>> {
    match paths::file_name(paths::path_of(entry)) {
        Some(name) => helpers_of(name),
        None => Seq::empty(),
    }
}

/// The helpers to ask about for an allowlist entry.
pub fn toolchain_helpers(entry: &str) -> (r: Vec<String>)
    ensures
        text::texts(r@) == helpers_for_entry(entry@),
        r@.len() == 0 || r@.len() == 4 || r@.len() == 5,
{
    let mut out: Vec<String> = Vec::new();
    proof {
        assert(text::texts(out@) =~= Seq::<Seq<char>>::empty());
    }
    let name = match paths::file_name_of(entry) {
        Some(name) => name,
        None => return out,
    };
    let both = text::same(name.as_str(), "cc") || text::same(name.as_str(), "gcc");
    if both || text::same(name.as_str(), "g++") || text::same(name.as_str(), "c++") {
        if both {
            out.push("cc1".to_owned());
        }
        out.push("cc1plus".to_owned());
        out.push("as".to_owned());
        out.push("ld".to_owned());
        out.push("collect2".to_owned());
        proof {
            assert(text::texts(out@) =~= helpers_of(name@));
        }
    }
    out
}

/// The path a driver's answer to `-print-prog-name=` points at, before it is looked up: an
/// absolute answer as it stands, and the helper's own name as the host's `PATH` resolves it.
pub open spec fn answered_path(
    success: bool,
    stdout: Seq<char>,
    helper: Seq<char>,
    on_path: Seq<char>,
) -> Option<Seq<char>> {
    let printed = text::trim(stdout);
    if !success || printed.len() == 0 {
        None
    } else {
        let candidate = if printed == helper {
            on_path
        } else {
            printed
        };
        if text::begins(candidate, '/') {
            Some(candidate)
        } else {
            None
        }
    }
}

/// The path a driver's answer points at, before it is looked up. A driver that does not know the
/// question answers nothing usable.
pub fn probe_helper_path(success: bool, stdout: &str, helper: &str, on_path: &str) -> (r: Option<
    String,
>)
    ensures
        text::opt_text(r) == answered_path(success, stdout@, helper@, on_path@),
        !success ==> r is None,
        r is Some ==> text::begins(r->0@, '/'),
        success && text::begins(text::trim(stdout@), '/') && text::trim(stdout@) != helper@
            ==> r is Some && r->0@ == text::trim(stdout@),
        success && helper@.len() > 0 && text::trim(stdout@) == helper@ && text::begins(
            on_path@,
            '/',
        ) ==> r is Some && r->0@ == on_path@,
{
    if !success || text::is_blank(stdout) {
        return None;
    }
    let printed = text::trimmed(stdout);
    let candidate = if text::same(printed.as_str(), helper) {
        on_path.to_owned()
    } else {
        printed
    };
    if text::begins_with(candidate.as_str(), '/') {
        Some(candidate)
    } else {
        None
    }
}

/// Where a driver said that a helper lives, as it was looked up on this host.
#[derive(Debug, PartialEq, Eq)]
pub struct HelperAnswer {
    /// The driver, as it resolved.
    pub driver: String,
    pub helper: String,
    pub path: String,
}

/// One compiler driver whose helper nothing makes executable.
#[derive(Debug, PartialEq, Eq)]
pub struct ToolchainHelperWarning {
    /// The allowlist entry that named the driver, verbatim.
    pub driver: String,
    pub helper: String,
    /// Where the driver said the helper lives.
    pub resolved_path: String,
}

/// What a [`ToolchainHelperWarning`] stands for.
#[verifier::ext_equal]
pub struct WarningView {
    pub driver: Seq<char>,
    pub helper: Seq<char>,
    pub resolved_path: Seq<char>,
}

impl View for ToolchainHelperWarning {
    type V = WarningView;

    open spec fn view(&self) -> WarningView {
        WarningView {
            driver: self.driver@,
            helper: self.helper@,
            resolved_path: self.resolved_path@,
        }
    }
}

/// What a list of warnings stands for.
pub open spec fn warning_views(v: Seq<ToolchainHelperWarning>) -> Seq<WarningView> {
    v.map_values(|w: ToolchainHelperWarning| w@)
}

/// The first answer a driver gave for a helper.
pub open spec fn helper_path(
    answers: Seq<HelperAnswer>,
    driver: Seq<char>,
    helper: Seq<char>,
) -> Option<Seq<char>>
    decreases answers.len(),
{
    if answers.len() == 0 {
        None
    } else if answers[0].driver@ == driver && answers[0].helper@ == helper {
        Some(answers[0].path@)
    } else {
        helper_path(answers.drop_first(), driver, helper)
    }
}

/// Whether a helper has a grant that carries the right to execute: it lives in a declared
/// directory, or it is allowlisted by name or by where another entry resolves to. Living in the
/// fixed sealed tree is no such grant.
pub open spec fn covered_helper(policy: ShellPolicy, helper: Seq<char>, path: Seq<char>) -> bool {
    ||| beneath(path, declared_dirs(policy))
    ||| exists|i: int|
        0 <= i < policy.allow@.len() && (#[trigger] policy.allow@[i]).entry@ == helper
    ||| exists|i: int|
        0 <= i < policy.allow@.len() && (#[trigger] policy.allow@[i]).entry@.len() > 0
            && paths::path_of(policy.allow@[i].resolved@) == paths::path_of(path)
}

/// Whether a list of warnings names a helper at a path, whatever the driver.
pub open spec fn named(held: Seq<WarningView>, helper: Seq<char>, path: Seq<char>) -> bool {
    exists|k: int|
        0 <= k < held.len() && (#[trigger] held[k]).helper == helper && held[k].resolved_path
            == path
}

/// A list of warnings with those for a driver's helpers added; a helper that is named already, for
/// this driver or for another that reaches the same one, is not named again.
pub open spec fn with_helpers(
    policy: ShellPolicy,
    answers: Seq<HelperAnswer>,
    driver: AllowedBinary,
    helpers: Seq<Seq<char>>,
    before: Seq<WarningView>,
) -> Seq<WarningView>
    decreases helpers.len(),
{
    if helpers.len() == 0 {
        before
    } else {
        let held = with_helpers(policy, answers, driver, helpers.drop_last(), before);
        let helper = helpers.last();
        match helper_path(answers, driver.resolved@, helper) {
            Some(path) => {
                let warning = WarningView { driver: driver.entry@, helper, resolved_path: path };
                if covered_helper(policy, helper, path) || named(held, helper, path) {
                    held
                } else {
                    held.push(warning)
                }
            },
            None => held,
        }
    }
}

/// The warnings for a list of allowed binaries.
pub open spec fn helper_warnings(
    policy: ShellPolicy,
    answers: Seq<HelperAnswer>,
    allow: Seq<AllowedBinary>,
) -> Seq<WarningView>
    decreases allow.len(),
{
    if allow.len() == 0 {
        Seq::empty()
    } else {
        let before = helper_warnings(policy, answers, allow.drop_last());
        if text::begins(allow.last().resolved@, '/') {
            with_helpers(
                policy,
                answers,
                allow.last(),
                helpers_for_entry(allow.last().entry@),
                before,
            )
        } else {
            before
        }
    }
}

fn find_answer(answers: &[HelperAnswer], driver: &str, helper: &str) -> (r: Option<String>)
    ensures
        text::opt_text(r) == helper_path(answers@, driver@, helper@),
{
    let mut i: usize = 0;
    proof {
        assert(answers@.skip(0) =~= answers@);
    }
    while i < answers.len()
        invariant
            i <= answers@.len(),
            helper_path(answers@.skip(i as int), driver@, helper@) == helper_path(
                answers@,
                driver@,
                helper@,
            ),
        decreases answers@.len() - i,
    {
        proof {
            assert(answers@.skip(i as int)[0] == answers@[i as int]);
            assert(answers@.skip(i as int).drop_first() =~= answers@.skip(i + 1));
        }
        if text::same(answers[i].driver.as_str(), driver) && text::same(
            answers[i].helper.as_str(),
            helper,
        ) {
            return Some(answers[i].path.clone());
        }
        i += 1;
    }
    None
}

fn is_covered_helper(policy: &ShellPolicy, declared: &[String], helper: &str, path: &str) -> (r:
    bool)
    requires
        text::texts(declared@) == declared_dirs(*policy),
    ensures
        r == covered_helper(*policy, helper@, path@),
{
    if under_any(path, declared) {
        return true;
    }
    let wanted = paths::parse(path);
    let ghost allow = policy.allow@;
    let mut i: usize = 0;
    proof {
        reveal_strlit("");
    }
    while i < policy.allow.len()
        invariant
            i <= policy.allow@.len(),
            allow == policy.allow@,
            wanted@ == paths::path_of(path@),
            ""@.len() == 0,
            !beneath(path@, declared_dirs(*policy)),
            forall|k: int| 0 <= k < i ==> (#[trigger] allow[k]).entry@ != helper@,
            forall|k: int|
                0 <= k < i ==> !((#[trigger] allow[k]).entry@.len() > 0 && paths::path_of(
                    allow[k].resolved@,
                ) == paths::path_of(path@)),
        decreases policy.allow@.len() - i,
    {
        let b = &policy.allow[i];
        proof {
            if b.entry@.len() == 0 {
                assert(b.entry@ =~= ""@);
            }
        }
        if text::same(b.entry.as_str(), helper) {
            return true;
        }
        if !text::same(b.entry.as_str(), "") && paths::same(
            &paths::parse(b.resolved.as_str()),
            &wanted,
        ) {
            return true;
        }
        i += 1;
    }
    false
}

fn add_warning(out: &mut Vec<ToolchainHelperWarning>, warning: ToolchainHelperWarning)
    ensures
        warning_views(final(out)@) == (if named(
            warning_views(old(out)@),
            warning@.helper,
            warning@.resolved_path,
        ) {
            warning_views(old(out)@)
        } else {
            warning_views(old(out)@).push(warning@)
        }),
{
    let ghost held = warning_views(out@);
    let ghost before = out@;
    let ghost added = warning@;
    let mut i: usize = 0;
    while i < out.len()
        invariant
            i <= out@.len(),
            out@ == before,
            held == warning_views(before),
            added == warning@,
            forall|k: int|
                0 <= k < i ==> !((#[trigger] held[k]).helper == added.helper
                    && held[k].resolved_path == added.resolved_path),
        decreases out@.len() - i,
    {
        proof {
            assert(held[i as int] == out@[i as int]@);
        }
        if text::same(out[i].helper.as_str(), warning.helper.as_str()) && text::same(
            out[i].resolved_path.as_str(),
            warning.resolved_path.as_str(),
        ) {
            return;
        }
        i += 1;
    }
    out.push(warning);
    proof {
        assert(!named(held, added.helper, added.resolved_path));
        assert(warning_views(out@) =~= held.push(added));
    }
}

/// What to warn about for a `sealed` capsule that allowlists a known compiler driver: each helper
/// that no grant makes executable, named once. A launch is never failed for it.
pub fn warn_on_unreachable_toolchain_helpers(
    policy: &ShellPolicy,
    declared_floor: ContainmentClass,
    answers: &[HelperAnswer],
) -> (r: Vec<ToolchainHelperWarning>)
    ensures
        warning_views(r@) == (if declared_floor == ContainmentClass::Sealed {
            helper_warnings(*policy, answers@, policy.allow@)
        } else {
            Seq::empty()
        }),
{
    let mut out: Vec<ToolchainHelperWarning> = Vec::new();
    proof {
        assert(warning_views(out@) =~= Seq::<WarningView>::empty());
    }
    if declared_floor != ContainmentClass::Sealed {
        return out;
    }
    let declared = declared_grant_dirs(policy);
    let mut i: usize = 0;
    proof {
        assert(policy.allow@.take(0).len() == 0);
    }
    while i < policy.allow.len()
        invariant
            i <= policy.allow@.len(),
            text::texts(declared@) == declared_dirs(*policy),
            warning_views(out@) == helper_warnings(
                *policy,
                answers@,
                policy.allow@.take(i as int),
            ),
        decreases policy.allow@.len() - i,
    {
        proof {
            assert(policy.allow@.take(i + 1).drop_last() =~= policy.allow@.take(i as int));
        }
        let b = &policy.allow[i];
        if text::begins_with(b.resolved.as_str(), '/') {
            let helpers = toolchain_helpers(b.entry.as_str());
            let ghost asked = helpers_for_entry(b.entry@);
            let ghost before = warning_views(out@);
            let mut j: usize = 0;
            proof {
                assert(asked.take(0).len() == 0);
            }
            while j < helpers.len()
                invariant
                    j <= helpers@.len(),
                    text::texts(declared@) == declared_dirs(*policy),
                    asked == text::texts(helpers@),
                    warning_views(out@) == with_helpers(
                        *policy,
                        answers@,
                        *b,
                        asked.take(j as int),
                        before,
                    ),
                decreases helpers@.len() - j,
            {
                proof {
                    assert(asked.take(j + 1).drop_last() =~= asked.take(j as int));
                    assert(asked.take(j + 1).last() == helpers@[j as int]@);
                }
                let helper = helpers[j].as_str();
                if let Some(path) = find_answer(answers, b.resolved.as_str(), helper) {
                    if !is_covered_helper(policy, declared.as_slice(), helper, path.as_str()) {
                        add_warning(
                            &mut out,
                            ToolchainHelperWarning {
                                driver: b.entry.clone(),
                                helper: helper.to_owned(),
                                resolved_path: path,
                            },
                        );
                    }
                }
                j += 1;
            }
            proof {
                assert(asked.take(asked.len() as int) =~= asked);
            }
        }
        i += 1;
    }
    proof {
        assert(policy.allow@.take(policy.allow@.len() as int) =~= policy.allow@);
    }
    out
}

/// How a warning reads, with the fixed sealed tree.
pub open spec fn warning_text(w: WarningView, sealed: Seq<Seq<char>>) -> Seq<char> {
    "[capsule-runtime] warning["@ + diagnostics::W_SEC_012@
        + "]: capabilities.shell.allow grants the compiler driver '"@ + w.driver
        + "', but its helper '"@ + w.helper + "' at "@ + w.resolved_path
        + " has no grant carrying the Landlock Execute right under the 'sealed' composed root \u{2014} the fixed sealed runtime tree ("@
        + text::join(sealed, ", "@)
        + ") is bound read-only and listable but deliberately not executable, so the driver will start and then fail partway through a real compile; declare capabilities.shell.interpreter_runtime or staged_runtime for '"@
        + w.driver + "' naming that helper's directory ("@ + paths::text_of_path(
        paths::parent(paths::path_of(w.resolved_path)),
    ) + ") to grant it ("@ + diagnostics::link(diagnostics::W_SEC_012@) + ")"@
}

impl ToolchainHelperWarning {
    /// How this warning reads.
    pub fn describe(&self, sealed_paths: &[String]) -> (r: String)
        ensures
            r@ == warning_text(self@, text::texts(sealed_paths@)),
    {
        let dir = paths::write(&paths::parent_of(&paths::parse(self.resolved_path.as_str())));
        let tree = text::joined(sealed_paths, ", ");
        let mut out = text::cat7(
            "[capsule-runtime] warning[",
            diagnostics::W_SEC_012,
            "]: capabilities.shell.allow grants the compiler driver '",
            self.driver.as_str(),
            "', but its helper '",
            self.helper.as_str(),
            "' at ",
        );
        out.append(self.resolved_path.as_str());
        out.append(
            " has no grant carrying the Landlock Execute right under the 'sealed' composed root \u{2014} the fixed sealed runtime tree (",
        );
        out.append(tree.as_str());
        out.append(
            ") is bound read-only and listable but deliberately not executable, so the driver will start and then fail partway through a real compile; declare capabilities.shell.interpreter_runtime or staged_runtime for '",
        );
        out.append(self.driver.as_str());
        out.append("' naming that helper's directory (");
        out.append(dir.as_str());
        out.append(") to grant it (");
        out.append(diagnostics::security_warning_link(diagnostics::W_SEC_012).as_str());
        out.append(")");
        out
    }
}

// ── Laws ─────────────────────────────────────────────────────────────────────

/// No script is refused below a declared `sealed` floor.
pub proof fn nothing_is_refused_below_sealed(
    policy: ShellPolicy,
    floor: ContainmentClass,
    sealed: Seq<Seq<char>>,
    r: Result<(), RuntimeError>,
)
    requires
        floor != ContainmentClass::Sealed,
        refuses_unreachable(policy, floor, sealed, r),
    ensures
        r is Ok,
{
}

/// A refusal names every uncovered script of the allowlist and nothing else.
pub proof fn a_refusal_names_every_uncovered_script(
    policy: ShellPolicy,
    sealed: Seq<Seq<char>>,
    allow: Seq<AllowedBinary>,
    binary: Seq<char>,
)
    ensures
        (exists|k: int|
            0 <= k < unreachable(policy, sealed, allow).len() && (
            #[trigger] unreachable(policy, sealed, allow)[k]).binary == binary) <==> (exists|i: int|
            0 <= i < allow.len() && (#[trigger] allow[i]).entry@ == binary && uncovered(
                policy,
                sealed,
                allow[i],
            ) is Some),
    decreases allow.len(),
{
    if allow.len() > 0 {
        let front = allow.drop_last();
        let last = allow.last();
        let before = unreachable(policy, sealed, front);
        let after = unreachable(policy, sealed, allow);
        a_refusal_names_every_uncovered_script(policy, sealed, front, binary);
        assert(allow[allow.len() - 1] == last);
        if exists|k: int| 0 <= k < after.len() && (#[trigger] after[k]).binary == binary {
            let k = choose|k: int| 0 <= k < after.len() && (#[trigger] after[k]).binary == binary;
            if k < before.len() {
                assert(before[k] == after[k]);
                let i = choose|i: int|
                    0 <= i < front.len() && (#[trigger] front[i]).entry@ == binary && uncovered(
                        policy,
                        sealed,
                        front[i],
                    ) is Some;
                assert(allow[i] == front[i]);
            }
        }
        if exists|i: int|
            0 <= i < allow.len() && (#[trigger] allow[i]).entry@ == binary && uncovered(
                policy,
                sealed,
                allow[i],
            ) is Some {
            let i = choose|i: int|
                0 <= i < allow.len() && (#[trigger] allow[i]).entry@ == binary && uncovered(
                    policy,
                    sealed,
                    allow[i],
                ) is Some;
            if i < front.len() {
                assert(front[i] == allow[i]);
                let k = choose|k: int|
                    0 <= k < before.len() && (#[trigger] before[k]).binary == binary;
                assert(after[k] == before[k]);
            } else {
                assert(after[before.len() as int].binary == binary);
            }
        }
    }
}

/// Whether no helper is named twice.
pub open spec fn once_each(w: Seq<WarningView>) -> bool {
    forall|i: int, j: int|
        0 <= i < j < w.len() ==> !((#[trigger] w[i]).helper == (#[trigger] w[j]).helper
            && w[i].resolved_path == w[j].resolved_path)
}

/// A warning names a helper that an allowlisted driver said it has and that no grant covers, and
/// no helper is named twice, however many drivers reach it.
pub proof fn a_warning_names_an_uncovered_helper(
    policy: ShellPolicy,
    answers: Seq<HelperAnswer>,
    allow: Seq<AllowedBinary>,
)
    ensures
        forall|k: int|
            0 <= k < helper_warnings(policy, answers, allow).len() ==> warns_rightly(
                policy,
                answers,
                allow,
                #[trigger] helper_warnings(policy, answers, allow)[k],
            ),
        once_each(helper_warnings(policy, answers, allow)),
    decreases allow.len(),
{
    if allow.len() > 0 {
        let front = allow.drop_last();
        let driver = allow.last();
        let before = helper_warnings(policy, answers, front);
        let after = helper_warnings(policy, answers, allow);
        a_warning_names_an_uncovered_helper(policy, answers, front);
        assert forall|k: int| 0 <= k < before.len() implies warns_rightly(
            policy,
            answers,
            allow,
            #[trigger] before[k],
        ) by {
            assert(warns_rightly(policy, answers, front, before[k]));
            let i = choose|i: int|
                0 <= i < front.len() && #[trigger] names_helper(
                    policy,
                    answers,
                    front[i],
                    before[k],
                );
            assert(names_helper(policy, answers, allow[i], before[k]));
        }
        if text::begins(driver.resolved@, '/') {
            assert(allow[allow.len() - 1] == driver);
            lemma_with_helpers(
                policy,
                answers,
                allow,
                helpers_for_entry(driver.entry@),
                before,
            );
        }
    }
}

/// No uncovered helper goes unnamed: whatever an allowlisted driver that was found says it has, and
/// no grant covers, is warned about.
pub proof fn every_uncovered_helper_is_named(
    policy: ShellPolicy,
    answers: Seq<HelperAnswer>,
    allow: Seq<AllowedBinary>,
    i: int,
    helper: Seq<char>,
    path: Seq<char>,
)
    requires
        0 <= i < allow.len(),
        text::begins(allow[i].resolved@, '/'),
        helpers_for_entry(allow[i].entry@).contains(helper),
        helper_path(answers, allow[i].resolved@, helper) == Some(path),
        !covered_helper(policy, helper, path),
    ensures
        named(helper_warnings(policy, answers, allow), helper, path),
    decreases allow.len(),
{
    let front = allow.drop_last();
    let driver = allow.last();
    let before = helper_warnings(policy, answers, front);
    if i < front.len() {
        assert(front[i] == allow[i]);
        every_uncovered_helper_is_named(policy, answers, front, i, helper, path);
        if text::begins(driver.resolved@, '/') {
            lemma_named_stays(
                policy,
                answers,
                driver,
                helpers_for_entry(driver.entry@),
                before,
                helper,
                path,
            );
        }
    } else {
        let helpers = helpers_for_entry(driver.entry@);
        let j = choose|j: int| 0 <= j < helpers.len() && helpers[j] == helper;
        lemma_asked_is_named(policy, answers, driver, helpers, before, j, path);
    }
}

proof fn lemma_named_stays(
    policy: ShellPolicy,
    answers: Seq<HelperAnswer>,
    driver: AllowedBinary,
    helpers: Seq<Seq<char>>,
    before: Seq<WarningView>,
    helper: Seq<char>,
    path: Seq<char>,
)
    requires
        named(before, helper, path),
    ensures
        named(with_helpers(policy, answers, driver, helpers, before), helper, path),
    decreases helpers.len(),
{
    if helpers.len() > 0 {
        lemma_named_stays(policy, answers, driver, helpers.drop_last(), before, helper, path);
        let held = with_helpers(policy, answers, driver, helpers.drop_last(), before);
        let after = with_helpers(policy, answers, driver, helpers, before);
        let k = choose|k: int|
            0 <= k < held.len() && (#[trigger] held[k]).helper == helper && held[k].resolved_path
                == path;
        assert(after[k] == held[k]);
    }
}

proof fn lemma_asked_is_named(
    policy: ShellPolicy,
    answers: Seq<HelperAnswer>,
    driver: AllowedBinary,
    helpers: Seq<Seq<char>>,
    before: Seq<WarningView>,
    j: int,
    path: Seq<char>,
)
    requires
        0 <= j < helpers.len(),
        helper_path(answers, driver.resolved@, helpers[j]) == Some(path),
        !covered_helper(policy, helpers[j], path),
    ensures
        named(with_helpers(policy, answers, driver, helpers, before), helpers[j], path),
    decreases helpers.len(),
{
    let front = helpers.drop_last();
    let held = with_helpers(policy, answers, driver, front, before);
    let after = with_helpers(policy, answers, driver, helpers, before);
    if j < front.len() {
        assert(front[j] == helpers[j]);
        lemma_asked_is_named(policy, answers, driver, front, before, j, path);
        let k = choose|k: int|
            0 <= k < held.len() && (#[trigger] held[k]).helper == helpers[j]
                && held[k].resolved_path == path;
        assert(after[k] == held[k]);
    } else if !named(held, helpers[j], path) {
        assert(after[held.len() as int].helper == helpers[j]);
    }
}

/// Whether a warning is about a helper of an allowed driver that no grant covers.
pub open spec fn names_helper(
    policy: ShellPolicy,
    answers: Seq<HelperAnswer>,
    driver: AllowedBinary,
    w: WarningView,
) -> bool {
    &&& w.driver == driver.entry@
    &&& helpers_for_entry(driver.entry@).contains(w.helper)
    &&& helper_path(answers, driver.resolved@, w.helper) == Some(w.resolved_path)
    &&& !covered_helper(policy, w.helper, w.resolved_path)
}

/// Whether a warning is about a helper of one of the allowed drivers that no grant covers.
pub open spec fn warns_rightly(
    policy: ShellPolicy,
    answers: Seq<HelperAnswer>,
    allow: Seq<AllowedBinary>,
    w: WarningView,
) -> bool {
    exists|i: int| 0 <= i < allow.len() && #[trigger] names_helper(policy, answers, allow[i], w)
}

proof fn lemma_with_helpers(
    policy: ShellPolicy,
    answers: Seq<HelperAnswer>,
    allow: Seq<AllowedBinary>,
    helpers: Seq<Seq<char>>,
    before: Seq<WarningView>,
)
    requires
        allow.len() > 0,
        forall|h: Seq<char>| #[trigger]
            helpers.contains(h) ==> helpers_for_entry(allow.last().entry@).contains(h),
        forall|k: int|
            0 <= k < before.len() ==> warns_rightly(policy, answers, allow, #[trigger] before[k]),
        once_each(before),
    ensures
        ({
            let after = with_helpers(policy, answers, allow.last(), helpers, before);
            &&& forall|k: int|
                0 <= k < after.len() ==> warns_rightly(policy, answers, allow, #[trigger] after[k])
            &&& once_each(after)
        }),
    decreases helpers.len(),
{
    if helpers.len() > 0 {
        let driver = allow.last();
        let helper = helpers.last();
        assert forall|h: Seq<char>| #[trigger] helpers.drop_last().contains(h) implies
            helpers_for_entry(driver.entry@).contains(h) by {
            let i = choose|i: int|
                0 <= i < helpers.drop_last().len() && helpers.drop_last()[i] == h;
            assert(helpers[i] == h);
            assert(helpers.contains(h));
        }
        lemma_with_helpers(policy, answers, allow, helpers.drop_last(), before);
        let held = with_helpers(policy, answers, driver, helpers.drop_last(), before);
        let after = with_helpers(policy, answers, driver, helpers, before);
        assert(helpers[helpers.len() - 1] == helper);
        assert(helpers.contains(helper));
        if after.len() > held.len() {
            let path = helper_path(answers, driver.resolved@, helper)->0;
            let warning = WarningView { driver: driver.entry@, helper, resolved_path: path };
            assert(after == held.push(warning));
            assert forall|i: int, j: int| 0 <= i < j < after.len() implies !((
            #[trigger] after[i]).helper == (#[trigger] after[j]).helper && after[i].resolved_path
                == after[j].resolved_path) by {
                assert(after[i] == held[i]);
                if j < held.len() {
                    assert(after[j] == held[j]);
                }
            }
            assert(names_helper(policy, answers, allow[allow.len() - 1], warning));
            assert(warns_rightly(policy, answers, allow, warning));
        }
    }
}

proof fn lemma_unreachable(policy: ShellPolicy, sealed: Seq<Seq<char>>, allow: Seq<AllowedBinary>)
    ensures
        unreachable(policy, sealed, allow).len() > 0 <==> exists|i: int|
            0 <= i < allow.len() && uncovered(policy, sealed, #[trigger] allow[i]) is Some,
    decreases allow.len(),
{
    if allow.len() > 0 {
        let front = allow.drop_last();
        lemma_unreachable(policy, sealed, front);
        assert(forall|i: int| 0 <= i < front.len() ==> front[i] == allow[i]);
        if uncovered(policy, sealed, allow.last()) is Some {
            assert(uncovered(policy, sealed, allow[allow.len() - 1]) is Some);
        } else {
            if exists|i: int|
                0 <= i < allow.len() && uncovered(policy, sealed, #[trigger] allow[i]) is Some {
                let i = choose|i: int|
                    0 <= i < allow.len() && uncovered(policy, sealed, #[trigger] allow[i]) is Some;
                assert(i < front.len());
                assert(uncovered(policy, sealed, front[i]) is Some);
            }
            if exists|i: int|
                0 <= i < front.len() && uncovered(policy, sealed, #[trigger] front[i]) is Some {
                let i = choose|i: int|
                    0 <= i < front.len() && uncovered(policy, sealed, #[trigger] front[i]) is Some;
                assert(uncovered(policy, sealed, allow[i]) is Some);
            }
        }
    }
}

/// What covers a script: where it lives, or a grant to it or to its interpreter. A script that none
/// of these covers is not, and is told with its interpreter.
pub proof fn what_covers_a_script(
    policy: ShellPolicy,
    sealed: Seq<Seq<char>>,
    b: AllowedBinary,
    interpreter: Seq<char>,
    i: int,
)
    requires
        b.entry@.len() > 0,
        text::begins(b.resolved@, '/'),
        shebang_of(head_bytes(b)) == Some(interpreter),
    ensures
        0 <= i < policy.staged_runtime@.len() && (policy.staged_runtime@[i].binary@ == b.entry@
            || policy.staged_runtime@[i].binary@ == interpreter) ==> uncovered(policy, sealed, b)
            is None,
        0 <= i < policy.interpreter_runtime@.len() && (policy.interpreter_runtime@[i].binary@
            == b.entry@ || policy.interpreter_runtime@[i].binary@ == interpreter) ==> uncovered(
            policy,
            sealed,
            b,
        ) is None,
        0 <= i < sealed.len() && paths::below(
            paths::path_of(b.resolved@),
            paths::path_of(sealed[i]),
        ) is Some ==> uncovered(policy, sealed, b) is None,
        0 <= i < declared_dirs(policy).len() && paths::below(
            paths::path_of(b.resolved@),
            paths::path_of(declared_dirs(policy)[i]),
        ) is Some ==> uncovered(policy, sealed, b) is None,
        policy.staged_runtime@.len() == 0 && policy.interpreter_runtime@.len() == 0 && sealed.len()
            == 0 ==> uncovered(policy, sealed, b) == Some(interpreter),
{
    if 0 <= i < policy.staged_runtime@.len() && (policy.staged_runtime@[i].binary@ == b.entry@
        || policy.staged_runtime@[i].binary@ == interpreter) {
        assert(granted(policy, policy.staged_runtime@[i].binary@));
    }
    if 0 <= i < policy.interpreter_runtime@.len() && (policy.interpreter_runtime@[i].binary@
        == b.entry@ || policy.interpreter_runtime@[i].binary@ == interpreter) {
        assert(granted(policy, policy.interpreter_runtime@[i].binary@));
    }
    if policy.staged_runtime@.len() == 0 && policy.interpreter_runtime@.len() == 0 {
        assert(sources(policy.staged_runtime@) + runtime_dirs(policy.interpreter_runtime@)
            =~= Seq::<Seq<char>>::empty());
        assert(declared_dirs(policy).len() == 0);
    }
}

/// The directories a policy declares are the absolute ones of its staged sources and of its
/// interpreters' directories.
pub proof fn declared_directories_are_absolute(policy: ShellPolicy, dir: Seq<char>)
    ensures
        declared_dirs(policy).contains(dir) <==> text::begins(dir, '/') && ((exists|i: int|
            0 <= i < policy.staged_runtime@.len() && (
            #[trigger] policy.staged_runtime@[i]).source_path@ == dir) || (exists|i: int|
            0 <= i < policy.interpreter_runtime@.len() && text::texts(
                (#[trigger] policy.interpreter_runtime@[i]).dirs@,
            ).contains(dir))),
{
    let first = sources(policy.staged_runtime@);
    let second = runtime_dirs(policy.interpreter_runtime@);
    let both = first + second;
    lemma_absolute_ones(both, dir);
    lemma_runtime_dirs(policy.interpreter_runtime@, dir);
    if exists|i: int|
        0 <= i < policy.staged_runtime@.len() && (#[trigger] policy.staged_runtime@[i]).source_path@
            == dir {
        let i = choose|i: int|
            0 <= i < policy.staged_runtime@.len() && (
            #[trigger] policy.staged_runtime@[i]).source_path@ == dir;
        assert(both[i] == dir);
    }
    if second.contains(dir) {
        let i = choose|i: int| 0 <= i < second.len() && second[i] == dir;
        assert(both[first.len() + i] == dir);
    }
    if both.contains(dir) {
        let i = choose|i: int| 0 <= i < both.len() && both[i] == dir;
        if i < first.len() {
            assert(policy.staged_runtime@[i].source_path@ == dir);
        } else {
            assert(second[i - first.len()] == dir);
        }
    }
}

proof fn lemma_absolute_ones(v: Seq<Seq<char>>, s: Seq<char>)
    ensures
        absolute_ones(v).contains(s) <==> v.contains(s) && text::begins(s, '/'),
    decreases v.len(),
{
    if v.len() > 0 {
        let front = v.drop_last();
        let held = absolute_ones(front);
        lemma_absolute_ones(front, s);
        if front.contains(s) {
            let i = choose|i: int| 0 <= i < front.len() && front[i] == s;
            assert(v[i] == s);
        }
        if v.contains(s) && v.last() != s {
            let i = choose|i: int| 0 <= i < v.len() && v[i] == s;
            assert(front[i] == s);
        }
        if v.last() == s {
            assert(v[v.len() - 1] == s);
        }
        if text::begins(v.last(), '/') {
            let all = held.push(v.last());
            if held.contains(s) {
                let i = choose|i: int| 0 <= i < held.len() && held[i] == s;
                assert(all[i] == s);
            }
            if v.last() == s {
                assert(all[held.len() as int] == s);
            }
            if all.contains(s) && v.last() != s {
                let i = choose|i: int| 0 <= i < all.len() && all[i] == s;
                assert(held[i] == s);
            }
        }
    }
}

proof fn lemma_runtime_dirs(v: Seq<InterpreterRuntimeGrant>, dir: Seq<char>)
    ensures
        runtime_dirs(v).contains(dir) <==> exists|i: int|
            0 <= i < v.len() && text::texts((#[trigger] v[i]).dirs@).contains(dir),
    decreases v.len(),
{
    if v.len() > 0 {
        let front = v.drop_last();
        let held = runtime_dirs(front);
        let more = text::texts(v.last().dirs@);
        lemma_runtime_dirs(front, dir);
        let all = held + more;
        if all.contains(dir) {
            let k = choose|k: int| 0 <= k < all.len() && all[k] == dir;
            if k < held.len() {
                assert(held[k] == dir);
                let i = choose|i: int|
                    0 <= i < front.len() && text::texts((#[trigger] front[i]).dirs@).contains(dir);
                assert(text::texts(v[i].dirs@).contains(dir));
            } else {
                assert(more[k - held.len()] == dir);
                assert(text::texts(v[v.len() - 1].dirs@).contains(dir));
            }
        }
        if exists|i: int|
            0 <= i < v.len() && text::texts((#[trigger] v[i]).dirs@).contains(dir) {
            let i = choose|i: int|
                0 <= i < v.len() && text::texts((#[trigger] v[i]).dirs@).contains(dir);
            if i < front.len() {
                assert(text::texts(front[i].dirs@).contains(dir));
                let k = choose|k: int| 0 <= k < held.len() && held[k] == dir;
                assert(all[k] == dir);
            } else {
                let k = choose|k: int| 0 <= k < more.len() && more[k] == dir;
                assert(all[held.len() + k] == dir);
            }
        }
    }
}

/// A shebang line ends at the first line end, and a file that does not start with `#!` has none.
pub proof fn a_shebang_line_ends_with_its_line(line: Seq<u8>, end: u8, rest: Seq<u8>)
    requires
        forall|i: int| 0 <= i < line.len() ==> #[trigger] line[i] != 10 && line[i] != 13,
        end == 10 || end == 13,
        line.len() + 3 <= SHEBANG_PROBE_BYTES,
    ensures
        shebang_line(seq![35u8, 33u8] + (line + seq![end] + rest)) == Some(line),
        shebang_line(seq![35u8, 33u8] + line) == Some(line),
        forall|head: Seq<u8>|
            !(head.len() >= 2 && head[0] == 35 && head[1] == 33) ==> #[trigger] shebang_line(head)
                is None,
{
    let whole = seq![35u8, 33u8] + (line + seq![end] + rest);
    let probe = if whole.len() > SHEBANG_PROBE_BYTES {
        whole.take(SHEBANG_PROBE_BYTES as int)
    } else {
        whole
    };
    let cut = probe.skip(2).skip((line.len() + 1) as int);
    assert(probe.skip(2) =~= line + seq![end] + cut);
    lemma_first_line(line, seq![end] + cut);
    assert(line + (seq![end] + cut) =~= line + seq![end] + cut);
    let bare = seq![35u8, 33u8] + line;
    assert(bare.skip(2) =~= line);
    lemma_first_line(line, Seq::empty());
    assert(line + Seq::<u8>::empty() =~= line);
    assert forall|head: Seq<u8>|
        !(head.len() >= 2 && head[0] == 35 && head[1] == 33) implies #[trigger] shebang_line(head)
        is None by {
        if head.len() > SHEBANG_PROBE_BYTES {
            assert(head.take(SHEBANG_PROBE_BYTES as int)[0] == head[0]);
            assert(head.take(SHEBANG_PROBE_BYTES as int)[1] == head[1]);
        }
    }
}

proof fn lemma_first_line(line: Seq<u8>, rest: Seq<u8>)
    requires
        forall|i: int| 0 <= i < line.len() ==> #[trigger] line[i] != 10 && line[i] != 13,
        rest.len() > 0 ==> rest[0] == 10 || rest[0] == 13,
    ensures
        first_line(line + rest) == line,
    decreases line.len(),
{
    let s = line + rest;
    if line.len() > 0 {
        assert(s[0] == line[0]);
        assert(s.drop_first() =~= line.drop_first() + rest);
        lemma_first_line(line.drop_first(), rest);
        assert(first_line(s) =~= line);
    } else {
        assert(s =~= rest);
        assert(first_line(s) =~= line);
    }
}

/// A shebang line names the file at its front; behind `env` it names the first word that is neither
/// a flag nor an assignment.
pub proof fn a_shebang_names_its_interpreter(
    dir: Seq<char>,
    name: Seq<char>,
    flags: Seq<Seq<char>>,
    program: Seq<char>,
    rest: Seq<Seq<char>>,
)
    requires
        name.len() > 0,
        !name.contains('/'),
        name != "."@ && name != ".."@,
        forall|i: int|
            0 <= i < flags.len() ==> text::begins(#[trigger] flags[i], '-') || flags[i].contains(
                '=',
            ),
        !text::begins(program, '-'),
        !program.contains('='),
        forall|i: int| 0 <= i < dir.len() ==> !text::is_space(#[trigger] dir[i]),
        forall|i: int| 0 <= i < name.len() ==> !text::is_space(#[trigger] name[i]),
    ensures
        name != "env"@ ==> interpreter_of_line(dir + seq!['/'] + name) == Some(name),
        name == "env"@ ==> interpreter_of_line(dir + seq!['/'] + name) == Some("env"@),
        env_program(flags + seq![program] + rest) == Some(program),
        env_program(flags) is None,
{
    let word = dir + seq!['/'] + name;
    assert forall|i: int| 0 <= i < word.len() implies !text::is_space(#[trigger] word[i]) by {
        if i < dir.len() {
            assert(word[i] == dir[i]);
        } else if i > dir.len() {
            assert(word[i] == name[i - dir.len() - 1]);
        }
    }
    text::words_add_up(word, ' ', word);
    paths::the_last_component_is_the_file_name(dir, name);
    let none = Seq::<Seq<char>>::empty();
    assert(text::words(word) =~= seq![word]);
    assert(seq![word].drop_first() =~= none);
    assert(env_program(none) is None);
    lemma_flags_are_passed_over(flags, seq![program] + rest);
    assert(flags + seq![program] + rest =~= flags + (seq![program] + rest));
    lemma_flags_are_passed_over(flags, none);
    assert(flags + none =~= flags);
}

proof fn lemma_flags_are_passed_over(flags: Seq<Seq<char>>, rest: Seq<Seq<char>>)
    requires
        forall|i: int|
            0 <= i < flags.len() ==> text::begins(#[trigger] flags[i], '-') || flags[i].contains(
                '=',
            ),
    ensures
        env_program(flags + rest) == env_program(rest),
    decreases flags.len(),
{
    let all = flags + rest;
    if flags.len() > 0 {
        assert(all[0] == flags[0]);
        let fewer = flags.drop_first();
        assert(all.drop_first() =~= fewer + rest);
        assert forall|i: int| 0 <= i < fewer.len() implies text::begins(#[trigger] fewer[i], '-')
            || fewer[i].contains('=') by {
            assert(fewer[i] == flags[i + 1]);
        }
        lemma_flags_are_passed_over(fewer, rest);
    } else {
        assert(all =~= rest);
    }
}

/// The scripts refused of two lists of binaries are those of the one, then those of the other, each
/// with its entry, its path and its interpreter.
pub proof fn refusals_add_up(
    policy: ShellPolicy,
    sealed: Seq<Seq<char>>,
    a: Seq<AllowedBinary>,
    b: Seq<AllowedBinary>,
    one: AllowedBinary,
)
    ensures
        unreachable(policy, sealed, a + b) == unreachable(policy, sealed, a) + unreachable(
            policy,
            sealed,
            b,
        ),
        uncovered(policy, sealed, one) is None ==> unreachable(policy, sealed, seq![one]).len()
            == 0,
        uncovered(policy, sealed, one) is Some ==> unreachable(policy, sealed, seq![one]) == seq![
            EntrypointView {
                binary: one.entry@,
                resolved_path: one.resolved@,
                interpreter: uncovered(policy, sealed, one)->0,
            },
        ],
    decreases b.len(),
{
    let none = Seq::<AllowedBinary>::empty();
    assert(seq![one].drop_last() =~= none);
    assert(unreachable(policy, sealed, none) =~= Seq::empty());
    if b.len() == 0 {
        assert(a + b =~= a);
        assert(unreachable(policy, sealed, a) + unreachable(policy, sealed, b) =~= unreachable(
            policy,
            sealed,
            a,
        ));
    } else {
        refusals_add_up(policy, sealed, a, b.drop_last(), one);
        assert((a + b).drop_last() =~= a + b.drop_last());
        assert((a + b).last() == b.last());
        assert(unreachable(policy, sealed, a + b) =~= unreachable(policy, sealed, a) + unreachable(
            policy,
            sealed,
            b,
        ));
    }
}

/// The helpers a driver is asked about go by its file name: the C drivers have `cc1`, the C++
/// drivers do not, and every driver has the assembler and the linker.
pub proof fn helpers_go_by_the_drivers_name(dir: Seq<char>, name: Seq<char>)
    requires
        name.len() > 0,
        !name.contains('/'),
        name != "."@ && name != ".."@,
    ensures
        helpers_for_entry(dir + seq!['/'] + name) == helpers_for_entry(name),
        helpers_for_entry(name).contains("cc1"@) <==> name == "cc"@ || name == "gcc"@,
        helpers_for_entry(name).contains("cc1plus"@) <==> name == "cc"@ || name == "gcc"@ || name
            == "g++"@ || name == "c++"@,
        helpers_for_entry(name).contains("as"@) <==> helpers_for_entry(name).len() > 0,
        helpers_for_entry(name).contains("ld"@) <==> helpers_for_entry(name).len() > 0,
        helpers_for_entry(name).contains("collect2"@) <==> helpers_for_entry(name).len() > 0,
{
    paths::the_last_component_is_the_file_name(dir, name);
    reveal_strlit("cc1");
    reveal_strlit("cc1plus");
    reveal_strlit("as");
    reveal_strlit("ld");
    reveal_strlit("collect2");
    assert("cc1"@.len() == 3 && "cc1plus"@.len() == 7 && "as"@.len() == 2 && "ld"@.len() == 2
        && "collect2"@.len() == 8);
    let helpers = helpers_for_entry(name);
    if name == "cc"@ || name == "gcc"@ {
        assert(helpers[0] == "cc1"@ && helpers[1] == "cc1plus"@ && helpers[2] == "as"@ && helpers[3]
            == "ld"@ && helpers[4] == "collect2"@);
    } else if name == "g++"@ || name == "c++"@ {
        assert(helpers[0] == "cc1plus"@ && helpers[1] == "as"@ && helpers[2] == "ld"@ && helpers[3]
            == "collect2"@);
    }
}

/// The first answer of a driver about a helper counts.
pub proof fn the_first_helper_answer_counts(answers: Seq<HelperAnswer>, i: int)
    requires
        0 <= i < answers.len(),
        forall|j: int|
            0 <= j < i ==> (#[trigger] answers[j]).driver@ != answers[i].driver@
                || answers[j].helper@ != answers[i].helper@,
    ensures
        helper_path(answers, answers[i].driver@, answers[i].helper@) == Some(answers[i].path@),
    decreases i,
{
    if i > 0 {
        let rest = answers.drop_first();
        assert(answers[0].driver@ != answers[i].driver@ || answers[0].helper@
            != answers[i].helper@);
        assert(rest[i - 1] == answers[i]);
        assert forall|j: int| 0 <= j < i - 1 implies (#[trigger] rest[j]).driver@ != rest[i
            - 1].driver@ || rest[j].helper@ != rest[i - 1].helper@ by {
            assert(rest[j] == answers[j + 1]);
        }
        the_first_helper_answer_counts(rest, i - 1);
    }
}

/// The words behind the interpreter of a shebang line do not change it, except behind `env`, where
/// they name the program.
pub proof fn what_follows_an_interpreter(
    dir: Seq<char>,
    name: Seq<char>,
    tail: Seq<char>,
    program: Seq<char>,
)
    requires
        name.len() > 0,
        !name.contains('/'),
        name != "."@ && name != ".."@,
        forall|i: int| 0 <= i < dir.len() ==> !text::is_space(#[trigger] dir[i]),
        forall|i: int| 0 <= i < name.len() ==> !text::is_space(#[trigger] name[i]),
    ensures
        name != "env"@ ==> interpreter_of_line(dir + seq!['/'] + name + seq![' '] + tail) == Some(
            name,
        ),
        name == "env"@ && env_program(text::words(tail)) == Some(program) ==> interpreter_of_line(
            dir + seq!['/'] + name + seq![' '] + tail,
        ) == paths::file_name(paths::path_of(program)),
{
    let word = dir + seq!['/'] + name;
    assert forall|i: int| 0 <= i < word.len() implies !text::is_space(#[trigger] word[i]) by {
        if i < dir.len() {
            assert(word[i] == dir[i]);
        } else if i > dir.len() {
            assert(word[i] == name[i - dir.len() - 1]);
        }
    }
    text::words_add_up(word, ' ', tail);
    paths::the_last_component_is_the_file_name(dir, name);
    let tokens = text::words(word + seq![' '] + tail);
    assert(tokens =~= seq![word] + text::words(tail));
    assert(tokens.drop_first() =~= text::words(tail));
}

/// A script is uncovered exactly when it resolved, names an interpreter, lies below nothing that is
/// mounted, and neither it nor its interpreter was granted a runtime.
pub proof fn when_a_script_is_uncovered(policy: ShellPolicy, sealed: Seq<Seq<char>>, b: AllowedBinary)
    ensures
        uncovered(policy, sealed, b) is Some <==> {
            let interpreter = shebang_of(head_bytes(b));
            &&& b.entry@.len() > 0
            &&& text::begins(b.resolved@, '/')
            &&& interpreter is Some
            &&& forall|i: int|
                0 <= i < sealed.len() ==> paths::below(
                    paths::path_of(b.resolved@),
                    paths::path_of(#[trigger] sealed[i]),
                ) is None
            &&& forall|i: int|
                0 <= i < declared_dirs(policy).len() ==> paths::below(
                    paths::path_of(b.resolved@),
                    paths::path_of(#[trigger] declared_dirs(policy)[i]),
                ) is None
            &&& forall|i: int|
                0 <= i < policy.staged_runtime@.len() ==> (
                #[trigger] policy.staged_runtime@[i]).binary@ != b.entry@
                    && policy.staged_runtime@[i].binary@ != interpreter->0
            &&& forall|i: int|
                0 <= i < policy.interpreter_runtime@.len() ==> (
                #[trigger] policy.interpreter_runtime@[i]).binary@ != b.entry@
                    && policy.interpreter_runtime@[i].binary@ != interpreter->0
        },
        uncovered(policy, sealed, b) is Some ==> uncovered(policy, sealed, b) == shebang_of(
            head_bytes(b),
        ),
{
}

/// A compiler's helper is covered exactly when it lies below a declared directory, is itself on the
/// allowlist, or is where an entry of the allowlist resolved to.
pub proof fn what_covers_a_helper(policy: ShellPolicy, helper: Seq<char>, path: Seq<char>)
    ensures
        !covered_helper(policy, helper, path) <==> {
            &&& forall|i: int|
                0 <= i < declared_dirs(policy).len() ==> paths::below(
                    paths::path_of(path),
                    paths::path_of(#[trigger] declared_dirs(policy)[i]),
                ) is None
            &&& forall|i: int|
                0 <= i < policy.allow@.len() ==> (#[trigger] policy.allow@[i]).entry@ != helper
                    && (policy.allow@[i].entry@.len() > 0 ==> paths::path_of(
                    policy.allow@[i].resolved@,
                ) != paths::path_of(path))
        },
{
}

} // verus!
