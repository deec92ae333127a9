//! What a declared subtree of the workdir may be: one rule for every declaration that names one.

use crate::errors::RuntimeError;
use crate::paths;
use crate::text;
use vstd::prelude::*;

verus! {

/// Which of the shapes a workdir subtree cannot have a declared path broke.
#[derive(Debug, Clone, Copy, PartialEq, Eq, Structural)]
pub enum WorkdirSubpathRejection {
    Absolute,
    Escapes,
    /// Only where a platform's paths carry prefixes, such as a drive.
    Prefixed,
}

/// How a rejection reads, `noun` naming the declaration.
pub open spec fn rejection_text(why: WorkdirSubpathRejection, noun: Seq<char>) -> Seq<char> {
    match why {
        WorkdirSubpathRejection::Absolute => noun + " must be relative to the workdir"@,
        WorkdirSubpathRejection::Escapes => noun + " cannot escape the workdir via '..'"@,
        WorkdirSubpathRejection::Prefixed => noun
            + " must not contain absolute or prefixed components"@,
    }
}

impl WorkdirSubpathRejection {
    /// How this rejection reads, `noun` naming the declaration.
    pub fn message(self, noun: &str) -> (r: String)
        ensures
            r@ == rejection_text(self, noun@),
    {
        match self {
            WorkdirSubpathRejection::Absolute => text::cat2(
                noun,
                " must be relative to the workdir",
            ),
            WorkdirSubpathRejection::Escapes => text::cat2(
                noun,
                " cannot escape the workdir via '..'",
            ),
            WorkdirSubpathRejection::Prefixed => text::cat2(
                noun,
                " must not contain absolute or prefixed components",
            ),
        }
    }
}

/// A declared path as components below the workdir, or why it cannot be one. A `..` that would
/// pop past the workdir root escapes it, whatever follows.
pub open spec fn lowered_subpath(raw: Seq<char>) -> Result<
    Seq<Seq<char>>,
    WorkdirSubpathRejection,
> {
    if text::begins(raw, '/') {
        Err(WorkdirSubpathRejection::Absolute)
    } else {
        match paths::settled(paths::path_of(raw).parts) {
            Some(parts) => Ok(parts),
            None => Err(WorkdirSubpathRejection::Escapes),
        }
    }
}

/// Lowers a declared workdir-relative path to its components, lexically.
pub fn lower_workdir_subpath(raw: &str) -> (r: Result<Vec<String>, WorkdirSubpathRejection>)
    ensures
        match (r, lowered_subpath(raw@)) {
            (Ok(parts), Ok(wanted)) => text::texts(parts@) == wanted,
            (Err(why), Err(wanted)) => why == wanted,
            _ => false,
        },
        text::begins(raw@, '/') <==> r == Err::<Vec<String>, WorkdirSubpathRejection>(
            WorkdirSubpathRejection::Absolute,
        ),
        r is Ok ==> forall|i: int|
            0 <= i < r->Ok_0@.len() ==> (#[trigger] r->Ok_0@[i])@ != ".."@,
{
    proof {
        let parts = paths::path_of(raw@).parts;
        if paths::settled(parts) is Some {
            paths::settled_components_go_down(parts);
        }
    }
    if text::begins_with(raw, '/') {
        return Err(WorkdirSubpathRejection::Absolute);
    }
    match paths::settle(paths::parse(raw).parts.as_slice()) {
        Some(parts) => {
            proof {
                let lowered = paths::settled(paths::path_of(raw@).parts)->0;
                assert forall|i: int| 0 <= i < parts@.len() implies (#[trigger] parts@[i])@
                    != ".."@ by {
                    assert(lowered[i] == parts@[i]@);
                }
            }
            Ok(parts)
        },
        None => Err(WorkdirSubpathRejection::Escapes),
    }
}

/// Whether an error says that a filesystem scope was rejected for `why`.
pub open spec fn says_scope_rejected(
    e: RuntimeError,
    declared: Seq<char>,
    why: WorkdirSubpathRejection,
) -> bool {
    match e {
        RuntimeError::InvalidFilesystemScope { scope, message } => scope@ == declared && message@
            == rejection_text(why, "scope"@),
        _ => false,
    }
}

/// Whether a declared filesystem scope is a subtree of the workdir.
pub fn validate_filesystem_scope(scope: &str) -> (r: Result<(), RuntimeError>)
    ensures
        match (r, lowered_subpath(scope@)) {
            (Ok(_), Ok(_)) => true,
            (Err(e), Err(why)) => says_scope_rejected(e, scope@, why),
            _ => false,
        },
        text::begins(scope@, '/') ==> r is Err,
        r is Err ==> r->Err_0 is InvalidFilesystemScope,
{
    match lower_workdir_subpath(scope) {
        Ok(_) => Ok(()),
        Err(why) => Err(
            RuntimeError::InvalidFilesystemScope {
                scope: scope.to_owned(),
                message: why.message("scope"),
            },
        ),
    }
}

/// A path that leaves the workdir stays left: what comes behind cannot bring it back.
pub proof fn leaving_is_final(front: Seq<Seq<char>>, back: Seq<Seq<char>>)
    requires
        paths::settled(front) is None,
    ensures
        paths::settled(front + back) is None,
    decreases back.len(),
{
    if back.len() == 0 {
        assert(front + back =~= front);
    } else {
        leaving_is_final(front, back.drop_last());
        assert((front + back).drop_last() =~= front + back.drop_last());
    }
}

/// A plain name below a declared path is below it, a step up undoes a step down, and a path that
/// starts with a step up escapes.
pub proof fn a_declared_path_goes_down(dir: Seq<char>, name: Seq<char>)
    requires
        dir.len() > 0,
        dir[0] != '/',
        name.len() > 0,
        !name.contains('/'),
        name != "."@,
        name != ".."@,
        lowered_subpath(dir) is Ok,
    ensures
        lowered_subpath(dir + seq!['/'] + name) == Ok::<Seq<Seq<char>>, WorkdirSubpathRejection>(
            lowered_subpath(dir)->Ok_0.push(name),
        ),
        lowered_subpath(".."@ + seq!['/'] + dir) == Err::<Seq<Seq<char>>, WorkdirSubpathRejection>(
            WorkdirSubpathRejection::Escapes,
        ),
        lowered_subpath(seq!['/'] + dir) == Err::<Seq<Seq<char>>, WorkdirSubpathRejection>(
            WorkdirSubpathRejection::Absolute,
        ),
{
    let whole = dir + seq!['/'] + name;
    assert(whole[0] == dir[0]);
    paths::a_slash_parts_components(dir, name);
    paths::a_slash_parts_components(name, name);
    let parts = paths::path_of(dir).parts;
    assert(parts + seq![name] =~= parts.push(name));
    assert(parts.push(name).drop_last() =~= parts);
    reveal_strlit("..");
    reveal_strlit(".");
    let up = ".."@ + seq!['/'] + dir;
    assert(up[0] == '.');
    assert(!".."@.contains('/'));
    assert(".."@.len() == 2 && "."@.len() == 1);
    paths::a_slash_parts_components(".."@, dir);
    paths::down_and_up_leads_nowhere(parts, name, parts);
    assert((seq!['/'] + dir)[0] == '/');
}

} // verus!
