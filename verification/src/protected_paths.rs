//! `capabilities.filesystem.read_only`: workdir subtrees a capsule may read but must not write,
//! lowered once and answered in one place.
//!
//! The analyser flags only what it can positively identify as a write. It lists the places a call
//! writes to, with the evidence for each, and refuses the first that a declared subtree covers.

use crate::errors::RuntimeError;
use crate::json;
use crate::json::{Json, JsonView};
use crate::paths;
use crate::paths::{Lead, PathView, PlainPath, RealPaths};
use crate::shell_script;
use crate::shell_script::{Segment, SegmentView};
use crate::text;
use crate::tool_annotations;
use crate::tool_annotations::{
    AnnotationsView, InputLocation, LocationStep, StepView, ToolAnnotationMap, ToolAnnotations,
};
use crate::workdir;
use crate::workdir::WorkdirSubpathRejection;
use vstd::prelude::*;

verus! {

/// A call about to be dispatched, after its binary or tool was resolved.
#[derive(Debug, PartialEq, Eq)]
pub enum ResolvedCall {
    Shell { binary: String, command: String, argv: Vec<String>, script: Option<String> },
    Tool { tool_name: String, input: String, input_bytes: u64 },
}

// ── What a call writes to ────────────────────────────────────────────────────

/// The evidence that identified a call as a write.
#[derive(Debug, PartialEq, Eq)]
pub enum WriteSignal {
    /// A redirection operator in a script body, followed by a path.
    ShellRedirection { operator: String },
    /// An argument in a write-target position of a recognized binary.
    ShellArgument { binary: String },
    /// A text under a destination key, which is a write target on its own.
    ToolDestinationKey { key: String },
    /// A path key paired, in the same JSON object, with a content key.
    ToolPathWithContent { path_key: String, content_key: String },
    /// A place the tool's own input schema declared to be a destination.
    ToolDeclaredDestination { location: String },
}

/// What a [`WriteSignal`] stands for.
pub enum SignalView {
    ShellRedirection { operator: Seq<char> },
    ShellArgument { binary: Seq<char> },
    ToolDestinationKey { key: Seq<char> },
    ToolPathWithContent { path_key: Seq<char>, content_key: Seq<char> },
    ToolDeclaredDestination { location: Seq<char> },
}

impl View for WriteSignal {
    type V = SignalView;

    open spec fn view(&self) -> SignalView {
        match *self {
            WriteSignal::ShellRedirection { operator } => SignalView::ShellRedirection {
                operator: operator@,
            },
            WriteSignal::ShellArgument { binary } => SignalView::ShellArgument { binary: binary@ },
            WriteSignal::ToolDestinationKey { key } => SignalView::ToolDestinationKey { key: key@ },
            WriteSignal::ToolPathWithContent { path_key, content_key } =>
                SignalView::ToolPathWithContent { path_key: path_key@, content_key: content_key@ },
            WriteSignal::ToolDeclaredDestination { location } =>
                SignalView::ToolDeclaredDestination { location: location@ },
        }
    }
}

/// How a signal reads in a trace.
pub open spec fn signal_text(s: SignalView) -> Seq<char> {
    match s {
        SignalView::ShellRedirection { operator } => "shell redirection '"@ + operator
            + "' into the path"@,
        SignalView::ShellArgument { binary } => "write-target argument of '"@ + binary + "'"@,
        SignalView::ToolDestinationKey { key } => "destination key '"@ + key
            + "' in the tool input"@,
        SignalView::ToolPathWithContent { path_key, content_key } => "tool input pairs '"@
            + path_key + "' with '"@ + content_key + "'"@,
        SignalView::ToolDeclaredDestination { location } => "destination '"@ + location
            + "' declared by the tool's input schema"@,
    }
}

impl WriteSignal {
    /// The one-line spelling written to the trace and shown to the model.
    pub fn describe(&self) -> (r: String)
        ensures
            r@ == signal_text(self@),
    {
        match self {
            WriteSignal::ShellRedirection { operator } => text::cat3(
                "shell redirection '",
                operator.as_str(),
                "' into the path",
            ),
            WriteSignal::ShellArgument { binary } => text::cat3(
                "write-target argument of '",
                binary.as_str(),
                "'",
            ),
            WriteSignal::ToolDestinationKey { key } => text::cat3(
                "destination key '",
                key.as_str(),
                "' in the tool input",
            ),
            WriteSignal::ToolPathWithContent { path_key, content_key } => text::cat5(
                "tool input pairs '",
                path_key.as_str(),
                "' with '",
                content_key.as_str(),
                "'",
            ),
            WriteSignal::ToolDeclaredDestination { location } => text::cat3(
                "destination '",
                location.as_str(),
                "' declared by the tool's input schema",
            ),
        }
    }

    /// A copy.
    pub fn copied(&self) -> (r: Self)
        ensures
            r@ == self@,
    {
        match self {
            WriteSignal::ShellRedirection { operator } => WriteSignal::ShellRedirection {
                operator: operator.clone(),
            },
            WriteSignal::ShellArgument { binary } => WriteSignal::ShellArgument {
                binary: binary.clone(),
            },
            WriteSignal::ToolDestinationKey { key } => WriteSignal::ToolDestinationKey {
                key: key.clone(),
            },
            WriteSignal::ToolPathWithContent { path_key, content_key } =>
                WriteSignal::ToolPathWithContent {
                path_key: path_key.clone(),
                content_key: content_key.clone(),
            },
            WriteSignal::ToolDeclaredDestination { location } =>
                WriteSignal::ToolDeclaredDestination { location: location.clone() },
        }
    }
}

/// A path a call writes to, as the call spells it, and what says so.
#[derive(Debug, PartialEq, Eq)]
pub struct WriteTarget {
    pub path: String,
    pub signal: WriteSignal,
}

/// What a [`WriteTarget`] stands for.
#[verifier::ext_equal]
pub struct TargetView {
    pub path: Seq<char>,
    pub signal: SignalView,
}

impl View for WriteTarget {
    type V = TargetView;

    open spec fn view(&self) -> TargetView {
        TargetView { path: self.path@, signal: self.signal@ }
    }
}

/// What a list of targets stands for.
pub open spec fn target_views(v: Seq<WriteTarget>) -> Seq<TargetView> {
    v.map_values(|t: WriteTarget| t@)
}

/// Adds a target to a list.
fn add_target(out: &mut Vec<WriteTarget>, path: String, signal: WriteSignal)
    ensures
        target_views(final(out)@) == target_views(old(out)@).push(
            TargetView { path: path@, signal: signal@ },
        ),
{
    let ghost before = out@;
    let target = WriteTarget { path, signal };
    let ghost added = target@;
    out.push(target);
    proof {
        assert(target_views(out@) =~= target_views(before).push(added));
    }
}

/// Adds a list of targets to a list.
fn add_targets(out: &mut Vec<WriteTarget>, more: Vec<WriteTarget>)
    ensures
        target_views(final(out)@) == target_views(old(out)@) + target_views(more@),
{
    let ghost before = out@;
    let ghost added = more@;
    let mut more = more;
    out.append(&mut more);
    proof {
        assert(target_views(out@) =~= target_views(before) + target_views(added));
    }
}

fn no_targets() -> (r: Vec<WriteTarget>)
    ensures
        target_views(r@) == Seq::<TargetView>::empty(),
{
    let r: Vec<WriteTarget> = Vec::new();
    proof {
        assert(target_views(r@) =~= Seq::<TargetView>::empty());
    }
    r
}

// ── Shell calls ──────────────────────────────────────────────────────────────

/// Which of a recognized binary's non-flag arguments are write targets.
#[derive(Debug, Clone, Copy, PartialEq, Eq, Structural)]
pub enum WriteTargets {
    /// Every non-flag argument, e.g. `rm a b c`.
    All,
    /// The last non-flag argument only, e.g. `cp src dst`.
    Last,
    /// The file arguments, and only when editing in place.
    InPlaceOnly,
    /// The value of an `of=` operand, e.g. `dd if=a of=b`.
    DdOperand,
}

/// The recognized binaries. One that is not here is not analysed.
pub open spec fn verb(binary: Seq<char>) -> Option<WriteTargets> {
    if binary == "tee"@ || binary == "rm"@ || binary == "rmdir"@ || binary == "unlink"@ || binary
        == "shred"@ || binary == "truncate"@ || binary == "mkdir"@ || binary == "touch"@ || binary
        == "chmod"@ || binary == "chown"@ || binary == "patch"@ {
        Some(WriteTargets::All)
    } else if binary == "mv"@ || binary == "cp"@ || binary == "install"@ || binary == "ln"@ {
        Some(WriteTargets::Last)
    } else if binary == "sed"@ {
        Some(WriteTargets::InPlaceOnly)
    } else if binary == "dd"@ {
        Some(WriteTargets::DdOperand)
    } else {
        None
    }
}

/// Which arguments of a binary are write targets, when it is recognized.
pub fn shell_write_verb(binary: &str) -> (r: Option<WriteTargets>)
    ensures
        r == verb(binary@),
        r == Some(WriteTargets::All) <==> (binary@ == "tee"@ || binary@ == "rm"@ || binary@
            == "rmdir"@ || binary@ == "unlink"@ || binary@ == "shred"@ || binary@ == "truncate"@
            || binary@ == "mkdir"@ || binary@ == "touch"@ || binary@ == "chmod"@ || binary@
            == "chown"@ || binary@ == "patch"@),
        r == Some(WriteTargets::Last) ==> (binary@ == "mv"@ || binary@ == "cp"@ || binary@
            == "install"@ || binary@ == "ln"@),
        r is None ==> binary@ != "mv"@ && binary@ != "cp"@ && binary@ != "install"@ && binary@
            != "ln"@ && binary@ != "sed"@ && binary@ != "dd"@,
        r == Some(WriteTargets::InPlaceOnly) ==> binary@ == "sed"@,
        r == Some(WriteTargets::DdOperand) ==> binary@ == "dd"@,
{
    if text::same(binary, "tee") || text::same(binary, "rm") || text::same(binary, "rmdir")
        || text::same(binary, "unlink") || text::same(binary, "shred") || text::same(
        binary,
        "truncate",
    ) || text::same(binary, "mkdir") || text::same(binary, "touch") || text::same(binary, "chmod")
        || text::same(binary, "chown") || text::same(binary, "patch") {
        Some(WriteTargets::All)
    } else if text::same(binary, "mv") || text::same(binary, "cp") || text::same(binary, "install")
        || text::same(binary, "ln") {
        Some(WriteTargets::Last)
    } else if text::same(binary, "sed") {
        Some(WriteTargets::InPlaceOnly)
    } else if text::same(binary, "dd") {
        Some(WriteTargets::DdOperand)
    } else {
        None
    }
}

/// Whether an allowlisted binary can construct a write the shell analyser cannot see: one of the
/// `shells`, or a general-purpose interpreter.
pub open spec fn advisory(shells: Seq<Seq<char>>, binary: Seq<char>) -> bool {
    shells.contains(binary) || binary == "python"@ || binary == "python3"@ || binary == "perl"@
        || binary == "ruby"@ || binary == "node"@ || binary == "deno"@ || binary == "bun"@ || binary
        == "php"@ || binary == "awk"@ || binary == "gawk"@ || binary == "mawk"@ || binary == "lua"@
        || binary == "tclsh"@ || binary == "Rscript"@
}

/// Whether an allowlisted binary can construct a write the shell analyser cannot see.
pub fn is_advisory_interpreter(shells: &[String], binary: &str) -> (r: bool)
    ensures
        r == advisory(text::texts(shells@), binary@),
        text::texts(shells@).contains(binary@) ==> r,
        r && !text::texts(shells@).contains(binary@) ==> binary@ == "python"@ || binary@
            == "python3"@ || binary@ == "perl"@ || binary@ == "ruby"@ || binary@ == "node"@
            || binary@ == "deno"@ || binary@ == "bun"@ || binary@ == "php"@ || binary@ == "awk"@
            || binary@ == "gawk"@ || binary@ == "mawk"@ || binary@ == "lua"@ || binary@ == "tclsh"@
            || binary@ == "Rscript"@,
        binary@ == "python"@ || binary@ == "python3"@ || binary@ == "perl"@ || binary@ == "ruby"@
            || binary@ == "node"@ || binary@ == "deno"@ || binary@ == "bun"@ || binary@ == "php"@
            || binary@ == "awk"@ || binary@ == "gawk"@ || binary@ == "mawk"@ || binary@ == "lua"@
            || binary@ == "tclsh"@ || binary@ == "Rscript"@ ==> r,
{
    text::list_contains(shells, binary) || text::same(binary, "python") || text::same(
        binary,
        "python3",
    ) || text::same(binary, "perl") || text::same(binary, "ruby") || text::same(binary, "node")
        || text::same(binary, "deno") || text::same(binary, "bun") || text::same(binary, "php")
        || text::same(binary, "awk") || text::same(binary, "gawk") || text::same(binary, "mawk")
        || text::same(binary, "lua") || text::same(binary, "tclsh") || text::same(
        binary,
        "Rscript",
    )
}

/// A flag: a dash with something behind it.
pub open spec fn flag(arg: Seq<char>) -> bool {
    arg.len() > 1 && text::begins(arg, '-')
}

/// Whether an argument is a flag.
pub fn is_flag(arg: &str) -> (r: bool)
    ensures
        r == flag(arg@),
        r <==> arg@.len() > 1 && arg@[0] == '-',
{
    proof {
        reveal_strlit("-");
        if arg@.len() == 1 && arg@[0] == '-' {
            assert(arg@ =~= "-"@);
        }
    }
    text::begins_with(arg, '-') && !text::same(arg, "-")
}

/// The arguments that are not flags.
pub open spec fn operands(args: Seq<Seq<char>>) -> Seq<Seq<char>>
    decreases args.len(),
{
    if args.len() == 0 {
        Seq::empty()
    } else if flag(args.last()) {
        operands(args.drop_last())
    } else {
        operands(args.drop_last()).push(args.last())
    }
}

/// Whether one of the arguments asks to edit in place.
pub open spec fn in_place(args: Seq<Seq<char>>) -> bool {
    exists|i: int| 0 <= i < args.len() && in_place_flag(#[trigger] args[i])
}

/// Whether an argument asks to edit in place.
pub open spec fn in_place_flag(arg: Seq<char>) -> bool {
    arg == "-i"@ || arg == "--in-place"@ || ("-i"@.is_prefix_of(arg) && !"--"@.is_prefix_of(arg))
}

/// What stands behind `of=` in those arguments that start with it.
pub open spec fn output_operands(args: Seq<Seq<char>>) -> Seq<Seq<char>>
    decreases args.len(),
{
    if args.len() == 0 {
        Seq::empty()
    } else if "of="@.is_prefix_of(args.last()) {
        output_operands(args.drop_last()).push(args.last().skip("of="@.len() as int))
    } else {
        output_operands(args.drop_last())
    }
}

/// Which of a command's arguments are write targets. The first operand of an in-place edit is the
/// script, not a file.
pub open spec fn target_arguments(targets: WriteTargets, args: Seq<Seq<char>>) -> Seq<Seq<char>> {
    match targets {
        WriteTargets::All => operands(args),
        WriteTargets::Last => if operands(args).len() == 0 {
            Seq::empty()
        } else {
            seq![operands(args).last()]
        },
        WriteTargets::InPlaceOnly => if in_place(args) && operands(args).len() > 0 {
            operands(args).drop_first()
        } else {
            Seq::empty()
        },
        WriteTargets::DdOperand => output_operands(args),
    }
}

fn operands_of(args: &[String]) -> (r: Vec<String>)
    ensures
        text::texts(r@) == operands(text::texts(args@)),
{
    let ghost all = text::texts(args@);
    let mut out: Vec<String> = Vec::new();
    let mut i: usize = 0;
    proof {
        assert(text::texts(out@) =~= operands(all.take(0)));
    }
    while i < args.len()
        invariant
            i <= args@.len(),
            all == text::texts(args@),
            text::texts(out@) == operands(all.take(i as int)),
        decreases args@.len() - i,
    {
        proof {
            assert(all.take(i + 1).drop_last() =~= all.take(i as int));
            assert(all.take(i + 1).last() == args@[i as int]@);
        }
        if !is_flag(args[i].as_str()) {
            let ghost before = out@;
            out.push(args[i].clone());
            proof {
                assert(text::texts(out@) =~= text::texts(before).push(args@[i as int]@));
            }
        }
        i += 1;
    }
    proof {
        assert(all.take(all.len() as int) =~= all);
    }
    out
}

fn asks_in_place(args: &[String]) -> (r: bool)
    ensures
        r == in_place(text::texts(args@)),
{
    let ghost all = text::texts(args@);
    let mut i: usize = 0;
    while i < args.len()
        invariant
            i <= args@.len(),
            all == text::texts(args@),
            forall|j: int| 0 <= j < i ==> !in_place_flag(#[trigger] all[j]),
        decreases args@.len() - i,
    {
        let arg = args[i].as_str();
        proof {
            assert(all[i as int] == arg@);
        }
        if text::same(arg, "-i") || text::same(arg, "--in-place") || (text::starts_with(arg, "-i")
            && !text::starts_with(arg, "--")) {
            return true;
        }
        i += 1;
    }
    false
}

fn output_operands_of(args: &[String]) -> (r: Vec<String>)
    ensures
        text::texts(r@) == output_operands(text::texts(args@)),
{
    let ghost all = text::texts(args@);
    let mut out: Vec<String> = Vec::new();
    let mut i: usize = 0;
    proof {
        assert(text::texts(out@) =~= output_operands(all.take(0)));
    }
    while i < args.len()
        invariant
            i <= args@.len(),
            all == text::texts(args@),
            text::texts(out@) == output_operands(all.take(i as int)),
        decreases args@.len() - i,
    {
        proof {
            assert(all.take(i + 1).drop_last() =~= all.take(i as int));
            assert(all.take(i + 1).last() == args@[i as int]@);
        }
        if let Some(value) = text::strip_prefix(args[i].as_str(), "of=") {
            let ghost before = out@;
            out.push(value);
            proof {
                assert(text::texts(out@) =~= text::texts(before).push(value@));
            }
        }
        i += 1;
    }
    proof {
        assert(all.take(all.len() as int) =~= all);
    }
    out
}

/// Which of a command's arguments are write targets.
pub fn write_target_arguments(targets: WriteTargets, args: &[String]) -> (r: Vec<String>)
    ensures
        text::texts(r@) == target_arguments(targets, text::texts(args@)),
{
    let mut empty: Vec<String> = Vec::new();
    proof {
        assert(text::texts(empty@) =~= Seq::<Seq<char>>::empty());
    }
    match targets {
        WriteTargets::All => operands_of(args),
        WriteTargets::Last => {
            let mut all = operands_of(args);
            let ghost found = all@;
            match all.pop() {
                Some(last) => {
                    empty.push(last);
                    proof {
                        assert(text::texts(empty@) =~= seq![text::texts(found).last()]);
                    }
                    empty
                },
                None => empty,
            }
        },
        WriteTargets::InPlaceOnly => {
            let all = operands_of(args);
            if asks_in_place(args) && all.len() > 0 {
                let rest = paths::tail(all.as_slice(), 1);
                proof {
                    assert(text::texts(all@).skip(1) =~= text::texts(all@).drop_first());
                }
                rest
            } else {
                empty
            }
        },
        WriteTargets::DdOperand => output_operands_of(args),
    }
}

/// The targets of the redirections of a command.
pub open spec fn redirection_targets(redirections: Seq<(Seq<char>, Seq<char>)>) -> Seq<TargetView> {
    redirections.map_values(
        |r: (Seq<char>, Seq<char>)|
            TargetView { path: r.1, signal: SignalView::ShellRedirection { operator: r.0 } },
    )
}

/// The targets among the arguments of a command.
pub open spec fn argument_targets(binary: Seq<char>, arguments: Seq<Seq<char>>) -> Seq<TargetView> {
    arguments.map_values(
        |a: Seq<char>| TargetView { path: a, signal: SignalView::ShellArgument { binary } },
    )
}

/// What one command writes to: its redirections first, then its write-target arguments.
pub open spec fn segment_targets(segment: SegmentView) -> Seq<TargetView> {
    redirection_targets(segment.redirections) + match segment.binary {
        Some(binary) => match verb(binary) {
            Some(targets) => argument_targets(binary, target_arguments(targets, segment.args)),
            None => Seq::empty(),
        },
        None => Seq::empty(),
    }
}

/// What a list of commands writes to, in order.
pub open spec fn command_targets(segments: Seq<SegmentView>) -> Seq<TargetView>
    decreases segments.len(),
{
    if segments.len() == 0 {
        Seq::empty()
    } else {
        command_targets(segments.drop_last()) + segment_targets(segments.last())
    }
}

/// The commands a shell call runs: those of its script body when it has one, else the one its
/// resolved argv is. No shell reads an argv, so nothing in it redirects.
pub open spec fn shell_segments(
    binary: Seq<char>,
    argv: Seq<Seq<char>>,
    script: Option<Seq<char>>,
) -> Seq<SegmentView> {
    match script {
        Some(body) => shell_script::script_commands(body),
        None => seq![
            SegmentView {
                binary: Some(paths::base_name_of(binary)),
                args: argv,
                redirections: Seq::empty(),
            },
        ],
    }
}

fn targets_of_segment(segment: &Segment) -> (r: Vec<WriteTarget>)
    ensures
        target_views(r@) == segment_targets(segment@),
{
    let mut out = no_targets();
    let ghost redirections = redirection_targets(segment@.redirections);
    let mut i: usize = 0;
    proof {
        assert(redirections.take(0) =~= Seq::<TargetView>::empty());
    }
    while i < segment.redirections.len()
        invariant
            i <= segment.redirections@.len(),
            redirections == redirection_targets(segment@.redirections),
            target_views(out@) == redirections.take(i as int),
        decreases segment.redirections@.len() - i,
    {
        add_target(
            &mut out,
            segment.redirections[i].1.clone(),
            WriteSignal::ShellRedirection { operator: segment.redirections[i].0.clone() },
        );
        proof {
            assert(redirections.take(i + 1) =~= redirections.take(i as int).push(
                redirections[i as int],
            ));
        }
        i += 1;
    }
    proof {
        assert(redirections.take(redirections.len() as int) =~= redirections);
        assert(redirections + Seq::<TargetView>::empty() =~= redirections);
    }
    if let Some(binary) = &segment.binary {
        if let Some(targets) = shell_write_verb(binary.as_str()) {
            let arguments = write_target_arguments(targets, segment.args.as_slice());
            let ghost all = argument_targets(binary@, text::texts(arguments@));
            let mut j: usize = 0;
            proof {
                assert(redirections + all.take(0) =~= redirections);
            }
            while j < arguments.len()
                invariant
                    j <= arguments@.len(),
                    all == argument_targets(binary@, text::texts(arguments@)),
                    target_views(out@) == redirections + all.take(j as int),
                decreases arguments@.len() - j,
            {
                add_target(
                    &mut out,
                    arguments[j].clone(),
                    WriteSignal::ShellArgument { binary: binary.clone() },
                );
                proof {
                    assert(redirections + all.take(j + 1) =~= (redirections + all.take(
                        j as int,
                    )).push(all[j as int]));
                }
                j += 1;
            }
            proof {
                assert(all.take(all.len() as int) =~= all);
            }
        }
    }
    out
}

/// What a shell call writes to.
pub fn shell_write_targets(binary: &str, argv: &[String], script: Option<&str>) -> (r: Vec<
    WriteTarget,
>)
    ensures
        target_views(r@) == command_targets(
            shell_segments(binary@, text::texts(argv@), text::opt_str(script)),
        ),
{
    let ghost wanted = shell_segments(binary@, text::texts(argv@), text::opt_str(script));
    let segments: Vec<Segment> = match script {
        Some(body) => shell_script::scan_script(body),
        None => {
            let only = Segment {
                binary: Some(paths::base_name(binary)),
                args: text::clone_texts(argv),
                redirections: Vec::new(),
            };
            proof {
                assert(only@ =~= wanted[0]);
            }
            let list = vec![only];
            proof {
                assert(shell_script::segment_views(list@) =~= wanted);
            }
            list
        },
    };
    let mut out = no_targets();
    let mut i: usize = 0;
    proof {
        assert(wanted.take(0).len() == 0);
    }
    while i < segments.len()
        invariant
            i <= segments@.len(),
            wanted == shell_script::segment_views(segments@),
            target_views(out@) == command_targets(wanted.take(i as int)),
        decreases segments@.len() - i,
    {
        let more = targets_of_segment(&segments[i]);
        add_targets(&mut out, more);
        proof {
            assert(wanted.take(i + 1).drop_last() =~= wanted.take(i as int));
            assert(wanted.take(i + 1).last() == segments@[i as int]@);
        }
        i += 1;
    }
    proof {
        assert(wanted.take(wanted.len() as int) =~= wanted);
    }
    out
}

// ── Tool calls ───────────────────────────────────────────────────────────────

/// The three sets of tool-input keys the analyser knows.
#[derive(Debug, Clone, Copy, PartialEq, Eq, Structural)]
pub enum KeyTable {
    /// Keys whose text is a write target on its own: the destination half of a copy, move or
    /// render.
    Destination,
    /// Keys naming a file: a write target only beside a content key of the same object.
    Path,
    /// Keys carrying bytes to put somewhere.
    Content,
}

/// A key with case, `-` and `_` folded away, so `newPath`, `new-path` and `new_path` are one.
pub open spec fn folded(key: Seq<char>) -> Seq<char>
    decreases key.len(),
{
    if key.len() == 0 {
        Seq::empty()
    } else if key.last() == '-' || key.last() == '_' {
        folded(key.drop_last())
    } else {
        folded(key.drop_last()) + text::lowercase(key.last())
    }
}

/// Whether a folded key is one of a set.
pub open spec fn in_table(table: KeyTable, key: Seq<char>) -> bool {
    match table {
        KeyTable::Destination => key == "dest"@ || key == "destpath"@ || key == "destination"@
            || key == "destinationpath"@ || key == "targetpath"@ || key == "outputpath"@ || key
            == "outpath"@ || key == "newpath"@ || key == "to"@,
        KeyTable::Path => key == "path"@ || key == "filepath"@ || key == "filename"@ || key
            == "file"@,
        KeyTable::Content => key == "content"@ || key == "contents"@ || key == "text"@ || key
            == "data"@ || key == "body"@ || key == "newstr"@ || key == "newstring"@ || key
            == "replacement"@ || key == "patch"@ || key == "diff"@,
    }
}

/// Whether a key is one of a set, spelling folded.
pub open spec fn key_in(table: KeyTable, key: Seq<char>) -> bool {
    in_table(table, folded(key))
}

/// A key with case, `-` and `_` folded away.
pub fn fold_key(key: &str) -> (r: String)
    ensures
        r@ == folded(key@),
{
    let chars = text::chars_of(key);
    let mut out = String::new();
    let mut i: usize = 0;
    proof {
        assert(out@ =~= folded(key@.take(0)));
    }
    while i < chars.len()
        invariant
            i <= chars@.len(),
            chars@ == key@,
            out@ == folded(key@.take(i as int)),
        decreases chars@.len() - i,
    {
        proof {
            assert(key@.take(i + 1).drop_last() =~= key@.take(i as int));
        }
        if chars[i] != '-' && chars[i] != '_' {
            out.append(text::lowercase_of(chars[i]).as_str());
        }
        i += 1;
    }
    proof {
        assert(key@.take(key@.len() as int) =~= key@);
    }
    out
}

/// Whether a key is one of a set, spelling folded.
pub fn matches_key(table: KeyTable, key: &str) -> (r: bool)
    ensures
        r == key_in(table, key@),
        table is Destination ==> (r <==> ({
            let k = folded(key@);
            k == "dest"@ || k == "destpath"@ || k == "destination"@ || k == "destinationpath"@ || k
                == "targetpath"@ || k == "outputpath"@ || k == "outpath"@ || k == "newpath"@ || k
                == "to"@
        })),
        table is Path ==> (r <==> ({
            let k = folded(key@);
            k == "path"@ || k == "filepath"@ || k == "filename"@ || k == "file"@
        })),
        table is Content ==> (r <==> ({
            let k = folded(key@);
            k == "content"@ || k == "contents"@ || k == "text"@ || k == "data"@ || k == "body"@ || k
                == "newstr"@ || k == "newstring"@ || k == "replacement"@ || k == "patch"@ || k
                == "diff"@
        })),
{
    let folded_key = fold_key(key);
    let k = folded_key.as_str();
    match table {
        KeyTable::Destination => text::same(k, "dest") || text::same(k, "destpath") || text::same(
            k,
            "destination",
        ) || text::same(k, "destinationpath") || text::same(k, "targetpath") || text::same(
            k,
            "outputpath",
        ) || text::same(k, "outpath") || text::same(k, "newpath") || text::same(k, "to"),
        KeyTable::Path => text::same(k, "path") || text::same(k, "filepath") || text::same(
            k,
            "filename",
        ) || text::same(k, "file"),
        KeyTable::Content => text::same(k, "content") || text::same(k, "contents") || text::same(
            k,
            "text",
        ) || text::same(k, "data") || text::same(k, "body") || text::same(k, "newstr")
            || text::same(k, "newstring") || text::same(k, "replacement") || text::same(k, "patch")
            || text::same(k, "diff"),
    }
}

/// The entries under a destination key that are texts.
pub open spec fn destination_targets(entries: Seq<(Seq<char>, JsonView)>) -> Seq<TargetView>
    decreases entries.len(),
{
    if entries.len() == 0 {
        Seq::empty()
    } else {
        let before = destination_targets(entries.drop_last());
        let (key, value) = entries.last();
        match json::as_text(value) {
            Some(path) => if key_in(KeyTable::Destination, key) {
                before.push(TargetView { path, signal: SignalView::ToolDestinationKey { key } })
            } else {
                before
            },
            None => before,
        }
    }
}

/// The first content key of an object.
pub open spec fn content_key(entries: Seq<(Seq<char>, JsonView)>) -> Option<Seq<char>>
    decreases entries.len(),
{
    if entries.len() == 0 {
        None
    } else if key_in(KeyTable::Content, entries[0].0) {
        Some(entries[0].0)
    } else {
        content_key(entries.drop_first())
    }
}

/// The entries under a path key that are texts, in an object with a content key.
pub open spec fn path_targets(
    entries: Seq<(Seq<char>, JsonView)>,
    content: Seq<char>,
) -> Seq<TargetView>
    decreases entries.len(),
{
    if entries.len() == 0 {
        Seq::empty()
    } else {
        let before = path_targets(entries.drop_last(), content);
        let (key, value) = entries.last();
        match json::as_text(value) {
            Some(path) => if key_in(KeyTable::Path, key) {
                before.push(
                    TargetView {
                        path,
                        signal: SignalView::ToolPathWithContent {
                            path_key: key,
                            content_key: content,
                        },
                    },
                )
            } else {
                before
            },
            None => before,
        }
    }
}

/// What one object says it writes to: its destinations, then its paths when it carries content.
pub open spec fn object_targets(entries: Seq<(Seq<char>, JsonView)>) -> Seq<TargetView> {
    destination_targets(entries) + match content_key(entries) {
        Some(content) => path_targets(entries, content),
        None => Seq::empty(),
    }
}

/// Whether a value is an object or an array.
pub open spec fn container(v: JsonView) -> bool {
    v is Object || v is Array
}

/// What the key-name heuristic finds in a value that stands at `place`, each object before what is
/// inside it. A container declared opaque is not entered.
pub open spec fn found_in(
    v: JsonView,
    place: Seq<StepView>,
    opaque: Seq<Seq<StepView>>,
) -> Seq<TargetView>
    decreases v,
{
    if container(v) && opaque.contains(place) {
        Seq::empty()
    } else {
        match v {
            JsonView::Object(entries) => object_targets(entries) + found_in_entries(
                entries,
                place,
                opaque,
            ),
            JsonView::Array(items) => found_in_items(items, place.push(StepView::Element), opaque),
            _ => Seq::empty(),
        }
    }
}

/// What the heuristic finds inside the entries of an object.
pub open spec fn found_in_entries(
    entries: Seq<(Seq<char>, JsonView)>,
    place: Seq<StepView>,
    opaque: Seq<Seq<StepView>>,
) -> Seq<TargetView>
    decreases entries,
{
    if entries.len() == 0 {
        Seq::empty()
    } else {
        found_in_entries(entries.drop_last(), place, opaque) + found_in(
            entries.last().1,
            place.push(StepView::Key(entries.last().0)),
            opaque,
        )
    }
}

/// What the heuristic finds inside the items of an array.
pub open spec fn found_in_items(
    items: Seq<JsonView>,
    place: Seq<StepView>,
    opaque: Seq<Seq<StepView>>,
) -> Seq<TargetView>
    decreases items,
{
    if items.len() == 0 {
        Seq::empty()
    } else {
        found_in_items(items.drop_last(), place, opaque) + found_in(items.last(), place, opaque)
    }
}

/// The texts at a declared destination.
pub open spec fn location_targets(location: Seq<StepView>, v: JsonView) -> Seq<TargetView> {
    tool_annotations::texts_at(location, v).map_values(
        |path: Seq<char>|
            TargetView {
                path,
                signal: SignalView::ToolDeclaredDestination {
                    location: tool_annotations::location_text(location),
                },
            },
    )
}

/// The texts at every declared destination, wherever in the input they stand.
pub open spec fn declared_targets(locations: Seq<Seq<StepView>>, v: JsonView) -> Seq<TargetView>
    decreases locations.len(),
{
    if locations.len() == 0 {
        Seq::empty()
    } else {
        declared_targets(locations.drop_last(), v) + location_targets(locations.last(), v)
    }
}

/// What a tool call with this input writes to: the declared destinations first, then what the
/// key-name heuristic finds.
pub open spec fn tool_targets(v: JsonView, annotations: AnnotationsView) -> Seq<TargetView> {
    declared_targets(annotations.destinations, v) + found_in(v, Seq::empty(), annotations.opaque)
}

fn targets_of_object(entries: &[(String, Json)]) -> (r: Vec<WriteTarget>)
    ensures
        target_views(r@) == object_targets(json::entry_views(entries@)),
{
    let ghost all = json::entry_views(entries@);
    let total: usize = entries.len();
    let mut out = no_targets();
    let mut i: usize = 0;
    proof {
        assert(all.take(0).len() == 0);
    }
    while i < total
        invariant
            i <= total == entries@.len(),
            all == json::entry_views(entries@),
            target_views(out@) == destination_targets(all.take(i as int)),
        decreases total - i,
    {
        proof {
            assert(all.take(i + 1).drop_last() =~= all.take(i as int));
            assert(all.take(i + 1).last() == (entries@[i as int].0@, entries@[i as int].1@));
        }
        if let Json::Text(path) = &entries[i].1 {
            if matches_key(KeyTable::Destination, entries[i].0.as_str()) {
                add_target(
                    &mut out,
                    path.clone(),
                    WriteSignal::ToolDestinationKey { key: entries[i].0.clone() },
                );
            }
        }
        i += 1;
    }
    let mut c: usize = 0;
    proof {
        assert(all.take(all.len() as int) =~= all);
        assert(all.skip(0) =~= all);
    }
    while c < total && !matches_key(KeyTable::Content, entries[c].0.as_str())
        invariant
            c <= total == entries@.len(),
            all == json::entry_views(entries@),
            content_key(all.skip(c as int)) == content_key(all),
        decreases total - c,
    {
        proof {
            assert(all.skip(c as int)[0] == all[c as int]);
            assert(all.skip(c as int).drop_first() =~= all.skip(c + 1));
        }
        c += 1;
    }
    let ghost first = destination_targets(all);
    proof {
        assert(first + Seq::<TargetView>::empty() =~= first);
    }
    if c < total {
        let content = entries[c].0.as_str();
        proof {
            assert(all.skip(c as int)[0] == all[c as int]);
        }
        let mut j: usize = 0;
        proof {
            assert(all.take(0).len() == 0);
        }
        while j < total
            invariant
                j <= total == entries@.len(),
                all == json::entry_views(entries@),
                target_views(out@) == first + path_targets(all.take(j as int), content@),
            decreases total - j,
        {
            proof {
                assert(all.take(j + 1).drop_last() =~= all.take(j as int));
                assert(all.take(j + 1).last() == (entries@[j as int].0@, entries@[j as int].1@));
            }
            if let Json::Text(path) = &entries[j].1 {
                if matches_key(KeyTable::Path, entries[j].0.as_str()) {
                    let ghost before = path_targets(all.take(j as int), content@);
                    let signal = WriteSignal::ToolPathWithContent {
                        path_key: entries[j].0.clone(),
                        content_key: content.to_owned(),
                    };
                    let ghost added = TargetView { path: path@, signal: signal@ };
                    add_target(&mut out, path.clone(), signal);
                    proof {
                        assert((first + before).push(added) =~= first + before.push(added));
                    }
                }
            }
            j += 1;
        }
        proof {
            assert(all.take(all.len() as int) =~= all);
        }
    }
    out
}

fn copy_steps(steps: &[LocationStep]) -> (r: Vec<LocationStep>)
    ensures
        tool_annotations::steps_view(r@) == tool_annotations::steps_view(steps@),
{
    let ghost all = tool_annotations::steps_view(steps@);
    let mut out: Vec<LocationStep> = Vec::new();
    let mut i: usize = 0;
    while i < steps.len()
        invariant
            i <= steps@.len(),
            all == tool_annotations::steps_view(steps@),
            out@.len() == i,
            forall|j: int| 0 <= j < i ==> (#[trigger] out@[j])@ == all[j],
        decreases steps@.len() - i,
    {
        let step = match &steps[i] {
            LocationStep::Key(key) => LocationStep::Key(key.clone()),
            LocationStep::Element => LocationStep::Element,
        };
        out.push(step);
        i += 1;
    }
    proof {
        assert(tool_annotations::steps_view(out@) =~= all);
    }
    out
}

fn step_down(place: &[LocationStep], step: LocationStep) -> (r: Vec<LocationStep>)
    ensures
        tool_annotations::steps_view(r@) == tool_annotations::steps_view(place@).push(step@),
{
    let mut out = copy_steps(place);
    let ghost before = out@;
    out.push(step);
    proof {
        assert(tool_annotations::steps_view(out@) =~= tool_annotations::steps_view(before).push(
            step@,
        ));
    }
    out
}

/// What the key-name heuristic finds in a value that stands at `place`.
pub fn walk_json(value: &Json, place: &[LocationStep], annotations: &ToolAnnotations) -> (r: Vec<
    WriteTarget,
>)
    ensures
        target_views(r@) == found_in(
            value@,
            tool_annotations::steps_view(place@),
            annotations@.opaque,
        ),
    decreases value,
{
    let ghost here = tool_annotations::steps_view(place@);
    let ghost opaque = annotations@.opaque;
    match value {
        Json::Object(entries) => {
            if annotations.is_opaque(place) {
                return no_targets();
            }
            let ghost all = json::entry_views(entries@);
            let mut out = targets_of_object(entries.as_slice());
            let ghost own = object_targets(all);
            let mut i: usize = 0;
            proof {
                assert(all.take(0).len() == 0);
                assert(own + found_in_entries(all.take(0), here, opaque) =~= own);
            }
            while i < entries.len()
                invariant
                    i <= entries@.len(),
                    *value == Json::Object(*entries),
                    all == json::entry_views(entries@),
                    here == tool_annotations::steps_view(place@),
                    opaque == annotations@.opaque,
                    target_views(out@) == own + found_in_entries(
                        all.take(i as int),
                        here,
                        opaque,
                    ),
                decreases entries@.len() - i,
            {
                proof {
                    assert(all.take(i + 1).drop_last() =~= all.take(i as int));
                    assert(all.take(i + 1).last() == (
                        entries@[i as int].0@,
                        entries@[i as int].1@,
                    ));
                    assert(decreases_to!(value => value->Object_0));
                    assert(decreases_to!(entries => entries@));
                    assert(decreases_to!(entries@ => entries@[i as int]));
                    assert(decreases_to!(entries@[i as int] => entries@[i as int].1));
                }
                let inside = step_down(place, LocationStep::Key(entries[i].0.clone()));
                let more = walk_json(&entries[i].1, inside.as_slice(), annotations);
                let ghost added = target_views(more@);
                add_targets(&mut out, more);
                proof {
                    let before = found_in_entries(all.take(i as int), here, opaque);
                    assert(own + before + added =~= own + (before + added));
                }
                i += 1;
            }
            proof {
                assert(all.take(all.len() as int) =~= all);
            }
            out
        },
        Json::Array(items) => {
            if annotations.is_opaque(place) {
                return no_targets();
            }
            let ghost all = json::item_views(items@);
            let inside = step_down(place, LocationStep::Element);
            let ghost below = here.push(StepView::Element);
            let mut out = no_targets();
            let mut i: usize = 0;
            proof {
                assert(all.take(0).len() == 0);
            }
            while i < items.len()
                invariant
                    i <= items@.len(),
                    *value == Json::Array(*items),
                    all == json::item_views(items@),
                    below == tool_annotations::steps_view(inside@),
                    opaque == annotations@.opaque,
                    target_views(out@) == found_in_items(all.take(i as int), below, opaque),
                decreases items@.len() - i,
            {
                proof {
                    assert(all.take(i + 1).drop_last() =~= all.take(i as int));
                    assert(all.take(i + 1).last() == items@[i as int]@);
                    assert(decreases_to!(value => value->Array_0));
                    assert(decreases_to!(items => items@));
                    assert(decreases_to!(items@ => items@[i as int]));
                }
                let more = walk_json(&items[i], inside.as_slice(), annotations);
                add_targets(&mut out, more);
                i += 1;
            }
            proof {
                assert(all.take(all.len() as int) =~= all);
            }
            out
        },
        _ => no_targets(),
    }
}

fn targets_of_location(location: &InputLocation, value: &Json) -> (r: Vec<WriteTarget>)
    ensures
        target_views(r@) == location_targets(location@, value@),
{
    let found = location.resolve(value);
    let written = location.render();
    let ghost all = location_targets(location@, value@);
    let mut out = no_targets();
    let mut i: usize = 0;
    proof {
        assert(all.take(0) =~= Seq::<TargetView>::empty());
    }
    while i < found.len()
        invariant
            i <= found@.len(),
            text::texts(found@) == tool_annotations::texts_at(location@, value@),
            written@ == tool_annotations::location_text(location@),
            all == location_targets(location@, value@),
            target_views(out@) == all.take(i as int),
        decreases found@.len() - i,
    {
        proof {
            assert(text::texts(found@)[i as int] == found@[i as int]@);
            assert(all.take(i + 1) =~= all.take(i as int).push(all[i as int]));
        }
        add_target(
            &mut out,
            found[i].clone(),
            WriteSignal::ToolDeclaredDestination { location: written.clone() },
        );
        i += 1;
    }
    proof {
        assert(all.len() == text::texts(found@).len());
        assert(all.take(all.len() as int) =~= all);
    }
    out
}

/// What a tool call with this input writes to.
pub fn tool_write_targets(value: &Json, annotations: &ToolAnnotations) -> (r: Vec<WriteTarget>)
    ensures
        target_views(r@) == tool_targets(value@, annotations@),
{
    let ghost all = annotations@.destinations;
    let mut out = no_targets();
    let mut i: usize = 0;
    proof {
        assert(all.take(0).len() == 0);
    }
    while i < annotations.destinations.len()
        invariant
            i <= annotations.destinations@.len(),
            all == annotations@.destinations,
            target_views(out@) == declared_targets(all.take(i as int), value@),
        decreases annotations.destinations@.len() - i,
    {
        let more = targets_of_location(&annotations.destinations[i], value);
        add_targets(&mut out, more);
        proof {
            assert(all.take(i + 1).drop_last() =~= all.take(i as int));
            assert(all.take(i + 1).last() == annotations.destinations@[i as int]@);
        }
        i += 1;
    }
    let root: Vec<LocationStep> = Vec::new();
    proof {
        assert(all.take(all.len() as int) =~= all);
        assert(tool_annotations::steps_view(root@) =~= Seq::<StepView>::empty());
    }
    let more = walk_json(value, root.as_slice(), annotations);
    add_targets(&mut out, more);
    out
}

/// What a call writes to. Annotations are consulted for a tool call only; input that is not JSON
/// writes nowhere the analyser can see.
pub open spec fn call_targets(
    call: ResolvedCall,
    annotations: Seq<(Seq<char>, AnnotationsView)>,
) -> Seq<TargetView> {
    match call {
        ResolvedCall::Shell { binary, argv, script, .. } => command_targets(
            shell_segments(binary@, text::texts(argv@), text::opt_text(script)),
        ),
        ResolvedCall::Tool { tool_name, input, .. } => match json::parsed(input@) {
            Some(v) => tool_targets(v, tool_annotations::declared_by(annotations, tool_name@)),
            None => Seq::empty(),
        },
    }
}

/// What a call writes to.
pub fn write_targets(call: &ResolvedCall, annotations: &ToolAnnotationMap) -> (r: Vec<WriteTarget>)
    ensures
        target_views(r@) == call_targets(*call, annotations@),
        call matches ResolvedCall::Shell { binary, argv, script, .. } ==> target_views(r@)
            == command_targets(
            shell_segments(binary@, text::texts(argv@), text::opt_text(*script)),
        ),
        call matches ResolvedCall::Tool { tool_name, input, .. } ==> (json::parsed(input@) is None
            ==> r@.len() == 0) && (json::parsed(input@) is Some ==> target_views(r@)
            == tool_targets(
            json::parsed(input@)->0,
            tool_annotations::declared_by(annotations@, tool_name@),
        )),
{
    match call {
        ResolvedCall::Shell { binary, argv, script, .. } => {
            let body = match script {
                Some(s) => Some(s.as_str()),
                None => None,
            };
            shell_write_targets(binary.as_str(), argv.as_slice(), body)
        },
        ResolvedCall::Tool { tool_name, input, .. } => match json::read(input.as_str()) {
            Some(value) => match annotations.position(tool_name.as_str()) {
                Some(i) => tool_write_targets(&value, &annotations.tools[i].1),
                None => tool_write_targets(&value, &ToolAnnotations::none()),
            },
            None => no_targets(),
        },
    }
}

// ── The declared subtrees ────────────────────────────────────────────────────

/// One lowered `read_only` entry.
#[derive(Debug, PartialEq, Eq)]
pub struct ProtectedPathRule {
    /// The entry exactly as the manifest wrote it, which is what a refusal quotes.
    pub declared: String,
    /// The same entry as components below the workdir root.
    pub relative: Vec<String>,
}

/// What a [`ProtectedPathRule`] stands for.
#[verifier::ext_equal]
pub struct RuleView {
    pub declared: Seq<char>,
    pub relative: Seq<Seq<char>>,
}

impl View for ProtectedPathRule {
    type V = RuleView;

    open spec fn view(&self) -> RuleView {
        RuleView { declared: self.declared@, relative: text::texts(self.relative@) }
    }
}

impl RuleView {
    /// Whether a workdir-relative path lies in this rule's subtree, component by component.
    pub open spec fn covers(self, path: PathView) -> bool {
        paths::below(path, PathView { lead: Lead::Bare, parts: self.relative }) is Some
    }
}

impl ProtectedPathRule {
    /// The entry as declared, which is what a refusal names.
    pub fn declared(&self) -> (r: &str)
        ensures
            r@ == self@.declared,
    {
        self.declared.as_str()
    }
}

/// The declared read-only surface of one capsule, lowered once at staging.
#[derive(Debug, PartialEq, Eq)]
pub struct ProtectedPaths {
    pub rules: Vec<ProtectedPathRule>,
}

/// What a list of rules stands for.
pub open spec fn rule_views(v: Seq<ProtectedPathRule>) -> Seq<RuleView> {
    v.map_values(|r: ProtectedPathRule| r@)
}

impl View for ProtectedPaths {
    type V = Seq<RuleView>;

    open spec fn view(&self) -> Seq<RuleView> {
        rule_views(self.rules@)
    }
}

/// What a refused call was refused for.
#[derive(Debug, PartialEq, Eq)]
pub struct ProtectedPathRefusal {
    /// The `read_only` entry as declared.
    pub rule: String,
    /// The workdir-relative path the call resolved to, never the spelling it used.
    pub path: String,
    pub signal: WriteSignal,
}

/// What a [`ProtectedPathRefusal`] stands for.
pub struct RefusalView {
    pub rule: Seq<char>,
    pub path: Seq<char>,
    pub signal: SignalView,
}

impl View for ProtectedPathRefusal {
    type V = RefusalView;

    open spec fn view(&self) -> RefusalView {
        RefusalView { rule: self.rule@, path: self.path@, signal: self.signal@ }
    }
}

/// What an optional refusal stands for.
pub open spec fn opt_refusal(o: Option<ProtectedPathRefusal>) -> Option<RefusalView> {
    match o {
        Some(r) => Some(r@),
        None => None,
    }
}

/// The rules a list of entries declares, or the first entry that cannot be one and why.
pub open spec fn lowered_rules(entries: Seq<Seq<char>>) -> Result<
    Seq<RuleView>,
    (Seq<char>, WorkdirSubpathRejection),
>
    decreases entries.len(),
{
    if entries.len() == 0 {
        Ok(Seq::empty())
    } else {
        match lowered_rules(entries.drop_last()) {
            Err(e) => Err(e),
            Ok(rules) => match workdir::lowered_subpath(entries.last()) {
                Ok(relative) => Ok(rules.push(RuleView { declared: entries.last(), relative })),
                Err(why) => Err((entries.last(), why)),
            },
        }
    }
}

/// Whether an error says that `entry` was rejected for `why`.
pub open spec fn says_rejected(
    e: RuntimeError,
    entry: Seq<char>,
    why: WorkdirSubpathRejection,
) -> bool {
    match e {
        RuntimeError::InvalidReadOnlyPath { path, message } => path@ == entry && message@
            == workdir::rejection_text(why, "read-only path"@),
        _ => false,
    }
}

proof fn lemma_rejected(entries: Seq<Seq<char>>, n: int)
    requires
        0 <= n <= entries.len(),
        lowered_rules(entries.take(n)) is Err,
    ensures
        lowered_rules(entries) == lowered_rules(entries.take(n)),
    decreases entries.len() - n,
{
    if n < entries.len() {
        assert(entries.take(n + 1).drop_last() =~= entries.take(n));
        lemma_rejected(entries, n + 1);
    } else {
        assert(entries.take(n) =~= entries);
    }
}

/// A candidate as a path below the workdir, symlinks resolved as far as the path exists; nothing
/// when it does not name something inside the workdir. A relative candidate that leaves the
/// workdir stays left, even when it would re-enter by name.
pub open spec fn within_workdir(
    known: Seq<(Seq<char>, Seq<char>)>,
    dir: Seq<char>,
    candidate: Seq<char>,
) -> Option<PathView> {
    match lexical_path(dir, candidate) {
        Some(lexical) => {
            let root = real_workdir(known, dir);
            let joined = paths::join(root, lexical);
            paths::below(
                paths::real_prefix(known, joined, joined.parts.len() as int),
                root,
            )
        },
        None => None,
    }
}

/// A candidate as a path below the workdir, by its spelling alone.
pub open spec fn lexical_path(dir: Seq<char>, candidate: Seq<char>) -> Option<PathView> {
    if candidate.len() == 0 {
        None
    } else if text::begins(candidate, '/') {
        paths::below(paths::normal(paths::path_of(candidate)), paths::normal(paths::path_of(dir)))
    } else {
        match paths::settled(paths::path_of(candidate).parts) {
            Some(parts) => Some(PathView { lead: Lead::Bare, parts }),
            None => None,
        }
    }
}

/// The workdir in canonical form, and as given when it has none.
pub open spec fn real_workdir(known: Seq<(Seq<char>, Seq<char>)>, dir: Seq<char>) -> PathView {
    match paths::answer(known, paths::text_of_path(paths::path_of(dir))) {
        Some(found) => paths::path_of(found),
        None => paths::path_of(dir),
    }
}

/// A candidate as a path below the workdir, by its spelling alone.
fn lexical_of(dir: &str, candidate: &str) -> (r: Option<PlainPath>)
    ensures
        paths::opt_path(r) == lexical_path(dir@, candidate@),
{
    if text::same(candidate, "") {
        proof {
            reveal_strlit("");
        }
        return None;
    }
    proof {
        reveal_strlit("");
        if candidate@.len() == 0 {
            assert(candidate@ =~= ""@);
        }
    }
    if text::begins_with(candidate, '/') {
        paths::strip(
            &paths::normalize(&paths::parse(candidate)),
            &paths::normalize(&paths::parse(dir)),
        )
    } else {
        match paths::settle(paths::parse(candidate).parts.as_slice()) {
            Some(parts) => Some(PlainPath { lead: Lead::Bare, parts }),
            None => None,
        }
    }
}

/// The workdir in canonical form, and as given when it has none.
fn real_workdir_of(dir: &str, known: &RealPaths) -> (r: PlainPath)
    ensures
        r@ == real_workdir(known@, dir@),
{
    let given = paths::parse(dir);
    match known.lookup(paths::write(&given).as_str()) {
        Some(found) => paths::parse(found.as_str()),
        None => given,
    }
}

/// A candidate as a path below the workdir, symlinks resolved as far as the path exists.
pub fn resolve_within_workdir(dir: &str, candidate: &str, known: &RealPaths) -> (r: Option<
    PlainPath,
>)
    ensures
        paths::opt_path(r) == within_workdir(known@, dir@, candidate@),
{
    match lexical_of(dir, candidate) {
        Some(lexical) => {
            let root = real_workdir_of(dir, known);
            let joined = paths::joined(&root, &lexical);
            paths::strip(&known.canonicalize_existing_prefix(&joined), &root)
        },
        None => None,
    }
}

/// The paths `p` cut to `k` components, to one less, and so on down to none.
pub open spec fn prefixes(p: PathView, k: int) -> Seq<Seq<char>>
    decreases k,
{
    let front = paths::text_of_path(PathView { lead: p.lead, parts: p.parts.take(k) });
    if k <= 0 {
        seq![front]
    } else {
        seq![front] + prefixes(p, k - 1)
    }
}

/// The paths whose canonical forms decide where a candidate resolves, given the workdir's own.
pub fn paths_to_resolve(dir: &str, candidate: &str, known: &RealPaths) -> (r: Vec<String>)
    ensures
        text::texts(r@) == (match lexical_path(dir@, candidate@) {
            Some(lexical) => {
                let joined = paths::join(real_workdir(known@, dir@), lexical);
                prefixes(joined, joined.parts.len() as int)
            },
            None => Seq::empty(),
        }),
{
    let mut out: Vec<String> = Vec::new();
    proof {
        assert(text::texts(out@) =~= Seq::<Seq<char>>::empty());
    }
    let lexical = match lexical_of(dir, candidate) {
        Some(lexical) => lexical,
        None => return out,
    };
    let root = real_workdir_of(dir, known);
    let joined = paths::joined(&root, &lexical);
    let ghost whole = prefixes(joined@, joined@.parts.len() as int);
    let mut k: usize = joined.parts.len();
    proof {
        assert(text::texts(out@) + whole =~= whole);
    }
    while k > 0
        invariant
            k <= joined.parts@.len(),
            whole == text::texts(out@) + prefixes(joined@, k as int),
        decreases k,
    {
        let front = PlainPath { lead: joined.lead, parts: paths::head(joined.parts.as_slice(), k) };
        let ghost before = out@;
        let written = paths::write(&front);
        out.push(written);
        proof {
            let rest = prefixes(joined@, k - 1);
            assert(text::texts(out@) =~= text::texts(before).push(written@));
            assert(text::texts(before) + (seq![written@] + rest) =~= text::texts(before).push(
                written@,
            ) + rest);
        }
        k -= 1;
    }
    let front = PlainPath { lead: joined.lead, parts: paths::head(joined.parts.as_slice(), 0) };
    let ghost before = out@;
    let written = paths::write(&front);
    out.push(written);
    proof {
        assert(text::texts(out@) =~= text::texts(before) + seq![written@]);
    }
    out
}

/// The first rule that covers a path.
pub open spec fn first_covering(rules: Seq<RuleView>, path: PathView) -> Option<RuleView>
    decreases rules.len(),
{
    if rules.len() == 0 {
        None
    } else if rules[0].covers(path) {
        Some(rules[0])
    } else {
        first_covering(rules.drop_first(), path)
    }
}

/// The rule that covers a candidate, and the workdir-relative path it resolved to.
pub open spec fn covering(
    rules: Seq<RuleView>,
    known: Seq<(Seq<char>, Seq<char>)>,
    dir: Seq<char>,
    candidate: Seq<char>,
) -> Option<(RuleView, Seq<char>)> {
    match within_workdir(known, dir, candidate) {
        Some(path) => match first_covering(rules, path) {
            Some(rule) => Some((rule, paths::text_of_path(path))),
            None => None,
        },
        None => None,
    }
}

/// The refusal of the first target that a rule covers.
pub open spec fn first_refusal(
    rules: Seq<RuleView>,
    known: Seq<(Seq<char>, Seq<char>)>,
    dir: Seq<char>,
    targets: Seq<TargetView>,
) -> Option<RefusalView>
    decreases targets.len(),
{
    if targets.len() == 0 {
        None
    } else {
        match covering(rules, known, dir, targets[0].path) {
            Some((rule, path)) => Some(
                RefusalView { rule: rule.declared, path, signal: targets[0].signal },
            ),
            None => first_refusal(rules, known, dir, targets.drop_first()),
        }
    }
}

/// The subtree roots that no other declared subtree lies above, in declaration order and without
/// duplicates.
pub open spec fn roots(all: Seq<RuleView>, rules: Seq<RuleView>, dir: PathView) -> Seq<PathView>
    decreases rules.len(),
{
    if rules.len() == 0 {
        Seq::empty()
    } else {
        let before = roots(all, rules.drop_last(), dir);
        let root = paths::join(dir, PathView { lead: Lead::Bare, parts: rules.last().relative });
        if lies_below_another(all, rules.last().relative) || before.contains(root) {
            before
        } else {
            before.push(root)
        }
    }
}

/// Whether a declared subtree lies inside another one.
pub open spec fn lies_below_another(all: Seq<RuleView>, relative: Seq<Seq<char>>) -> bool {
    exists|i: int|
        0 <= i < all.len() && strictly_above((#[trigger] all[i]).relative, relative)
}

/// Whether `inner` lies inside `outer` and is not the same.
pub open spec fn strictly_above(outer: Seq<Seq<char>>, inner: Seq<Seq<char>>) -> bool {
    outer != inner && outer.is_prefix_of(inner)
}

/// What a list of paths stands for.
pub open spec fn path_views(v: Seq<PlainPath>) -> Seq<PathView> {
    v.map_values(|p: PlainPath| p@)
}

impl ProtectedPaths {
    /// No declaration.
    pub fn none() -> (r: Self)
        ensures
            r@ == Seq::<RuleView>::empty(),
    {
        let r = ProtectedPaths { rules: Vec::new() };
        proof {
            assert(r@ =~= Seq::<RuleView>::empty());
        }
        r
    }

    /// Validates and lowers the declared entries. An absolute entry is refused, and one that
    /// escapes the workdir; the first such entry is the one reported.
    pub fn from_declared(declared: &[String]) -> (r: Result<Self, RuntimeError>)
        ensures
            match (r, lowered_rules(text::texts(declared@))) {
                (Ok(paths), Ok(rules)) => paths@ == rules,
                (Err(e), Err((entry, why))) => says_rejected(e, entry, why),
                _ => false,
            },
    {
        let ghost all = text::texts(declared@);
        let mut rules: Vec<ProtectedPathRule> = Vec::new();
        let mut i: usize = 0;
        proof {
            assert(rule_views(rules@) =~= Seq::<RuleView>::empty());
            assert(all.take(0).len() == 0);
        }
        while i < declared.len()
            invariant
                i <= declared@.len(),
                all == text::texts(declared@),
                lowered_rules(all.take(i as int)) == Ok::<
                    Seq<RuleView>,
                    (Seq<char>, WorkdirSubpathRejection),
                >(rule_views(rules@)),
            decreases declared@.len() - i,
        {
            proof {
                assert(all.take(i + 1).drop_last() =~= all.take(i as int));
                assert(all.take(i + 1).last() == declared@[i as int]@);
            }
            match workdir::lower_workdir_subpath(declared[i].as_str()) {
                Ok(relative) => {
                    let ghost before = rules@;
                    let rule = ProtectedPathRule { declared: declared[i].clone(), relative };
                    let ghost added = rule@;
                    rules.push(rule);
                    proof {
                        assert(rule_views(rules@) =~= rule_views(before).push(added));
                    }
                },
                Err(why) => {
                    proof {
                        lemma_rejected(all, i + 1);
                    }
                    return Err(
                        RuntimeError::InvalidReadOnlyPath {
                            path: declared[i].clone(),
                            message: why.message("read-only path"),
                        },
                    );
                },
            }
            i += 1;
        }
        proof {
            assert(all.take(all.len() as int) =~= all);
        }
        Ok(ProtectedPaths { rules })
    }

    /// Whether nothing is declared.
    pub fn is_empty(&self) -> (r: bool)
        ensures
            r == (self@.len() == 0),
            r <==> self.rules@.len() == 0,
    {
        self.rules.len() == 0
    }

    /// The rule covering `candidate`, with the workdir-relative path it resolved to.
    pub fn covering_rule(&self, dir: &str, candidate: &str, known: &RealPaths) -> (r: Option<
        (&ProtectedPathRule, String),
    >)
        ensures
            match (r, covering(self@, known@, dir@, candidate@)) {
                (Some((rule, path)), Some((wanted, shown))) => rule@ == wanted && path@ == shown,
                (None, None) => true,
                _ => false,
            },
    {
        let path = match resolve_within_workdir(dir, candidate, known) {
            Some(path) => path,
            None => return None,
        };
        let ghost all = self@;
        let mut i: usize = 0;
        proof {
            assert(all.skip(0) =~= all);
        }
        while i < self.rules.len()
            invariant
                i <= self.rules@.len(),
                all == self@,
                within_workdir(known@, dir@, candidate@) == Some(path@),
                first_covering(all.skip(i as int), path@) == first_covering(all, path@),
            decreases self.rules@.len() - i,
        {
            proof {
                assert(all.skip(i as int)[0] == all[i as int]);
                assert(all.skip(i as int).drop_first() =~= all.skip(i + 1));
            }
            let base = PlainPath {
                lead: Lead::Bare,
                parts: text::clone_texts(self.rules[i].relative.as_slice()),
            };
            if paths::strip(&path, &base).is_some() {
                return Some((&self.rules[i], paths::write(&path)));
            }
            i += 1;
        }
        None
    }

    /// The absolute subtree roots: the shortest covering root per declaration, in declaration
    /// order and without duplicates.
    pub fn absolute_roots(&self, dir: &str) -> (r: Vec<PlainPath>)
        ensures
            path_views(r@) == roots(self@, self@, paths::path_of(dir@)),
    {
        let root_dir = paths::parse(dir);
        let ghost all = self@;
        let mut out: Vec<PlainPath> = Vec::new();
        let mut i: usize = 0;
        proof {
            assert(path_views(out@) =~= Seq::<PathView>::empty());
            assert(all.take(0).len() == 0);
        }
        while i < self.rules.len()
            invariant
                i <= self.rules@.len(),
                all == self@,
                root_dir@ == paths::path_of(dir@),
                path_views(out@) == roots(all, all.take(i as int), root_dir@),
            decreases self.rules@.len() - i,
        {
            proof {
                assert(all.take(i + 1).drop_last() =~= all.take(i as int));
                assert(all.take(i + 1).last() == self.rules@[i as int]@);
            }
            let absolute = paths::joined(
                &root_dir,
                &PlainPath {
                    lead: Lead::Bare,
                    parts: text::clone_texts(self.rules[i].relative.as_slice()),
                },
            );
            let covered = self.is_covered_by_another(i);
            let ghost held = path_views(out@);
            let mut known = false;
            let mut j: usize = 0;
            while j < out.len()
                invariant
                    j <= out@.len(),
                    held == path_views(out@),
                    known == (exists|k: int| 0 <= k < j && #[trigger] held[k] == absolute@),
                decreases out@.len() - j,
            {
                let same = paths::same(&out[j], &absolute);
                proof {
                    assert(held[j as int] == out@[j as int]@);
                    if same {
                        assert(exists|k: int| 0 <= k < j + 1 && #[trigger] held[k] == absolute@);
                    }
                }
                known = known || same;
                j += 1;
            }
            proof {
                assert(known == held.contains(absolute@));
            }
            if !covered && !known {
                let ghost added = absolute@;
                let ghost before = out@;
                out.push(absolute);
                proof {
                    assert(path_views(out@) =~= path_views(before).push(added));
                }
            }
            i += 1;
        }
        proof {
            assert(all.take(all.len() as int) =~= all);
        }
        out
    }

    fn is_covered_by_another(&self, index: usize) -> (r: bool)
        requires
            index < self.rules@.len(),
        ensures
            r == lies_below_another(self@, self@[index as int].relative),
    {
        let ghost all = self@;
        let inner = self.rules[index].relative.as_slice();
        let ghost wanted = all[index as int].relative;
        proof {
            assert(wanted == text::texts(inner@));
        }
        let mut i: usize = 0;
        while i < self.rules.len()
            invariant
                i <= self.rules@.len(),
                all == self@,
                index < all.len(),
                wanted == all[index as int].relative,
                wanted == text::texts(inner@),
                forall|k: int|
                    0 <= k < i ==> !strictly_above((#[trigger] all[k]).relative, wanted),
            decreases self.rules@.len() - i,
        {
            let outer = self.rules[i].relative.as_slice();
            let above = outer.len() != inner.len() && paths::leads(outer, inner);
            proof {
                let o = text::texts(outer@);
                assert(all[i as int].relative == o);
                assert(o.len() == outer@.len() && wanted.len() == inner@.len());
                if o != wanted && o.is_prefix_of(wanted) && o.len() == wanted.len() {
                    assert(o =~= wanted);
                }
                assert(above == strictly_above(o, wanted));
            }
            if above {
                proof {
                    assert(strictly_above(all[i as int].relative, wanted));
                    assert(lies_below_another(all, wanted));
                }
                return true;
            }
            i += 1;
        }
        false
    }

    /// The refusal of the first target that a rule covers.
    pub fn check_targets(&self, dir: &str, targets: &[WriteTarget], known: &RealPaths) -> (r:
        Option<ProtectedPathRefusal>)
        ensures
            opt_refusal(r) == first_refusal(self@, known@, dir@, target_views(targets@)),
    {
        let ghost all = target_views(targets@);
        let mut i: usize = 0;
        proof {
            assert(all.skip(0) =~= all);
        }
        while i < targets.len()
            invariant
                i <= targets@.len(),
                all == target_views(targets@),
                first_refusal(self@, known@, dir@, all.skip(i as int)) == first_refusal(
                    self@,
                    known@,
                    dir@,
                    all,
                ),
            decreases targets@.len() - i,
        {
            proof {
                assert(all.skip(i as int)[0] == targets@[i as int]@);
                assert(all.skip(i as int).drop_first() =~= all.skip(i + 1));
            }
            if let Some((rule, path)) = self.covering_rule(dir, targets[i].path.as_str(), known) {
                return Some(
                    ProtectedPathRefusal {
                        rule: rule.declared().to_owned(),
                        path,
                        signal: targets[i].signal.copied(),
                    },
                );
            }
            i += 1;
        }
        None
    }

    /// The single write-intent pass over a resolved call. `None` means the analyser found nothing
    /// it can positively identify as a write into a declared subtree.
    pub fn check_call(
        &self,
        dir: &str,
        call: &ResolvedCall,
        annotations: &ToolAnnotationMap,
        known: &RealPaths,
    ) -> (r: Option<ProtectedPathRefusal>)
        ensures
            opt_refusal(r) == first_refusal(
                self@,
                known@,
                dir@,
                call_targets(*call, annotations@),
            ),
    {
        if self.is_empty() {
            proof {
                a_capsule_that_declares_nothing_is_refused_nothing(
                    known@,
                    dir@,
                    call_targets(*call, annotations@),
                );
                assert(self@ =~= Seq::<RuleView>::empty());
            }
            return None;
        }
        let targets = write_targets(call, annotations);
        self.check_targets(dir, targets.as_slice(), known)
    }
}

// ── Laws ─────────────────────────────────────────────────────────────────────

/// A capsule that declares nothing is refused nothing.
pub proof fn a_capsule_that_declares_nothing_is_refused_nothing(
    known: Seq<(Seq<char>, Seq<char>)>,
    dir: Seq<char>,
    targets: Seq<TargetView>,
)
    ensures
        first_refusal(Seq::empty(), known, dir, targets) is None,
    decreases targets.len(),
{
    if targets.len() > 0 {
        a_capsule_that_declares_nothing_is_refused_nothing(known, dir, targets.drop_first());
    }
}

/// The first rule that covers a path is one of the rules, and does cover it.
proof fn lemma_first_covering(rules: Seq<RuleView>, path: PathView)
    ensures
        match first_covering(rules, path) {
            Some(rule) => rules.contains(rule) && rule.covers(path),
            None => forall|i: int| 0 <= i < rules.len() ==> !(#[trigger] rules[i]).covers(path),
        },
    decreases rules.len(),
{
    if rules.len() > 0 && !rules[0].covers(path) {
        lemma_first_covering(rules.drop_first(), path);
        if first_covering(rules, path) is Some {
            let rule = first_covering(rules, path)->0;
            let i = choose|i: int| 0 <= i < rules.drop_first().len() && rules.drop_first()[i] == rule;
            assert(rules[i + 1] == rule);
        } else {
            assert forall|i: int| 0 <= i < rules.len() implies !(#[trigger] rules[i]).covers(
                path,
            ) by {
                if i > 0 {
                    assert(rules.drop_first()[i - 1] == rules[i]);
                }
            }
        }
    } else if rules.len() > 0 {
        assert(rules[0].covers(path));
    }
}

/// A call is refused if and only if one of the places it writes to lies in a declared subtree, and
/// a refusal names a declared rule, a path that rule covers, and the evidence of that write.
pub proof fn a_refusal_is_a_write_into_a_declared_subtree(
    rules: Seq<RuleView>,
    known: Seq<(Seq<char>, Seq<char>)>,
    dir: Seq<char>,
    targets: Seq<TargetView>,
)
    ensures
        match first_refusal(rules, known, dir, targets) {
            Some(refusal) => exists|t: int, r: int, path: PathView|
                refuses(rules, known, dir, targets, refusal, t, r, path),
            None => forall|t: int|
                0 <= t < targets.len() ==> covering(
                    rules,
                    known,
                    dir,
                    (#[trigger] targets[t]).path,
                ) is None,
        },
    decreases targets.len(),
{
    if targets.len() > 0 {
        match covering(rules, known, dir, targets[0].path) {
            Some((rule, shown)) => {
                let path = within_workdir(known, dir, targets[0].path)->0;
                lemma_first_covering(rules, path);
                let r = choose|r: int| 0 <= r < rules.len() && rules[r] == rule;
                let refusal = first_refusal(rules, known, dir, targets)->0;
                assert(refuses(rules, known, dir, targets, refusal, 0, r, path));
            },
            None => {
                let rest = targets.drop_first();
                a_refusal_is_a_write_into_a_declared_subtree(rules, known, dir, rest);
                if first_refusal(rules, known, dir, targets) is Some {
                    let refusal = first_refusal(rules, known, dir, targets)->0;
                    let (t, r, path) = choose|t: int, r: int, path: PathView|
                        refuses(rules, known, dir, rest, refusal, t, r, path);
                    assert(rest[t] == targets[t + 1]);
                    assert(refuses(rules, known, dir, targets, refusal, t + 1, r, path));
                } else {
                    assert forall|t: int| 0 <= t < targets.len() implies covering(
                        rules,
                        known,
                        dir,
                        (#[trigger] targets[t]).path,
                    ) is None by {
                        if t > 0 {
                            assert(rest[t - 1] == targets[t]);
                        }
                    }
                }
            },
        }
    }
}

/// Whether a refusal is that of target `t` by rule `r`, resolved to `path`.
pub open spec fn refuses(
    rules: Seq<RuleView>,
    known: Seq<(Seq<char>, Seq<char>)>,
    dir: Seq<char>,
    targets: Seq<TargetView>,
    refusal: RefusalView,
    t: int,
    r: int,
    path: PathView,
) -> bool {
    &&& 0 <= t < targets.len()
    &&& 0 <= r < rules.len()
    &&& within_workdir(known, dir, targets[t].path) == Some(path)
    &&& rules[r].covers(path)
    &&& refusal.rule == rules[r].declared
    &&& refusal.path == paths::text_of_path(path)
    &&& refusal.signal == targets[t].signal
}

/// A declaration can only add a check: every declared destination is checked whatever else the
/// schema declares opaque.
pub proof fn no_declaration_shelters_a_destination(v: JsonView, annotations: AnnotationsView)
    ensures
        declared_targets(annotations.destinations, v).is_prefix_of(tool_targets(v, annotations)),
        annotations.opaque.contains(Seq::empty()) && container(v) ==> tool_targets(v, annotations)
            == declared_targets(annotations.destinations, v),
{
    let declared = declared_targets(annotations.destinations, v);
    let all = tool_targets(v, annotations);
    assert(all.subrange(0, declared.len() as int) =~= declared);
    if annotations.opaque.contains(Seq::empty()) && container(v) {
        assert(all =~= declared);
    }
}

/// A path on its own is a read: an object without a destination key and without a content key
/// writes nowhere itself.
pub proof fn a_path_alone_is_a_read(entries: Seq<(Seq<char>, JsonView)>)
    requires
        forall|i: int|
            0 <= i < entries.len() ==> !key_in(KeyTable::Destination, (#[trigger] entries[i]).0)
                && !key_in(KeyTable::Content, entries[i].0),
    ensures
        object_targets(entries) == Seq::<TargetView>::empty(),
{
    lemma_no_destination(entries);
    lemma_no_content(entries);
    assert(object_targets(entries) =~= Seq::<TargetView>::empty());
}

proof fn lemma_no_destination(entries: Seq<(Seq<char>, JsonView)>)
    requires
        forall|i: int|
            0 <= i < entries.len() ==> !key_in(KeyTable::Destination, (#[trigger] entries[i]).0),
    ensures
        destination_targets(entries) == Seq::<TargetView>::empty(),
    decreases entries.len(),
{
    if entries.len() > 0 {
        assert forall|i: int| 0 <= i < entries.drop_last().len() implies !key_in(
            KeyTable::Destination,
            (#[trigger] entries.drop_last()[i]).0,
        ) by {
            assert(entries.drop_last()[i] == entries[i]);
        }
        lemma_no_destination(entries.drop_last());
        assert(entries.last() == entries[entries.len() - 1]);
    }
}

proof fn lemma_no_content(entries: Seq<(Seq<char>, JsonView)>)
    requires
        forall|i: int|
            0 <= i < entries.len() ==> !key_in(KeyTable::Content, (#[trigger] entries[i]).0),
    ensures
        content_key(entries) is None,
    decreases entries.len(),
{
    if entries.len() > 0 {
        assert forall|i: int| 0 <= i < entries.drop_first().len() implies !key_in(
            KeyTable::Content,
            (#[trigger] entries.drop_first()[i]).0,
        ) by {
            assert(entries.drop_first()[i] == entries[i + 1]);
        }
        lemma_no_content(entries.drop_first());
    }
}

/// Key matching does not see `-` and `_`: adding one at the end of any part of a key changes
/// nothing.
pub proof fn separators_do_not_count(front: Seq<char>, separator: char, back: Seq<char>)
    requires
        separator == '-' || separator == '_',
    ensures
        folded(front + seq![separator] + back) == folded(front + back),
    decreases back.len(),
{
    let with = front + seq![separator] + back;
    let without = front + back;
    if back.len() == 0 {
        assert(with.drop_last() =~= front);
        assert(without =~= front);
    } else {
        assert(with.drop_last() =~= front + seq![separator] + back.drop_last());
        assert(without.drop_last() =~= front + back.drop_last());
        assert(with.last() == back.last() && without.last() == back.last());
        separators_do_not_count(front, separator, back.drop_last());
    }
}

/// Coverage is component-wise: a rule covers its own path and everything inside it, and nothing
/// that differs from it in one of its components.
pub proof fn coverage_is_by_component(rule: RuleView, path: PathView, i: int)
    requires
        path.lead == Lead::Bare,
        0 <= i < rule.relative.len(),
    ensures
        path.parts.len() >= rule.relative.len() && path.parts.take(rule.relative.len() as int)
            == rule.relative ==> rule.covers(path),
        i >= path.parts.len() || path.parts[i] != rule.relative[i] ==> !rule.covers(path),
{
    if path.parts.len() >= rule.relative.len() && path.parts.take(rule.relative.len() as int)
        == rule.relative {
        assert(rule.relative.is_prefix_of(path.parts)) by {
            assert(path.parts.subrange(0, rule.relative.len() as int) =~= rule.relative);
        }
    }
    if rule.covers(path) {
        assert(rule.relative =~= path.parts.subrange(0, rule.relative.len() as int));
        assert(path.parts[i] == rule.relative[i]);
    }
}

/// Every declared subtree lies under one of the roots, and no root is listed twice.
pub proof fn every_declaration_lies_under_a_root(all: Seq<RuleView>, dir: PathView, i: int)
    requires
        0 <= i < all.len(),
    ensures
        exists|k: int, j: int|
            is_root_of(all, dir, k, j) && all[j].relative.is_prefix_of(all[i].relative),
        roots(all, all, dir).no_duplicates(),
    decreases all[i].relative.len(),
{
    lemma_roots(all, all, dir);
    let own = all[i].relative;
    if lies_below_another(all, own) {
        let j = choose|j: int| 0 <= j < all.len() && strictly_above((#[trigger] all[j]).relative, own);
        let outer = all[j].relative;
        if outer.len() == own.len() {
            assert(outer =~= own);
        }
        every_declaration_lies_under_a_root(all, dir, j);
        let (k, m) = choose|k: int, m: int|
            is_root_of(all, dir, k, m) && all[m].relative.is_prefix_of(all[j].relative);
        assert(all[m].relative.is_prefix_of(own)) by {
            let short = all[m].relative;
            assert(own.subrange(0, short.len() as int) =~= outer.subrange(0, short.len() as int)) by {
                assert(outer =~= own.subrange(0, outer.len() as int));
            }
        }
        assert(is_root_of(all, dir, k, m) && all[m].relative.is_prefix_of(all[i].relative));
    } else {
        let root = paths::join(dir, PathView { lead: Lead::Bare, parts: own });
        assert(roots(all, all, dir).contains(root));
        let k = choose|k: int| 0 <= k < roots(all, all, dir).len() && roots(all, all, dir)[k] == root;
        assert(own.is_prefix_of(own));
        assert(is_root_of(all, dir, k, i) && all[i].relative.is_prefix_of(all[i].relative));
    }
}

/// Whether root `k` is that of rule `j`.
pub open spec fn is_root_of(all: Seq<RuleView>, dir: PathView, k: int, j: int) -> bool {
    &&& 0 <= j < all.len()
    &&& 0 <= k < roots(all, all, dir).len()
    &&& roots(all, all, dir)[k] == paths::join(
        dir,
        PathView { lead: Lead::Bare, parts: all[j].relative },
    )
}

proof fn lemma_roots(all: Seq<RuleView>, rules: Seq<RuleView>, dir: PathView)
    ensures
        roots(all, rules, dir).no_duplicates(),
        forall|i: int|
            0 <= i < rules.len() && !lies_below_another(all, (#[trigger] rules[i]).relative)
                ==> roots(all, rules, dir).contains(
                paths::join(dir, PathView { lead: Lead::Bare, parts: rules[i].relative }),
            ),
    decreases rules.len(),
{
    if rules.len() > 0 {
        let front = rules.drop_last();
        lemma_roots(all, front, dir);
        let before = roots(all, front, dir);
        let after = roots(all, rules, dir);
        let root = paths::join(dir, PathView { lead: Lead::Bare, parts: rules.last().relative });
        assert forall|p: PathView| before.contains(p) implies after.contains(p) by {
            let k = choose|k: int| 0 <= k < before.len() && before[k] == p;
            assert(after[k] == p);
        }
        assert forall|i: int|
            0 <= i < rules.len() && !lies_below_another(
                all,
                (#[trigger] rules[i]).relative,
            ) implies after.contains(
            paths::join(dir, PathView { lead: Lead::Bare, parts: rules[i].relative }),
        ) by {
            if i < front.len() {
                assert(front[i] == rules[i]);
            } else if !before.contains(root) {
                assert(after[before.len() as int] == root);
            }
        }
    }
}

/// The commands of a script are searched one after another: what two runs of commands write to is
/// what the first writes to, then what the second does.
pub proof fn every_command_is_searched(a: Seq<SegmentView>, b: Seq<SegmentView>)
    ensures
        command_targets(a + b) == command_targets(a) + command_targets(b),
    decreases b.len(),
{
    if b.len() == 0 {
        assert(a + b =~= a);
        assert(command_targets(a) + command_targets(b) =~= command_targets(a));
    } else {
        every_command_is_searched(a, b.drop_last());
        assert((a + b).drop_last() =~= a + b.drop_last());
        assert((a + b).last() == b.last());
        assert(command_targets(a + b) =~= command_targets(a) + command_targets(b));
    }
}

/// No separator hides a write: what a script writes to is what stands in front of the separator
/// writes to, then what stands behind it does.
pub proof fn no_separator_hides_a_write(a: Seq<char>, b: Seq<char>)
    requires
        shell_script::is_plain(a),
    ensures
        ({
            let both = command_targets(shell_script::script_commands(a)) + command_targets(
                shell_script::script_commands(b),
            );
            &&& command_targets(shell_script::script_commands(a + seq![';'] + b)) == both
            &&& command_targets(shell_script::script_commands(a + seq!['|', '|'] + b)) == both
            &&& command_targets(shell_script::script_commands(a + seq!['&', '&'] + b)) == both
            &&& !text::begins(b, '|') ==> command_targets(
                shell_script::script_commands(a + seq!['|'] + b),
            ) == both
            &&& !text::begins(b, '&') && !text::begins(b, '>') ==> command_targets(
                shell_script::script_commands(a + seq!['&'] + b),
            ) == both
        }),
{
    shell_script::a_separator_parts_two_commands(a, b);
    every_command_is_searched(shell_script::script_commands(a), shell_script::script_commands(b));
}

/// The operands of a command are its arguments that are no flags, in order.
pub proof fn operands_are_the_other_arguments(a: Seq<Seq<char>>, b: Seq<Seq<char>>, arg: Seq<char>)
    ensures
        operands(a + b) == operands(a) + operands(b),
        arg.len() > 1 && arg[0] == '-' ==> operands(seq![arg]).len() == 0,
        arg.len() <= 1 || arg[0] != '-' ==> operands(seq![arg]) == seq![arg],
    decreases b.len(),
{
    let one = seq![arg];
    assert(one.drop_last().len() == 0);
    assert(operands(one.drop_last()).len() == 0);
    assert(one.last() == arg);
    if !flag(arg) {
        assert(operands(one) =~= one);
    }
    if b.len() == 0 {
        assert(a + b =~= a);
        assert(operands(a) + operands(b) =~= operands(a));
    } else {
        operands_are_the_other_arguments(a, b.drop_last(), arg);
        assert((a + b).drop_last() =~= a + b.drop_last());
        assert((a + b).last() == b.last());
        assert(operands(a + b) =~= operands(a) + operands(b));
    }
}

/// What a command writes to: every redirection, and of its arguments those its verb takes for
/// destinations.
pub proof fn a_command_writes_to_its_destinations(segment: SegmentView, binary: Seq<char>)
    requires
        segment.binary == Some(binary),
    ensures
        ({
            let found = segment_targets(segment);
            let n = segment.redirections.len() as int;
            let words = operands(segment.args);
            let behind = found.skip(n);
            &&& found.len() >= n
            &&& forall|i: int|
                0 <= i < n ==> (#[trigger] found[i]).path == segment.redirections[i].1
                    && found[i].signal == (SignalView::ShellRedirection {
                    operator: segment.redirections[i].0,
                })
            &&& forall|i: int|
                0 <= i < behind.len() ==> (#[trigger] behind[i]).signal == (
                SignalView::ShellArgument { binary })
            &&& verb(binary) == Some(WriteTargets::All) ==> behind.len() == words.len() && forall|
                i: int,
            |
                0 <= i < words.len() ==> (#[trigger] behind[i]).path == words[i]
            &&& verb(binary) == Some(WriteTargets::Last) && words.len() > 0 ==> behind.len() == 1
                && behind[0].path == words.last()
            &&& verb(binary) == Some(WriteTargets::Last) && words.len() == 0 ==> behind.len() == 0
            &&& verb(binary) == Some(WriteTargets::InPlaceOnly) && (forall|i: int|
                0 <= i < segment.args.len() ==> !in_place_flag(#[trigger] segment.args[i]))
                ==> behind.len() == 0
            &&& verb(binary) == Some(WriteTargets::InPlaceOnly) && words.len() > 0 && (exists|i: int|
                0 <= i < segment.args.len() && in_place_flag(#[trigger] segment.args[i]))
                ==> behind.len() == words.len() - 1 && forall|i: int|
                0 <= i < behind.len() ==> (#[trigger] behind[i]).path == words[i + 1]
            &&& verb(binary) is None ==> behind.len() == 0
        }),
{
    let found = segment_targets(segment);
    let n = segment.redirections.len() as int;
    let first = redirection_targets(segment.redirections);
    let rest = match verb(binary) {
        Some(targets) => argument_targets(binary, target_arguments(targets, segment.args)),
        None => Seq::empty(),
    };
    assert(found == first + rest);
    assert(found.skip(n) =~= rest);
}

/// The operand of `dd` that names its output is what it writes to.
pub proof fn dd_writes_to_its_output(a: Seq<Seq<char>>, path: Seq<char>, b: Seq<Seq<char>>)
    ensures
        output_operands(a.push("of="@ + path) + b) == output_operands(a).push(path)
            + output_operands(b),
    decreases b.len(),
{
    reveal_strlit("of=");
    let named = a.push("of="@ + path);
    if b.len() == 0 {
        assert(named + b =~= named);
        assert(named.drop_last() =~= a);
        assert("of="@.is_prefix_of("of="@ + path)) by {
            assert(("of="@ + path).subrange(0, 3) =~= "of="@);
        }
        assert(("of="@ + path).skip(3) =~= path);
        assert(output_operands(a).push(path) + output_operands(b) =~= output_operands(a).push(
            path,
        ));
    } else {
        dd_writes_to_its_output(a, path, b.drop_last());
        assert((named + b).drop_last() =~= named + b.drop_last());
        assert((named + b).last() == b.last());
        assert(output_operands(named + b) =~= output_operands(a).push(path) + output_operands(b));
    }
}

/// The flags that ask for an edit in place: `-i`, alone or with a suffix, and `--in-place`.
pub proof fn in_place_flags(suffix: Seq<char>)
    ensures
        in_place_flag("-i"@ + suffix),
        in_place_flag("--in-place"@),
        !in_place_flag("-e"@),
        !in_place_flag("--"@ + suffix) || "--"@ + suffix == "--in-place"@,
{
    reveal_strlit("-i");
    reveal_strlit("--");
    reveal_strlit("-e");
    let long = "-i"@ + suffix;
    assert(long.subrange(0, 2) =~= "-i"@);
    if "--"@.is_prefix_of(long) {
        assert(long.subrange(0, 2)[1] == '-');
    }
    let other = "--"@ + suffix;
    assert(other.subrange(0, 2) =~= "--"@);
    assert("-e"@[1] == 'e' && "-i"@[1] == 'i');
    if "-i"@.is_prefix_of("-e"@) {
        assert("-e"@.subrange(0, 2)[1] == 'i');
    }
    reveal_strlit("--in-place");
    assert("--in-place"@.len() == 10);
    if other == "-i"@ {
        assert(other[1] == 'i');
    }
}

/// An entry of an object under a destination key is written to, and nothing under another key is
/// for that reason.
pub proof fn a_destination_is_written_to(
    a: Seq<(Seq<char>, JsonView)>,
    b: Seq<(Seq<char>, JsonView)>,
    key: Seq<char>,
    path: Seq<char>,
)
    ensures
        destination_targets(a + b) == destination_targets(a) + destination_targets(b),
        key_in(KeyTable::Destination, key) ==> destination_targets(
            seq![(key, JsonView::Text(path))],
        ) == seq![TargetView { path, signal: SignalView::ToolDestinationKey { key } }],
        !key_in(KeyTable::Destination, key) ==> destination_targets(
            seq![(key, JsonView::Text(path))],
        ).len() == 0,
    decreases b.len(),
{
    let one = seq![(key, JsonView::Text(path))];
    assert(one.drop_last().len() == 0);
    assert(destination_targets(one.drop_last()) =~= Seq::<TargetView>::empty());
    assert(one.last() == (key, JsonView::Text(path)));
    if key_in(KeyTable::Destination, key) {
        assert(destination_targets(one) =~= seq![
            TargetView { path, signal: SignalView::ToolDestinationKey { key } },
        ]);
    }
    if b.len() == 0 {
        assert(a + b =~= a);
        assert(destination_targets(a) + destination_targets(b) =~= destination_targets(a));
    } else {
        a_destination_is_written_to(a, b.drop_last(), key, path);
        assert((a + b).drop_last() =~= a + b.drop_last());
        assert((a + b).last() == b.last());
        assert(destination_targets(a + b) =~= destination_targets(a) + destination_targets(b));
    }
}

/// A path beside content in one object is written to, wherever in the object either stands.
pub proof fn a_path_beside_content_is_written_to(
    entries: Seq<(Seq<char>, JsonView)>,
    i: int,
    j: int,
    path: Seq<char>,
)
    requires
        0 <= i < entries.len(),
        0 <= j < entries.len(),
        key_in(KeyTable::Path, entries[i].0),
        entries[i].1 == JsonView::Text(path),
        key_in(KeyTable::Content, entries[j].0),
    ensures
        exists|k: int|
            0 <= k < object_targets(entries).len() && (#[trigger] object_targets(entries)[k]).path
                == path,
{
    lemma_content(entries, j);
    let content = content_key(entries)->0;
    lemma_path_listed(entries, content, i, path);
    let found = path_targets(entries, content);
    let k = choose|k: int| 0 <= k < found.len() && (#[trigger] found[k]).path == path;
    let before = destination_targets(entries).len() as int;
    assert(object_targets(entries)[before + k] == found[k]);
}

proof fn lemma_content(entries: Seq<(Seq<char>, JsonView)>, j: int)
    requires
        0 <= j < entries.len(),
        key_in(KeyTable::Content, entries[j].0),
    ensures
        content_key(entries) is Some,
    decreases entries.len(),
{
    if !key_in(KeyTable::Content, entries[0].0) {
        assert(entries.drop_first()[j - 1] == entries[j]);
        lemma_content(entries.drop_first(), j - 1);
    }
}

proof fn lemma_path_listed(
    entries: Seq<(Seq<char>, JsonView)>,
    content: Seq<char>,
    i: int,
    path: Seq<char>,
)
    requires
        0 <= i < entries.len(),
        key_in(KeyTable::Path, entries[i].0),
        entries[i].1 == JsonView::Text(path),
    ensures
        exists|k: int|
            0 <= k < path_targets(entries, content).len() && (#[trigger] path_targets(
                entries,
                content,
            )[k]).path == path,
    decreases entries.len(),
{
    let before = path_targets(entries.drop_last(), content);
    let after = path_targets(entries, content);
    if i < entries.len() - 1 {
        lemma_path_listed(entries.drop_last(), content, i, path);
        let k = choose|k: int| 0 <= k < before.len() && (#[trigger] before[k]).path == path;
        assert(after[k] == before[k]);
    } else {
        assert(after[before.len() as int].path == path);
    }
}

/// What is nested is searched as well: an array gives what its items give, in order, and an object
/// its own targets, then what its entries give.
pub proof fn what_is_nested_is_searched(
    items: Seq<JsonView>,
    entries: Seq<(Seq<char>, JsonView)>,
    place: Seq<StepView>,
    opaque: Seq<Seq<StepView>>,
)
    requires
        !opaque.contains(place),
    ensures
        items.len() > 0 ==> found_in(JsonView::Array(items), place, opaque) == found_in(
            JsonView::Array(items.drop_last()),
            place,
            opaque,
        ) + found_in(items.last(), place.push(StepView::Element), opaque),
        found_in(JsonView::Object(Seq::empty()), place, opaque).len() == 0,
        found_in(JsonView::Array(Seq::empty()), place, opaque).len() == 0,
        entries.len() > 0 ==> found_in(JsonView::Object(entries), place, opaque).len()
            >= object_targets(entries).len() + found_in(
            entries.last().1,
            place.push(StepView::Key(entries.last().0)),
            opaque,
        ).len(),
        object_targets(entries).is_prefix_of(found_in(JsonView::Object(entries), place, opaque)),
{
    let all = found_in(JsonView::Object(entries), place, opaque);
    let own = object_targets(entries);
    assert(all.subrange(0, own.len() as int) =~= own);
    let none = Seq::<(Seq<char>, JsonView)>::empty();
    assert(destination_targets(none).len() == 0);
    assert(content_key(none) is None);
    if entries.len() > 0 {
        assert(found_in_entries(entries, place, opaque) == found_in_entries(
            entries.drop_last(),
            place,
            opaque,
        ) + found_in(entries.last().1, place.push(StepView::Key(entries.last().0)), opaque));
    }
}

/// The first target that a rule covers is the one refused: an earlier one that is refused decides,
/// and one that is not does not.
pub proof fn the_first_covered_target_decides(
    rules: Seq<RuleView>,
    known: Seq<(Seq<char>, Seq<char>)>,
    dir: Seq<char>,
    a: Seq<TargetView>,
    b: Seq<TargetView>,
)
    ensures
        first_refusal(rules, known, dir, a) is Some ==> first_refusal(rules, known, dir, a + b)
            == first_refusal(rules, known, dir, a),
        first_refusal(rules, known, dir, a) is None ==> first_refusal(rules, known, dir, a + b)
            == first_refusal(rules, known, dir, b),
    decreases a.len(),
{
    if a.len() == 0 {
        assert(a + b =~= b);
    } else {
        the_first_covered_target_decides(rules, known, dir, a.drop_first(), b);
        assert((a + b).drop_first() =~= a.drop_first() + b);
        assert((a + b)[0] == a[0]);
    }
}

/// The rule a refusal names is the first declared one that covers the path.
pub proof fn the_first_declared_rule_is_named(a: Seq<RuleView>, b: Seq<RuleView>, path: PathView)
    ensures
        first_covering(a, path) is Some ==> first_covering(a + b, path) == first_covering(a, path),
        first_covering(a, path) is None ==> first_covering(a + b, path) == first_covering(b, path),
    decreases a.len(),
{
    if a.len() == 0 {
        assert(a + b =~= b);
    } else {
        the_first_declared_rule_is_named(a.drop_first(), b, path);
        assert((a + b).drop_first() =~= a.drop_first() + b);
        assert((a + b)[0] == a[0]);
    }
}

/// Every declared entry becomes one rule, which keeps the entry as it was written.
pub proof fn every_entry_becomes_its_rule(entries: Seq<Seq<char>>, i: int)
    requires
        lowered_rules(entries) is Ok,
        0 <= i < entries.len(),
    ensures
        lowered_rules(entries)->Ok_0.len() == entries.len(),
        lowered_rules(entries)->Ok_0[i].declared == entries[i],
        workdir::lowered_subpath(entries[i]) == Ok::<Seq<Seq<char>>, WorkdirSubpathRejection>(
            lowered_rules(entries)->Ok_0[i].relative,
        ),
    decreases entries.len(),
{
    if i < entries.len() - 1 {
        every_entry_becomes_its_rule(entries.drop_last(), i);
    } else if entries.len() > 1 {
        every_entry_becomes_its_rule(entries.drop_last(), 0);
    } else {
        assert(lowered_rules(entries.drop_last())->Ok_0.len() == 0);
    }
}

/// A key folds character by character: nothing but the separators is left out, and every other
/// character is put in lower case where it stands.
pub proof fn a_key_folds_character_by_character(a: Seq<char>, b: Seq<char>, c: char)
    ensures
        folded(a + b) == folded(a) + folded(b),
        c != '-' && c != '_' ==> folded(seq![c]) == text::lowercase(c),
        c == '-' || c == '_' ==> folded(seq![c]).len() == 0,
    decreases b.len(),
{
    let none = Seq::<char>::empty();
    assert(seq![c].drop_last() =~= none);
    assert(folded(none) =~= none);
    assert(folded(seq![c]) =~= if c == '-' || c == '_' {
        none
    } else {
        text::lowercase(c)
    });
    if b.len() == 0 {
        assert(a + b =~= a);
        assert(folded(a) + folded(b) =~= folded(a));
    } else {
        a_key_folds_character_by_character(a, b.drop_last(), c);
        assert((a + b).drop_last() =~= a + b.drop_last());
        assert((a + b).last() == b.last());
        assert(folded(a + b) =~= folded(a) + folded(b));
    }
}

/// Where nothing is known of links, a path is where it is spelled: a relative one below the
/// workdir, with each step up undone, and an absolute one only when it is spelled below the
/// workdir.
pub proof fn without_links_a_path_is_where_it_is_spelled(dir: Seq<char>, candidate: Seq<char>)
    requires
        candidate.len() > 0,
    ensures
        ({
            let known = Seq::<(Seq<char>, Seq<char>)>::empty();
            let parts = paths::path_of(candidate).parts;
            &&& candidate[0] != '/' && paths::settled(parts) is Some ==> within_workdir(
                known,
                dir,
                candidate,
            ) == Some(PathView { lead: Lead::Bare, parts: paths::settled(parts)->0 })
            &&& candidate[0] != '/' && paths::settled(parts) is None ==> within_workdir(
                known,
                dir,
                candidate,
            ) is None
            &&& candidate[0] == '/' && paths::below(
                paths::normal(paths::path_of(candidate)),
                paths::normal(paths::path_of(dir)),
            ) is None ==> within_workdir(known, dir, candidate) is None
        }),
{
    let known = Seq::<(Seq<char>, Seq<char>)>::empty();
    let root = paths::path_of(dir);
    paths::the_first_answer_counts(known, 0, paths::text_of_path(root));
    let parts = paths::path_of(candidate).parts;
    if candidate[0] != '/' && paths::settled(parts) is Some {
        let lexical = PathView { lead: Lead::Bare, parts: paths::settled(parts)->0 };
        let joined = paths::join(root, lexical);
        lemma_nothing_known(known, joined, joined.parts.len() as int);
        paths::what_is_joined_is_below(root, lexical);
    }
}

proof fn lemma_nothing_known(known: Seq<(Seq<char>, Seq<char>)>, p: PathView, k: int)
    requires
        known.len() == 0,
        k <= p.parts.len(),
    ensures
        paths::real_prefix(known, p, k) == p,
    decreases k,
{
    if k > 0 && p.parts[k - 1] != ".."@ {
        lemma_nothing_known(known, p, k - 1);
    }
}

/// A path that is a link is where the link leads: inside the workdir it is what it leads to there,
/// and outside it is nowhere.
pub proof fn a_link_is_where_it_leads(
    known: Seq<(Seq<char>, Seq<char>)>,
    dir: Seq<char>,
    candidate: Seq<char>,
    found: Seq<char>,
)
    requires
        lexical_path(dir, candidate) is Some,
        paths::answer(
            known,
            paths::text_of_path(
                paths::join(real_workdir(known, dir), lexical_path(dir, candidate)->0),
            ),
        ) == Some(found),
    ensures
        within_workdir(known, dir, candidate) == paths::below(
            paths::path_of(found),
            real_workdir(known, dir),
        ),
{
    let joined = paths::join(real_workdir(known, dir), lexical_path(dir, candidate)->0);
    let n = joined.parts.len() as int;
    assert(joined.parts.take(n) =~= joined.parts);
    let rest = PathView { lead: Lead::Bare, parts: joined.parts.skip(n) };
    let target = paths::path_of(found);
    assert(rest.parts =~= Seq::empty());
    assert(target.parts + rest.parts =~= target.parts);
    assert(paths::join(target, rest) == target);
}

/// Every text at a declared destination is written to, whichever declaration names it.
pub proof fn every_declared_destination_is_written_to(
    locations: Seq<Seq<StepView>>,
    v: JsonView,
    l: int,
    i: int,
)
    requires
        0 <= l < locations.len(),
        0 <= i < tool_annotations::texts_at(locations[l], v).len(),
    ensures
        declared_targets(locations, v).contains(
            TargetView {
                path: tool_annotations::texts_at(locations[l], v)[i],
                signal: SignalView::ToolDeclaredDestination {
                    location: tool_annotations::location_text(locations[l]),
                },
            },
        ),
    decreases locations.len(),
{
    let front = locations.drop_last();
    let before = declared_targets(front, v);
    let more = location_targets(locations.last(), v);
    let all = declared_targets(locations, v);
    let wanted = TargetView {
        path: tool_annotations::texts_at(locations[l], v)[i],
        signal: SignalView::ToolDeclaredDestination {
            location: tool_annotations::location_text(locations[l]),
        },
    };
    if l < front.len() {
        assert(front[l] == locations[l]);
        every_declared_destination_is_written_to(front, v, l, i);
        let k = choose|k: int| 0 <= k < before.len() && before[k] == wanted;
        assert(all[k] == wanted);
    } else {
        assert(more[i] == wanted);
        assert(all[before.len() + i] == wanted);
    }
}

/// A container declared opaque is not searched by the names of its keys, and one that is not is
/// searched, its own entries first.
pub proof fn only_an_opaque_container_is_passed_over(
    entries: Seq<(Seq<char>, JsonView)>,
    place: Seq<StepView>,
    opaque: Seq<Seq<StepView>>,
)
    ensures
        opaque.contains(place) ==> found_in(JsonView::Object(entries), place, opaque).len() == 0,
        !opaque.contains(place) ==> object_targets(entries).is_prefix_of(
            found_in(JsonView::Object(entries), place, opaque),
        ),
{
    if !opaque.contains(place) {
        let all = found_in(JsonView::Object(entries), place, opaque);
        let own = object_targets(entries);
        assert(all == own + found_in_entries(entries, place, opaque));
        assert(all.subrange(0, own.len() as int) =~= own);
    }
}

/// A shell call without a script is the one command its words are, under the last component of
/// its binary; a script is read in place of them.
pub proof fn a_call_without_a_script_is_its_words(
    dir: Seq<char>,
    name: Seq<char>,
    argv: Seq<Seq<char>>,
    body: Seq<char>,
)
    requires
        name.len() > 0,
        !name.contains('/'),
        name != "."@,
        name != ".."@,
    ensures
        command_targets(shell_segments(dir + seq!['/'] + name, argv, None)) == segment_targets(
            SegmentView { binary: Some(name), args: argv, redirections: Seq::empty() },
        ),
        command_targets(shell_segments(name, argv, Some(body))) == command_targets(
            shell_script::script_commands(body),
        ),
{
    paths::the_last_component_is_the_file_name(dir, name);
    let only = SegmentView { binary: Some(name), args: argv, redirections: Seq::empty() };
    let none = Seq::<SegmentView>::empty();
    assert(seq![only].drop_last() =~= none);
    assert(command_targets(none) =~= Seq::empty());
    assert(command_targets(seq![only]) =~= segment_targets(only));
}

/// Every value of an object is searched at its own place, behind what the object itself says.
pub proof fn every_value_of_an_object_is_searched(
    front: Seq<(Seq<char>, JsonView)>,
    back: Seq<(Seq<char>, JsonView)>,
    key: Seq<char>,
    v: JsonView,
    place: Seq<StepView>,
    opaque: Seq<Seq<StepView>>,
)
    ensures
        !opaque.contains(place) ==> found_in(JsonView::Object(front), place, opaque)
            == object_targets(front) + found_in_entries(front, place, opaque),
        found_in_entries(front + back, place, opaque) == found_in_entries(front, place, opaque)
            + found_in_entries(back, place, opaque),
        found_in_entries(seq![(key, v)], place, opaque) == found_in(
            v,
            place.push(StepView::Key(key)),
            opaque,
        ),
        !(v is Object) && !(v is Array) ==> found_in(v, place, opaque).len() == 0,
    decreases back.len(),
{
    let one = seq![(key, v)];
    assert(one.drop_last() =~= Seq::empty());
    assert(one.last() == (key, v));
    assert(found_in_entries(one.drop_last(), place, opaque) =~= Seq::<TargetView>::empty());
    assert(found_in_entries(one, place, opaque) =~= found_in(
        v,
        place.push(StepView::Key(key)),
        opaque,
    ));
    if back.len() == 0 {
        assert(front + back =~= front);
        assert(found_in_entries(front, place, opaque) + found_in_entries(back, place, opaque)
            =~= found_in_entries(front, place, opaque));
    } else {
        every_value_of_an_object_is_searched(front, back.drop_last(), key, v, place, opaque);
        assert((front + back).drop_last() =~= front + back.drop_last());
        assert((front + back).last() == back.last());
        assert(found_in_entries(front + back, place, opaque) =~= found_in_entries(
            front,
            place,
            opaque,
        ) + found_in_entries(back, place, opaque));
    }
}

/// Only a text under a path's key is a path beside content, and only a text under a destination's
/// key a destination.
pub proof fn only_texts_are_paths(
    front: Seq<(Seq<char>, JsonView)>,
    back: Seq<(Seq<char>, JsonView)>,
    key: Seq<char>,
    v: JsonView,
    content: Seq<char>,
)
    ensures
        path_targets(front + back, content) == path_targets(front, content) + path_targets(
            back,
            content,
        ),
        path_targets(seq![(key, v)], content) == (if v is Text && key_in(KeyTable::Path, key) {
            seq![
                TargetView {
                    path: v->Text_0,
                    signal: SignalView::ToolPathWithContent { path_key: key, content_key: content },
                },
            ]
        } else {
            Seq::empty()
        }),
        !(v is Text) ==> destination_targets(seq![(key, v)]).len() == 0,
    decreases back.len(),
{
    let one = seq![(key, v)];
    assert(one.drop_last() =~= Seq::empty());
    assert(one.last() == (key, v));
    assert(path_targets(one.drop_last(), content) =~= Seq::<TargetView>::empty());
    assert(destination_targets(one.drop_last()) =~= Seq::<TargetView>::empty());
    assert(path_targets(one, content) =~= (if v is Text && key_in(KeyTable::Path, key) {
        seq![
            TargetView {
                path: v->Text_0,
                signal: SignalView::ToolPathWithContent { path_key: key, content_key: content },
            },
        ]
    } else {
        Seq::empty()
    }));
    if back.len() == 0 {
        assert(front + back =~= front);
        assert(path_targets(front, content) + path_targets(back, content) =~= path_targets(
            front,
            content,
        ));
    } else {
        only_texts_are_paths(front, back.drop_last(), key, v, content);
        assert((front + back).drop_last() =~= front + back.drop_last());
        assert((front + back).last() == back.last());
        assert(path_targets(front + back, content) =~= path_targets(front, content)
            + path_targets(back, content));
    }
}

/// Declared destinations add up, location by location, and name nothing else.
pub proof fn declared_destinations_add_up(
    front: Seq<Seq<StepView>>,
    back: Seq<Seq<StepView>>,
    location: Seq<StepView>,
    v: JsonView,
)
    ensures
        declared_targets(front + back, v) == declared_targets(front, v) + declared_targets(back, v),
        declared_targets(seq![location], v).len() == tool_annotations::texts_at(location, v).len(),
        forall|i: int|
            0 <= i < declared_targets(seq![location], v).len() ==> (
            #[trigger] declared_targets(seq![location], v)[i]).path == tool_annotations::texts_at(
                location,
                v,
            )[i],
    decreases back.len(),
{
    let one = seq![location];
    assert(one.drop_last() =~= Seq::empty());
    assert(one.last() == location);
    assert(declared_targets(one.drop_last(), v) =~= Seq::<TargetView>::empty());
    assert(declared_targets(one, v) =~= location_targets(location, v));
    if back.len() == 0 {
        assert(front + back =~= front);
        assert(declared_targets(front, v) + declared_targets(back, v) =~= declared_targets(
            front,
            v,
        ));
    } else {
        declared_destinations_add_up(front, back.drop_last(), location, v);
        assert((front + back).drop_last() =~= front + back.drop_last());
        assert((front + back).last() == back.last());
        assert(declared_targets(front + back, v) =~= declared_targets(front, v)
            + declared_targets(back, v));
    }
}

/// An argument of `dd` that names no output writes to nothing.
pub proof fn dd_reads_its_other_arguments(front: Seq<Seq<char>>, arg: Seq<char>)
    requires
        !"of="@.is_prefix_of(arg),
    ensures
        output_operands(front.push(arg)) == output_operands(front),
{
    assert(front.push(arg).drop_last() =~= front);
}

/// No root lies below another declaration: a subtree that a declared one holds is not listed again.
pub proof fn no_root_lies_below_a_declaration(all: Seq<RuleView>, dir: PathView, k: int)
    requires
        0 <= k < roots(all, all, dir).len(),
    ensures
        exists|j: int|
            0 <= j < all.len() && roots(all, all, dir)[k] == paths::join(
                dir,
                PathView { lead: Lead::Bare, parts: (#[trigger] all[j]).relative },
            ) && is_outermost(all, j),
{
    lemma_outermost(all, all, dir, k);
}

/// Whether no declaration holds the `j`th one without being the same.
pub open spec fn is_outermost(all: Seq<RuleView>, j: int) -> bool {
    forall|i: int|
        0 <= i < all.len() && (#[trigger] all[i]).relative.is_prefix_of(all[j].relative)
            ==> all[i].relative == all[j].relative
}

proof fn lemma_outermost(all: Seq<RuleView>, rules: Seq<RuleView>, dir: PathView, k: int)
    requires
        rules.is_prefix_of(all),
        0 <= k < roots(all, rules, dir).len(),
    ensures
        exists|j: int|
            0 <= j < all.len() && roots(all, rules, dir)[k] == paths::join(
                dir,
                PathView { lead: Lead::Bare, parts: (#[trigger] all[j]).relative },
            ) && is_outermost(all, j),
    decreases rules.len(),
{
    if rules.len() > 0 {
        let before = roots(all, rules.drop_last(), dir);
        let n = rules.len() - 1;
        assert(all[n] == rules.last());
        if k < before.len() {
            lemma_outermost(all, rules.drop_last(), dir, k);
        } else {
            assert(!lies_below_another(all, all[n].relative));
            assert forall|i: int|
                0 <= i < all.len() && (#[trigger] all[i]).relative.is_prefix_of(
                    all[n].relative,
                ) implies all[i].relative == all[n].relative by {
                assert(!strictly_above(all[i].relative, all[n].relative));
            }
            assert(is_outermost(all, n));
        }
    }
}

/// A list of declarations is refused for its first entry that leaves the workdir, and for nothing
/// else.
pub proof fn the_first_bad_declaration_is_reported(entries: Seq<Seq<char>>, i: int)
    requires
        0 <= i <= entries.len(),
        forall|j: int| 0 <= j < i ==> workdir::lowered_subpath(#[trigger] entries[j]) is Ok,
    ensures
        i == entries.len() ==> lowered_rules(entries) is Ok,
        i < entries.len() && workdir::lowered_subpath(entries[i]) is Err ==> lowered_rules(entries)
            == Err::<Seq<RuleView>, (Seq<char>, WorkdirSubpathRejection)>(
            (entries[i], workdir::lowered_subpath(entries[i])->Err_0),
        ),
    decreases entries.len(),
{
    if entries.len() > 0 {
        let front = entries.drop_last();
        assert forall|j: int| 0 <= j < i && j < front.len() implies workdir::lowered_subpath(
            #[trigger] front[j],
        ) is Ok by {
            assert(front[j] == entries[j]);
        }
        if i < entries.len() {
            the_first_bad_declaration_is_reported(front, i);
        } else {
            the_first_bad_declaration_is_reported(front, front.len() as int);
            assert(entries[entries.len() - 1] == entries.last());
        }
    }
}

/// The paths to be resolved are every front of a path, the longest first.
pub proof fn every_front_is_resolved(p: PathView, k: int, i: int)
    requires
        0 <= i <= k <= p.parts.len(),
    ensures
        prefixes(p, k).len() == k + 1,
        prefixes(p, k)[i] == paths::text_of_path(
            PathView { lead: p.lead, parts: p.parts.take(k - i) },
        ),
    decreases k,
{
    if k > 0 {
        every_front_is_resolved(
            p,
            k - 1,
            if i > 0 {
                i - 1
            } else {
                0
            },
        );
    }
}

} // verus!
