//! The murmur home, `~/.murmur`, and the modes of what it holds.
//!
//! Every writer under the home holds `~/.murmur` itself at [`MURMUR_HOME_DIR_MODE`] before it
//! creates anything beneath it. Files that hold a secret land at [`PRIVATE_FILE_MODE`] by rename.
//! [`audit_murmur_home`] is the read-only half: it reports the mode of every entry and every wider
//! than expected path under an owner-only one, from metadata alone.

use crate::diagnostics;
use crate::text;
use vstd::prelude::*;

verus! {

/// Mode `~/.murmur` and every owner-only directory beneath it are held at.
pub const MURMUR_HOME_DIR_MODE: u32 = 0o700;

/// Mode every owner-only file under `~/.murmur` is held at.
pub const PRIVATE_FILE_MODE: u32 = 0o600;

/// The most wide descendants one entry's report lists.
pub const WIDE_DESCENDANT_CAP: usize = 20;

/// Whether `mode` grants any permission bit that `allowed` does not.
pub open spec fn wider(mode: u32, allowed: u32) -> bool {
    (mode & 0o777) & !allowed != 0
}

/// Whether `mode` grants any permission bit `allowed` does not.
pub fn is_wider_than(mode: u32, allowed: u32) -> (r: bool)
    ensures
        r == wider(mode, allowed),
        r <==> ((mode & 0o777) | allowed) != allowed,
{
    proof {
        assert(((mode & 0o777) & !allowed != 0) == (((mode & 0o777) | allowed) != allowed))
            by (bit_vector);
    }
    (mode & 0o777) & !allowed != 0
}

// ── Octal ────────────────────────────────────────────────────────────────────

/// A number in octal.
pub open spec fn octal(n: nat) -> Seq<char>
    decreases n,
{
    if n < 8 {
        seq![text::digit(n)]
    } else {
        octal(n / 8).push(text::digit(n % 8))
    }
}

/// A number in octal, at least four digits wide.
pub open spec fn octal4(n: nat) -> Seq<char> {
    if n < 8 {
        "000"@ + octal(n)
    } else if n < 64 {
        "00"@ + octal(n)
    } else if n < 512 {
        "0"@ + octal(n)
    } else {
        octal(n)
    }
}

fn octal_of(n: u32) -> (r: String)
    ensures
        r@ == octal(n as nat),
    decreases n,
{
    if n < 8 {
        let r = text::decimal_of(n as u64);
        proof {
            assert(r@ =~= seq![text::digit(n as nat)]);
        }
        return r;
    }
    let mut r = octal_of(n / 8);
    let last = text::decimal_of((n % 8) as u64);
    let ghost front = r@;
    r.append(last.as_str());
    proof {
        assert(last@ =~= seq![text::digit((n % 8) as nat)]);
        assert(r@ =~= front.push(text::digit((n % 8) as nat)));
    }
    r
}

fn octal4_of(n: u32) -> (r: String)
    ensures
        r@ == octal4(n as nat),
{
    let digits = octal_of(n);
    if n < 8 {
        text::cat2("000", digits.as_str())
    } else if n < 64 {
        text::cat2("00", digits.as_str())
    } else if n < 512 {
        text::cat2("0", digits.as_str())
    } else {
        digits
    }
}

// ── Holding the home ─────────────────────────────────────────────────────────

/// What `stat` says of the home.
#[derive(Debug, PartialEq, Eq)]
pub enum HomeProbe {
    Missing,
    Directory { mode: u32 },
    NotADirectory,
    Failed { error: String },
}

/// What to do so that the home is held.
#[derive(Debug, Clone, Copy, PartialEq, Eq, Structural)]
pub enum HomeStep {
    /// It is held already.
    Keep,
    /// Set this mode on it.
    SetMode { mode: u32 },
    /// Create it, and hold it as [`hold_private_dir`] says.
    Create,
}

/// What to do so that the home is held, and why it cannot be.
pub open spec fn home_step(home: Seq<char>, found: HomeProbe) -> Result<HomeStep, Seq<char>> {
    match found {
        HomeProbe::Missing => Ok(HomeStep::Create),
        HomeProbe::NotADirectory => Err(home + ": "@ + "not a directory"@),
        HomeProbe::Failed { error } => Err(home + ": "@ + error@),
        HomeProbe::Directory { mode } => if mode & 0o777 == (mode & 0o777) & MURMUR_HOME_DIR_MODE {
            Ok(HomeStep::Keep)
        } else {
            Ok(HomeStep::SetMode { mode: (mode & 0o777) & MURMUR_HOME_DIR_MODE })
        },
    }
}

/// Decides how to hold the home at [`MURMUR_HOME_DIR_MODE`]: a missing one is created, and every
/// group and other bit is stripped from one that is there. An existing home keeps the owner bits
/// that it has.
pub fn ensure_murmur_home(home: &str, found: &HomeProbe) -> (r: Result<HomeStep, String>)
    ensures
        match (r, home_step(home@, *found)) {
            (Ok(step), Ok(wanted)) => step == wanted,
            (Err(reason), Err(wanted)) => reason@ == wanted,
            _ => false,
        },
        found is Missing <==> r == Ok::<HomeStep, String>(HomeStep::Create),
        r is Err <==> found is NotADirectory || found is Failed,
        found is Directory ==> (r == Ok::<HomeStep, String>(HomeStep::Keep) <==> (found->mode
            & 0o777) & 0o077 == 0),
        r matches Ok(HomeStep::SetMode { mode }) ==> found is Directory && mode == found->mode
            & 0o700,
{
    proof {
        if found is Directory {
            let m = found->mode;
            assert(((m & 0o777) & 0o077 == 0) == (m & 0o777 == (m & 0o777) & 0o700))
                by (bit_vector);
            assert((m & 0o777) & 0o700 == m & 0o700) by (bit_vector);
        }
    }
    match found {
        HomeProbe::Missing => Ok(HomeStep::Create),
        HomeProbe::NotADirectory => Err(text::cat3(home, ": ", "not a directory")),
        HomeProbe::Failed { error } => Err(text::cat3(home, ": ", error.as_str())),
        HomeProbe::Directory { mode } => {
            let bits: u32 = *mode & 0o777;
            let narrowed: u32 = bits & MURMUR_HOME_DIR_MODE;
            if narrowed == bits {
                Ok(HomeStep::Keep)
            } else {
                Ok(HomeStep::SetMode { mode: narrowed })
            }
        },
    }
}

/// Why a home that could not be narrowed is not held.
pub fn narrowing_failed(home: &str, mode: u32, error: &str) -> (r: String)
    ensures
        r@ == home@ + ": "@ + "failed to set mode "@ + octal4(mode as nat) + ": "@ + error@,
{
    text::cat6(home, ": ", "failed to set mode ", octal4_of(mode).as_str(), ": ", error)
}

/// One step of writing under the home.
#[derive(Debug, PartialEq, Eq)]
pub enum PrivateStep {
    /// Create the directory, and its missing ancestors under the umask.
    CreateDir { path: String },
    /// Create an empty file beside `target`, which the next steps fill.
    Stage { target: String },
    /// Set a mode on what was created or staged.
    SetMode { mode: u32 },
    /// Write the contents into what was staged.
    Write { contents: Vec<u8> },
    /// Rename what was staged over the target.
    Rename { target: String },
}

/// What a [`PrivateStep`] stands for.
#[verifier::ext_equal]
pub enum PrivateStepView {
    CreateDir { path: Seq<char> },
    Stage { target: Seq<char> },
    SetMode { mode: u32 },
    Write { contents: Seq<u8> },
    Rename { target: Seq<char> },
}

impl View for PrivateStep {
    type V = PrivateStepView;

    open spec fn view(&self) -> PrivateStepView {
        match *self {
            PrivateStep::CreateDir { path } => PrivateStepView::CreateDir { path: path@ },
            PrivateStep::Stage { target } => PrivateStepView::Stage { target: target@ },
            PrivateStep::SetMode { mode } => PrivateStepView::SetMode { mode },
            PrivateStep::Write { contents } => PrivateStepView::Write { contents: contents@ },
            PrivateStep::Rename { target } => PrivateStepView::Rename { target: target@ },
        }
    }
}

/// What a list of steps stands for.
pub open spec fn step_views(v: Seq<PrivateStep>) -> Seq<PrivateStepView> {
    v.map_values(|s: PrivateStep| s@)
}

/// The steps that hold a directory at [`MURMUR_HOME_DIR_MODE`].
pub open spec fn private_dir_steps(path: Seq<char>) -> Seq<PrivateStepView> {
    seq![
        PrivateStepView::CreateDir { path },
        PrivateStepView::SetMode { mode: MURMUR_HOME_DIR_MODE },
    ]
}

/// The steps that replace a file at [`PRIVATE_FILE_MODE`].
pub open spec fn private_file_steps(target: Seq<char>, contents: Seq<u8>) -> Seq<PrivateStepView> {
    seq![
        PrivateStepView::Stage { target },
        PrivateStepView::SetMode { mode: PRIVATE_FILE_MODE },
        PrivateStepView::Write { contents },
        PrivateStepView::Rename { target },
    ]
}

/// How to create `path` if missing and hold it at [`MURMUR_HOME_DIR_MODE`]. Only `path` itself gets
/// the mode.
pub fn hold_private_dir(path: &str) -> (r: Vec<PrivateStep>)
    ensures
        step_views(r@) == private_dir_steps(path@),
        r@.len() == 2,
        r@[0] is CreateDir && r@[0]->path@ == path@,
        r@[1] == (PrivateStep::SetMode { mode: 0o700 }),
{
    let mut steps: Vec<PrivateStep> = Vec::new();
    steps.push(PrivateStep::CreateDir { path: path.to_owned() });
    steps.push(PrivateStep::SetMode { mode: MURMUR_HOME_DIR_MODE });
    proof {
        assert(step_views(steps@) =~= private_dir_steps(path@));
    }
    steps
}

/// How to replace `target` with `contents` at [`PRIVATE_FILE_MODE`]: staged beside it and renamed
/// over it, with the mode set before there is anything to read.
pub fn write_private_file(target: &str, contents: Vec<u8>) -> (r: Vec<PrivateStep>)
    ensures
        step_views(r@) == private_file_steps(target@, contents@),
        r@.len() == 4,
        r@[0] is Stage && r@[0]->Stage_target@ == target@,
        r@[1] == (PrivateStep::SetMode { mode: 0o600 }),
        r@[2] is Write && r@[2]->contents@ == contents@,
        r@[3] is Rename && r@[3]->Rename_target@ == target@,
{
    let ghost bytes = contents@;
    let mut steps: Vec<PrivateStep> = Vec::new();
    steps.push(PrivateStep::Stage { target: target.to_owned() });
    steps.push(PrivateStep::SetMode { mode: PRIVATE_FILE_MODE });
    steps.push(PrivateStep::Write { contents });
    steps.push(PrivateStep::Rename { target: target.to_owned() });
    proof {
        assert(step_views(steps@) =~= private_file_steps(target@, bytes));
    }
    steps
}

// ── Entries ──────────────────────────────────────────────────────────────────

/// What one top-level entry of `~/.murmur` is.
#[derive(Debug, PartialEq, Eq)]
pub enum HomeEntryKind {
    Home,
    Config,
    DeployKeys,
    DeployStaging,
    Deployments,
    Spend,
    Conversations,
    Running,
    State,
    Artifacts,
    BinaryCache,
    /// A top-level name this build writes nothing under.
    Unrecognised(String),
}

/// How many kinds with a fixed name there are.
pub const KNOWN_KINDS: usize = 10;

/// What a [`HomeEntryKind`] stands for: its place in the report, the home being at 0 and what is
/// not recognised behind every fixed name, and its name.
#[verifier::ext_equal]
pub struct KindView {
    pub rank: nat,
    pub name: Seq<char>,
}

/// The fixed name at a place of the report.
pub open spec fn known_name(rank: nat) -> Seq<char> {
    if rank == 1 {
        "config.yaml"@
    } else if rank == 2 {
        "deploy_keys"@
    } else if rank == 3 {
        "deploy_staging"@
    } else if rank == 4 {
        "deployments.json"@
    } else if rank == 5 {
        "spend"@
    } else if rank == 6 {
        "conversations"@
    } else if rank == 7 {
        "running"@
    } else if rank == 8 {
        "state"@
    } else if rank == 9 {
        "artifacts"@
    } else if rank == 10 {
        "bin"@
    } else {
        Seq::empty()
    }
}

/// Where a kind stands in the report.
pub open spec fn rank_of(kind: HomeEntryKind) -> nat {
    match kind {
        HomeEntryKind::Home => 0,
        HomeEntryKind::Config => 1,
        HomeEntryKind::DeployKeys => 2,
        HomeEntryKind::DeployStaging => 3,
        HomeEntryKind::Deployments => 4,
        HomeEntryKind::Spend => 5,
        HomeEntryKind::Conversations => 6,
        HomeEntryKind::Running => 7,
        HomeEntryKind::State => 8,
        HomeEntryKind::Artifacts => 9,
        HomeEntryKind::BinaryCache => 10,
        HomeEntryKind::Unrecognised(_) => 11,
    }
}

impl View for HomeEntryKind {
    type V = KindView;

    open spec fn view(&self) -> KindView {
        KindView {
            rank: rank_of(*self),
            name: match *self {
                HomeEntryKind::Unrecognised(name) => name@,
                _ => known_name(rank_of(*self)),
            },
        }
    }
}

/// Whether what stands at a place of the report, and everything beneath it, is expected to be
/// owner-only.
pub open spec fn private_kind(kind: KindView) -> bool {
    kind.rank <= 8
}

/// What an entry holds.
pub open spec fn holds_text(kind: KindView) -> Seq<char> {
    if kind.rank == 0 {
        "the murmur home"@
    } else if kind.rank == 1 {
        "provider credentials"@
    } else if kind.rank == 2 {
        "SSH private keys"@
    } else if kind.rank == 3 {
        "deployment staging copies"@
    } else if kind.rank == 4 {
        "deployment records"@
    } else if kind.rank == 5 {
        "the machine spend ledger"@
    } else if kind.rank == 6 {
        "conversation records"@
    } else if kind.rank == 7 {
        "running-capsule records"@
    } else if kind.rank == 8 {
        "capsule state stores"@
    } else if kind.rank == 9 {
        "installed artifacts"@
    } else if kind.rank == 10 {
        "cached mur binaries"@
    } else {
        "something not recognised by this build"@
    }
}

impl HomeEntryKind {
    /// The entry's name under `~/.murmur`, or nothing for the home itself.
    pub fn file_name(&self) -> (r: Option<&str>)
        ensures
            text::opt_str(r) == (if self@.rank == 0 {
                None::<Seq<char>>
            } else {
                Some(self@.name)
            }),
            self is Home <==> r is None,
            self is Config ==> r->0@ == "config.yaml"@,
            self is DeployKeys ==> r->0@ == "deploy_keys"@,
            self is DeployStaging ==> r->0@ == "deploy_staging"@,
            self is Deployments ==> r->0@ == "deployments.json"@,
            self is Spend ==> r->0@ == "spend"@,
            self is Conversations ==> r->0@ == "conversations"@,
            self is Running ==> r->0@ == "running"@,
            self is State ==> r->0@ == "state"@,
            self is Artifacts ==> r->0@ == "artifacts"@,
            self is BinaryCache ==> r->0@ == "bin"@,
            self is Unrecognised ==> r->0@ == self->Unrecognised_0@,
    {
        match self {
            HomeEntryKind::Home => None,
            HomeEntryKind::Config => Some("config.yaml"),
            HomeEntryKind::DeployKeys => Some("deploy_keys"),
            HomeEntryKind::DeployStaging => Some("deploy_staging"),
            HomeEntryKind::Deployments => Some("deployments.json"),
            HomeEntryKind::Spend => Some("spend"),
            HomeEntryKind::Conversations => Some("conversations"),
            HomeEntryKind::Running => Some("running"),
            HomeEntryKind::State => Some("state"),
            HomeEntryKind::Artifacts => Some("artifacts"),
            HomeEntryKind::BinaryCache => Some("bin"),
            HomeEntryKind::Unrecognised(name) => Some(name.as_str()),
        }
    }

    /// What the entry holds, as a noun phrase that completes "`<path>` holds …".
    pub fn holds(&self) -> (r: &'static str)
        ensures
            r@ == holds_text(self@),
    {
        match self {
            HomeEntryKind::Home => "the murmur home",
            HomeEntryKind::Config => "provider credentials",
            HomeEntryKind::DeployKeys => "SSH private keys",
            HomeEntryKind::DeployStaging => "deployment staging copies",
            HomeEntryKind::Deployments => "deployment records",
            HomeEntryKind::Spend => "the machine spend ledger",
            HomeEntryKind::Conversations => "conversation records",
            HomeEntryKind::Running => "running-capsule records",
            HomeEntryKind::State => "capsule state stores",
            HomeEntryKind::Artifacts => "installed artifacts",
            HomeEntryKind::BinaryCache => "cached mur binaries",
            HomeEntryKind::Unrecognised(_) => "something not recognised by this build",
        }
    }

    /// Whether the entry, and everything beneath it, is expected to be owner-only.
    pub fn expected_private(&self) -> (r: bool)
        ensures
            r == private_kind(self@),
            r <==> !(self is Artifacts || self is BinaryCache || self is Unrecognised),
    {
        match self {
            HomeEntryKind::Artifacts => false,
            HomeEntryKind::BinaryCache => false,
            HomeEntryKind::Unrecognised(_) => false,
            _ => true,
        }
    }

    /// The kind with a fixed name at a place of the report.
    pub fn known(rank: usize) -> (r: HomeEntryKind)
        requires
            1 <= rank <= KNOWN_KINDS,
        ensures
            r@ == (KindView { rank: rank as nat, name: known_name(rank as nat) }),
    {
        if rank == 1 {
            HomeEntryKind::Config
        } else if rank == 2 {
            HomeEntryKind::DeployKeys
        } else if rank == 3 {
            HomeEntryKind::DeployStaging
        } else if rank == 4 {
            HomeEntryKind::Deployments
        } else if rank == 5 {
            HomeEntryKind::Spend
        } else if rank == 6 {
            HomeEntryKind::Conversations
        } else if rank == 7 {
            HomeEntryKind::Running
        } else if rank == 8 {
            HomeEntryKind::State
        } else if rank == 9 {
            HomeEntryKind::Artifacts
        } else {
            HomeEntryKind::BinaryCache
        }
    }
}

// ── What the filesystem says ─────────────────────────────────────────────────

/// What `lstat` says a path is.
#[derive(Debug, Clone, Copy, PartialEq, Eq, Structural)]
pub enum NodeType {
    Directory,
    File,
    Symlink,
    Other,
}

/// A path under the home, as `lstat` saw it, with what a directory lists. What could not be read
/// is not listed.
#[derive(Debug, PartialEq, Eq)]
pub struct HomeNode {
    pub name: String,
    pub node: NodeType,
    pub mode: u32,
    pub children: Vec<HomeNode>,
}

/// What `lstat` says of an entry.
#[derive(Debug, PartialEq, Eq)]
pub enum EntryProbe {
    Absent,
    Found(HomeNode),
    Failed { error: String },
}

/// What `lstat` says of the entry of a name.
#[derive(Debug, PartialEq, Eq)]
pub struct NamedProbe {
    pub name: String,
    pub found: EntryProbe,
}

/// The mode a path of a type is held to.
pub open spec fn allowed_mode(node: NodeType) -> u32 {
    if node == NodeType::Directory {
        MURMUR_HOME_DIR_MODE
    } else {
        PRIVATE_FILE_MODE
    }
}

fn allowed_for_type(node: NodeType) -> (r: u32)
    ensures
        r == allowed_mode(node),
        r == (if node is Directory {
            0o700u32
        } else {
            0o600
        }),
{
    if node == NodeType::Directory {
        MURMUR_HOME_DIR_MODE
    } else {
        PRIVATE_FILE_MODE
    }
}

/// A path under an owner-only entry whose mode grants more than it should.
#[derive(Debug, PartialEq, Eq)]
pub struct WideEntry {
    pub path: String,
    /// Permission bits only.
    pub mode: u32,
    /// [`MURMUR_HOME_DIR_MODE`] for a directory, [`PRIVATE_FILE_MODE`] for a file.
    pub allowed: u32,
}

/// What a [`WideEntry`] stands for.
#[verifier::ext_equal]
pub struct WideView {
    pub path: Seq<char>,
    pub mode: u32,
    pub allowed: u32,
}

impl View for WideEntry {
    type V = WideView;

    open spec fn view(&self) -> WideView {
        WideView { path: self.path@, mode: self.mode, allowed: self.allowed }
    }
}

/// What a list of wide paths stands for.
pub open spec fn wide_views(v: Seq<WideEntry>) -> Seq<WideView> {
    v.map_values(|w: WideEntry| w@)
}

/// A name inside a directory.
pub open spec fn inside(dir: Seq<char>, name: Seq<char>) -> Seq<char> {
    if dir.len() == 0 || dir.last() == '/' {
        dir + name
    } else {
        dir + "/"@ + name
    }
}

fn path_inside(dir: &str, name: &str) -> (r: String)
    ensures
        r@ == inside(dir@, name@),
{
    let chars = text::chars_of(dir);
    if chars.len() == 0 || chars[chars.len() - 1] == '/' {
        text::cat2(dir, name)
    } else {
        text::cat3(dir, "/", name)
    }
}

/// The names a directory lists.
pub open spec fn names(children: Seq<HomeNode>) -> Seq<Seq<char>> {
    children.map_values(|n: HomeNode| n.name@)
}

/// Where the first child of a name stands.
pub open spec fn place(children: Seq<HomeNode>, name: Seq<char>) -> Option<int>
    decreases children.len(),
{
    if children.len() == 0 {
        None
    } else {
        match place(children.drop_last(), name) {
            Some(i) => Some(i),
            None => if children.last().name@ == name {
                Some(children.len() - 1)
            } else {
                None
            },
        }
    }
}

/// The wide ones among a path and what is beneath it, the path first. A symlink is neither wide
/// nor followed, and neither is anything else that is no file and no directory.
pub open spec fn wide_at(path: Seq<char>, node: HomeNode) -> Seq<WideView>
    decreases node, 0nat,
{
    if node.node == NodeType::Symlink || node.node == NodeType::Other {
        Seq::empty()
    } else {
        let here = if wider(node.mode & 0o777, allowed_mode(node.node)) {
            seq![
                WideView { path, mode: node.mode & 0o777, allowed: allowed_mode(node.node) },
            ]
        } else {
            Seq::empty()
        };
        if node.node == NodeType::Directory {
            here + wide_listed(path, node.children@, text::ordered(names(node.children@)))
        } else {
            here
        }
    }
}

/// The wide ones at or beneath the listed names of a directory, in the list's order.
pub open spec fn wide_listed(
    dir: Seq<char>,
    children: Seq<HomeNode>,
    listed: Seq<Seq<char>>,
) -> Seq<WideView>
    decreases children, listed.len(),
{
    if listed.len() == 0 {
        Seq::empty()
    } else {
        let before = wide_listed(dir, children, listed.drop_last());
        match place(children, listed.last()) {
            Some(i) => if 0 <= i < children.len() {
                before + wide_at(inside(dir, listed.last()), children[i])
            } else {
                before
            },
            None => before,
        }
    }
}

/// Every wide path beneath a directory, depth first, each directory in the order of its names.
pub open spec fn wide_below(dir: Seq<char>, node: HomeNode) -> Seq<WideView> {
    wide_listed(dir, node.children@, text::ordered(names(node.children@)))
}

fn child_names(children: &[HomeNode]) -> (r: Vec<String>)
    ensures
        text::texts(r@) == names(children@),
{
    let mut out: Vec<String> = Vec::new();
    let mut i: usize = 0;
    while i < children.len()
        invariant
            i <= children@.len(),
            out@.len() == i,
            forall|j: int| 0 <= j < i ==> (#[trigger] out@[j])@ == children@[j].name@,
        decreases children@.len() - i,
    {
        out.push(children[i].name.clone());
        i += 1;
    }
    proof {
        assert(text::texts(out@) =~= names(children@));
    }
    out
}

fn find_child(children: &[HomeNode], name: &str) -> (r: Option<usize>)
    ensures
        match (r, place(children@, name@)) {
            (Some(i), Some(wanted)) => i == wanted && i < children@.len(),
            (None, None) => true,
            _ => false,
        },
{
    let mut i: usize = 0;
    proof {
        assert(children@.take(0).len() == 0);
    }
    while i < children.len()
        invariant
            i <= children@.len(),
            place(children@.take(i as int), name@) is None,
        decreases children@.len() - i,
    {
        proof {
            assert(children@.take(i + 1).drop_last() =~= children@.take(i as int));
        }
        if text::same(children[i].name.as_str(), name) {
            proof {
                lemma_place_stays(children@, name@, i + 1);
            }
            return Some(i);
        }
        i += 1;
    }
    proof {
        assert(children@.take(children@.len() as int) =~= children@);
    }
    None
}

/// A name found among the first children is found there among all of them.
proof fn lemma_place_stays(children: Seq<HomeNode>, name: Seq<char>, n: int)
    requires
        0 <= n <= children.len(),
        place(children.take(n), name) is Some,
    ensures
        place(children, name) == place(children.take(n), name),
    decreases children.len() - n,
{
    if n == children.len() {
        assert(children.take(n) =~= children);
    } else {
        assert(children.take(n + 1).drop_last() =~= children.take(n));
        lemma_place_stays(children, name, n + 1);
    }
}

fn collect_wide(path: &str, node: &HomeNode, found: &mut Vec<WideEntry>)
    ensures
        wide_views(final(found)@) == wide_views(old(found)@) + wide_at(path@, *node),
    decreases node,
{
    if node.node == NodeType::Symlink || node.node == NodeType::Other {
        proof {
            assert(wide_views(found@) + Seq::<WideView>::empty() =~= wide_views(found@));
        }
        return;
    }
    let ghost start = wide_views(found@);
    let bits: u32 = node.mode & 0o777;
    let allowed: u32 = allowed_for_type(node.node);
    let ghost here = if wider(bits, allowed) {
        seq![WideView { path: path@, mode: bits, allowed }]
    } else {
        Seq::empty()
    };
    if is_wider_than(bits, allowed) {
        let ghost before = found@;
        found.push(WideEntry { path: path.to_owned(), mode: bits, allowed });
        proof {
            assert(wide_views(found@) =~= wide_views(before) + here);
        }
    } else {
        proof {
            assert(wide_views(found@) =~= start + here);
        }
    }
    if node.node != NodeType::Directory {
        return;
    }
    let listed = text::in_order(child_names(node.children.as_slice()).as_slice());
    let ghost all = text::ordered(names(node.children@));
    let mut i: usize = 0;
    proof {
        assert(all.take(0).len() == 0);
        assert(start + here + Seq::<WideView>::empty() =~= start + here);
    }
    while i < listed.len()
        invariant
            i <= listed@.len(),
            text::texts(listed@) == all,
            wide_views(found@) == start + here + wide_listed(
                path@,
                node.children@,
                all.take(i as int),
            ),
        decreases listed@.len() - i,
    {
        proof {
            assert(all.take(i + 1).drop_last() =~= all.take(i as int));
            assert(all.take(i + 1).last() == listed@[i as int]@);
        }
        if let Some(k) = find_child(node.children.as_slice(), listed[i].as_str()) {
            let child = path_inside(path, listed[i].as_str());
            let ghost so_far = wide_listed(path@, node.children@, all.take(i as int));
            proof {
                assert(decreases_to!(node => node.children));
                assert(decreases_to!(node.children => node.children@));
                assert(decreases_to!(node.children@ => node.children@[k as int]));
            }
            collect_wide(child.as_str(), &node.children[k], found);
            proof {
                let more = wide_at(child@, node.children@[k as int]);
                assert(start + here + so_far + more =~= start + here + (so_far + more));
            }
        }
        i += 1;
    }
    proof {
        assert(all.take(all.len() as int) =~= all);
        assert(start + here + wide_below(path@, *node) =~= start + (here + wide_below(
            path@,
            *node,
        )));
    }
}

// ── The audit ────────────────────────────────────────────────────────────────

/// What the audit says of one entry.
#[derive(Debug, PartialEq, Eq)]
pub enum HomeEntryState {
    Absent,
    Present {
        /// Permission bits only.
        mode: u32,
        /// Whether the entry itself is wider than its kind allows. Never for a kind that is not
        /// expected to be private, nor for a symlink.
        wide: bool,
        /// Wide paths beneath an owner-only directory, depth first, at most
        /// [`WIDE_DESCENDANT_CAP`].
        wide_descendants: Vec<WideEntry>,
        /// How many wide paths were found beyond the cap.
        wide_descendants_omitted: usize,
    },
    /// `lstat` failed for a reason other than the entry not existing.
    Unreadable { error: String },
}

/// What a [`HomeEntryState`] stands for.
#[verifier::ext_equal]
pub enum StateView {
    Absent,
    Present { mode: u32, wide: bool, wide_descendants: Seq<WideView>, omitted: nat },
    Unreadable { error: Seq<char> },
}

impl View for HomeEntryState {
    type V = StateView;

    open spec fn view(&self) -> StateView {
        match *self {
            HomeEntryState::Absent => StateView::Absent,
            HomeEntryState::Present { mode, wide, wide_descendants, wide_descendants_omitted } =>
                StateView::Present {
                    mode,
                    wide,
                    wide_descendants: wide_views(wide_descendants@),
                    omitted: wide_descendants_omitted as nat,
                },
            HomeEntryState::Unreadable { error } => StateView::Unreadable { error: error@ },
        }
    }
}

/// What the audit says of an entry.
#[derive(Debug, PartialEq, Eq)]
pub struct HomeEntryReport {
    pub path: String,
    pub kind: HomeEntryKind,
    /// Whether the entry is there and is a directory.
    pub directory: bool,
    pub state: HomeEntryState,
}

/// What a [`HomeEntryReport`] stands for.
#[verifier::ext_equal]
pub struct ReportView {
    pub path: Seq<char>,
    pub kind: KindView,
    pub directory: bool,
    pub state: StateView,
}

impl View for HomeEntryReport {
    type V = ReportView;

    open spec fn view(&self) -> ReportView {
        ReportView {
            path: self.path@,
            kind: self.kind@,
            directory: self.directory,
            state: self.state@,
        }
    }
}

impl HomeEntryReport {
    /// The mode this entry is held to: [`MURMUR_HOME_DIR_MODE`] for a directory,
    /// [`PRIVATE_FILE_MODE`] otherwise.
    pub fn allowed(&self) -> (r: u32)
        ensures
            r == (if self@.directory {
                MURMUR_HOME_DIR_MODE
            } else {
                PRIVATE_FILE_MODE
            }),
    {
        if self.directory {
            MURMUR_HOME_DIR_MODE
        } else {
            PRIVATE_FILE_MODE
        }
    }
}

/// The first part of a list, as far as the cap goes.
pub open spec fn capped(found: Seq<WideView>) -> Seq<WideView> {
    if found.len() > WIDE_DESCENDANT_CAP {
        found.take(WIDE_DESCENDANT_CAP as int)
    } else {
        found
    }
}

/// What of a list is beyond the cap.
pub open spec fn beyond(found: Seq<WideView>) -> nat {
    if found.len() > WIDE_DESCENDANT_CAP {
        (found.len() - WIDE_DESCENDANT_CAP) as nat
    } else {
        0
    }
}

/// The wide paths a report of an entry names or counts. The home's own entries are reported one by
/// one, so only an entry below it is walked, and of those only an owner-only directory.
pub open spec fn walked(path: Seq<char>, kind: KindView, node: HomeNode) -> Seq<WideView> {
    if private_kind(kind) && node.node == NodeType::Directory && kind.rank != 0 {
        wide_below(path, node)
    } else {
        Seq::empty()
    }
}

/// What the audit says of an entry.
pub open spec fn state_of(path: Seq<char>, kind: KindView, found: EntryProbe) -> StateView {
    match found {
        EntryProbe::Absent => StateView::Absent,
        EntryProbe::Failed { error } => StateView::Unreadable { error: error@ },
        EntryProbe::Found(node) => StateView::Present {
            mode: node.mode & 0o777,
            wide: private_kind(kind) && node.node != NodeType::Symlink && wider(
                node.mode & 0o777,
                allowed_mode(node.node),
            ),
            wide_descendants: capped(walked(path, kind, node)),
            omitted: beyond(walked(path, kind, node)),
        },
    }
}

/// The report of an entry.
pub open spec fn report_of(path: Seq<char>, kind: KindView, found: EntryProbe) -> ReportView {
    ReportView {
        path,
        kind,
        directory: match found {
            EntryProbe::Found(node) => node.node == NodeType::Directory,
            _ => false,
        },
        state: state_of(path, kind, found),
    }
}

/// Reports one entry.
pub fn report_entry(path: String, kind: HomeEntryKind, found: &EntryProbe) -> (r: HomeEntryReport)
    ensures
        r@ == report_of(path@, kind@, *found),
        r.path@ == path@ && r.kind == kind,
        r.directory <==> found is Found && found->Found_0.node is Directory,
        r.state is Absent <==> found is Absent,
        r.state is Unreadable <==> found is Failed,
        found is Found ==> r.state->mode == found->Found_0.mode & 0o777,
        found is Found && found->Found_0.node is Directory ==> (r.state->wide <==> !(
        kind is Artifacts || kind is BinaryCache || kind is Unrecognised) && found->Found_0.mode
            & 0o077 != 0),
        found is Found && found->Found_0.node is File ==> (r.state->wide <==> !(kind is Artifacts
            || kind is BinaryCache || kind is Unrecognised) && found->Found_0.mode & 0o177 != 0),
        found is Found && found->Found_0.node is Symlink ==> !r.state->wide,
        found is Found && (kind is Home || kind is Artifacts || kind is BinaryCache
            || kind is Unrecognised || !(found->Found_0.node is Directory))
            ==> r.state->wide_descendants@.len() == 0 && r.state->wide_descendants_omitted == 0,
        found is Found ==> r.state->wide_descendants@.len() <= 20 && (
        r.state->wide_descendants_omitted > 0 ==> r.state->wide_descendants@.len() == 20),
{
    proof {
        if found is Found {
            let m = found->Found_0.mode;
            wide_means_readable_by_others(m & 0o777);
            assert((m & 0o777) & 0o077 == m & 0o077) by (bit_vector);
            assert((m & 0o777) & 0o177 == m & 0o177) by (bit_vector);
        }
    }
    match found {
        EntryProbe::Absent => HomeEntryReport {
            path,
            kind,
            directory: false,
            state: HomeEntryState::Absent,
        },
        EntryProbe::Failed { error } => HomeEntryReport {
            path,
            kind,
            directory: false,
            state: HomeEntryState::Unreadable { error: error.clone() },
        },
        EntryProbe::Found(node) => {
            let bits: u32 = node.mode & 0o777;
            let private = kind.expected_private();
            let directory = node.node == NodeType::Directory;
            let wide = private && node.node != NodeType::Symlink && is_wider_than(
                bits,
                allowed_for_type(node.node),
            );
            let at_home = match kind {
                HomeEntryKind::Home => true,
                _ => false,
            };
            let mut found: Vec<WideEntry> = Vec::new();
            proof {
                assert(wide_views(found@) =~= Seq::<WideView>::empty());
            }
            if private && directory && !at_home {
                walk(path.as_str(), node, &mut found);
            }
            let ghost all = walked(path@, kind@, *node);
            let total: usize = found.len();
            let omitted: usize = if total > WIDE_DESCENDANT_CAP {
                total - WIDE_DESCENDANT_CAP
            } else {
                0
            };
            proof {
                assert(wide_views(found@) == all);
                assert(all.len() == total);
            }
            let ghost listed = found@;
            found.truncate(WIDE_DESCENDANT_CAP);
            proof {
                assert(wide_views(found@) =~= capped(all));
            }
            HomeEntryReport {
                path,
                kind,
                directory,
                state: HomeEntryState::Present {
                    mode: bits,
                    wide,
                    wide_descendants: found,
                    wide_descendants_omitted: omitted,
                },
            }
        },
    }
}

fn walk(path: &str, node: &HomeNode, found: &mut Vec<WideEntry>)
    requires
        wide_views(old(found)@) == Seq::<WideView>::empty(),
    ensures
        wide_views(final(found)@) == wide_below(path@, *node),
{
    let listed = text::in_order(child_names(node.children.as_slice()).as_slice());
    let ghost all = text::ordered(names(node.children@));
    let mut i: usize = 0;
    proof {
        assert(all.take(0).len() == 0);
    }
    while i < listed.len()
        invariant
            i <= listed@.len(),
            text::texts(listed@) == all,
            wide_views(found@) == wide_listed(path@, node.children@, all.take(i as int)),
        decreases listed@.len() - i,
    {
        proof {
            assert(all.take(i + 1).drop_last() =~= all.take(i as int));
            assert(all.take(i + 1).last() == listed@[i as int]@);
        }
        if let Some(k) = find_child(node.children.as_slice(), listed[i].as_str()) {
            let child = path_inside(path, listed[i].as_str());
            collect_wide(child.as_str(), &node.children[k], found);
        }
        i += 1;
    }
    proof {
        assert(all.take(all.len() as int) =~= all);
    }
}

/// What was said of the entry of a name; absent when nothing was.
pub open spec fn probed(probes: Seq<NamedProbe>, name: Seq<char>) -> EntryProbe
    decreases probes.len(),
{
    if probes.len() == 0 {
        EntryProbe::Absent
    } else if probes[0].name@ == name {
        probes[0].found
    } else {
        probed(probes.drop_first(), name)
    }
}

/// Whether a name is that of a kind with a fixed name.
pub open spec fn is_known_name(name: Seq<char>) -> bool {
    exists|rank: nat| 1 <= rank <= KNOWN_KINDS && #[trigger] known_name(rank) == name
}

/// The names of a list that no kind has.
pub open spec fn others(listed: Seq<Seq<char>>) -> Seq<Seq<char>>
    decreases listed.len(),
{
    if listed.len() == 0 {
        Seq::empty()
    } else if is_known_name(listed.last()) {
        others(listed.drop_last())
    } else {
        others(listed.drop_last()).push(listed.last())
    }
}

/// The reports of the first `n` kinds with a fixed name.
pub open spec fn known_reports(home: Seq<char>, probes: Seq<NamedProbe>, n: nat) -> Seq<
    ReportView,
> {
    Seq::new(
        n,
        |k: int|
            report_of(
                inside(home, known_name((k + 1) as nat)),
                KindView { rank: (k + 1) as nat, name: known_name((k + 1) as nat) },
                probed(probes, known_name((k + 1) as nat)),
            ),
    )
}

/// The reports of names that no kind has.
pub open spec fn other_reports(
    home: Seq<char>,
    probes: Seq<NamedProbe>,
    listed: Seq<Seq<char>>,
) -> Seq<ReportView> {
    listed.map_values(
        |name: Seq<char>|
            report_of(
                inside(home, name),
                KindView { rank: (KNOWN_KINDS + 1) as nat, name },
                probed(probes, name),
            ),
    )
}

/// The report of the home: the home first, then every kind with a fixed name, absent ones
/// included, then every other name it lists, in order.
pub open spec fn audit(
    home: Seq<char>,
    at_home: EntryProbe,
    probes: Seq<NamedProbe>,
    listed: Seq<Seq<char>>,
) -> Seq<ReportView> {
    seq![report_of(home, KindView { rank: 0, name: known_name(0) }, at_home)] + known_reports(
        home,
        probes,
        KNOWN_KINDS as nat,
    ) + other_reports(home, probes, text::ordered(others(listed)))
}

/// What a list of reports stands for.
pub open spec fn report_views(v: Seq<HomeEntryReport>) -> Seq<ReportView> {
    v.map_values(|r: HomeEntryReport| r@)
}

fn find_probe<'a>(probes: &'a [NamedProbe], name: &str, absent: &'a EntryProbe) -> (r:
    &'a EntryProbe)
    requires
        *absent == EntryProbe::Absent,
    ensures
        *r == probed(probes@, name@),
{
    let mut i: usize = 0;
    proof {
        assert(probes@.skip(0) =~= probes@);
    }
    while i < probes.len()
        invariant
            i <= probes@.len(),
            probed(probes@.skip(i as int), name@) == probed(probes@, name@),
        decreases probes@.len() - i,
    {
        proof {
            assert(probes@.skip(i as int)[0] == probes@[i as int]);
            assert(probes@.skip(i as int).drop_first() =~= probes@.skip(i + 1));
        }
        if text::same(probes[i].name.as_str(), name) {
            return &probes[i].found;
        }
        i += 1;
    }
    absent
}

fn is_known(name: &str) -> (r: bool)
    ensures
        r == is_known_name(name@),
{
    let mut rank: usize = 1;
    while rank <= KNOWN_KINDS
        invariant
            1 <= rank <= KNOWN_KINDS + 1,
            forall|k: nat| 1 <= k < rank ==> #[trigger] known_name(k) != name@,
        decreases KNOWN_KINDS + 1 - rank,
    {
        let kind = HomeEntryKind::known(rank);
        if let Some(known) = kind.file_name() {
            if text::same(known, name) {
                proof {
                    assert(known_name(rank as nat) == name@);
                }
                return true;
            }
        }
        rank += 1;
    }
    false
}

fn other_names(listed: &[String]) -> (r: Vec<String>)
    ensures
        text::texts(r@) == others(text::texts(listed@)),
{
    let ghost all = text::texts(listed@);
    let mut out: Vec<String> = Vec::new();
    let mut i: usize = 0;
    proof {
        assert(text::texts(out@) =~= others(all.take(0)));
    }
    while i < listed.len()
        invariant
            i <= listed@.len(),
            all == text::texts(listed@),
            text::texts(out@) == others(all.take(i as int)),
        decreases listed@.len() - i,
    {
        proof {
            assert(all.take(i + 1).drop_last() =~= all.take(i as int));
            assert(all.take(i + 1).last() == listed@[i as int]@);
        }
        if !is_known(listed[i].as_str()) {
            let ghost before = out@;
            out.push(listed[i].clone());
            proof {
                assert(text::texts(out@) =~= text::texts(before).push(listed@[i as int]@));
            }
        }
        i += 1;
    }
    proof {
        assert(all.take(all.len() as int) =~= all);
    }
    out
}

/// Reports the home and every entry in it, from what `lstat` said of the home (`at_home`) and of
/// its entries (`probes`), and from the names it lists. A name that nothing was said of is absent.
pub fn audit_murmur_home(
    home: &str,
    at_home: &EntryProbe,
    probes: &[NamedProbe],
    listed: &[String],
) -> (r: Vec<HomeEntryReport>)
    ensures
        report_views(r@) == audit(home@, *at_home, probes@, text::texts(listed@)),
        r@.len() > KNOWN_KINDS,
        r@[0].path@ == home@ && r@[0].kind@.rank == 0,
        forall|k: int|
            0 < k < r@.len() ==> (#[trigger] r@[k]).path@ == inside(home@, r@[k].kind@.name),
{
    let absent = EntryProbe::Absent;
    let mut reports: Vec<HomeEntryReport> = Vec::new();
    reports.push(report_entry(home.to_owned(), HomeEntryKind::Home, at_home));
    let ghost first = seq![
        report_of(home@, KindView { rank: 0, name: known_name(0) }, *at_home),
    ];
    proof {
        assert(report_views(reports@) =~= first + known_reports(home@, probes@, 0));
    }
    let mut rank: usize = 1;
    while rank <= KNOWN_KINDS
        invariant
            1 <= rank <= KNOWN_KINDS + 1,
            absent == EntryProbe::Absent,
            report_views(reports@) == first + known_reports(home@, probes@, (rank - 1) as nat),
        decreases KNOWN_KINDS + 1 - rank,
    {
        let kind = HomeEntryKind::known(rank);
        let name = match kind.file_name() {
            Some(name) => name.to_owned(),
            None => String::new(),
        };
        let found = find_probe(probes, name.as_str(), &absent);
        let ghost before = reports@;
        let report = report_entry(path_inside(home, name.as_str()), kind, found);
        let ghost added = report@;
        reports.push(report);
        proof {
            let so_far = known_reports(home@, probes@, (rank - 1) as nat);
            let now = known_reports(home@, probes@, rank as nat);
            assert(report_views(reports@) =~= report_views(before).push(added));
            assert(now =~= so_far.push(added));
            assert(first + so_far.push(added) =~= (first + so_far).push(added));
        }
        rank += 1;
    }
    let ghost front = first + known_reports(home@, probes@, KNOWN_KINDS as nat);
    let rest = text::in_order(other_names(listed).as_slice());
    let ghost all = text::ordered(others(text::texts(listed@)));
    let mut i: usize = 0;
    proof {
        assert(front + other_reports(home@, probes@, all.take(0)) =~= front);
    }
    while i < rest.len()
        invariant
            i <= rest@.len(),
            absent == EntryProbe::Absent,
            text::texts(rest@) == all,
            report_views(reports@) == front + other_reports(home@, probes@, all.take(i as int)),
        decreases rest@.len() - i,
    {
        let found = find_probe(probes, rest[i].as_str(), &absent);
        let ghost before = reports@;
        let report = report_entry(
            path_inside(home, rest[i].as_str()),
            HomeEntryKind::Unrecognised(rest[i].clone()),
            found,
        );
        let ghost added = report@;
        reports.push(report);
        proof {
            let so_far = other_reports(home@, probes@, all.take(i as int));
            let now = other_reports(home@, probes@, all.take(i + 1));
            assert(all[i as int] == rest@[i as int]@);
            assert(report_views(reports@) =~= report_views(before).push(added));
            assert(now =~= so_far.push(added));
            assert(front + so_far.push(added) =~= (front + so_far).push(added));
        }
        i += 1;
    }
    proof {
        assert(all.take(all.len() as int) =~= all);
        let views = report_views(reports@);
        let told = known_reports(home@, probes@, KNOWN_KINDS as nat);
        let more = other_reports(home@, probes@, all);
        assert(views[0] == first[0]);
        assert(views[0] == reports@[0]@);
        assert forall|k: int| 0 < k < reports@.len() implies (#[trigger] reports@[k]).path@
            == inside(home@, reports@[k].kind@.name) by {
            assert(views[k] == reports@[k]@);
            if k <= KNOWN_KINDS {
                assert(views[k] == told[k - 1]);
            } else {
                assert(views[k] == more[k - 1 - KNOWN_KINDS]);
            }
        }
    }
    reports
}

// ── Warnings ─────────────────────────────────────────────────────────────────

/// The `W-SEC-028` line for a path under `~/.murmur` that holds `holds` and is wider than
/// `allowed`. Names the path and its mode, never its contents.
pub fn wide_entry_warning(path: &str, holds: &str, mode: u32, allowed: u32) -> (r: String)
    ensures
        r@ == "[capsule-runtime] warning["@ + diagnostics::W_SEC_028@ + "]: "@ + path@ + " holds "@
            + holds@ + " and is mode "@ + octal4((mode & 0o777) as nat)
            + ", which other accounts on this host can read; run `chmod "@ + octal(allowed as nat)
            + " "@ + path@ + "` ("@ + diagnostics::link(diagnostics::W_SEC_028@) + ")"@,
{
    let mut out = text::cat7(
        "[capsule-runtime] warning[",
        diagnostics::W_SEC_028,
        "]: ",
        path,
        " holds ",
        holds,
        " and is mode ",
    );
    out.append(octal4_of(mode & 0o777).as_str());
    out.append(", which other accounts on this host can read; run `chmod ");
    out.append(octal_of(allowed).as_str());
    out.append(" ");
    out.append(path);
    out.append("` (");
    out.append(diagnostics::security_warning_link(diagnostics::W_SEC_028).as_str());
    out.append(")");
    out
}

/// How a warning of a wide credential file reads.
pub open spec fn credential_warning(path: Seq<char>, name: Seq<char>, mode: u32) -> Seq<char> {
    "[capsule-runtime] warning["@ + diagnostics::W_SEC_028@
        + "]: the inference credential credentials."@ + name + " is read from "@ + path
        + ", which is mode "@ + octal4((mode & 0o777) as nat)
        + " and readable by other accounts on this host; run `chmod 600 "@ + path + "` ("@
        + diagnostics::link(diagnostics::W_SEC_028@) + ")"@
}

/// Whether a mode grants any group or other bit.
pub open spec fn lets_others_in(mode: u32) -> bool {
    mode & 0o077 != 0
}

/// The `W-SEC-028` line to print when the config file an inference credential was just read from
/// grants any group or other bit. Never a refusal, and never names the value.
pub fn warn_on_wide_credential_file(path: &str, name: &str, mode: u32) -> (r: Option<String>)
    ensures
        text::opt_text(r) == (if lets_others_in(mode) {
            Some(credential_warning(path@, name@, mode))
        } else {
            None
        }),
        r is Some <==> mode & 0o077 != 0,
{
    if mode & 0o077 == 0 {
        return None;
    }
    let mut out = text::cat7(
        "[capsule-runtime] warning[",
        diagnostics::W_SEC_028,
        "]: the inference credential credentials.",
        name,
        " is read from ",
        path,
        ", which is mode ",
    );
    out.append(octal4_of(mode & 0o777).as_str());
    out.append(" and readable by other accounts on this host; run `chmod 600 ");
    out.append(path);
    out.append("` (");
    out.append(diagnostics::security_warning_link(diagnostics::W_SEC_028).as_str());
    out.append(")");
    Some(out)
}

// ── Laws ─────────────────────────────────────────────────────────────────────

/// A directory is wide exactly when a group or other bit is set, and a file also when its owner
/// may execute it.
pub proof fn wide_means_readable_by_others(mode: u32)
    ensures
        wider(mode, MURMUR_HOME_DIR_MODE) <==> lets_others_in(mode),
        wider(mode, PRIVATE_FILE_MODE) <==> mode & 0o177 != 0,
        lets_others_in(mode) ==> wider(mode, PRIVATE_FILE_MODE),
{
    assert(((mode & 0o777) & !0o700u32 != 0) <==> (mode & 0o077 != 0)) by (bit_vector);
    assert(((mode & 0o777) & !0o600u32 != 0) <==> (mode & 0o177 != 0)) by (bit_vector);
    assert((mode & 0o077 != 0) ==> (mode & 0o177 != 0)) by (bit_vector);
}

/// Holding an existing home takes every group and other bit from it, adds none, and leaves the
/// owner's bits as they were.
pub proof fn a_held_home_only_narrows(home: Seq<char>, mode: u32)
    ensures
        match home_step(home, HomeProbe::Directory { mode }) {
            Ok(HomeStep::Keep) => !wider(mode, MURMUR_HOME_DIR_MODE),
            Ok(HomeStep::SetMode { mode: narrowed }) => {
                &&& !wider(narrowed, MURMUR_HOME_DIR_MODE)
                &&& narrowed & 0o700 == mode & 0o700
                &&& !wider(narrowed, mode)
            },
            _ => false,
        },
{
    assert((mode & 0o777 == (mode & 0o777) & 0o700) ==> ((mode & 0o777) & !0o700u32 == 0))
        by (bit_vector);
    assert(((((mode & 0o777) & 0o700) & 0o777) & !0o700u32) == 0) by (bit_vector);
    assert(((mode & 0o777) & 0o700) & 0o700 == mode & 0o700) by (bit_vector);
    assert(((((mode & 0o777) & 0o700) & 0o777) & !mode) == 0) by (bit_vector);
}

/// What is written is never readable at a wider mode: the mode is set before the contents are
/// written and before anything is renamed over the target.
pub proof fn contents_are_never_wide(target: Seq<char>, contents: Seq<u8>, i: int)
    requires
        0 <= i < private_file_steps(target, contents).len(),
        private_file_steps(target, contents)[i] is Write || private_file_steps(
            target,
            contents,
        )[i] is Rename,
    ensures
        exists|j: int|
            0 <= j < i && #[trigger] private_file_steps(target, contents)[j]
                == (PrivateStepView::SetMode { mode: PRIVATE_FILE_MODE }),
{
    assert(private_file_steps(target, contents)[1] == (PrivateStepView::SetMode {
        mode: PRIVATE_FILE_MODE,
    }));
}

/// Every kind of entry is reported once and in its place, whatever the home holds, and each name
/// the home lists that no kind has is reported behind them.
pub proof fn every_entry_is_reported(
    home: Seq<char>,
    at_home: EntryProbe,
    probes: Seq<NamedProbe>,
    listed: Seq<Seq<char>>,
)
    ensures
        forall|k: int|
            0 <= k <= KNOWN_KINDS ==> (#[trigger] audit(home, at_home, probes, listed)[k]).kind
                == (KindView { rank: k as nat, name: known_name(k as nat) }),
        forall|name: Seq<char>| #[trigger]
            listed.contains(name) && !is_known_name(name) ==> exists|k: int|
                KNOWN_KINDS < k < audit(home, at_home, probes, listed).len() && (
                #[trigger] audit(home, at_home, probes, listed)[k]).kind.name == name,
{
    let reports = audit(home, at_home, probes, listed);
    let sorted = text::ordered(others(listed));
    text::ordered_is_sorted_permutation(others(listed));
    assert(sorted.len() == others(listed).len()) by {
        assert(sorted.to_multiset() == others(listed).to_multiset());
        sorted.to_multiset_ensures();
        others(listed).to_multiset_ensures();
    }
    assert forall|name: Seq<char>| #[trigger]
        listed.contains(name) && !is_known_name(name) implies exists|k: int|
        KNOWN_KINDS < k < reports.len() && (#[trigger] reports[k]).kind.name == name by {
        lemma_others(listed, name);
        sorted.to_multiset_ensures();
        others(listed).to_multiset_ensures();
        assert(others(listed).to_multiset().count(name) > 0);
        assert(sorted.contains(name));
        let i = choose|i: int| 0 <= i < sorted.len() && sorted[i] == name;
        assert(reports[i + KNOWN_KINDS + 1].kind.name == name);
    }
}

proof fn lemma_others(listed: Seq<Seq<char>>, name: Seq<char>)
    requires
        listed.contains(name),
        !is_known_name(name),
    ensures
        others(listed).contains(name),
    decreases listed.len(),
{
    let i = choose|i: int| 0 <= i < listed.len() && listed[i] == name;
    let front = others(listed.drop_last());
    if i == listed.len() - 1 {
        assert(others(listed)[front.len() as int] == name);
    } else {
        assert(listed.drop_last()[i] == name);
        lemma_others(listed.drop_last(), name);
        let k = choose|k: int| 0 <= k < front.len() && front[k] == name;
        assert(others(listed)[k] == name);
    }
}

/// An entry that is not expected to be private is never flagged, neither itself nor beneath.
pub proof fn what_is_not_private_is_never_flagged(
    path: Seq<char>,
    kind: KindView,
    found: EntryProbe,
)
    requires
        !private_kind(kind),
    ensures
        match state_of(path, kind, found) {
            StateView::Present { mode: _, wide, wide_descendants, omitted } => {
                !wide && wide_descendants.len() == 0 && omitted == 0
            },
            _ => true,
        },
{
}

/// Every path a report lists beneath an entry is wider than its type allows, as is every path it
/// leaves out and counts, and nothing is lost between the two.
pub proof fn only_wide_paths_are_listed(path: Seq<char>, kind: KindView, node: HomeNode)
    ensures
        forall|k: int|
            0 <= k < walked(path, kind, node).len() ==> is_wide(
                #[trigger] walked(path, kind, node)[k],
            ),
        capped(walked(path, kind, node)).len() + beyond(walked(path, kind, node)) == walked(
            path,
            kind,
            node,
        ).len(),
{
    lemma_listed_are_wide(path, node.children@, text::ordered(names(node.children@)));
}

/// Whether a listed path is a directory or a file wider than one may be.
pub open spec fn is_wide(w: WideView) -> bool {
    wider(w.mode, w.allowed) && (w.allowed == MURMUR_HOME_DIR_MODE || w.allowed
        == PRIVATE_FILE_MODE)
}

proof fn lemma_are_wide(path: Seq<char>, node: HomeNode)
    ensures
        forall|k: int|
            0 <= k < wide_at(path, node).len() ==> is_wide(#[trigger] wide_at(path, node)[k]),
    decreases node, 0nat,
{
    let all = wide_at(path, node);
    let bits = node.mode & 0o777;
    let here = if wider(bits, allowed_mode(node.node)) {
        seq![WideView { path, mode: bits, allowed: allowed_mode(node.node) }]
    } else {
        Seq::empty()
    };
    if node.node == NodeType::Directory {
        let listed = text::ordered(names(node.children@));
        let below = wide_listed(path, node.children@, listed);
        lemma_listed_are_wide(path, node.children@, listed);
        assert(all == here + below);
        assert forall|k: int| 0 <= k < all.len() implies is_wide(#[trigger] all[k]) by {
            if k >= here.len() {
                assert(all[k] == below[k - here.len()]);
            }
        }
    } else if node.node == NodeType::File {
        assert(all == here);
    }
}

proof fn lemma_listed_are_wide(dir: Seq<char>, children: Seq<HomeNode>, listed: Seq<Seq<char>>)
    ensures
        forall|k: int|
            0 <= k < wide_listed(dir, children, listed).len() ==> is_wide(
                #[trigger] wide_listed(dir, children, listed)[k],
            ),
    decreases children, listed.len(),
{
    if listed.len() > 0 {
        let all = wide_listed(dir, children, listed);
        let before = wide_listed(dir, children, listed.drop_last());
        lemma_listed_are_wide(dir, children, listed.drop_last());
        match place(children, listed.last()) {
            Some(i) => {
                if 0 <= i < children.len() {
                    let more = wide_at(inside(dir, listed.last()), children[i]);
                    lemma_are_wide(inside(dir, listed.last()), children[i]);
                    assert(all == before + more);
                    assert forall|k: int| 0 <= k < all.len() implies is_wide(
                        #[trigger] all[k],
                    ) by {
                        if k >= before.len() {
                            assert(all[k] == more[k - before.len()]);
                        } else {
                            assert(all[k] == before[k]);
                        }
                    }
                }
            },
            None => {},
        }
    }
}

/// Whatever is wide at or beneath a child of a directory is among what is wide beneath the
/// directory.
pub proof fn nothing_wide_is_missed(dir: Seq<char>, node: HomeNode, i: int, w: WideView)
    requires
        0 <= i < node.children@.len(),
        forall|j: int|
            0 <= j < i ==> (#[trigger] node.children@[j]).name@ != node.children@[i].name@,
        wide_at(inside(dir, node.children@[i].name@), node.children@[i]).contains(w),
    ensures
        wide_below(dir, node).contains(w),
{
    let children = node.children@;
    let name = children[i].name@;
    let listed = text::ordered(names(children));
    lemma_place(children, i);
    text::ordered_is_sorted_permutation(names(children));
    assert(names(children)[i] == name);
    assert(listed.contains(name)) by {
        listed.to_multiset_ensures();
        names(children).to_multiset_ensures();
        assert(names(children).contains(name));
        assert(names(children).to_multiset().count(name) > 0);
    }
    lemma_listed_holds(dir, children, listed, i, w);
}

proof fn lemma_place(children: Seq<HomeNode>, i: int)
    requires
        0 <= i < children.len(),
        forall|j: int| 0 <= j < i ==> (#[trigger] children[j]).name@ != children[i].name@,
    ensures
        place(children, children[i].name@) == Some(i),
    decreases children.len(),
{
    let front = children.drop_last();
    if i < children.len() - 1 {
        assert(front[i] == children[i]);
        assert forall|j: int| 0 <= j < i implies (#[trigger] front[j]).name@ != front[i].name@ by {
            assert(front[j] == children[j]);
        }
        lemma_place(front, i);
    } else {
        lemma_no_place(front, children[i].name@);
    }
}

proof fn lemma_no_place(children: Seq<HomeNode>, name: Seq<char>)
    requires
        forall|j: int| 0 <= j < children.len() ==> (#[trigger] children[j]).name@ != name,
    ensures
        place(children, name) is None,
    decreases children.len(),
{
    if children.len() > 0 {
        let front = children.drop_last();
        assert forall|j: int| 0 <= j < front.len() implies (#[trigger] front[j]).name@ != name by {
            assert(front[j] == children[j]);
        }
        lemma_no_place(front, name);
        assert(children[children.len() - 1].name@ != name);
    }
}

proof fn lemma_listed_holds(
    dir: Seq<char>,
    children: Seq<HomeNode>,
    listed: Seq<Seq<char>>,
    i: int,
    w: WideView,
)
    requires
        0 <= i < children.len(),
        place(children, children[i].name@) == Some(i),
        listed.contains(children[i].name@),
        wide_at(inside(dir, children[i].name@), children[i]).contains(w),
    ensures
        wide_listed(dir, children, listed).contains(w),
    decreases listed.len(),
{
    let name = children[i].name@;
    let front = listed.drop_last();
    let before = wide_listed(dir, children, front);
    let all = wide_listed(dir, children, listed);
    if listed.last() == name {
        let more = wide_at(inside(dir, name), children[i]);
        assert(all == before + more);
        let k = choose|k: int| 0 <= k < more.len() && more[k] == w;
        assert(all[before.len() + k] == w);
    } else {
        let k = choose|k: int| 0 <= k < listed.len() && listed[k] == name;
        assert(front[k] == name);
        lemma_listed_holds(dir, children, front, i, w);
        let k = choose|k: int| 0 <= k < before.len() && before[k] == w;
        assert(all[k] == w);
    }
}

/// A directory or a file with a bit too many is wide itself, and a symlink is neither wide nor
/// followed.
pub proof fn a_wide_path_is_found(path: Seq<char>, node: HomeNode)
    ensures
        node.node is Directory && node.mode & 0o077 != 0 ==> wide_at(path, node).contains(
            WideView { path, mode: node.mode & 0o777, allowed: 0o700 },
        ),
        node.node is File && node.mode & 0o177 != 0 ==> wide_at(path, node).contains(
            WideView { path, mode: node.mode & 0o777, allowed: 0o600 },
        ),
        node.node is Symlink ==> wide_at(path, node).len() == 0,
{
    let m = node.mode;
    wide_means_readable_by_others(m & 0o777);
    assert((m & 0o777) & 0o077 == m & 0o077) by (bit_vector);
    assert((m & 0o777) & 0o177 == m & 0o177) by (bit_vector);
    assert((m & 0o777) & 0o777 == m & 0o777) by (bit_vector);
    if node.node is Directory && m & 0o077 != 0 {
        assert(wide_at(path, node)[0] == (WideView { path, mode: m & 0o777, allowed: 0o700 }));
    }
    if node.node is File && m & 0o177 != 0 {
        assert(wide_at(path, node)[0] == (WideView { path, mode: m & 0o777, allowed: 0o600 }));
    }
}

/// The first probe of a name says what was found there, and a name without one is absent.
pub proof fn the_first_probe_of_a_name_counts(probes: Seq<NamedProbe>, i: int, name: Seq<char>)
    ensures
        0 <= i < probes.len() && probes[i].name@ == name && (forall|j: int|
            0 <= j < i ==> (#[trigger] probes[j]).name@ != name) ==> probed(probes, name)
            == probes[i].found,
        (forall|j: int| 0 <= j < probes.len() ==> (#[trigger] probes[j]).name@ != name) ==> probed(
            probes,
            name,
        ) is Absent,
    decreases probes.len(),
{
    if probes.len() > 0 {
        let rest = probes.drop_first();
        the_first_probe_of_a_name_counts(rest, i - 1, name);
        assert(forall|j: int| 0 <= j < rest.len() ==> rest[j] == probes[j + 1]);
        if 0 < i < probes.len() && probes[i].name@ == name && (forall|j: int|
            0 <= j < i ==> (#[trigger] probes[j]).name@ != name) {
            assert(probes[0].name@ != name);
            assert(rest[i - 1] == probes[i]);
        }
        if forall|j: int| 0 <= j < probes.len() ==> (#[trigger] probes[j]).name@ != name {
            assert(probes[0].name@ != name);
        }
    }
}

/// The number that octal digits write.
pub open spec fn octal_value(s: Seq<char>) -> nat
    decreases s.len(),
{
    if s.len() == 0 {
        0
    } else {
        octal_value(s.drop_last()) * 8 + (s.last() as nat - '0' as nat) as nat
    }
}

/// A mode reads back from the digits it is written with, and there are four of them at least.
pub proof fn octal_digits_read_back(n: nat)
    ensures
        octal_value(octal(n)) == n,
        octal_value(octal4(n)) == n,
        octal4(n).len() >= 4,
    decreases n,
{
    reveal_strlit("0");
    reveal_strlit("00");
    reveal_strlit("000");
    if n >= 8 {
        octal_digits_read_back(n / 8);
        assert(octal(n).drop_last() =~= octal(n / 8));
        assert(text::digit(n % 8) as nat == 48 + n % 8);
    } else {
        assert(octal(n).drop_last() =~= Seq::empty());
        assert(octal_value(octal(n).drop_last()) == 0);
        assert(text::digit(n) as nat == 48 + n);
    }
    assert('0' as nat == 48);
    lemma_octal_len(n);
    lemma_leading_zeros("0"@, octal(n));
    lemma_leading_zeros("00"@, octal(n));
    lemma_leading_zeros("000"@, octal(n));
}

proof fn lemma_octal_len(n: nat)
    ensures
        octal(n).len() >= 1,
        n >= 8 ==> octal(n).len() >= 2,
        n >= 64 ==> octal(n).len() >= 3,
        n >= 512 ==> octal(n).len() >= 4,
    decreases n,
{
    if n >= 8 {
        lemma_octal_len(n / 8);
    }
}

proof fn lemma_leading_zeros(zeros: Seq<char>, s: Seq<char>)
    requires
        forall|i: int| 0 <= i < zeros.len() ==> zeros[i] == '0',
    ensures
        octal_value(zeros + s) == octal_value(s),
    decreases zeros.len() + s.len(),
{
    if s.len() > 0 {
        lemma_leading_zeros(zeros, s.drop_last());
        assert((zeros + s).drop_last() =~= zeros + s.drop_last());
    } else {
        assert(zeros + s =~= zeros);
        if zeros.len() > 0 {
            let none = Seq::<char>::empty();
            lemma_leading_zeros(zeros.drop_last(), none);
            assert(zeros.drop_last() + none =~= zeros.drop_last());
        }
    }
}

/// The entries that this build does not recognise are reported in the order of their names, behind
/// those that it does.
pub proof fn unrecognised_entries_come_in_order(
    home: Seq<char>,
    at_home: EntryProbe,
    probes: Seq<NamedProbe>,
    listed: Seq<Seq<char>>,
    i: int,
    j: int,
)
    requires
        10 < i < j < audit(home, at_home, probes, listed).len(),
    ensures
        !text::less(
            audit(home, at_home, probes, listed)[j].kind.name,
            audit(home, at_home, probes, listed)[i].kind.name,
        ),
{
    let names = text::ordered(others(listed));
    text::ordered_is_sorted_permutation(others(listed));
    let all = audit(home, at_home, probes, listed);
    assert(all[i].kind.name == names[i - 11]);
    assert(all[j].kind.name == names[j - 11]);
}

} // verus!
