//! Slash-separated paths as plain data: their components, and the ways the runtime moves between
//! them. Nothing here touches a filesystem; what a filesystem says is handed in as a table.

use crate::text;
use vstd::prelude::*;

verus! {

/// What a path starts with, ahead of its named components.
#[derive(Debug, Clone, Copy, PartialEq, Eq, Structural)]
pub enum Lead {
    /// `/`: the path is absolute.
    Root,
    /// A leading `.`.
    Here,
    /// Nothing.
    Bare,
}

/// A path: what it starts with and its named components, `..` among them.
#[derive(Debug, PartialEq, Eq)]
pub struct PlainPath {
    pub lead: Lead,
    pub parts: Vec<String>,
}

/// What a [`PlainPath`] stands for.
#[verifier::ext_equal]
pub struct PathView {
    pub lead: Lead,
    pub parts: Seq<Seq<char>>,
}

impl View for PlainPath {
    type V = PathView;

    open spec fn view(&self) -> PathView {
        PathView { lead: self.lead, parts: text::texts(self.parts@) }
    }
}

/// The pieces that name something: neither empty nor `.`.
pub open spec fn kept(pieces: Seq<Seq<char>>) -> Seq<Seq<char>>
    decreases pieces.len(),
{
    if pieces.len() == 0 {
        Seq::empty()
    } else if pieces.last() == ""@ || pieces.last() == "."@ {
        kept(pieces.drop_last())
    } else {
        kept(pieces.drop_last()).push(pieces.last())
    }
}

/// The path a text writes.
pub open spec fn path_of(s: Seq<char>) -> PathView {
    let pieces = text::split_on(s, '/');
    PathView {
        lead: if text::begins(s, '/') {
            Lead::Root
        } else if pieces[0] == "."@ {
            Lead::Here
        } else {
            Lead::Bare
        },
        parts: kept(pieces),
    }
}

/// The text of a path.
pub open spec fn text_of_path(p: PathView) -> Seq<char> {
    let rest = text::join(p.parts, "/"@);
    match p.lead {
        Lead::Root => "/"@ + rest,
        Lead::Bare => rest,
        Lead::Here => if p.parts.len() == 0 {
            "."@
        } else {
            "./"@ + rest
        },
    }
}

/// The components with each `..` applied to what stands before it; nothing when one of them has
/// nothing to undo.
pub open spec fn settled(parts: Seq<Seq<char>>) -> Option<Seq<Seq<char>>>
    decreases parts.len(),
{
    if parts.len() == 0 {
        Some(Seq::empty())
    } else {
        match settled(parts.drop_last()) {
            None => None,
            Some(before) => if parts.last() != ".."@ {
                Some(before.push(parts.last()))
            } else if before.len() == 0 {
                None
            } else {
                Some(before.drop_last())
            },
        }
    }
}

/// The components with each `..` applied to what stands before it, and dropped when nothing does.
pub open spec fn clamped(parts: Seq<Seq<char>>) -> Seq<Seq<char>>
    decreases parts.len(),
{
    if parts.len() == 0 {
        Seq::empty()
    } else {
        let before = clamped(parts.drop_last());
        if parts.last() != ".."@ {
            before.push(parts.last())
        } else if before.len() == 0 {
            before
        } else {
            before.drop_last()
        }
    }
}

/// A path with `.` dropped and each `..` applied.
pub open spec fn normal(p: PathView) -> PathView {
    PathView {
        lead: if p.lead == Lead::Root {
            Lead::Root
        } else {
            Lead::Bare
        },
        parts: clamped(p.parts),
    }
}

/// What is left of `p` below `base`, component by component; nothing when `p` is not below it.
pub open spec fn below(p: PathView, base: PathView) -> Option<PathView> {
    if base.lead == Lead::Bare && base.parts.len() == 0 {
        Some(p)
    } else if base.lead == p.lead && base.parts.is_prefix_of(p.parts) {
        Some(PathView { lead: Lead::Bare, parts: p.parts.skip(base.parts.len() as int) })
    } else {
        None
    }
}

/// `b` taken from inside `a`: an absolute `b` is itself.
pub open spec fn join(a: PathView, b: PathView) -> PathView {
    if b.lead == Lead::Root || (a.lead == Lead::Bare && a.parts.len() == 0) {
        b
    } else {
        PathView { lead: a.lead, parts: a.parts + b.parts }
    }
}

/// The last named component, when the path ends in one that is not `..`.
pub open spec fn file_name(p: PathView) -> Option<Seq<char>> {
    if p.parts.len() == 0 || p.parts.last() == ".."@ {
        None
    } else {
        Some(p.parts.last())
    }
}

/// The file name of the path a text writes, and the text itself when it has none.
pub open spec fn base_name_of(s: Seq<char>) -> Seq<char> {
    match file_name(path_of(s)) {
        Some(name) => name,
        None => s,
    }
}

/// What an optional path stands for.
pub open spec fn opt_path(o: Option<PlainPath>) -> Option<PathView> {
    match o {
        Some(p) => Some(p@),
        None => None,
    }
}

/// What an optional list of texts stands for.
pub open spec fn opt_texts(o: Option<Vec<String>>) -> Option<Seq<Seq<char>>> {
    match o {
        Some(v) => Some(text::texts(v@)),
        None => None,
    }
}

/// The path a text writes.
pub fn parse(s: &str) -> (r: PlainPath)
    ensures
        r@ == path_of(s@),
{
    let pieces = text::split_pieces(s, '/');
    let ghost all = text::texts(pieces@);
    proof {
        assert(all.len() > 0);
        assert(all[0] == pieces@[0]@);
    }
    let lead = if text::begins_with(s, '/') {
        Lead::Root
    } else if text::same(pieces[0].as_str(), ".") {
        Lead::Here
    } else {
        Lead::Bare
    };
    let mut parts: Vec<String> = Vec::new();
    let mut i: usize = 0;
    proof {
        assert(text::texts(parts@) =~= kept(all.take(0)));
    }
    while i < pieces.len()
        invariant
            i <= pieces@.len(),
            all == text::texts(pieces@),
            text::texts(parts@) == kept(all.take(i as int)),
        decreases pieces@.len() - i,
    {
        proof {
            assert(all.take(i + 1).drop_last() =~= all.take(i as int));
            assert(all.take(i + 1).last() == pieces@[i as int]@);
        }
        let piece = pieces[i].as_str();
        if !text::same(piece, "") && !text::same(piece, ".") {
            let ghost before = parts@;
            parts.push(piece.to_owned());
            proof {
                assert(text::texts(parts@) =~= text::texts(before).push(pieces@[i as int]@));
            }
        }
        i += 1;
    }
    proof {
        assert(all.take(all.len() as int) =~= all);
    }
    PlainPath { lead, parts }
}

/// The text of a path.
pub fn write(p: &PlainPath) -> (r: String)
    ensures
        r@ == text_of_path(p@),
{
    let rest = text::joined(p.parts.as_slice(), "/");
    match p.lead {
        Lead::Root => text::cat2("/", rest.as_str()),
        Lead::Bare => rest,
        Lead::Here => if p.parts.len() == 0 {
            ".".to_owned()
        } else {
            text::cat2("./", rest.as_str())
        },
    }
}

/// The components with each `..` applied, or `None` when one has nothing to undo.
pub fn settle(parts: &[String]) -> (r: Option<Vec<String>>)
    ensures
        opt_texts(r) == settled(text::texts(parts@)),
{
    let ghost all = text::texts(parts@);
    let mut out: Vec<String> = Vec::new();
    let mut i: usize = 0;
    proof {
        assert(text::texts(out@) =~= Seq::<Seq<char>>::empty());
        assert(all.take(0).len() == 0);
    }
    while i < parts.len()
        invariant
            i <= parts@.len(),
            all == text::texts(parts@),
            settled(all.take(i as int)) == Some(text::texts(out@)),
        decreases parts@.len() - i,
    {
        proof {
            assert(all.take(i + 1).drop_last() =~= all.take(i as int));
            assert(all.take(i + 1).last() == parts@[i as int]@);
        }
        let ghost before = out@;
        if !text::same(parts[i].as_str(), "..") {
            out.push(parts[i].clone());
            proof {
                assert(text::texts(out@) =~= text::texts(before).push(parts@[i as int]@));
            }
        } else if out.len() == 0 {
            proof {
                assert(settled(all.take(i + 1)) is None);
                lemma_unsettled(all, i + 1);
            }
            return None;
        } else {
            out.pop();
            proof {
                assert(text::texts(out@) =~= text::texts(before).drop_last());
            }
        }
        i += 1;
    }
    proof {
        assert(all.take(all.len() as int) =~= all);
    }
    Some(out)
}

/// What does not settle does not settle later either.
proof fn lemma_unsettled(parts: Seq<Seq<char>>, n: int)
    requires
        0 <= n <= parts.len(),
        settled(parts.take(n)) is None,
    ensures
        settled(parts) is None,
    decreases parts.len() - n,
{
    if n < parts.len() {
        assert(parts.take(n + 1).drop_last() =~= parts.take(n));
        lemma_unsettled(parts, n + 1);
    } else {
        assert(parts.take(n) =~= parts);
    }
}

/// A path with `.` dropped and each `..` applied.
pub fn normalize(p: &PlainPath) -> (r: PlainPath)
    ensures
        r@ == normal(p@),
{
    let ghost all = text::texts(p.parts@);
    let mut out: Vec<String> = Vec::new();
    let mut i: usize = 0;
    proof {
        assert(text::texts(out@) =~= Seq::<Seq<char>>::empty());
        assert(all.take(0).len() == 0);
    }
    while i < p.parts.len()
        invariant
            i <= p.parts@.len(),
            all == text::texts(p.parts@),
            clamped(all.take(i as int)) == text::texts(out@),
        decreases p.parts@.len() - i,
    {
        proof {
            assert(all.take(i + 1).drop_last() =~= all.take(i as int));
            assert(all.take(i + 1).last() == p.parts@[i as int]@);
        }
        let ghost before = out@;
        if !text::same(p.parts[i].as_str(), "..") {
            out.push(p.parts[i].clone());
            proof {
                assert(text::texts(out@) =~= text::texts(before).push(p.parts@[i as int]@));
            }
        } else if out.len() > 0 {
            out.pop();
            proof {
                assert(text::texts(out@) =~= text::texts(before).drop_last());
            }
        }
        i += 1;
    }
    proof {
        assert(all.take(all.len() as int) =~= all);
    }
    let lead = match p.lead {
        Lead::Root => Lead::Root,
        _ => Lead::Bare,
    };
    PlainPath { lead, parts: out }
}

/// Whether the components `prefix` stand at the front of `parts`.
pub fn leads(prefix: &[String], parts: &[String]) -> (r: bool)
    ensures
        r == text::texts(prefix@).is_prefix_of(text::texts(parts@)),
{
    let ghost a = text::texts(prefix@);
    let ghost b = text::texts(parts@);
    if prefix.len() > parts.len() {
        return false;
    }
    let mut i: usize = 0;
    while i < prefix.len()
        invariant
            i <= prefix@.len() <= parts@.len(),
            a == text::texts(prefix@),
            b == text::texts(parts@),
            a.take(i as int) == b.take(i as int),
        decreases prefix@.len() - i,
    {
        if !text::same(prefix[i].as_str(), parts[i].as_str()) {
            proof {
                assert(a[i as int] != b[i as int]);
            }
            return false;
        }
        proof {
            assert(a.take(i + 1) =~= a.take(i as int).push(a[i as int]));
            assert(b.take(i + 1) =~= b.take(i as int).push(b[i as int]));
        }
        i += 1;
    }
    proof {
        assert(a.take(a.len() as int) =~= a);
    }
    true
}

/// The components from `from` on.
pub fn tail(parts: &[String], from: usize) -> (r: Vec<String>)
    requires
        from <= parts@.len(),
    ensures
        text::texts(r@) == text::texts(parts@).skip(from as int),
{
    let mut out: Vec<String> = Vec::new();
    let mut i: usize = from;
    while i < parts.len()
        invariant
            from <= i <= parts@.len(),
            out@.len() == i - from,
            forall|j: int| 0 <= j < out@.len() ==> (#[trigger] out@[j])@ == parts@[from + j]@,
        decreases parts@.len() - i,
    {
        out.push(parts[i].clone());
        i += 1;
    }
    proof {
        assert(text::texts(out@) =~= text::texts(parts@).skip(from as int));
    }
    out
}

/// The first `to` components.
pub fn head(parts: &[String], to: usize) -> (r: Vec<String>)
    requires
        to <= parts@.len(),
    ensures
        text::texts(r@) == text::texts(parts@).take(to as int),
{
    let mut out: Vec<String> = Vec::new();
    let mut i: usize = 0;
    while i < to
        invariant
            i <= to <= parts@.len(),
            out@.len() == i,
            forall|j: int| 0 <= j < out@.len() ==> (#[trigger] out@[j])@ == parts@[j]@,
        decreases to - i,
    {
        out.push(parts[i].clone());
        i += 1;
    }
    proof {
        assert(text::texts(out@) =~= text::texts(parts@).take(to as int));
    }
    out
}

/// A copy of a path.
pub fn clone_path(p: &PlainPath) -> (r: PlainPath)
    ensures
        r@ == p@,
{
    PlainPath { lead: p.lead, parts: text::clone_texts(p.parts.as_slice()) }
}

/// What is left of `p` below `base`.
pub fn strip(p: &PlainPath, base: &PlainPath) -> (r: Option<PlainPath>)
    ensures
        opt_path(r) == below(p@, base@),
{
    if base.lead == Lead::Bare && base.parts.len() == 0 {
        Some(clone_path(p))
    } else if base.lead == p.lead && leads(base.parts.as_slice(), p.parts.as_slice()) {
        Some(
            PlainPath {
                lead: Lead::Bare,
                parts: tail(p.parts.as_slice(), base.parts.len()),
            },
        )
    } else {
        None
    }
}

/// Whether the two paths are the same, component by component.
pub fn same(a: &PlainPath, b: &PlainPath) -> (r: bool)
    ensures
        r == (a@ == b@),
{
    let r = a.lead == b.lead && a.parts.len() == b.parts.len() && leads(
        a.parts.as_slice(),
        b.parts.as_slice(),
    );
    proof {
        if r {
            assert(a@.parts =~= b@.parts);
        } else if a@ == b@ {
            assert(a@.parts.len() == a.parts@.len());
            assert(b@.parts.len() == b.parts@.len());
            assert(a@.parts.is_prefix_of(b@.parts));
        }
    }
    r
}

/// `b` taken from inside `a`.
pub fn joined(a: &PlainPath, b: &PlainPath) -> (r: PlainPath)
    ensures
        r@ == join(a@, b@),
{
    if b.lead == Lead::Root || (a.lead == Lead::Bare && a.parts.len() == 0) {
        return clone_path(b);
    }
    let mut parts = text::clone_texts(a.parts.as_slice());
    let mut more = text::clone_texts(b.parts.as_slice());
    let ghost front = parts@;
    let ghost back = more@;
    parts.append(&mut more);
    proof {
        assert(text::texts(parts@) =~= text::texts(front) + text::texts(back));
    }
    PlainPath { lead: a.lead, parts }
}

/// The file name of the path a text writes.
pub fn file_name_of(s: &str) -> (r: Option<String>)
    ensures
        text::opt_text(r) == file_name(path_of(s@)),
{
    let p = parse(s);
    let count: usize = p.parts.len();
    if count == 0 {
        return None;
    }
    proof {
        assert(p@.parts.last() == p.parts@[count - 1]@);
    }
    if text::same(p.parts[count - 1].as_str(), "..") {
        None
    } else {
        Some(p.parts[count - 1].clone())
    }
}

/// The file name of the path a text writes, and the text itself when it has none.
pub fn base_name(s: &str) -> (r: String)
    ensures
        r@ == base_name_of(s@),
{
    match file_name_of(s) {
        Some(name) => name,
        None => s.to_owned(),
    }
}

/// The directory a path stands in; the root for the root itself.
pub open spec fn parent(p: PathView) -> PathView {
    if p.parts.len() == 0 {
        PathView { lead: Lead::Root, parts: Seq::empty() }
    } else {
        PathView { lead: p.lead, parts: p.parts.drop_last() }
    }
}

/// The directory a path stands in.
pub fn parent_of(p: &PlainPath) -> (r: PlainPath)
    ensures
        r@ == parent(p@),
{
    let count: usize = p.parts.len();
    if count == 0 {
        let r = PlainPath { lead: Lead::Root, parts: Vec::new() };
        proof {
            assert(r@.parts =~= Seq::<Seq<char>>::empty());
        }
        return r;
    }
    let r = PlainPath { lead: p.lead, parts: head(p.parts.as_slice(), count - 1) };
    proof {
        assert(r@.parts =~= p@.parts.drop_last());
    }
    r
}

// ── What a filesystem answers ────────────────────────────────────────────────

/// The canonical form of each path that has one, as a filesystem answered. A path that is not
/// listed does not exist.
#[derive(Debug, PartialEq, Eq)]
pub struct RealPaths {
    pub answers: Vec<(String, String)>,
}

/// The texts of a list of answers.
pub open spec fn answer_views(answers: Seq<(String, String)>) -> Seq<(Seq<char>, Seq<char>)> {
    answers.map_values(|a: (String, String)| (a.0@, a.1@))
}

/// The first answer given for a path.
pub open spec fn answer(answers: Seq<(Seq<char>, Seq<char>)>, path: Seq<char>) -> Option<Seq<char>>
    decreases answers.len(),
{
    if answers.len() == 0 {
        None
    } else if answers[0].0 == path {
        Some(answers[0].1)
    } else {
        answer(answers.drop_first(), path)
    }
}

impl View for RealPaths {
    type V = Seq<(Seq<char>, Seq<char>)>;

    open spec fn view(&self) -> Seq<(Seq<char>, Seq<char>)> {
        answer_views(self.answers@)
    }
}

/// `p` with its first `kept` components replaced by their canonical form, for the largest `kept`
/// from `k` down that has one; `p` itself when none has. A `..` is never cut off.
pub open spec fn real_prefix(
    known: Seq<(Seq<char>, Seq<char>)>,
    p: PathView,
    k: int,
) -> PathView
    decreases k,
{
    let front = PathView { lead: p.lead, parts: p.parts.take(k) };
    match answer(known, text_of_path(front)) {
        Some(found) => join(
            path_of(found),
            PathView { lead: Lead::Bare, parts: p.parts.skip(k) },
        ),
        None => if k <= 0 || p.parts[k - 1] == ".."@ {
            p
        } else {
            real_prefix(known, p, k - 1)
        },
    }
}

impl RealPaths {
    /// The canonical form of a path, when it has one.
    pub fn lookup(&self, path: &str) -> (r: Option<String>)
        ensures
            text::opt_text(r) == answer(self@, path@),
    {
        let ghost all = self@;
        let mut i: usize = 0;
        proof {
            assert(all.skip(0) =~= all);
        }
        while i < self.answers.len()
            invariant
                i <= self.answers@.len(),
                all == self@,
                answer(all.skip(i as int), path@) == answer(all, path@),
            decreases self.answers@.len() - i,
        {
            proof {
                assert(all.skip(i as int)[0] == all[i as int]);
                assert(all.skip(i as int).drop_first() =~= all.skip(i + 1));
            }
            if text::same(self.answers[i].0.as_str(), path) {
                return Some(self.answers[i].1.clone());
            }
            i += 1;
        }
        None
    }

    /// `p` with its longest existing prefix in canonical form.
    pub fn canonicalize_existing_prefix(&self, p: &PlainPath) -> (r: PlainPath)
        ensures
            r@ == real_prefix(self@, p@, p@.parts.len() as int),
    {
        let ghost all = p@.parts;
        let mut k: usize = p.parts.len();
        while k > 0
            invariant
                k <= p.parts@.len(),
                all == p@.parts,
                real_prefix(self@, p@, k as int) == real_prefix(self@, p@, all.len() as int),
            decreases k,
        {
            let front = PlainPath { lead: p.lead, parts: head(p.parts.as_slice(), k) };
            if let Some(found) = self.lookup(write(&front).as_str()) {
                let rest = PlainPath { lead: Lead::Bare, parts: tail(p.parts.as_slice(), k) };
                return joined(&parse(found.as_str()), &rest);
            }
            proof {
                assert(all[k - 1] == p.parts@[k - 1]@);
            }
            if text::same(p.parts[k - 1].as_str(), "..") {
                return clone_path(p);
            }
            k -= 1;
        }
        let front = PlainPath { lead: p.lead, parts: head(p.parts.as_slice(), 0) };
        if let Some(found) = self.lookup(write(&front).as_str()) {
            let rest = PlainPath { lead: Lead::Bare, parts: tail(p.parts.as_slice(), 0) };
            return joined(&parse(found.as_str()), &rest);
        }
        clone_path(p)
    }
}

// ── Laws ─────────────────────────────────────────────────────────────────────

/// Being below is component-wise: a path is below itself, and whatever is taken from inside a base
/// is below that base.
pub proof fn what_is_joined_is_below(base: PathView, rest: PathView)
    requires
        rest.lead == Lead::Bare,
    ensures
        below(base, base) is Some,
        below(join(base, rest), base) == Some(rest),
{
    let whole = join(base, rest);
    assert(base.parts.is_prefix_of(base.parts));
    if base.lead == Lead::Bare && base.parts.len() == 0 {
    } else {
        assert(whole.parts.take(base.parts.len() as int) =~= base.parts);
        assert(base.parts.is_prefix_of(whole.parts)) by {
            assert(whole.parts.subrange(0, base.parts.len() as int) =~= base.parts);
        }
        assert(whole.parts.skip(base.parts.len() as int) =~= rest.parts);
    }
}

/// Settled components hold no `..`.
pub proof fn settled_components_go_down(parts: Seq<Seq<char>>)
    requires
        settled(parts) is Some,
    ensures
        forall|i: int|
            0 <= i < settled(parts)->0.len() ==> #[trigger] settled(parts)->0[i] != ".."@,
    decreases parts.len(),
{
    if parts.len() > 0 {
        settled_components_go_down(parts.drop_last());
    }
}

/// A slash parts two paths: the components of the whole are those of the one, then those of the
/// other. A plain name is one component, and an empty piece and a `.` are none.
pub proof fn a_slash_parts_components(a: Seq<char>, b: Seq<char>)
    ensures
        path_of(a + seq!['/'] + b).parts == path_of(a).parts + path_of(b).parts,
        a.len() > 0 ==> path_of(a + seq!['/'] + b).lead == path_of(a).lead,
        a.len() == 0 ==> path_of(a + seq!['/'] + b).lead == Lead::Root,
        a.len() > 0 && !a.contains('/') && a != "."@ ==> path_of(a) == (PathView {
            lead: Lead::Bare,
            parts: seq![a],
        }),
        path_of(""@) == (PathView { lead: Lead::Bare, parts: Seq::empty() }),
        path_of("."@) == (PathView { lead: Lead::Here, parts: Seq::empty() }),
{
    let s = a + seq!['/'] + b;
    text::splitting_cuts_at_every_one(a, '/', b);
    lemma_kept_adds_up(text::split_on(a, '/'), text::split_on(b, '/'));
    let none = Seq::<Seq<char>>::empty();
    reveal_strlit("");
    reveal_strlit(".");
    assert(""@ =~= Seq::empty());
    if a.len() > 0 {
        assert(s[0] == a[0]);
    } else {
        assert(s[0] == '/');
    }
    if a.len() > 0 && !a.contains('/') && a != "."@ {
        assert(a.contains(a[0]));
        assert(seq![a].drop_last() =~= none);
        assert(kept(none) =~= none);
        assert(kept(seq![a]) =~= seq![a]);
    }
    text::splitting_cuts_at_every_one(""@, '/', b);
    assert(!""@.contains('/'));
    assert(seq![""@].drop_last() =~= none);
    assert(kept(none) =~= none);
    assert(kept(seq![""@]) =~= none);
    text::splitting_cuts_at_every_one("."@, '/', b);
    assert(!"."@.contains('/'));
    assert(seq!["."@].drop_last() =~= none);
    assert(kept(seq!["."@]) =~= none);
}

proof fn lemma_kept_adds_up(a: Seq<Seq<char>>, b: Seq<Seq<char>>)
    ensures
        kept(a + b) == kept(a) + kept(b),
    decreases b.len(),
{
    if b.len() == 0 {
        assert(a + b =~= a);
        assert(kept(a) + kept(b) =~= kept(a));
    } else {
        lemma_kept_adds_up(a, b.drop_last());
        assert((a + b).drop_last() =~= a + b.drop_last());
        assert((a + b).last() == b.last());
        assert(kept(a + b) =~= kept(a) + kept(b));
    }
}

/// A name behind a slash is the file name, whatever stands in front of it.
pub proof fn the_last_component_is_the_file_name(dir: Seq<char>, name: Seq<char>)
    requires
        name.len() > 0,
        !name.contains('/'),
        name != "."@,
        name != ".."@,
    ensures
        file_name(path_of(dir + seq!['/'] + name)) == Some(name),
        file_name(path_of(name)) == Some(name),
        base_name_of(dir + seq!['/'] + name) == name,
{
    a_slash_parts_components(dir, name);
    a_slash_parts_components(name, name);
}

/// Going down and up again leads nowhere, and going up from the start is refused by one reading
/// and dropped by the other; where nothing goes above the start, the two agree.
pub proof fn down_and_up_leads_nowhere(parts: Seq<Seq<char>>, name: Seq<char>, rest: Seq<Seq<char>>)
    requires
        name != ".."@,
    ensures
        clamped(parts.push(name).push(".."@)) == clamped(parts),
        settled(parts.push(name).push(".."@)) == settled(parts),
        settled(seq![".."@] + rest) is None,
        clamped(seq![".."@]).len() == 0,
        settled(parts) is Some ==> settled(parts)->0 == clamped(parts),
        settled(parts.push(name)) is Some ==> settled(parts.push(name))->0 == settled(
            parts,
        )->0.push(name),
    decreases parts.len() + rest.len(),
{
    let down = parts.push(name);
    let up = down.push(".."@);
    assert(down.drop_last() =~= parts);
    assert(up.drop_last() =~= down);
    assert(clamped(down) == clamped(parts).push(name));
    assert(clamped(down).drop_last() =~= clamped(parts));
    if settled(parts) is Some {
        assert(settled(parts)->0.push(name).drop_last() =~= settled(parts)->0);
    }
    let none = Seq::<Seq<char>>::empty();
    assert(seq![".."@].drop_last() =~= none);
    assert(clamped(none) =~= none);
    assert(settled(none) == Some(none));
    let above = seq![".."@] + rest;
    if rest.len() == 0 {
        assert(above =~= seq![".."@]);
    } else {
        down_and_up_leads_nowhere(none, name, rest.drop_last());
        assert(above.drop_last() =~= seq![".."@] + rest.drop_last());
    }
    if parts.len() > 0 {
        down_and_up_leads_nowhere(parts.drop_last(), name, none);
    }
}

/// What is below a base is the base with the rest behind it, and nothing else is below it.
pub proof fn what_is_below_is_joined(p: PathView, base: PathView)
    ensures
        below(p, base) is Some ==> join(base, below(p, base)->0) == p,
        below(p, base) is None ==> forall|rest: PathView|
            rest.lead == Lead::Bare ==> #[trigger] join(base, rest) != p,
{
    if below(p, base) is Some {
        if base.lead == Lead::Bare && base.parts.len() == 0 {
        } else {
            let n = base.parts.len() as int;
            assert(p.parts.subrange(0, n) =~= base.parts);
            assert(p.parts =~= base.parts + p.parts.skip(n));
        }
    } else {
        assert forall|rest: PathView| rest.lead == Lead::Bare implies #[trigger] join(base, rest)
            != p by {
            what_is_joined_is_below(base, rest);
        }
    }
}

/// The first answer for a path counts, and a path without one has none.
pub proof fn the_first_answer_counts(
    answers: Seq<(Seq<char>, Seq<char>)>,
    i: int,
    path: Seq<char>,
)
    ensures
        0 <= i < answers.len() && answers[i].0 == path && (forall|j: int|
            0 <= j < i ==> (#[trigger] answers[j]).0 != path) ==> answer(answers, path) == Some(
            answers[i].1,
        ),
        (forall|j: int| 0 <= j < answers.len() ==> (#[trigger] answers[j]).0 != path) ==> answer(
            answers,
            path,
        ) is None,
    decreases answers.len(),
{
    if answers.len() > 0 {
        let rest = answers.drop_first();
        the_first_answer_counts(rest, i - 1, path);
        assert(forall|j: int| 0 <= j < rest.len() ==> rest[j] == answers[j + 1]);
        if 0 < i < answers.len() && answers[i].0 == path && (forall|j: int|
            0 <= j < i ==> (#[trigger] answers[j]).0 != path) {
            assert(answers[0].0 != path);
            assert(rest[i - 1] == answers[i]);
        }
        if forall|j: int| 0 <= j < answers.len() ==> (#[trigger] answers[j]).0 != path {
            assert(answers[0].0 != path);
        }
    }
}

/// The longest front of a path that is known is put in canonical form, and the rest stays behind
/// it as it was.
pub proof fn the_longest_known_front_counts(
    known: Seq<(Seq<char>, Seq<char>)>,
    p: PathView,
    k: int,
    n: int,
)
    requires
        0 <= k <= n <= p.parts.len(),
        answer(known, text_of_path(PathView { lead: p.lead, parts: p.parts.take(k) })) is Some,
        forall|m: int|
            k < m <= n ==> answer(
                known,
                #[trigger] text_of_path(PathView { lead: p.lead, parts: p.parts.take(m) }),
            ) is None && p.parts[m - 1] != ".."@,
    ensures
        real_prefix(known, p, n) == join(
            path_of(
                answer(
                    known,
                    text_of_path(PathView { lead: p.lead, parts: p.parts.take(k) }),
                )->0,
            ),
            PathView { lead: Lead::Bare, parts: p.parts.skip(k) },
        ),
    decreases n - k,
{
    if k < n {
        let front = text_of_path(PathView { lead: p.lead, parts: p.parts.take(n) });
        assert(answer(known, front) is None);
        the_longest_known_front_counts(known, p, k, n - 1);
    }
}

/// The parent of a path is the path without its last component; what has none lies in the root.
pub proof fn a_path_lies_in_its_parent(p: PathView)
    ensures
        p.parts.len() > 0 ==> p == (PathView {
            lead: parent(p).lead,
            parts: parent(p).parts.push(p.parts.last()),
        }),
        p.parts.len() == 0 ==> parent(p).lead is Root && parent(p).parts.len() == 0,
        normal(p).lead is Root <==> p.lead is Root,
        normal(p).lead !is Here,
{
    if p.parts.len() > 0 {
        assert(p.parts =~= p.parts.drop_last().push(p.parts.last()));
    }
}

/// A path that is written reads back.
pub proof fn a_written_path_reads_back(p: PathView)
    requires
        forall|i: int|
            0 <= i < p.parts.len() ==> (#[trigger] p.parts[i]).len() > 0 && !p.parts[i].contains(
                '/',
            ) && p.parts[i] != "."@,
    ensures
        path_of(text_of_path(p)) == p,
{
    let rest = text::join(p.parts, "/"@);
    lemma_joined_parts(p.parts);
    reveal_strlit("/");
    reveal_strlit("./");
    reveal_strlit(".");
    assert("/"@ =~= seq!['/']);
    assert("."@ =~= seq!['.']);
    match p.lead {
        Lead::Root => {
            a_slash_parts_components(Seq::empty(), rest);
            assert("/"@ + rest =~= Seq::<char>::empty() + seq!['/'] + rest);
            a_slash_parts_components(Seq::empty(), Seq::empty());
            reveal_strlit("");
            assert(""@ =~= Seq::<char>::empty());
            assert(path_of(text_of_path(p)).parts =~= p.parts);
        },
        Lead::Bare => {},
        Lead::Here => {
            a_slash_parts_components("."@, rest);
            if p.parts.len() > 0 {
                assert("./"@ + rest =~= "."@ + seq!['/'] + rest);
                assert(path_of(text_of_path(p)).parts =~= p.parts);
            }
        },
    }
}

proof fn lemma_joined_parts(parts: Seq<Seq<char>>)
    requires
        forall|i: int|
            0 <= i < parts.len() ==> (#[trigger] parts[i]).len() > 0 && !parts[i].contains('/')
                && parts[i] != "."@,
    ensures
        path_of(text::join(parts, "/"@)) == (PathView { lead: Lead::Bare, parts }),
        parts.len() > 0 ==> text::join(parts, "/"@).len() > 0,
    decreases parts.len(),
{
    reveal_strlit("/");
    assert("/"@ =~= seq!['/']);
    if parts.len() == 0 {
        reveal_strlit("");
        a_slash_parts_components(Seq::empty(), Seq::empty());
        assert(text::join(parts, "/"@) =~= ""@);
        assert(parts =~= Seq::<Seq<char>>::empty());
    } else if parts.len() == 1 {
        a_slash_parts_components(parts[0], Seq::empty());
        assert(parts =~= seq![parts[0]]);
    } else {
        let front = parts.drop_last();
        let last = parts.last();
        assert forall|i: int| 0 <= i < front.len() implies (#[trigger] front[i]).len() > 0
            && !front[i].contains('/') && front[i] != "."@ by {
            assert(front[i] == parts[i]);
        }
        assert(last == parts[parts.len() - 1]);
        lemma_joined_parts(front);
        let before = text::join(front, "/"@);
        assert(text::join(parts, "/"@) =~= before + seq!['/'] + last);
        a_slash_parts_components(before, last);
        a_slash_parts_components(last, Seq::empty());
        assert(parts =~= front + seq![last]);
    }
}

} // verus!
