//! What a tool's own input schema declares of the places in its input: which are filesystem
//! destinations, and which are containers the key-name heuristic leaves alone.

use crate::json;
use crate::json::{Json, JsonView};
use crate::text;
use vstd::prelude::*;

verus! {

/// One step into a JSON input.
#[derive(Debug, PartialEq, Eq)]
pub enum LocationStep {
    /// Into the value under a key of an object.
    Key(String),
    /// Into every element of an array.
    Element,
}

/// What a [`LocationStep`] stands for.
pub enum StepView {
    Key(Seq<char>),
    Element,
}

impl View for LocationStep {
    type V = StepView;

    open spec fn view(&self) -> StepView {
        match *self {
            LocationStep::Key(key) => StepView::Key(key@),
            LocationStep::Element => StepView::Element,
        }
    }
}

/// What a list of steps stands for.
pub open spec fn steps_view(steps: Seq<LocationStep>) -> Seq<StepView> {
    steps.map_values(|s: LocationStep| s@)
}

/// A place in a tool's input, from the root down.
#[derive(Debug, PartialEq, Eq)]
pub struct InputLocation {
    pub steps: Vec<LocationStep>,
}

impl View for InputLocation {
    type V = Seq<StepView>;

    open spec fn view(&self) -> Seq<StepView> {
        steps_view(self.steps@)
    }
}

/// What a list of places stands for.
pub open spec fn location_views(v: Seq<InputLocation>) -> Seq<Seq<StepView>> {
    v.map_values(|l: InputLocation| l@)
}

/// The texts that stand at a place of a value, in order.
pub open spec fn texts_at(steps: Seq<StepView>, v: JsonView) -> Seq<Seq<char>>
    decreases steps.len(), 0nat,
{
    if steps.len() == 0 {
        match v {
            JsonView::Text(s) => seq![s],
            _ => Seq::empty(),
        }
    } else {
        match steps[0] {
            StepView::Key(key) => match json::entry(v, key) {
                Some(e) => texts_at(steps.drop_first(), e),
                None => Seq::empty(),
            },
            StepView::Element => match v {
                JsonView::Array(items) => texts_at_each(steps.drop_first(), items),
                _ => Seq::empty(),
            },
        }
    }
}

/// The texts that stand at a place of each of a list of values, in order.
pub open spec fn texts_at_each(steps: Seq<StepView>, items: Seq<JsonView>) -> Seq<Seq<char>>
    decreases steps.len(), items.len(),
{
    if items.len() == 0 {
        Seq::empty()
    } else {
        texts_at_each(steps, items.drop_last()) + texts_at(steps, items.last())
    }
}

/// How a place is written: keys with a dot between them, `[]` behind what is an array.
pub open spec fn location_text(steps: Seq<StepView>) -> Seq<char>
    decreases steps.len(),
{
    if steps.len() == 0 {
        Seq::empty()
    } else {
        let before = location_text(steps.drop_last());
        match steps.last() {
            StepView::Key(key) => if steps.len() == 1 {
                key
            } else {
                before + "."@ + key
            },
            StepView::Element => before + "[]"@,
        }
    }
}

fn resolve_from(steps: &[LocationStep], from: usize, value: &Json) -> (r: Vec<String>)
    requires
        from <= steps@.len(),
    ensures
        text::texts(r@) == texts_at(steps_view(steps@).skip(from as int), value@),
    decreases steps@.len() - from,
{
    let ghost rest = steps_view(steps@).skip(from as int);
    if from == steps.len() {
        let mut out: Vec<String> = Vec::new();
        if let Json::Text(s) = value {
            out.push(s.clone());
            proof {
                assert(text::texts(out@) =~= seq![s@]);
            }
        } else {
            proof {
                assert(text::texts(out@) =~= Seq::<Seq<char>>::empty());
            }
        }
        return out;
    }
    proof {
        assert(rest[0] == steps@[from as int]@);
        assert(rest.drop_first() =~= steps_view(steps@).skip(from + 1));
    }
    let nothing: Vec<String> = Vec::new();
    proof {
        assert(text::texts(nothing@) =~= Seq::<Seq<char>>::empty());
    }
    match &steps[from] {
        LocationStep::Key(key) => match json::get(value, key.as_str()) {
            Some(e) => resolve_from(steps, from + 1, e),
            None => nothing,
        },
        LocationStep::Element => match value {
            Json::Array(items) => {
                let ghost all = json::item_views(items@);
                let ghost below = steps_view(steps@).skip(from + 1);
                let mut out: Vec<String> = Vec::new();
                let mut i: usize = 0;
                let next: usize = from + 1;
                proof {
                    assert(text::texts(out@) =~= texts_at_each(below, all.take(0)));
                }
                while i < items.len()
                    invariant
                        i <= items@.len(),
                        from < steps@.len(),
                        next == from + 1,
                        all == json::item_views(items@),
                        below == steps_view(steps@).skip(from + 1),
                        text::texts(out@) == texts_at_each(below, all.take(i as int)),
                    decreases items@.len() - i,
                {
                    let mut more = resolve_from(steps, next, &items[i]);
                    let ghost before = out@;
                    let ghost added = more@;
                    out.append(&mut more);
                    proof {
                        assert(text::texts(out@) =~= text::texts(before) + text::texts(added));
                        assert(all.take(i + 1).drop_last() =~= all.take(i as int));
                        assert(all.take(i + 1).last() == items@[i as int]@);
                    }
                    i += 1;
                }
                proof {
                    assert(all.take(all.len() as int) =~= all);
                }
                out
            },
            _ => nothing,
        },
    }
}

impl InputLocation {
    /// The texts that stand at this place of a value, in order.
    pub fn resolve(&self, value: &Json) -> (r: Vec<String>)
        ensures
            text::texts(r@) == texts_at(self@, value@),
    {
        proof {
            assert(steps_view(self.steps@).skip(0) =~= self@);
        }
        resolve_from(self.steps.as_slice(), 0, value)
    }

    /// How this place is written.
    pub fn render(&self) -> (r: String)
        ensures
            r@ == location_text(self@),
    {
        let ghost all = self@;
        let mut out = String::new();
        let mut i: usize = 0;
        proof {
            assert(out@ =~= location_text(all.take(0)));
        }
        while i < self.steps.len()
            invariant
                i <= self.steps@.len(),
                all == self@,
                out@ == location_text(all.take(i as int)),
            decreases self.steps@.len() - i,
        {
            proof {
                assert(all.take(i + 1).drop_last() =~= all.take(i as int));
                assert(all.take(i + 1).last() == self.steps@[i as int]@);
            }
            match &self.steps[i] {
                LocationStep::Key(key) => {
                    if i > 0 {
                        out.append(".");
                    }
                    let ghost before = out@;
                    out.append(key.as_str());
                    proof {
                        if i == 0 {
                            assert(out@ =~= key@);
                        }
                    }
                },
                LocationStep::Element => {
                    out.append("[]");
                },
            }
            i += 1;
        }
        proof {
            assert(all.take(all.len() as int) =~= all);
        }
        out
    }
}

/// Whether two places are the same.
pub fn same_steps(a: &[LocationStep], b: &[LocationStep]) -> (r: bool)
    ensures
        r == (steps_view(a@) == steps_view(b@)),
{
    let ghost x = steps_view(a@);
    let ghost y = steps_view(b@);
    if a.len() != b.len() {
        proof {
            assert(x.len() != y.len());
        }
        return false;
    }
    let mut i: usize = 0;
    while i < a.len()
        invariant
            i <= a@.len() == b@.len(),
            x == steps_view(a@),
            y == steps_view(b@),
            forall|j: int| 0 <= j < i ==> #[trigger] x[j] == y[j],
        decreases a@.len() - i,
    {
        let same = match (&a[i], &b[i]) {
            (LocationStep::Key(k), LocationStep::Key(l)) => text::same(k.as_str(), l.as_str()),
            (LocationStep::Element, LocationStep::Element) => true,
            _ => false,
        };
        proof {
            assert(same == (x[i as int] == y[i as int]));
        }
        if !same {
            return false;
        }
        i += 1;
    }
    proof {
        assert(x =~= y);
    }
    true
}

/// What one tool's schema declares.
#[derive(Debug, PartialEq, Eq)]
pub struct ToolAnnotations {
    /// The places declared to be filesystem destinations.
    pub destinations: Vec<InputLocation>,
    /// The containers declared opaque.
    pub opaque: Vec<InputLocation>,
}

/// What a [`ToolAnnotations`] stands for.
#[verifier::ext_equal]
pub struct AnnotationsView {
    pub destinations: Seq<Seq<StepView>>,
    pub opaque: Seq<Seq<StepView>>,
}

impl View for ToolAnnotations {
    type V = AnnotationsView;

    open spec fn view(&self) -> AnnotationsView {
        AnnotationsView {
            destinations: location_views(self.destinations@),
            opaque: location_views(self.opaque@),
        }
    }
}

/// Nothing declared.
pub open spec fn no_annotations() -> AnnotationsView {
    AnnotationsView { destinations: Seq::empty(), opaque: Seq::empty() }
}

impl ToolAnnotations {
    /// Nothing declared.
    pub fn none() -> (r: Self)
        ensures
            r@ == no_annotations(),
    {
        let r = ToolAnnotations { destinations: Vec::new(), opaque: Vec::new() };
        proof {
            assert(r@ =~= no_annotations());
        }
        r
    }

    /// Whether the container at a place was declared opaque.
    pub fn is_opaque(&self, at: &[LocationStep]) -> (r: bool)
        ensures
            r == self@.opaque.contains(steps_view(at@)),
    {
        let ghost all = self@.opaque;
        let mut i: usize = 0;
        while i < self.opaque.len()
            invariant
                i <= self.opaque@.len(),
                all == self@.opaque,
                forall|j: int| 0 <= j < i ==> #[trigger] all[j] != steps_view(at@),
            decreases self.opaque@.len() - i,
        {
            if same_steps(self.opaque[i].steps.as_slice(), at) {
                proof {
                    assert(all[i as int] == steps_view(at@));
                }
                return true;
            }
            i += 1;
        }
        false
    }
}

/// The declarations of each tool, by its name.
#[derive(Debug, PartialEq, Eq)]
pub struct ToolAnnotationMap {
    pub tools: Vec<(String, ToolAnnotations)>,
}

/// What the entries of a [`ToolAnnotationMap`] stand for.
pub open spec fn tool_views(v: Seq<(String, ToolAnnotations)>) -> Seq<(Seq<char>, AnnotationsView)> {
    v.map_values(|t: (String, ToolAnnotations)| (t.0@, t.1@))
}

impl View for ToolAnnotationMap {
    type V = Seq<(Seq<char>, AnnotationsView)>;

    open spec fn view(&self) -> Seq<(Seq<char>, AnnotationsView)> {
        tool_views(self.tools@)
    }
}

/// What a tool declared; nothing for a tool that is not listed.
pub open spec fn declared_by(
    tools: Seq<(Seq<char>, AnnotationsView)>,
    name: Seq<char>,
) -> AnnotationsView
    decreases tools.len(),
{
    if tools.len() == 0 {
        no_annotations()
    } else if tools[0].0 == name {
        tools[0].1
    } else {
        declared_by(tools.drop_first(), name)
    }
}

impl ToolAnnotationMap {
    /// A map without any tool.
    pub fn new() -> (r: Self)
        ensures
            r@ == Seq::<(Seq<char>, AnnotationsView)>::empty(),
    {
        let r = ToolAnnotationMap { tools: Vec::new() };
        proof {
            assert(r@ =~= Seq::<(Seq<char>, AnnotationsView)>::empty());
        }
        r
    }

    /// Where a tool's declarations stand, when it has any.
    pub fn position(&self, name: &str) -> (r: Option<usize>)
        ensures
            match r {
                Some(i) => i < self.tools@.len() && self.tools@[i as int].1@ == declared_by(
                    self@,
                    name@,
                ),
                None => declared_by(self@, name@) == no_annotations(),
            },
            r is Some ==> self.tools@[r->0 as int].0@ == name@ && forall|j: int|
                0 <= j < r->0 ==> (#[trigger] self.tools@[j]).0@ != name@,
            r is None ==> forall|j: int|
                0 <= j < self.tools@.len() ==> (#[trigger] self.tools@[j]).0@ != name@,
    {
        let ghost all = self@;
        let mut i: usize = 0;
        proof {
            assert(all.skip(0) =~= all);
        }
        while i < self.tools.len()
            invariant
                i <= self.tools@.len(),
                all == self@,
                declared_by(all.skip(i as int), name@) == declared_by(all, name@),
                forall|j: int| 0 <= j < i ==> (#[trigger] self.tools@[j]).0@ != name@,
            decreases self.tools@.len() - i,
        {
            proof {
                assert(all.skip(i as int)[0] == all[i as int]);
                assert(all.skip(i as int).drop_first() =~= all.skip(i + 1));
            }
            if text::same(self.tools[i].0.as_str(), name) {
                return Some(i);
            }
            i += 1;
        }
        None
    }
}

/// What stands at a place: a text at the root, what stands under a key, and what stands in each
/// element of an array, in order and nowhere left out.
pub proof fn a_place_is_found_step_by_step(
    s: Seq<char>,
    steps: Seq<StepView>,
    key: Seq<char>,
    v: JsonView,
    items: Seq<JsonView>,
    more: Seq<JsonView>,
)
    ensures
        texts_at(Seq::empty(), JsonView::Text(s)) == seq![s],
        json::entry(v, key) is Some ==> texts_at(seq![StepView::Key(key)] + steps, v) == texts_at(
            steps,
            json::entry(v, key)->0,
        ),
        json::entry(v, key) is None ==> texts_at(seq![StepView::Key(key)] + steps, v).len() == 0,
        texts_at(seq![StepView::Element] + steps, JsonView::Array(items + more)) == texts_at(
            seq![StepView::Element] + steps,
            JsonView::Array(items),
        ) + texts_at(seq![StepView::Element] + steps, JsonView::Array(more)),
        texts_at(seq![StepView::Element] + steps, JsonView::Array(seq![v])) == texts_at(steps, v),
{
    let keyed = seq![StepView::Key(key)] + steps;
    assert(keyed.drop_first() =~= steps);
    assert(keyed[0] == StepView::Key(key));
    let each = seq![StepView::Element] + steps;
    assert(each.drop_first() =~= steps);
    assert(each[0] == StepView::Element);
    lemma_each_adds_up(steps, items, more);
    let none = Seq::<JsonView>::empty();
    assert(seq![v].drop_last() =~= none);
    assert(texts_at_each(steps, none) =~= Seq::empty());
    assert(texts_at_each(steps, seq![v]) =~= texts_at(steps, v));
}

proof fn lemma_each_adds_up(steps: Seq<StepView>, items: Seq<JsonView>, more: Seq<JsonView>)
    ensures
        texts_at_each(steps, items + more) == texts_at_each(steps, items) + texts_at_each(
            steps,
            more,
        ),
    decreases more.len(),
{
    if more.len() == 0 {
        assert(items + more =~= items);
        assert(texts_at_each(steps, items) + texts_at_each(steps, more) =~= texts_at_each(
            steps,
            items,
        ));
    } else {
        lemma_each_adds_up(steps, items, more.drop_last());
        assert((items + more).drop_last() =~= items + more.drop_last());
        assert((items + more).last() == more.last());
        assert(texts_at_each(steps, items + more) =~= texts_at_each(steps, items) + texts_at_each(
            steps,
            more,
        ));
    }
}

/// How a place is written: a key behind a dot, unless it is the first step, and brackets for the
/// elements of an array.
pub proof fn a_place_is_written_step_by_step(steps: Seq<StepView>, key: Seq<char>)
    ensures
        location_text(seq![StepView::Key(key)]) == key,
        steps.len() > 0 ==> location_text(steps.push(StepView::Key(key))) == location_text(steps)
            + "."@ + key,
        location_text(steps.push(StepView::Element)) == location_text(steps) + "[]"@,
{
    assert(steps.push(StepView::Key(key)).drop_last() =~= steps);
    assert(steps.push(StepView::Element).drop_last() =~= steps);
}

/// The first declarations of a tool count, and a tool without any has declared nothing.
pub proof fn the_first_declarations_count(
    tools: Seq<(Seq<char>, AnnotationsView)>,
    i: int,
    name: Seq<char>,
)
    ensures
        0 <= i < tools.len() && tools[i].0 == name && (forall|j: int|
            0 <= j < i ==> (#[trigger] tools[j]).0 != name) ==> declared_by(tools, name)
            == tools[i].1,
        (forall|j: int| 0 <= j < tools.len() ==> (#[trigger] tools[j]).0 != name) ==> declared_by(
            tools,
            name,
        ) == no_annotations(),
    decreases tools.len(),
{
    if tools.len() > 0 {
        let rest = tools.drop_first();
        the_first_declarations_count(rest, i - 1, name);
        assert(forall|j: int| 0 <= j < rest.len() ==> rest[j] == tools[j + 1]);
        if 0 < i < tools.len() && tools[i].0 == name && (forall|j: int|
            0 <= j < i ==> (#[trigger] tools[j]).0 != name) {
            assert(tools[0].0 != name);
            assert(rest[i - 1] == tools[i]);
        }
        if forall|j: int| 0 <= j < tools.len() ==> (#[trigger] tools[j]).0 != name {
            assert(tools[0].0 != name);
        }
    }
}

} // verus!
